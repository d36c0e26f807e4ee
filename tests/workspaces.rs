use workspaces::catalog::{Catalog, DirRow, WorkspaceRow};
use workspaces::command_handlers::{
    add_dir_to_workspace, add_workspace, delete_workspace, list_workspaces, open_workspace,
    remove_dir_from_workspace, set_init_script, update_editor,
};
use workspaces::errors::Error;
use workspaces::utils::default_workspace_name;
use workspaces::workspace::{Dir, EditorConfig, Workspace};

fn create_sample_workspace() -> Workspace {
    let mut w = Workspace::new(String::from("Sample"));
    w.add_dir(Dir::new("Marcus".to_string()));
    w.add_dir(Dir::new("Temple".to_string()));
    w
}

fn paths(w: &Workspace) -> Vec<String> {
    w.dirs().iter().map(|d| d.path.clone()).collect()
}

#[test]
fn add_directory() {
    let w = create_sample_workspace();
    assert_eq!(w.dirs().len(), 2);
}

#[test]
fn remove_dir() {
    let mut w = create_sample_workspace();
    assert!(w.remove_dir("Temple"));
    assert_eq!(w.dirs().len(), 1);
    assert_eq!(paths(&w), vec!["Marcus".to_string()]);
}

#[test]
fn remove_non_existant_dir() {
    let mut w = create_sample_workspace();
    assert!(!w.remove_dir("Workspace"));
    assert_eq!(w.dirs().len(), 2);
}

#[test]
fn test_get_editor() {
    let c = Catalog::new();
    assert_eq!(c.get_editor(), "code");
}

#[test]
fn insert_a_workspace() {
    let mut c = Catalog::new();
    let id = c.insert_new_workspace(Workspace::new(String::from("test1")));
    assert_eq!(id, Ok(1));
}

#[test]
fn should_find_workspace_by_name() {
    let mut c = Catalog::new();
    let _ = c.insert_new_workspace(Workspace::new(String::from("test1")));
    assert!(c.fetch_workspace_with_dirs_by_name("OpenAlexa").is_none());
    let found = c.fetch_workspace_with_dirs_by_name("test1").unwrap();
    assert_eq!(found.get_id(), 1);
    assert_eq!(found.dirs().len(), 0);
}

#[test]
fn test_list_workspaces() {
    let c = Catalog::new();
    assert!(list_workspaces(&c).is_empty());
}

#[test]
fn test_open_workspace() {
    let name = "workspaces";
    let mut c = Catalog::new();
    add_workspace(&mut c, Some(String::from(name)), String::from("/tmp/workspaces")).unwrap();
    let res = open_workspace(&c, String::from(name), String::from("bash"));
    assert!(res.is_ok());
}

#[test]
fn default_name_is_last_segment() {
    assert_eq!(default_workspace_name("/home/u/projects/foo"), "foo");
    assert_eq!(default_workspace_name("foo"), "foo");
    assert_eq!(default_workspace_name("/"), "");
    assert_eq!(default_workspace_name(""), "");
}

#[test]
fn add_without_name_uses_directory_name() {
    let mut c = Catalog::new();
    let id = add_workspace(&mut c, None, String::from("/home/u/projects/foo"));
    assert_eq!(id, Ok(1));
    let w = c.fetch_workspace_with_dirs_by_name("foo").unwrap();
    assert_eq!(w.name, "foo");
    assert_eq!(paths(&w), vec!["/home/u/projects/foo".to_string()]);
}

#[test]
fn duplicate_paths_are_rejected() {
    let mut c = Catalog::new();
    let p = ["/a", "/b", "/a", "/c", "/b"];
    let mut results = Vec::new();
    for path in p.iter() {
        results.push(add_workspace(&mut c, Some(String::from("w")), String::from(*path)));
    }
    assert_eq!(results, vec![Ok(1), Ok(1), Err(Error::AlreadyExists), Ok(1), Err(Error::AlreadyExists)]);
    let w = c.fetch_workspace_with_dirs_by_name("w").unwrap();
    assert_eq!(w.dirs().len(), 3);
}

#[test]
fn same_name_twice_makes_one_workspace() {
    let mut c = Catalog::new();
    assert_eq!(add_workspace(&mut c, Some(String::from("X")), String::from("/one")), Ok(1));
    assert_eq!(add_workspace(&mut c, Some(String::from("X")), String::from("/two")), Ok(1));
    assert_eq!(c.fetch_all_workspaces().len(), 1);
    let w = c.fetch_workspace_with_dirs_by_name("X").unwrap();
    assert_eq!(paths(&w), vec!["/one".to_string(), "/two".to_string()]);
}

#[test]
fn delete_cascades_to_dirs() {
    let mut c = Catalog::new();
    add_workspace(&mut c, Some(String::from("a")), String::from("/a1")).unwrap();
    add_workspace(&mut c, Some(String::from("b")), String::from("/b1")).unwrap();
    add_dir_to_workspace(&mut c, String::from("a"), String::from("/a2")).unwrap();
    assert_eq!(delete_workspace(&mut c, String::from("a")), Ok(()));
    assert!(c.fetch_workspace_with_dirs_by_name("a").is_none());
    assert!(c.get_dirs_for_workspace(1).is_empty());
    assert_eq!(c.dir_rows().len(), 1);
    assert_eq!(c.dir_rows()[0].dir.path, "/b1");
    assert_eq!(delete_workspace(&mut c, String::from("missing")), Ok(()));
    assert_eq!(c.fetch_all_workspaces().len(), 1);
}

#[test]
fn list_shows_only_workspaces_with_dirs() {
    let mut c = Catalog::new();
    add_workspace(&mut c, Some(String::from("a")), String::from("/a1")).unwrap();
    c.insert_new_workspace(Workspace::new(String::from("empty"))).unwrap();
    add_workspace(&mut c, Some(String::from("b")), String::from("/b1")).unwrap();
    add_dir_to_workspace(&mut c, String::from("b"), String::from("/b2")).unwrap();
    let listed = list_workspaces(&c);
    let names: Vec<String> = listed.iter().map(|w| w.name.clone()).collect();
    assert_eq!(names, vec!["a".to_string(), "b".to_string()]);
    assert_eq!(listed[1].dirs().len(), 2);
    assert_eq!(c.fetch_all_workspaces_with_dirs().len(), 3);
}

#[test]
fn end_to_end_add_dir_list() {
    let mut c = Catalog::new();
    add_workspace(&mut c, Some(String::from("demo")), String::from("/tmp/proj")).unwrap();
    add_dir_to_workspace(&mut c, String::from("demo"), String::from("/tmp/proj2")).unwrap();
    let listed = list_workspaces(&c);
    assert_eq!(listed.len(), 1);
    assert_eq!(listed[0].name, "demo");
    assert_eq!(paths(&listed[0]), vec!["/tmp/proj".to_string(), "/tmp/proj2".to_string()]);
}

#[test]
fn add_dir_errors() {
    let mut c = Catalog::new();
    assert_eq!(add_dir_to_workspace(&mut c, String::from("nope"), String::from("/x")), Err(Error::NotFound));
    add_workspace(&mut c, Some(String::from("w")), String::from("/x")).unwrap();
    assert_eq!(add_dir_to_workspace(&mut c, String::from("w"), String::from("/x")), Err(Error::AlreadyExists));
    assert_eq!(c.dir_rows().len(), 1);
}

#[test]
fn insert_errors() {
    let mut c = Catalog::new();
    c.insert_new_workspace(Workspace::new(String::from("w"))).unwrap();
    assert_eq!(c.insert_new_workspace(Workspace::new(String::from("w"))), Err(Error::ConstraintViolation));
    assert_eq!(c.insert_new_dir_for_workspace(7, String::from("/p")), Err(Error::StorageError));
    assert_eq!(c.insert_new_dir_for_workspace(1, String::from("/p")), Ok(1));
    assert_eq!(c.get_dirs_for_workspace(1), vec![(1, String::from("/p"))]);
}

#[test]
fn exhausted_ids_give_storage_error() {
    let full = Catalog::from_rows(Vec::new(), Vec::new(), i32::MAX, 1, String::from("code"));
    let mut c = full.unwrap();
    assert_eq!(add_workspace(&mut c, Some(String::from("w")), String::from("/p")), Err(Error::StorageError));
    assert!(c.workspace_rows().is_empty());
    let rows = vec![WorkspaceRow { id: 1, name: String::from("w") }];
    let mut d = Catalog::from_rows(rows, Vec::new(), 2, i32::MAX, String::from("code")).unwrap();
    assert_eq!(add_workspace(&mut d, Some(String::from("w")), String::from("/p")), Err(Error::StorageError));
    assert_eq!(add_workspace(&mut d, Some(String::from("v")), String::from("/p")), Err(Error::StorageError));
    assert_eq!(d.workspace_rows().len(), 1);
}

#[test]
fn remove_dir_by_choice() {
    let mut c = Catalog::new();
    add_workspace(&mut c, Some(String::from("w")), String::from("/a")).unwrap();
    add_dir_to_workspace(&mut c, String::from("w"), String::from("/b")).unwrap();
    assert_eq!(remove_dir_from_workspace(&mut c, String::from("w"), None), Ok(()));
    assert_eq!(c.dir_rows().len(), 2);
    assert_eq!(remove_dir_from_workspace(&mut c, String::from("w"), Some(5)), Err(Error::NotFound));
    assert_eq!(remove_dir_from_workspace(&mut c, String::from("nope"), Some(0)), Err(Error::NotFound));
    assert_eq!(remove_dir_from_workspace(&mut c, String::from("w"), Some(0)), Ok(()));
    let w = c.fetch_workspace_with_dirs_by_name("w").unwrap();
    assert_eq!(paths(&w), vec!["/b".to_string()]);
    assert_eq!(c.remove_dir_from_workspace(1), Err(Error::NotFound));
    assert_eq!(c.remove_dir_from_workspace(2), Ok(()));
    assert!(c.dir_rows().is_empty());
}

#[test]
fn open_builds_one_launch_per_dir() {
    let mut c = Catalog::new();
    assert_eq!(open_workspace(&c, String::from("w"), String::from("bash")).unwrap_err(), Error::NotFound);
    add_workspace(&mut c, Some(String::from("w")), String::from("/a")).unwrap();
    add_dir_to_workspace(&mut c, String::from("w"), String::from("/b")).unwrap();
    update_editor(&mut c, String::from("vim")).unwrap();
    let launches = open_workspace(&c, String::from("w"), String::from("bash")).unwrap();
    assert_eq!(launches.len(), 2);
    assert_eq!(launches[0].shell, "bash");
    assert_eq!(launches[0].editor, "vim");
    assert_eq!(launches[0].path, "/a");
    assert_eq!(launches[1].path, "/b");
    let w = c.fetch_workspace_with_dirs_by_name("w").unwrap();
    let config = EditorConfig { shell: String::from("pwsh"), command: String::from("code") };
    let direct = workspaces::workspace::open_workspace(&w, &config);
    assert_eq!(direct[1].shell, "pwsh");
    assert_eq!(direct[1].editor, "code");
}

#[test]
fn set_init_script_leaves_store() {
    let mut c = Catalog::new();
    add_workspace(&mut c, Some(String::from("w")), String::from("/a")).unwrap();
    assert_eq!(set_init_script(&c, String::from("w"), String::from("/a"), Some(String::from("make"))), Ok(()));
    assert!(c.dir_rows()[0].dir.init.is_none());
}

#[test]
fn workspace_id_is_set_once() {
    let mut w = Workspace::new(String::from("w"));
    assert_eq!(w.get_id(), 0);
    assert!(w.set_id(4));
    assert!(!w.set_id(9));
    assert_eq!(w.get_id(), 4);
    let w = w.id(11);
    assert_eq!(w.get_id(), 11);
}

#[test]
fn dir_builders() {
    let mut d = Dir::new(String::from("/p")).id(3);
    assert_eq!(d.id, 3);
    assert!(d.init.is_none());
    d.init(String::from("make"));
    assert_eq!(d.init.as_deref(), Some("make"));
    let e = d.copy();
    assert_eq!(e.path, "/p");
    assert_eq!(e.id, 3);
}

#[test]
fn check_dir_position() {
    let mut w = create_sample_workspace();
    w.add_dir(Dir::new("Temple".to_string()));
    assert_eq!(w.check_dir_already_exists("Temple"), Some(1));
    assert_eq!(w.check_dir_already_exists("Nope"), None);
    assert!(w.remove_dir("Temple"));
    assert_eq!(paths(&w), vec!["Marcus".to_string(), "Temple".to_string()]);
}

#[test]
fn from_rows_checks_invariant() {
    let ws = || vec![WorkspaceRow { id: 1, name: String::from("a") }, WorkspaceRow { id: 3, name: String::from("b") }];
    let dir = |id: i32, wid: i32| DirRow { workspace_id: wid, dir: Dir::new(String::from("/p")).id(id) };
    assert!(Catalog::from_rows(ws(), vec![dir(1, 1), dir(2, 3)], 4, 3, String::from("code")).is_some());
    assert!(Catalog::from_rows(ws(), vec![dir(2, 1), dir(1, 3)], 4, 3, String::from("code")).is_none());
    assert!(Catalog::from_rows(ws(), vec![dir(1, 5)], 4, 3, String::from("code")).is_none());
    assert!(Catalog::from_rows(ws(), Vec::new(), 3, 1, String::from("code")).is_none());
    let dup = vec![WorkspaceRow { id: 1, name: String::from("a") }, WorkspaceRow { id: 2, name: String::from("a") }];
    assert!(Catalog::from_rows(dup, Vec::new(), 3, 1, String::from("code")).is_none());
    let c = Catalog::from_rows(ws(), Vec::new(), 4, 9, String::from("nano")).unwrap();
    assert_eq!(c.next_workspace_id(), 4);
    assert_eq!(c.next_dir_id(), 9);
    assert_eq!(c.get_editor(), "nano");
}

#[test]
fn add_then_remove_restores_count() {
    let mut w = create_sample_workspace();
    let before = w.dirs().len();
    w.add_dir(Dir::new("Extra".to_string()));
    assert_eq!(w.dirs().len(), before + 1);
    assert!(w.remove_dir("Extra"));
    assert_eq!(w.dirs().len(), before);
    w.add_dir(Dir::new("Marcus".to_string()));
    assert!(w.remove_dir("Marcus"));
    assert_eq!(w.dirs().len(), before);
    assert_eq!(paths(&w), vec!["Temple".to_string(), "Marcus".to_string()]);
}

#[test]
fn dir_iter_walks_in_order() {
    let w = create_sample_workspace();
    let seen: Vec<&str> = w.dir_iter().map(|d| d.path.as_str()).collect();
    assert_eq!(seen, vec!["Marcus", "Temple"]);
}
