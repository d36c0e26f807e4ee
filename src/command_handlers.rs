use vstd::prelude::*;

use crate::catalog::{
    dirs_of, has_dir_id, has_name, has_workspace_id, lookup, materialize, owned_by, paths_of,
    row_dir, with_dir, with_workspace, without_dir, without_workspace, wf, Catalog, CatalogView,
    WorkspaceRow,
};
use crate::catalog::DirRow;
use crate::errors::Error;
use crate::utils::{default_workspace_name, last_segment};
use crate::workspace::{
    dir_path, launch_of, lemma_find_path_contains, Dir, open_workspace as launches_for, EditorConfig,
    LaunchRequest, Workspace,
};

verus! {

/// The name a new workspace gets: the one given, else the last segment of its path.
pub open spec fn workspace_name(w_name: Option<String>, canonical: Seq<char>) -> Seq<char> {
    match w_name {
        Some(n) => n@,
        None => last_segment(canonical),
    }
}

/// Adding directory `path` to workspace `wid`: nothing changes when the workspace
/// already has that path or when no directory id is left.
pub open spec fn add_dir_step(v: CatalogView, wid: i32, path: String) -> CatalogView {
    if paths_of(v, wid).contains(path@) || v.next_dir_id == i32::MAX {
        v
    } else {
        with_dir(v, wid, path)
    }
}

/// What adding directory `path` to workspace `wid` returns.
pub open spec fn add_dir_result(v: CatalogView, wid: i32, path: Seq<char>) -> Result<(), Error> {
    if paths_of(v, wid).contains(path) {
        Err(Error::AlreadyExists)
    } else if v.next_dir_id == i32::MAX {
        Err(Error::StorageError)
    } else {
        Ok(())
    }
}

/// Workspace `name` was created under the next workspace id, with `path` as its only directory.
pub open spec fn created_with_dir(
    old: CatalogView,
    new: CatalogView,
    name: Seq<char>,
    path: String,
) -> bool {
    &&& new.workspaces.len() > 0
    &&& new.workspaces.last().name@ == name
    &&& new == with_dir(
        with_workspace(old, new.workspaces.last().name),
        old.next_workspace_id,
        path,
    )
}

/// Workspace rows that own at least one directory in `v`.
pub open spec fn has_dirs(v: CatalogView) -> spec_fn(WorkspaceRow) -> bool {
    |w: WorkspaceRow| dirs_of(v, w.id).len() > 0
}

/// The workspaces that `list` shows: those with at least one directory, in table order.
pub open spec fn listed(v: CatalogView) -> Seq<WorkspaceRow> {
    v.workspaces.filter(has_dirs(v))
}

proof fn lemma_lookup_has_id(v: CatalogView, name: Seq<char>)
    requires
        lookup(v, name) is Some,
    ensures
        has_workspace_id(v, lookup(v, name)->0.id),
{
    let c = choose|i: int| has_name(v, name, i);
    assert(v.workspaces[c].id == lookup(v, name)->0.id);
}

/// What adding directory `canonical` under `w_name` does to the store and returns.
pub open spec fn add_workspace_outcome(
    old: CatalogView,
    new: CatalogView,
    w_name: Option<String>,
    canonical: String,
    r: Result<usize, Error>,
) -> bool {
    &&& wf(new)
    &&& match lookup(old, workspace_name(w_name, canonical@)) {
            Some(row) => {
                &&& new == add_dir_step(old, row.id, canonical)
                &&& r == match add_dir_result(old, row.id, canonical@) {
                    Ok(_) => Ok::<usize, Error>(row.id as usize),
                    Err(e) => Err(e),
                }
            },
            None => if old.next_workspace_id == i32::MAX || old.next_dir_id
                == i32::MAX {
                r == Err::<usize, Error>(Error::StorageError) && new == old
            } else {
                r == Ok::<usize, Error>(old.next_workspace_id as usize)
                    && created_with_dir(
                    old,
                    new,
                    workspace_name(w_name, canonical@),
                    canonical,
                )
            },
        }
}

/// Adds directory `canonical` to workspace `w_name`, or to a new workspace named after the
/// directory when no name is given; creates the workspace when it does not exist. Returns
/// the id of the workspace.
pub fn add_workspace(catalog: &mut Catalog, w_name: Option<String>, canonical: String) -> (r: Result<
    usize,
    Error,
>)
    requires
        wf(old(catalog)@),
    ensures
        add_workspace_outcome(old(catalog)@, final(catalog)@, w_name, canonical, r),
{
    let ghost old_v = catalog@;
    let name: String = match w_name {
        Some(n) => n,
        None => default_workspace_name(canonical.as_str()),
    };
    match catalog.fetch_workspace_with_dirs_by_name(name.as_str()) {
        Some(ws) => {
            proof {
                lemma_find_path_contains(ws@.dirs, canonical@);
                lemma_lookup_has_id(old_v, name@);
            }
            if ws.check_dir_already_exists(canonical.as_str()).is_some() {
                return Err(Error::AlreadyExists);
            }
            let id = ws.get_id();
            match catalog.insert_new_dir_for_workspace(id, canonical) {
                Ok(_) => Ok(id as usize),
                Err(e) => Err(e),
            }
        },
        None => {
            if catalog.next_dir_id() == i32::MAX {
                return Err(Error::StorageError);
            }
            let id = match catalog.insert_new_workspace(Workspace::new(name)) {
                Ok(id) => id,
                Err(e) => {
                    return Err(e);
                },
            };
            let ghost mid = catalog@;
            proof {
                assert(mid.workspaces[mid.workspaces.len() - 1].id == id as i32);
            }
            match catalog.insert_new_dir_for_workspace(id as i32, canonical) {
                Ok(_) => Ok(id),
                Err(e) => Err(e),
            }
        },
    }
}

/// Adds directory `canonical` to the existing workspace `w_name`.
pub fn add_dir_to_workspace(catalog: &mut Catalog, w_name: String, canonical: String) -> (r: Result<
    (),
    Error,
>)
    requires
        wf(old(catalog)@),
    ensures
        wf(final(catalog)@),
        match lookup(old(catalog)@, w_name@) {
            None => r == Err::<(), Error>(Error::NotFound) && final(catalog)@ == old(catalog)@,
            Some(row) => final(catalog)@ == add_dir_step(old(catalog)@, row.id, canonical) && r
                == add_dir_result(old(catalog)@, row.id, canonical@),
        },
{
    let ghost old_v = catalog@;
    match catalog.fetch_workspace_with_dirs_by_name(w_name.as_str()) {
        None => Err(Error::NotFound),
        Some(ws) => {
            proof {
                lemma_find_path_contains(ws@.dirs, canonical@);
                lemma_lookup_has_id(old_v, w_name@);
            }
            if ws.check_dir_already_exists(canonical.as_str()).is_some() {
                return Err(Error::AlreadyExists);
            }
            match catalog.insert_new_dir_for_workspace(ws.get_id(), canonical) {
                Ok(_) => Ok(()),
                Err(e) => Err(e),
            }
        },
    }
}

/// Removes the directory at position `choice` among those of workspace `w_name`;
/// `None` (nothing chosen) changes nothing.
pub fn remove_dir_from_workspace(
    catalog: &mut Catalog,
    w_name: String,
    choice: Option<usize>,
) -> (r: Result<(), Error>)
    requires
        wf(old(catalog)@),
    ensures
        wf(final(catalog)@),
        match lookup(old(catalog)@, w_name@) {
            None => r == Err::<(), Error>(Error::NotFound) && final(catalog)@ == old(catalog)@,
            Some(row) => match choice {
                None => r is Ok && final(catalog)@ == old(catalog)@,
                Some(i) => if i < dirs_of(old(catalog)@, row.id).len() {
                    r is Ok && final(catalog)@ == without_dir(
                        old(catalog)@,
                        dirs_of(old(catalog)@, row.id)[i as int].id,
                    )
                } else {
                    r == Err::<(), Error>(Error::NotFound) && final(catalog)@ == old(catalog)@
                },
            },
        },
{
    let ghost old_v = catalog@;
    match catalog.fetch_workspace_with_dirs_by_name(w_name.as_str()) {
        None => Err(Error::NotFound),
        Some(ws) => match choice {
            None => Ok(()),
            Some(i) => {
                if i >= ws.dirs().len() {
                    return Err(Error::NotFound);
                }
                let dir_id = ws.dirs()[i].id;
                proof {
                    let wid = lookup(old_v, w_name@)->0.id;
                    let f = old_v.dirs.filter(owned_by(wid));
                    assert(f.contains(f[i as int]));
                    old_v.dirs.lemma_filter_contains_rev(owned_by(wid), f[i as int]);
                    let j = choose|j: int| 0 <= j < old_v.dirs.len() && old_v.dirs[j] == f[i as int];
                    assert(has_dir_id(old_v, dir_id, j));
                }
                catalog.remove_dir_from_workspace(dir_id)
            },
        },
    }
}

/// Deletes workspace `w_name` and its directories.
pub fn delete_workspace(catalog: &mut Catalog, w_name: String) -> (r: Result<(), Error>)
    requires
        wf(old(catalog)@),
    ensures
        wf(final(catalog)@),
        r is Ok,
        final(catalog)@ == without_workspace(old(catalog)@, w_name@),
{
    catalog.delete_workspace(w_name)
}

/// Sets the editor command that workspaces are opened with.
pub fn update_editor(catalog: &mut Catalog, name: String) -> (r: Result<(), Error>)
    requires
        wf(old(catalog)@),
    ensures
        wf(final(catalog)@),
        r is Ok,
        final(catalog)@ == (CatalogView { editor: name, ..old(catalog)@ }),
{
    catalog.update_editor(name);
    Ok(())
}

/// Init scripts are not stored yet: the call leaves the store as it is and succeeds.
pub fn set_init_script(catalog: &Catalog, w_name: String, dir: String, init: Option<String>) -> (r:
    Result<(), Error>)
    requires
        wf(catalog@),
    ensures
        r is Ok,
{
    let _ws = catalog.fetch_workspace_with_dirs_by_name(w_name.as_str());
    Ok(())
}

/// The editor launches that open workspace `name`: one per directory, in order, each
/// running `shell` with the stored editor command.
pub fn open_workspace(catalog: &Catalog, name: String, shell: String) -> (r: Result<
    Vec<LaunchRequest>,
    Error,
>)
    requires
        wf(catalog@),
    ensures
        match lookup(catalog@, name@) {
            None => r == Err::<Vec<LaunchRequest>, Error>(Error::NotFound),
            Some(row) => match r {
                Ok(v) => v@.len() == dirs_of(catalog@, row.id).len() && forall|i: int|
                    0 <= i < v@.len() ==> v@[i] == launch_of(
                        EditorConfig { shell, command: catalog@.editor },
                        #[trigger] dirs_of(catalog@, row.id)[i],
                    ),
                Err(_) => false,
            },
        },
{
    match catalog.fetch_workspace_with_dirs_by_name(name.as_str()) {
        None => Err(Error::NotFound),
        Some(ws) => {
            let config = EditorConfig { shell, command: catalog.get_editor().clone() };
            Ok(launches_for(&ws, &config))
        },
    }
}

/// The workspaces that have at least one directory, with their directories, in table order.
pub fn list_workspaces(catalog: &Catalog) -> (r: Vec<Workspace>)
    requires
        wf(catalog@),
    ensures
        r@.len() == listed(catalog@).len(),
        forall|i: int|
            0 <= i < r@.len() ==> (#[trigger] r@[i])@ == materialize(catalog@, listed(catalog@)[i]),
{
    let ghost v = catalog@;
    let mut out: Vec<Workspace> = Vec::new();
    let mut i: usize = 0;
    while i < catalog.workspace_rows().len()
        invariant
            v == catalog@,
            0 <= i <= v.workspaces.len(),
            out@.len() == v.workspaces.subrange(0, i as int).filter(has_dirs(v)).len(),
            forall|j: int|
                0 <= j < out@.len() ==> (#[trigger] out@[j])@ == materialize(
                    v,
                    v.workspaces.subrange(0, i as int).filter(has_dirs(v))[j],
                ),
        decreases v.workspaces.len() - i,
    {
        let ghost before = v.workspaces.subrange(0, i as int);
        proof {
            assert(v.workspaces.subrange(0, i as int + 1) =~= before.push(v.workspaces[i as int]));
            before.lemma_filter_push(v.workspaces[i as int], has_dirs(v));
        }
        let ws = catalog.fetch_workspace_at(i);
        if ws.dirs().len() > 0 {
            out.push(ws);
        }
        i = i + 1;
    }
    proof {
        assert(v.workspaces.subrange(0, i as int) =~= v.workspaces);
    }
    out
}


/// Inserting a directory and then deleting it by the id it received leaves every
/// workspace's directories as they were; deleting an id that no directory has changes nothing.
pub proof fn lemma_insert_then_remove_dir_restores(v: CatalogView, wid: i32, path: String, id: i32)
    requires
        wf(v),
    ensures
        without_dir(with_dir(v, wid, path), v.next_dir_id).dirs == v.dirs,
        (forall|i: int| 0 <= i < v.dirs.len() ==> v.dirs[i].dir.id != id) ==> without_dir(v, id)
            == v,
{
    let w = with_dir(v, wid, path);
    let n = v.dirs.len() as int;
    assert(has_dir_id(w, v.next_dir_id, n));
    let c = choose|c: int| has_dir_id(w, v.next_dir_id, c);
    if c < n {
        assert(w.dirs[c] == v.dirs[c]);
    }
    assert(w.dirs.remove(n) =~= v.dirs);
}

/// The store after adding each of `paths` in turn to workspace `wid`.
pub open spec fn add_all(v: CatalogView, wid: i32, paths: Seq<String>) -> CatalogView
    decreases paths.len(),
{
    if paths.len() == 0 {
        v
    } else {
        add_dir_step(add_all(v, wid, paths.drop_last()), wid, paths.last())
    }
}

/// The paths as characters.
pub open spec fn path_views(paths: Seq<String>) -> Seq<Seq<char>> {
    paths.map_values(|p: String| p@)
}

proof fn lemma_paths_of_with_dir(v: CatalogView, wid: i32, path: String)
    ensures
        paths_of(with_dir(v, wid, path), wid) == paths_of(v, wid).push(path@),
        dirs_of(with_dir(v, wid, path), wid) == dirs_of(v, wid).push(
            Dir { id: v.next_dir_id, init: None, path },
        ),
{
    let row = DirRow { workspace_id: wid, dir: Dir { id: v.next_dir_id, init: None, path } };
    v.dirs.lemma_filter_push(row, owned_by(wid));
    let f = v.dirs.filter(owned_by(wid));
    assert(f.push(row).map_values(row_dir()) =~= f.map_values(row_dir()).push(row.dir));
    assert(f.map_values(row_dir()).push(row.dir).map_values(dir_path()) =~= f.map_values(
        row_dir(),
    ).map_values(dir_path()).push(path@));
}

proof fn lemma_add_all(v: CatalogView, wid: i32, paths: Seq<String>)
    requires
        dirs_of(v, wid).len() == 0,
        v.next_dir_id + paths.len() <= i32::MAX,
    ensures
        v.next_dir_id <= add_all(v, wid, paths).next_dir_id <= v.next_dir_id + paths.len(),
        paths_of(add_all(v, wid, paths), wid).no_duplicates(),
        paths_of(add_all(v, wid, paths), wid).to_set() == path_views(paths).to_set(),
    decreases paths.len(),
{
    if paths.len() == 0 {
        assert(paths_of(v, wid) =~= Seq::<Seq<char>>::empty());
        assert(path_views(paths) =~= Seq::<Seq<char>>::empty());
    } else {
        let prefix = paths.drop_last();
        let p = paths.last();
        lemma_add_all(v, wid, prefix);
        let w = add_all(v, wid, prefix);
        assert(path_views(paths) =~= path_views(prefix).push(p@));
        path_views(prefix).lemma_push_to_set_commute(p@);
        if paths_of(w, wid).contains(p@) {
            assert(path_views(prefix).to_set().contains(p@));
            assert(path_views(paths).to_set() =~= path_views(prefix).to_set());
        } else {
            lemma_paths_of_with_dir(w, wid, p);
            paths_of(w, wid).lemma_push_to_set_commute(p@);
            let ps = paths_of(w, wid).push(p@);
            assert forall|i: int, j: int| 0 <= i < ps.len() && 0 <= j < ps.len() && i != j implies ps[i]
                != ps[j] by {
                if i < ps.len() - 1 && j < ps.len() - 1 {
                    assert(ps[i] == paths_of(w, wid)[i]);
                    assert(ps[j] == paths_of(w, wid)[j]);
                } else if i < ps.len() - 1 {
                    assert(ps[i] == paths_of(w, wid)[i]);
                } else {
                    assert(ps[j] == paths_of(w, wid)[j]);
                }
            }
        }
    }
}

/// Adding paths one after another to a workspace without directories leaves it with as
/// many directories as there are distinct paths among them: a repeated path adds nothing.
pub proof fn lemma_dir_count_is_distinct_paths(v: CatalogView, wid: i32, paths: Seq<String>)
    requires
        dirs_of(v, wid).len() == 0,
        v.next_dir_id + paths.len() <= i32::MAX,
    ensures
        dirs_of(add_all(v, wid, paths), wid).len() == path_views(paths).to_set().len(),
{
    lemma_add_all(v, wid, paths);
    paths_of(add_all(v, wid, paths), wid).unique_seq_to_set();
}

proof fn lemma_new_id_owns_nothing(v: CatalogView)
    requires
        wf(v),
    ensures
        dirs_of(v, v.next_workspace_id).len() == 0,
{
    let f = v.dirs.filter(owned_by(v.next_workspace_id));
    if f.len() > 0 {
        v.dirs.lemma_filter_pred(owned_by(v.next_workspace_id), 0);
        assert(f.contains(f[0]));
        v.dirs.lemma_filter_contains_rev(owned_by(v.next_workspace_id), f[0]);
    }
}

proof fn lemma_lookup_last(v: CatalogView, name: Seq<char>)
    requires
        wf(v),
        v.workspaces.len() > 0,
        v.workspaces.last().name@ == name,
    ensures
        lookup(v, name) == Some(v.workspaces.last()),
{
    let n = v.workspaces.len() - 1;
    assert(has_name(v, name, n));
    let c = choose|c: int| has_name(v, name, c);
    assert(v.workspaces[c].name@ == v.workspaces[n].name@);
}

/// Adding two different paths under the same new name makes one workspace with both
/// directories, in that order, not two workspaces.
pub proof fn lemma_same_name_twice_is_one_workspace(
    v0: CatalogView,
    v1: CatalogView,
    v2: CatalogView,
    name: String,
    p1: String,
    p2: String,
    r1: Result<usize, Error>,
    r2: Result<usize, Error>,
)
    requires
        wf(v0),
        lookup(v0, name@) is None,
        v0.next_workspace_id < i32::MAX,
        v0.next_dir_id + 1 < i32::MAX,
        p1@ != p2@,
        add_workspace_outcome(v0, v1, Some(name), p1, r1),
        add_workspace_outcome(v1, v2, Some(name), p2, r2),
    ensures
        r1 is Ok,
        r2 is Ok,
        v2.workspaces.len() == v0.workspaces.len() + 1,
        lookup(v2, name@) is Some,
        paths_of(v2, lookup(v2, name@)->0.id) == seq![p1@, p2@],
{
    let id = v0.next_workspace_id;
    let s = v1.workspaces.last().name;
    let mid = with_workspace(v0, s);
    lemma_new_id_owns_nothing(v0);
    assert(mid.dirs == v0.dirs);
    assert(paths_of(mid, id) =~= paths_of(v0, id));
    lemma_paths_of_with_dir(mid, id, p1);
    lemma_lookup_last(v1, name@);
    assert(paths_of(v1, id) =~= seq![p1@]);
    lemma_paths_of_with_dir(v1, id, p2);
    assert(v2.workspaces == v1.workspaces);
    assert(paths_of(v2, id) =~= seq![p1@, p2@]);
    lemma_lookup_last(v2, name@);
}

/// The workspace ids that have at least one directory.
pub open spec fn ids_with_dirs(v: CatalogView) -> Set<i32> {
    Set::new(|id: i32| has_workspace_id(v, id) && dirs_of(v, id).len() > 0)
}

/// The id of a workspace row.
pub open spec fn row_id() -> spec_fn(WorkspaceRow) -> i32 {
    |w: WorkspaceRow| w.id
}

proof fn lemma_filter_ids_distinct(s: Seq<WorkspaceRow>, p: spec_fn(WorkspaceRow) -> bool)
    requires
        forall|i: int, j: int| 0 <= i < s.len() && 0 <= j < s.len() && i != j ==> s[i].id != s[j].id,
    ensures
        s.filter(p).map_values(row_id()).no_duplicates(),
    decreases s.len(),
{
    reveal(Seq::filter);
    if s.len() > 0 {
        let t = s.drop_last();
        assert forall|i: int, j: int| 0 <= i < t.len() && 0 <= j < t.len() && i != j implies t[i].id
            != t[j].id by {
            assert(t[i] == s[i] && t[j] == s[j]);
        }
        lemma_filter_ids_distinct(t, p);
        let ft = t.filter(p);
        if p(s.last()) {
            let ids = ft.push(s.last()).map_values(row_id());
            assert forall|i: int, j: int| 0 <= i < ids.len() && 0 <= j < ids.len() && i != j implies ids[i]
                != ids[j] by {
                if i < ids.len() - 1 && j < ids.len() - 1 {
                    assert(ids[i] == ft.map_values(row_id())[i]);
                    assert(ids[j] == ft.map_values(row_id())[j]);
                } else {
                    let k = if i < ids.len() - 1 { i } else { j };
                    assert(ft.contains(ft[k]));
                    t.lemma_filter_contains_rev(p, ft[k]);
                    let m = choose|m: int| 0 <= m < t.len() && t[m] == ft[k];
                    assert(s[m] == t[m]);
                }
            }
        }
    }
}

/// `list` shows nothing for a store without workspaces, and one row per workspace id
/// that has at least one directory.
pub proof fn lemma_list_counts_ids_with_dirs(v: CatalogView)
    requires
        wf(v),
    ensures
        v.workspaces.len() == 0 ==> listed(v).len() == 0,
        listed(v).len() == ids_with_dirs(v).len(),
{
    v.workspaces.lemma_filter_len(has_dirs(v));
    assert forall|i: int, j: int|
        0 <= i < v.workspaces.len() && 0 <= j < v.workspaces.len() && i != j implies v.workspaces[i].id
        != v.workspaces[j].id by {
        if i < j {
            assert(v.workspaces[i].id < v.workspaces[j].id);
        } else {
            assert(v.workspaces[j].id < v.workspaces[i].id);
        }
    }
    lemma_filter_ids_distinct(v.workspaces, has_dirs(v));
    let ids = listed(v).map_values(row_id());
    assert forall|id: i32| ids.to_set().contains(id) <==> ids_with_dirs(v).contains(id) by {
        if ids.to_set().contains(id) {
            let k = choose|k: int| 0 <= k < ids.len() && ids[k] == id;
            v.workspaces.lemma_filter_pred(has_dirs(v), k);
            assert(listed(v).contains(listed(v)[k]));
            v.workspaces.lemma_filter_contains_rev(has_dirs(v), listed(v)[k]);
        }
        if ids_with_dirs(v).contains(id) {
            let i = choose|i: int| 0 <= i < v.workspaces.len() && v.workspaces[i].id == id;
            v.workspaces.lemma_filter_contains(has_dirs(v), i);
            let k = choose|k: int| 0 <= k < listed(v).len() && listed(v)[k] == v.workspaces[i];
            assert(ids[k] == id);
        }
    }
    assert(ids.to_set() =~= ids_with_dirs(v));
    ids.unique_seq_to_set();
}

} // verus!
