use vstd::prelude::*;

verus! {

/// A directory that belongs to a workspace.
#[derive(Debug)]
pub struct Dir {
    pub id: i32,
    pub init: Option<String>,
    pub path: String,
}

/// A named group of directories, in the order in which they were added.
#[derive(Debug)]
pub struct Workspace {
    id: i32,
    /// Directories of the workspace
    dirs: Vec<Dir>,
    /// Name of the workspace
    pub name: String,
}

/// What a workspace holds, as a mathematical value.
pub struct WorkspaceView {
    pub id: i32,
    pub name: String,
    pub dirs: Seq<Dir>,
}

/// The shell and editor command that directories are opened with.
pub struct EditorConfig {
    pub shell: String,
    pub command: String,
}

/// One editor process to start: `shell editor path`.
#[derive(Debug)]
pub struct LaunchRequest {
    pub shell: String,
    pub editor: String,
    pub path: String,
}

/// The path of a directory, as characters.
pub open spec fn dir_path() -> spec_fn(Dir) -> Seq<char> {
    |d: Dir| d.path@
}

/// Index of the first directory whose path is `path`, if any.
pub open spec fn find_path(dirs: Seq<Dir>, path: Seq<char>) -> Option<int>
    decreases dirs.len(),
{
    if dirs.len() == 0 {
        None
    } else {
        match find_path(dirs.drop_last(), path) {
            Some(i) => Some(i),
            None => if dirs.last().path@ == path {
                Some(dirs.len() - 1)
            } else {
                None
            },
        }
    }
}

/// The directories with the first one whose path is `path` taken out; unchanged when none has it.
pub open spec fn remove_path(dirs: Seq<Dir>, path: Seq<char>) -> Seq<Dir> {
    match find_path(dirs, path) {
        Some(i) => dirs.remove(i),
        None => dirs,
    }
}

/// The request that opens directory `d` with `config`.
pub open spec fn launch_of(config: EditorConfig, d: Dir) -> LaunchRequest {
    LaunchRequest { shell: config.shell, editor: config.command, path: d.path }
}

/// A path is found exactly when some directory has it.
pub proof fn lemma_find_path_contains(dirs: Seq<Dir>, path: Seq<char>)
    ensures
        (find_path(dirs, path) is Some) == dirs.map_values(dir_path()).contains(path),
{
    lemma_find_path_in_range(dirs, path);
    let paths = dirs.map_values(dir_path());
    match find_path(dirs, path) {
        Some(i) => {
            assert(paths[i] == path);
        },
        None => {
            if paths.contains(path) {
                let k = choose|k: int| 0 <= k < paths.len() && paths[k] == path;
                assert(dirs[k].path@ == path);
            }
        },
    }
}

/// A found index is in range and has the path; when none is found, no directory has it.
pub proof fn lemma_find_path_in_range(dirs: Seq<Dir>, path: Seq<char>)
    ensures
        match find_path(dirs, path) {
            Some(i) => 0 <= i < dirs.len() && dirs[i].path@ == path,
            None => forall|j: int| 0 <= j < dirs.len() ==> dirs[j].path@ != path,
        },
    decreases dirs.len(),
{
    if dirs.len() > 0 {
        lemma_find_path_in_range(dirs.drop_last(), path);
        assert forall|j: int| 0 <= j < dirs.len() - 1 implies dirs[j] == dirs.drop_last()[j] by {}
    }
}

/// A first match in a prefix stays the first match of the whole sequence.
proof fn lemma_find_path_prefix(dirs: Seq<Dir>, path: Seq<char>, k: int)
    requires
        0 <= k <= dirs.len(),
        find_path(dirs.subrange(0, k), path) is Some,
    ensures
        find_path(dirs, path) == find_path(dirs.subrange(0, k), path),
    decreases dirs.len() - k,
{
    if k < dirs.len() {
        let longer = dirs.subrange(0, k + 1);
        assert(longer.drop_last() =~= dirs.subrange(0, k));
        lemma_find_path_prefix(dirs, path, k + 1);
    } else {
        assert(dirs.subrange(0, k) =~= dirs);
    }
}

/// Adding a directory and then removing its path leaves as many directories as before;
/// removing a path that no directory has changes nothing.
pub proof fn lemma_add_then_remove_keeps_count(dirs: Seq<Dir>, d: Dir, path: Seq<char>)
    ensures
        remove_path(dirs.push(d), d.path@).len() == dirs.len(),
        (forall|j: int| 0 <= j < dirs.len() ==> dirs[j].path@ != path) ==> remove_path(dirs, path)
            == dirs,
{
    let pushed = dirs.push(d);
    assert(pushed.drop_last() =~= dirs);
    lemma_find_path_in_range(pushed, d.path@);
    lemma_find_path_in_range(dirs, path);
}

impl Dir {
    pub fn new(path: String) -> (r: Dir)
        ensures
            r == (Dir { path, id: 0, init: None }),
    {
        Dir { path, id: 0, init: None }
    }

    /// The same directory with its id set.
    pub fn id(self, id: i32) -> (r: Dir)
        ensures
            r == (Dir { id, ..self }),
    {
        Dir { id, ..self }
    }

    pub fn init(&mut self, script: String)
        ensures
            *final(self) == (Dir { init: Some(script), ..*old(self) }),
    {
        self.init = Some(script);
    }

    /// A copy of this directory.
    pub fn copy(&self) -> (r: Dir)
        ensures
            r == *self,
    {
        let init = match &self.init {
            Some(s) => Some(s.clone()),
            None => None,
        };
        Dir { id: self.id, init, path: self.path.clone() }
    }
}

impl View for Workspace {
    type V = WorkspaceView;

    closed spec fn view(&self) -> WorkspaceView {
        WorkspaceView { id: self.id, name: self.name, dirs: self.dirs@ }
    }
}

impl Workspace {
    pub fn new(name: String) -> (r: Self)
        ensures
            r@ == (WorkspaceView { id: 0, name, dirs: Seq::empty() }),
    {
        Workspace { dirs: Vec::new(), name, id: 0 }
    }

    /// A workspace with its id and directories given.
    pub fn from_parts(id: i32, name: String, dirs: Vec<Dir>) -> (r: Self)
        ensures
            r@ == (WorkspaceView { id, name, dirs: dirs@ }),
    {
        Workspace { id, dirs, name }
    }

    /// Adds a new directory to the workspace
    pub fn add_dir(&mut self, dir: Dir)
        ensures
            final(self)@ == (WorkspaceView { dirs: old(self)@.dirs.push(dir), ..old(self)@ }),
    {
        self.dirs.push(dir)
    }

    /// Get workspace id
    pub fn get_id(&self) -> (r: i32)
        ensures
            r == self@.id,
    {
        self.id
    }

    /// The name of the workspace.
    pub fn get_name(&self) -> (r: &String)
        ensures
            *r == self@.name,
    {
        &self.name
    }

    /// Assigns the id once: returns false, and changes nothing, when an id is already set.
    pub fn set_id(&mut self, id: i32) -> (assigned: bool)
        ensures
            assigned == (old(self)@.id == 0),
            final(self)@ == if assigned {
                WorkspaceView { id, ..old(self)@ }
            } else {
                old(self)@
            },
    {
        if self.id == 0 {
            self.id = id;
            true
        } else {
            false
        }
    }

    /// Position of the first directory whose path is `dir`, if any.
    pub fn check_dir_already_exists(&self, dir: &str) -> (r: Option<usize>)
        ensures
            match r {
                Some(i) => find_path(self@.dirs, dir@) == Some(i as int),
                None => find_path(self@.dirs, dir@) is None,
            },
    {
        let target: String = dir.to_owned();
        let mut i: usize = 0;
        while i < self.dirs.len()
            invariant
                0 <= i <= self.dirs@.len(),
                target@ == dir@,
                find_path(self.dirs@.subrange(0, i as int), dir@) is None,
            decreases self.dirs@.len() - i,
        {
            let ghost next = self.dirs@.subrange(0, i as int + 1);
            proof {
                assert(next.drop_last() =~= self.dirs@.subrange(0, i as int));
            }
            if self.dirs[i].path == target {
                proof {
                    lemma_find_path_prefix(self.dirs@, dir@, i as int + 1);
                }
                return Some(i);
            }
            i = i + 1;
        }
        proof {
            assert(self.dirs@.subrange(0, i as int) =~= self.dirs@);
        }
        None
    }

    /// Iterates over the directories of the workspace, in order.
    pub fn dir_iter(&self) -> (r: std::slice::Iter<'_, Dir>)
        ensures
            vstd::std_specs::iter::IteratorSpec::remaining(&r) == self@.dirs.as_ref(),
    {
        broadcast use vstd::std_specs::slice::axiom_spec_slice_iter;

        self.dirs.as_slice().iter()
    }

    /// The directories of the workspace.
    pub fn dirs(&self) -> (r: &Vec<Dir>)
        ensures
            r@ == self@.dirs,
    {
        &self.dirs
    }

    /// Removes the first directory whose path is `dir`; returns whether one was removed.
    pub fn remove_dir(&mut self, dir: &str) -> (removed: bool)
        ensures
            removed == (find_path(old(self)@.dirs, dir@) is Some),
            final(self)@ == (WorkspaceView { dirs: remove_path(old(self)@.dirs, dir@), ..old(self)@ }),
    {
        let value = self.check_dir_already_exists(dir);
        match value {
            Some(index) => {
                proof {
                    lemma_find_path_in_range(self.dirs@, dir@);
                }
                self.dirs.remove(index);
                true
            },
            None => false,
        }
    }

    /// The same workspace with its id set.
    pub fn id(self, id: i32) -> (r: Self)
        ensures
            r@ == (WorkspaceView { id, ..self@ }),
    {
        Workspace { id, dirs: self.dirs, name: self.name }
    }
}

/// One editor launch for each directory of the workspace, in order.
pub fn open_workspace(workspace: &Workspace, config: &EditorConfig) -> (r: Vec<LaunchRequest>)
    ensures
        r@.len() == workspace@.dirs.len(),
        forall|i: int| 0 <= i < r@.len() ==> r@[i] == launch_of(*config, #[trigger] workspace@.dirs[i]),
{
    let mut out: Vec<LaunchRequest> = Vec::new();
    let mut i: usize = 0;
    while i < workspace.dirs.len()
        invariant
            0 <= i <= workspace.dirs@.len(),
            out@.len() == i,
            forall|j: int| 0 <= j < i ==> out@[j] == launch_of(*config, #[trigger] workspace.dirs@[j]),
        decreases workspace.dirs@.len() - i,
    {
        let req = LaunchRequest {
            shell: config.shell.clone(),
            editor: config.command.clone(),
            path: workspace.dirs[i].path.clone(),
        };
        out.push(req);
        i = i + 1;
    }
    out
}

} // verus!
