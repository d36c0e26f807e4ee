use vstd::prelude::*;

use crate::errors::Error;
use crate::workspace::{dir_path, Dir, Workspace, WorkspaceView};

verus! {

/// A row of the workspaces table.
#[derive(Debug)]
pub struct WorkspaceRow {
    pub id: i32,
    pub name: String,
}

/// A row of the dirs table: a directory and the id of the workspace that owns it.
#[derive(Debug)]
pub struct DirRow {
    pub workspace_id: i32,
    pub dir: Dir,
}

/// The stored state: both tables in id order, the ids that the next inserts
/// receive, and the preferred editor command.
pub struct Catalog {
    workspaces: Vec<WorkspaceRow>,
    dirs: Vec<DirRow>,
    next_workspace_id: i32,
    next_dir_id: i32,
    editor: String,
}

pub struct CatalogView {
    pub workspaces: Seq<WorkspaceRow>,
    pub dirs: Seq<DirRow>,
    pub next_workspace_id: i32,
    pub next_dir_id: i32,
    pub editor: String,
}

impl View for Catalog {
    type V = CatalogView;

    closed spec fn view(&self) -> CatalogView {
        CatalogView {
            workspaces: self.workspaces@,
            dirs: self.dirs@,
            next_workspace_id: self.next_workspace_id,
            next_dir_id: self.next_dir_id,
            editor: self.editor,
        }
    }
}

/// Ids are positive, strictly increasing in table order and below the next id to hand
/// out; workspace names are unique; every directory names a workspace id already handed out.
pub open spec fn wf(v: CatalogView) -> bool {
    &&& 1 <= v.next_workspace_id
    &&& 1 <= v.next_dir_id
    &&& forall|i: int|
        0 <= i < v.workspaces.len() ==> 1 <= #[trigger] v.workspaces[i].id < v.next_workspace_id
    &&& forall|i: int, j: int|
        0 <= i < j < v.workspaces.len() ==> #[trigger] v.workspaces[i].id
            < #[trigger] v.workspaces[j].id
    &&& forall|i: int, j: int|
        0 <= i < v.workspaces.len() && 0 <= j < v.workspaces.len() && (#[trigger] v.workspaces[i]).name@
            == (#[trigger] v.workspaces[j]).name@ ==> i == j
    &&& forall|i: int|
        0 <= i < v.dirs.len() ==> 1 <= (#[trigger] v.dirs[i]).dir.id < v.next_dir_id && 1
            <= v.dirs[i].workspace_id < v.next_workspace_id
    &&& forall|i: int, j: int|
        0 <= i < j < v.dirs.len() ==> (#[trigger] v.dirs[i]).dir.id < (#[trigger] v.dirs[j]).dir.id
}

/// Row `i` of the workspaces table is named `name`.
pub open spec fn has_name(v: CatalogView, name: Seq<char>, i: int) -> bool {
    0 <= i < v.workspaces.len() && v.workspaces[i].name@ == name
}

/// The workspace row named `name`, if there is one.
pub open spec fn lookup(v: CatalogView, name: Seq<char>) -> Option<WorkspaceRow> {
    if exists|i: int| has_name(v, name, i) {
        Some(v.workspaces[choose|i: int| has_name(v, name, i)])
    } else {
        None
    }
}

/// Directory rows of workspace `wid`.
pub open spec fn owned_by(wid: i32) -> spec_fn(DirRow) -> bool {
    |r: DirRow| r.workspace_id == wid
}

/// Directory rows of any workspace but `wid`.
pub open spec fn not_owned_by(wid: i32) -> spec_fn(DirRow) -> bool {
    |r: DirRow| r.workspace_id != wid
}

/// The directory that a row holds.
pub open spec fn row_dir() -> spec_fn(DirRow) -> Dir {
    |r: DirRow| r.dir
}

/// The directories of workspace `wid`, in table order.
pub open spec fn dirs_of(v: CatalogView, wid: i32) -> Seq<Dir> {
    v.dirs.filter(owned_by(wid)).map_values(row_dir())
}

/// The paths of the directories of workspace `wid`, in table order.
pub open spec fn paths_of(v: CatalogView, wid: i32) -> Seq<Seq<char>> {
    dirs_of(v, wid).map_values(dir_path())
}

/// The workspace of `row` together with its directories.
pub open spec fn materialize(v: CatalogView, row: WorkspaceRow) -> WorkspaceView {
    WorkspaceView { id: row.id, name: row.name, dirs: dirs_of(v, row.id) }
}

/// Some workspace row has id `wid`.
pub open spec fn has_workspace_id(v: CatalogView, wid: i32) -> bool {
    exists|i: int| 0 <= i < v.workspaces.len() && v.workspaces[i].id == wid
}

/// Row `i` of the dirs table has id `id`.
pub open spec fn has_dir_id(v: CatalogView, id: i32, i: int) -> bool {
    0 <= i < v.dirs.len() && v.dirs[i].dir.id == id
}

/// `v` with workspace `name` inserted under the next workspace id.
pub open spec fn with_workspace(v: CatalogView, name: String) -> CatalogView {
    CatalogView {
        workspaces: v.workspaces.push(WorkspaceRow { id: v.next_workspace_id, name }),
        next_workspace_id: (v.next_workspace_id + 1) as i32,
        ..v
    }
}

/// `v` with directory `path` inserted for workspace `wid` under the next directory id.
pub open spec fn with_dir(v: CatalogView, wid: i32, path: String) -> CatalogView {
    CatalogView {
        dirs: v.dirs.push(
            DirRow { workspace_id: wid, dir: Dir { id: v.next_dir_id, init: None, path } },
        ),
        next_dir_id: (v.next_dir_id + 1) as i32,
        ..v
    }
}

/// `v` without workspace `name` and without every directory that it owns.
pub open spec fn without_workspace(v: CatalogView, name: Seq<char>) -> CatalogView {
    if exists|i: int| has_name(v, name, i) {
        let i = choose|i: int| has_name(v, name, i);
        CatalogView {
            workspaces: v.workspaces.remove(i),
            dirs: v.dirs.filter(not_owned_by(v.workspaces[i].id)),
            ..v
        }
    } else {
        v
    }
}

/// `v` without the directory whose id is `id`.
pub open spec fn without_dir(v: CatalogView, id: i32) -> CatalogView {
    if exists|i: int| has_dir_id(v, id, i) {
        CatalogView { dirs: v.dirs.remove(choose|i: int| has_dir_id(v, id, i)), ..v }
    } else {
        v
    }
}

/// Deleting a workspace removes every directory that it owned, and looking its name up
/// afterwards finds nothing.
pub proof fn lemma_delete_cascades(v: CatalogView, name: Seq<char>)
    requires
        wf(v),
        lookup(v, name) is Some,
    ensures
        dirs_of(without_workspace(v, name), lookup(v, name)->0.id).len() == 0,
        lookup(without_workspace(v, name), name) is None,
{
    let c = choose|i: int| has_name(v, name, i);
    let wid = v.workspaces[c].id;
    let w = without_workspace(v, name);
    let inner = v.dirs.filter(not_owned_by(wid));
    let f = inner.filter(owned_by(wid));
    if f.len() > 0 {
        inner.lemma_filter_pred(owned_by(wid), 0);
        assert(f.contains(f[0]));
        inner.lemma_filter_contains_rev(owned_by(wid), f[0]);
        let k = choose|k: int| 0 <= k < inner.len() && inner[k] == f[0];
        v.dirs.lemma_filter_pred(not_owned_by(wid), k);
    }
    if exists|j: int| has_name(w, name, j) {
        let j = choose|j: int| has_name(w, name, j);
        let j0 = if j < c { j } else { j + 1 };
        assert(w.workspaces[j] == v.workspaces[j0]);
        assert(v.workspaces[j0].name@ == v.workspaces[c].name@);
    }
}

impl WorkspaceRow {
    pub fn copy(&self) -> (r: WorkspaceRow)
        ensures
            r == *self,
    {
        WorkspaceRow { id: self.id, name: self.name.clone() }
    }
}

impl DirRow {
    pub fn copy(&self) -> (r: DirRow)
        ensures
            r == *self,
    {
        DirRow { workspace_id: self.workspace_id, dir: self.dir.copy() }
    }
}

impl Catalog {
    /// An empty store whose editor is `code`.
    pub fn new() -> (r: Catalog)
        ensures
            wf(r@),
            r@.workspaces.len() == 0,
            r@.dirs.len() == 0,
            r@.next_workspace_id == 1,
            r@.next_dir_id == 1,
            r@.editor@ == "code"@,
    {
        Catalog {
            workspaces: Vec::new(),
            dirs: Vec::new(),
            next_workspace_id: 1,
            next_dir_id: 1,
            editor: String::from_str("code"),
        }
    }

    /// A store holding the given rows, or `None` when they break the table invariant.
    pub fn from_rows(
        workspaces: Vec<WorkspaceRow>,
        dirs: Vec<DirRow>,
        next_workspace_id: i32,
        next_dir_id: i32,
        editor: String,
    ) -> (r: Option<Catalog>)
        ensures
            r is Some <==> wf(
                CatalogView { workspaces: workspaces@, dirs: dirs@, next_workspace_id, next_dir_id, editor },
            ),
            r matches Some(c) ==> c@ == (CatalogView {
                workspaces: workspaces@,
                dirs: dirs@,
                next_workspace_id,
                next_dir_id,
                editor,
            }),
    {
        let ghost v = CatalogView {
            workspaces: workspaces@,
            dirs: dirs@,
            next_workspace_id,
            next_dir_id,
            editor,
        };
        if next_workspace_id < 1 || next_dir_id < 1 {
            return None;
        }
        let mut i: usize = 0;
        while i < workspaces.len()
            invariant
                v == (CatalogView { workspaces: workspaces@, dirs: dirs@, next_workspace_id, next_dir_id, editor }),
                v.workspaces == workspaces@,
                v.next_workspace_id == next_workspace_id,
                1 <= next_workspace_id && 1 <= next_dir_id,
                0 <= i <= workspaces@.len(),
                forall|a: int| 0 <= a < i ==> 1 <= #[trigger] workspaces@[a].id < next_workspace_id,
                forall|a: int, b: int|
                    0 <= a < b < i ==> #[trigger] workspaces@[a].id < #[trigger] workspaces@[b].id,
                forall|a: int, b: int|
                    0 <= a < i && 0 <= b < i && (#[trigger] workspaces@[a]).name@ == (
                    #[trigger] workspaces@[b]).name@ ==> a == b,
            decreases workspaces@.len() - i,
        {
            let id = workspaces[i].id;
            if id < 1 || id >= next_workspace_id {
                proof {
                    assert(v.workspaces[i as int].id == id);
                }
                return None;
            }
            if i > 0 && workspaces[i - 1].id >= id {
                proof {
                    assert(v.workspaces[i - 1].id >= v.workspaces[i as int].id);
                }
                return None;
            }
            let mut j: usize = 0;
            while j < i
                invariant
                    v == (CatalogView { workspaces: workspaces@, dirs: dirs@, next_workspace_id, next_dir_id, editor }),
                    v.workspaces == workspaces@,
                    0 <= j <= i < workspaces@.len(),
                    forall|b: int| 0 <= b < j ==> workspaces@[b].name@ != workspaces@[i as int].name@,
                decreases i - j,
            {
                if workspaces[j].name == workspaces[i].name {
                    proof {
                        assert(v.workspaces[j as int].name@ == v.workspaces[i as int].name@);
                    }
                    return None;
                }
                j = j + 1;
            }
            i = i + 1;
        }
        let mut k: usize = 0;
        while k < dirs.len()
            invariant
                v == (CatalogView { workspaces: workspaces@, dirs: dirs@, next_workspace_id, next_dir_id, editor }),
                v.dirs == dirs@,
                v.workspaces == workspaces@,
                v.next_workspace_id == next_workspace_id,
                v.next_dir_id == next_dir_id,
                1 <= next_workspace_id && 1 <= next_dir_id,
                forall|a: int| 0 <= a < workspaces@.len() ==> 1 <= #[trigger] workspaces@[a].id < next_workspace_id,
                forall|a: int, b: int|
                    0 <= a < b < workspaces@.len() ==> #[trigger] workspaces@[a].id < #[trigger] workspaces@[b].id,
                forall|a: int, b: int|
                    0 <= a < workspaces@.len() && 0 <= b < workspaces@.len() && (#[trigger] workspaces@[a]).name@ == (
                    #[trigger] workspaces@[b]).name@ ==> a == b,
                0 <= k <= dirs@.len(),
                forall|a: int|
                    0 <= a < k ==> 1 <= (#[trigger] dirs@[a]).dir.id < next_dir_id && 1
                        <= dirs@[a].workspace_id < next_workspace_id,
                forall|a: int, b: int|
                    0 <= a < b < k ==> (#[trigger] dirs@[a]).dir.id < (#[trigger] dirs@[b]).dir.id,
            decreases dirs@.len() - k,
        {
            let d = &dirs[k];
            if d.dir.id < 1 || d.dir.id >= next_dir_id || d.workspace_id < 1 || d.workspace_id
                >= next_workspace_id {
                proof {
                    assert(v.dirs[k as int] == *d);
                }
                return None;
            }
            if k > 0 && dirs[k - 1].dir.id >= d.dir.id {
                proof {
                    assert(v.dirs[k - 1].dir.id >= v.dirs[k as int].dir.id);
                }
                return None;
            }
            k = k + 1;
        }
        Some(Catalog { workspaces, dirs, next_workspace_id, next_dir_id, editor })
    }

    /// The rows of the workspaces table.
    pub fn workspace_rows(&self) -> (r: &Vec<WorkspaceRow>)
        ensures
            r@ == self@.workspaces,
    {
        &self.workspaces
    }

    /// The rows of the dirs table.
    pub fn dir_rows(&self) -> (r: &Vec<DirRow>)
        ensures
            r@ == self@.dirs,
    {
        &self.dirs
    }

    /// The id that the next inserted workspace receives.
    pub fn next_workspace_id(&self) -> (r: i32)
        ensures
            r == self@.next_workspace_id,
    {
        self.next_workspace_id
    }

    /// The id that the next inserted directory receives.
    pub fn next_dir_id(&self) -> (r: i32)
        ensures
            r == self@.next_dir_id,
    {
        self.next_dir_id
    }

    /// The preferred editor command.
    pub fn get_editor(&self) -> (r: &String)
        ensures
            *r == self@.editor,
    {
        &self.editor
    }

    /// Overwrites the preferred editor command.
    pub fn update_editor(&mut self, command: String)
        requires
            wf(old(self)@),
        ensures
            final(self)@ == (CatalogView { editor: command, ..old(self)@ }),
            wf(final(self)@),
    {
        self.editor = command;
    }

    /// Index of the workspace named `name`.
    fn find_name(&self, name: &str) -> (r: Option<usize>)
        requires
            wf(self@),
        ensures
            match r {
                Some(i) => has_name(self@, name@, i as int) && lookup(self@, name@) == Some(
                    self@.workspaces[i as int],
                ),
                None => lookup(self@, name@) is None,
            },
    {
        let target: String = name.to_owned();
        let mut i: usize = 0;
        while i < self.workspaces.len()
            invariant
                wf(self@),
                0 <= i <= self.workspaces@.len(),
                target@ == name@,
                forall|j: int| 0 <= j < i ==> !has_name(self@, name@, j),
            decreases self.workspaces@.len() - i,
        {
            if self.workspaces[i].name == target {
                proof {
                    assert(has_name(self@, name@, i as int));
                    let c = choose|c: int| has_name(self@, name@, c);
                    assert(self@.workspaces[c].name@ == self@.workspaces[i as int].name@);
                    assert(c == i as int);
                }
                return Some(i);
            }
            i = i + 1;
        }
        None
    }

    /// Index of the workspace whose id is `wid`.
    fn find_id(&self, wid: i32) -> (r: Option<usize>)
        ensures
            match r {
                Some(i) => i < self@.workspaces.len() && self@.workspaces[i as int].id == wid,
                None => !has_workspace_id(self@, wid),
            },
    {
        let mut i: usize = 0;
        while i < self.workspaces.len()
            invariant
                0 <= i <= self.workspaces@.len(),
                forall|j: int| 0 <= j < i ==> self@.workspaces[j].id != wid,
            decreases self.workspaces@.len() - i,
        {
            if self.workspaces[i].id == wid {
                return Some(i);
            }
            i = i + 1;
        }
        None
    }

    /// The directories of workspace `wid`, in table order.
    fn dirs_owned_by(&self, wid: i32) -> (r: Vec<Dir>)
        ensures
            r@ == dirs_of(self@, wid),
    {
        let mut out: Vec<Dir> = Vec::new();
        let mut i: usize = 0;
        while i < self.dirs.len()
            invariant
                0 <= i <= self.dirs@.len(),
                out@ == self.dirs@.subrange(0, i as int).filter(owned_by(wid)).map_values(
                    row_dir(),
                ),
            decreases self.dirs@.len() - i,
        {
            let ghost before = self.dirs@.subrange(0, i as int);
            proof {
                assert(self.dirs@.subrange(0, i as int + 1) =~= before.push(self.dirs@[i as int]));
                before.lemma_filter_push(self.dirs@[i as int], owned_by(wid));
            }
            if self.dirs[i].workspace_id == wid {
                out.push(self.dirs[i].dir.copy());
                proof {
                    let f = before.filter(owned_by(wid));
                    assert(f.push(self.dirs@[i as int]).map_values(row_dir()) =~= f.map_values(
                        row_dir(),
                    ).push(self.dirs@[i as int].dir));
                }
            }
            i = i + 1;
        }
        proof {
            assert(self.dirs@.subrange(0, i as int) =~= self.dirs@);
        }
        out
    }

    /// Inserts a workspace under the next workspace id and returns that id.
    pub fn insert_new_workspace(&mut self, workspace: Workspace) -> (r: Result<usize, Error>)
        requires
            wf(old(self)@),
        ensures
            wf(final(self)@),
            lookup(old(self)@, workspace@.name@) is Some ==> r == Err::<usize, Error>(
                Error::ConstraintViolation,
            ) && final(self)@ == old(self)@,
            lookup(old(self)@, workspace@.name@) is None && old(self)@.next_workspace_id
                == i32::MAX ==> r == Err::<usize, Error>(Error::StorageError) && final(self)@
                == old(self)@,
            lookup(old(self)@, workspace@.name@) is None && old(self)@.next_workspace_id
                < i32::MAX ==> r == Ok::<usize, Error>(old(self)@.next_workspace_id as usize)
                && final(self)@ == with_workspace(old(self)@, workspace@.name),
    {
        let name = workspace.get_name().clone();
        if self.find_name(name.as_str()).is_some() {
            return Err(Error::ConstraintViolation);
        }
        if self.next_workspace_id == i32::MAX {
            return Err(Error::StorageError);
        }
        let id = self.next_workspace_id;
        self.workspaces.push(WorkspaceRow { id, name });
        self.next_workspace_id = id + 1;
        proof {
            let v = self@;
            assert forall|i: int| 0 <= i < v.workspaces.len() implies 1 <= #[trigger] v.workspaces[i].id
                < v.next_workspace_id by {
                if i < v.workspaces.len() - 1 {
                    assert(v.workspaces[i] == old(self)@.workspaces[i]);
                }
            }
            assert forall|i: int, j: int| 0 <= i < j < v.workspaces.len() implies #[trigger] v.workspaces[i].id
                < #[trigger] v.workspaces[j].id by {
                assert(v.workspaces[i] == old(self)@.workspaces[i]);
                if j < v.workspaces.len() - 1 {
                    assert(v.workspaces[j] == old(self)@.workspaces[j]);
                }
            }
            assert forall|i: int, j: int|
                0 <= i < v.workspaces.len() && 0 <= j < v.workspaces.len()
                    && v.workspaces[i].name@ == v.workspaces[j].name@ implies i == j by {
                let n = v.workspaces.len() - 1;
                if i == n && j != n {
                    assert(v.workspaces[j] == old(self)@.workspaces[j]);
                    assert(has_name(old(self)@, v.workspaces[n].name@, j));
                } else if j == n && i != n {
                    assert(v.workspaces[i] == old(self)@.workspaces[i]);
                    assert(has_name(old(self)@, v.workspaces[n].name@, i));
                } else if i != n && j != n {
                    assert(v.workspaces[i] == old(self)@.workspaces[i]);
                    assert(v.workspaces[j] == old(self)@.workspaces[j]);
                }
            }
        }
        Ok(id as usize)
    }

    /// Deletes the workspace named `name` together with its directories; succeeds also
    /// when no workspace has that name.
    pub fn delete_workspace(&mut self, name: String) -> (r: Result<(), Error>)
        requires
            wf(old(self)@),
        ensures
            wf(final(self)@),
            r is Ok,
            final(self)@ == without_workspace(old(self)@, name@),
    {
        match self.find_name(name.as_str()) {
            None => Ok(()),
            Some(idx) => {
                let wid = self.workspaces[idx].id;
                let ghost old_v = self@;
                proof {
                    assert(has_name(old_v, name@, idx as int));
                    let c = choose|c: int| has_name(old_v, name@, c);
                    assert(old_v.workspaces[c].name@ == old_v.workspaces[idx as int].name@);
                }
                self.workspaces.remove(idx);
                let mut kept: Vec<DirRow> = Vec::new();
                let mut i: usize = 0;
                while i < self.dirs.len()
                    invariant
                        wf(old_v),
                        self@ == (CatalogView { workspaces: old_v.workspaces.remove(idx as int), ..old_v }),
                        0 <= i <= self.dirs@.len(),
                        kept@ == self.dirs@.subrange(0, i as int).filter(not_owned_by(wid)),
                        forall|k: int|
                            0 <= k < kept@.len() ==> 1 <= (#[trigger] kept@[k]).dir.id
                                < old_v.next_dir_id && 1 <= kept@[k].workspace_id
                                < old_v.next_workspace_id,
                        forall|k: int, l: int|
                            0 <= k < l < kept@.len() ==> (#[trigger] kept@[k]).dir.id < (
                            #[trigger] kept@[l]).dir.id,
                        i > 0 ==> forall|k: int|
                            0 <= k < kept@.len() ==> (#[trigger] kept@[k]).dir.id <= self.dirs@[i
                                - 1].dir.id,
                        i == 0 ==> kept@.len() == 0,
                    decreases self.dirs@.len() - i,
                {
                    let ghost before = self.dirs@.subrange(0, i as int);
                    proof {
                        assert(self.dirs@.subrange(0, i as int + 1) =~= before.push(
                            self.dirs@[i as int],
                        ));
                        before.lemma_filter_push(self.dirs@[i as int], not_owned_by(wid));
                        if i == 0 {
                            assert(before =~= Seq::<DirRow>::empty());
                            reveal(Seq::filter);
                        }
                    }
                    if self.dirs[i].workspace_id != wid {
                        kept.push(self.dirs[i].copy());
                    }
                    i = i + 1;
                }
                proof {
                    assert(self.dirs@.subrange(0, i as int) =~= self.dirs@);
                }
                self.dirs = kept;
                proof {
                    let v = self@;
                    assert forall|a: int, b: int|
                        0 <= a < v.workspaces.len() && 0 <= b < v.workspaces.len()
                            && v.workspaces[a].name@ == v.workspaces[b].name@ implies a == b by {
                        let a0 = if a < idx { a } else { a + 1 };
                        let b0 = if b < idx { b } else { b + 1 };
                        assert(v.workspaces[a] == old_v.workspaces[a0]);
                        assert(v.workspaces[b] == old_v.workspaces[b0]);
                    }
                    assert forall|a: int| 0 <= a < v.workspaces.len() implies 1 <= #[trigger] v.workspaces[a].id
                        < v.next_workspace_id by {
                        let a0 = if a < idx { a } else { a + 1 };
                        assert(v.workspaces[a] == old_v.workspaces[a0]);
                    }
                    assert forall|a: int, b: int| 0 <= a < b < v.workspaces.len() implies #[trigger] v.workspaces[a].id
                        < #[trigger] v.workspaces[b].id by {
                        let a0 = if a < idx { a } else { a + 1 };
                        let b0 = if b < idx { b } else { b + 1 };
                        assert(v.workspaces[a] == old_v.workspaces[a0]);
                        assert(v.workspaces[b] == old_v.workspaces[b0]);
                    }
                    assert(v =~= without_workspace(old_v, name@));
                }
                Ok(())
            },
        }
    }

    /// The id and path of each directory of workspace `workspace_id`, in table order.
    pub fn get_dirs_for_workspace(&self, workspace_id: i32) -> (r: Vec<(i32, String)>)
        ensures
            r@.len() == dirs_of(self@, workspace_id).len(),
            forall|i: int|
                0 <= i < r@.len() ==> #[trigger] r@[i] == (
                dirs_of(self@, workspace_id)[i].id,
                dirs_of(self@, workspace_id)[i].path,
            ),
    {
        let dirs = self.dirs_owned_by(workspace_id);
        let mut out: Vec<(i32, String)> = Vec::new();
        let mut i: usize = 0;
        while i < dirs.len()
            invariant
                0 <= i <= dirs@.len(),
                dirs@ == dirs_of(self@, workspace_id),
                out@.len() == i,
                forall|j: int| 0 <= j < i ==> #[trigger] out@[j] == (dirs@[j].id, dirs@[j].path),
            decreases dirs@.len() - i,
        {
            out.push((dirs[i].id, dirs[i].path.clone()));
            i = i + 1;
        }
        out
    }

    /// Deletes the directory whose id is `dir_id`.
    pub fn remove_dir_from_workspace(&mut self, dir_id: i32) -> (r: Result<(), Error>)
        requires
            wf(old(self)@),
        ensures
            wf(final(self)@),
            r is Ok <==> exists|i: int| has_dir_id(old(self)@, dir_id, i),
            r is Err ==> r == Err::<(), Error>(Error::NotFound),
            final(self)@ == without_dir(old(self)@, dir_id),
    {
        let mut i: usize = 0;
        while i < self.dirs.len()
            invariant
                self@ == old(self)@,
                wf(self@),
                0 <= i <= self.dirs@.len(),
                forall|j: int| 0 <= j < i ==> !has_dir_id(self@, dir_id, j),
            decreases self.dirs@.len() - i,
        {
            if self.dirs[i].dir.id == dir_id {
                let ghost old_v = self@;
                proof {
                    assert(has_dir_id(old_v, dir_id, i as int));
                    let c = choose|c: int| has_dir_id(old_v, dir_id, c);
                    if c < i {
                        assert(old_v.dirs[c].dir.id < old_v.dirs[i as int].dir.id);
                    } else if c > i {
                        assert(old_v.dirs[i as int].dir.id < old_v.dirs[c].dir.id);
                    }
                }
                self.dirs.remove(i);
                proof {
                    let v = self@;
                    assert forall|a: int, b: int| 0 <= a < b < v.dirs.len() implies (
                    #[trigger] v.dirs[a]).dir.id < (#[trigger] v.dirs[b]).dir.id by {
                        let a0 = if a < i { a } else { a + 1 };
                        let b0 = if b < i { b } else { b + 1 };
                        assert(v.dirs[a] == old_v.dirs[a0]);
                        assert(v.dirs[b] == old_v.dirs[b0]);
                    }
                    assert(v =~= without_dir(old_v, dir_id));
                }
                return Ok(());
            }
            i = i + 1;
        }
        Err(Error::NotFound)
    }

    /// Inserts directory `path` for workspace `workspace_id` under the next directory id
    /// and returns that id.
    pub fn insert_new_dir_for_workspace(&mut self, workspace_id: i32, path: String) -> (r: Result<
        usize,
        Error,
    >)
        requires
            wf(old(self)@),
        ensures
            wf(final(self)@),
            !has_workspace_id(old(self)@, workspace_id) || old(self)@.next_dir_id == i32::MAX
                ==> r == Err::<usize, Error>(Error::StorageError) && final(self)@ == old(self)@,
            has_workspace_id(old(self)@, workspace_id) && old(self)@.next_dir_id < i32::MAX
                ==> r == Ok::<usize, Error>(old(self)@.next_dir_id as usize) && final(self)@
                == with_dir(old(self)@, workspace_id, path),
    {
        match self.find_id(workspace_id) {
            None => Err(Error::StorageError),
            Some(_) => {
                if self.next_dir_id == i32::MAX {
                    return Err(Error::StorageError);
                }
                let id = self.next_dir_id;
                self.dirs.push(
                    DirRow { workspace_id, dir: Dir { id, init: None, path } },
                );
                self.next_dir_id = id + 1;
                Ok(id as usize)
            },
        }
    }

    /// The id and name of every workspace, in table order.
    pub fn fetch_all_workspaces(&self) -> (r: Vec<(i32, String)>)
        ensures
            r@.len() == self@.workspaces.len(),
            forall|i: int|
                0 <= i < r@.len() ==> #[trigger] r@[i] == (
                self@.workspaces[i].id,
                self@.workspaces[i].name,
            ),
    {
        let mut out: Vec<(i32, String)> = Vec::new();
        let mut i: usize = 0;
        while i < self.workspaces.len()
            invariant
                0 <= i <= self.workspaces@.len(),
                out@.len() == i,
                forall|j: int|
                    0 <= j < i ==> #[trigger] out@[j] == (
                    self.workspaces@[j].id,
                    self.workspaces@[j].name,
                ),
            decreases self.workspaces@.len() - i,
        {
            out.push((self.workspaces[i].id, self.workspaces[i].name.clone()));
            i = i + 1;
        }
        out
    }

    /// The workspace named `name` with its directories, or `None` when there is none.
    /// A workspace without directories is found too: it exists from its creation on.
    pub fn fetch_workspace_with_dirs_by_name(&self, name: &str) -> (r: Option<Workspace>)
        requires
            wf(self@),
        ensures
            match lookup(self@, name@) {
                None => r is None,
                Some(row) => r is Some && r->0@ == materialize(self@, row),
            },
    {
        match self.find_name(name) {
            None => None,
            Some(i) => {
                let row = &self.workspaces[i];
                let dirs = self.dirs_owned_by(row.id);
                Some(Workspace::from_parts(row.id, row.name.clone(), dirs))
            },
        }
    }

    /// The workspace in row `i` with its directories.
    pub fn fetch_workspace_at(&self, i: usize) -> (r: Workspace)
        requires
            i < self@.workspaces.len(),
        ensures
            r@ == materialize(self@, self@.workspaces[i as int]),
    {
        let row = &self.workspaces[i];
        let dirs = self.dirs_owned_by(row.id);
        Workspace::from_parts(row.id, row.name.clone(), dirs)
    }

    /// Every workspace with its directories, in table order.
    pub fn fetch_all_workspaces_with_dirs(&self) -> (r: Vec<Workspace>)
        ensures
            r@.len() == self@.workspaces.len(),
            forall|i: int|
                0 <= i < r@.len() ==> (#[trigger] r@[i])@ == materialize(
                    self@,
                    self@.workspaces[i],
                ),
    {
        let mut out: Vec<Workspace> = Vec::new();
        let mut i: usize = 0;
        while i < self.workspaces.len()
            invariant
                0 <= i <= self.workspaces@.len(),
                out@.len() == i,
                forall|j: int|
                    0 <= j < i ==> (#[trigger] out@[j])@ == materialize(self@, self@.workspaces[j]),
            decreases self.workspaces@.len() - i,
        {
            out.push(self.fetch_workspace_at(i));
            i = i + 1;
        }
        out
    }
}

} // verus!
