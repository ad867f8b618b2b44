use vstd::prelude::*;

use crate::device::{FileEntry, ParentRef};
use crate::resolver::{
    first_match_idx, spec_segments, split_path, ResolveError, ResolveState, StepOutcome,
};
use crate::text::seq_views;

verus! {

/// An in-memory snapshot of a device's object graph: the root listing, and
/// one listing per folder identifier.  One-shot operations resolve against
/// such a snapshot; the interactive browser instead fetches listings lazily
/// from the device.  Both drive the same `ResolveState` machine, one
/// children-of lookup per path segment.
pub struct ObjectStore {
    pub root: Vec<FileEntry>,
    pub folders: Vec<(u32, Vec<FileEntry>)>,
}

/// The children recorded for folder `id`: the first binding wins, an
/// unknown identifier has no children.
pub open spec fn folder_children(folders: Seq<(u32, Vec<FileEntry>)>, id: u32) -> Seq<FileEntry>
    decreases folders.len(),
{
    if folders.len() == 0 {
        Seq::empty()
    } else if folders[0].0 == id {
        folders[0].1@
    } else {
        folder_children(folders.drop_first(), id)
    }
}

proof fn lemma_folder_children_at(folders: Seq<(u32, Vec<FileEntry>)>, id: u32, i: int)
    requires
        0 <= i < folders.len(),
        folders[i].0 == id,
        forall|j: int| 0 <= j < i ==> folders[j].0 != id,
    ensures
        folder_children(folders, id) == folders[i].1@,
    decreases folders.len(),
{
    if i > 0 {
        let rest = folders.drop_first();
        assert(forall|j: int| 0 <= j < rest.len() ==> rest[j] == folders[j + 1]);
        assert(rest[i - 1] == folders[i]);
        lemma_folder_children_at(rest, id, i - 1);
    }
}

proof fn lemma_folder_children_none(folders: Seq<(u32, Vec<FileEntry>)>, id: u32)
    requires
        forall|j: int| 0 <= j < folders.len() ==> folders[j].0 != id,
    ensures
        folder_children(folders, id) =~= Seq::<FileEntry>::empty(),
    decreases folders.len(),
{
    if folders.len() > 0 {
        let rest = folders.drop_first();
        assert(forall|j: int| 0 <= j < rest.len() ==> rest[j] == folders[j + 1]);
        lemma_folder_children_none(rest, id);
    }
}

/// What a path resolves to under a snapshot: the first-matching entry of the
/// final segment, or the exact failure, with the root path set apart.
pub enum SpecResolution {
    Found(FileEntry),
    NotFound(Seq<char>),
    NotADirectory(Seq<char>),
    RootPath,
}

/// The stepwise walk itself: fetch the children of `parent`, take the first
/// entry matching the head segment, descend into folders, and accept
/// whatever entry the final segment names.
pub open spec fn spec_resolve_from(
    store: &ObjectStore,
    parent: ParentRef,
    segs: Seq<Seq<char>>,
) -> SpecResolution
    decreases segs.len(),
{
    if segs.len() == 0 {
        SpecResolution::RootPath
    } else {
        let children = store.spec_children(parent);
        match first_match_idx(children, segs[0]) {
            None => SpecResolution::NotFound(segs[0]),
            Some(i) => {
                let e = children[i];
                if segs.len() == 1 {
                    SpecResolution::Found(e)
                } else if !e.is_folder {
                    SpecResolution::NotADirectory(segs[0])
                } else {
                    spec_resolve_from(store, ParentRef::Folder(e.id), segs.drop_first())
                }
            },
        }
    }
}

/// Resolution of a whole path, from the root.
pub open spec fn spec_resolve(store: &ObjectStore, path: Seq<char>) -> SpecResolution {
    spec_resolve_from(store, ParentRef::Root, spec_segments(path))
}

/// Copies a listing entry for entry.
fn clone_entries(v: &Vec<FileEntry>) -> (r: Vec<FileEntry>)
    ensures
        r@ == v@,
{
    let n = v.len();
    let mut r: Vec<FileEntry> = Vec::new();
    let mut i: usize = 0;
    while i < n
        invariant
            i <= n,
            n == v@.len(),
            r@ =~= v@.take(i as int),
        decreases n - i,
    {
        let e = FileEntry {
            name: v[i].name.clone(),
            size: v[i].size,
            is_folder: v[i].is_folder,
            id: v[i].id,
        };
        proof {
            assert(e == v@[i as int]);
            assert(v@.take(i as int).push(v@[i as int]) =~= v@.take(i as int + 1));
        }
        r.push(e);
        i = i + 1;
    }
    proof {
        assert(v@.take(n as int) =~= v@);
    }
    r
}

impl ObjectStore {
    /// The listing under `parent`, as recorded in the snapshot.
    pub open spec fn spec_children(&self, parent: ParentRef) -> Seq<FileEntry> {
        match parent {
            ParentRef::Root => self.root@,
            ParentRef::Folder(id) => folder_children(self.folders@, id),
        }
    }

    fn lookup_folder(&self, id: u32) -> (r: Option<&Vec<FileEntry>>)
        ensures
            r matches Some(v) ==> v@ == folder_children(self.folders@, id),
            r is None ==> folder_children(self.folders@, id) =~= Seq::<FileEntry>::empty(),
    {
        let n = self.folders.len();
        let mut i: usize = 0;
        while i < n
            invariant
                i <= n,
                n == self.folders@.len(),
                forall|j: int| 0 <= j < i ==> self.folders@[j].0 != id,
            decreases n - i,
        {
            if self.folders[i].0 == id {
                proof {
                    lemma_folder_children_at(self.folders@, id, i as int);
                }
                return Some(&self.folders[i].1);
            }
            i = i + 1;
        }
        proof {
            lemma_folder_children_none(self.folders@, id);
        }
        None
    }

    /// Resolves `path` to the identifier and folder flag of the entry it
    /// names, walking one children-of lookup per segment.
    fn resolve_raw(&self, path: &str) -> (r: Result<(u32, bool), ResolveError>)
        ensures
            match spec_resolve(self, path@) {
                SpecResolution::RootPath => r matches Err(e) && e is RootUnaddressable,
                SpecResolution::Found(entry) => r == Ok::<(u32, bool), ResolveError>(
                    (entry.id, entry.is_folder),
                ),
                SpecResolution::NotFound(s) => r matches Err(e) && (e
                    matches ResolveError::NotFound(m) && m@ == s),
                SpecResolution::NotADirectory(s) => r matches Err(e) && (e
                    matches ResolveError::NotADirectory(m) && m@ == s),
            },
    {
        let ghost segs = spec_segments(path@);
        let mut st = match ResolveState::begin(path) {
            Err(e) => {
                return Err(e);
            },
            Ok(st) => st,
        };
        proof {
            assert(segs.skip(0) =~= segs);
        }
        loop
            invariant
                st.inv(),
                st.spec_segments() == segs,
                segs == spec_segments(path@),
                spec_resolve_from(self, st.spec_parent(), segs.skip(st.spec_pos()))
                    == spec_resolve(self, path@),
            decreases segs.len() - st.spec_pos(),
        {
            let ghost rem = segs.skip(st.spec_pos());
            let ghost pos = st.spec_pos();
            proof {
                assert(rem[0] == segs[pos]);
            }
            let parent = st.parent();
            let out = match parent {
                ParentRef::Root => st.step(&self.root),
                ParentRef::Folder(id) => {
                    match self.lookup_folder(id) {
                        Some(v) => st.step(v),
                        None => {
                            let empty: Vec<FileEntry> = Vec::new();
                            st.step(&empty)
                        },
                    }
                },
            };
            match out {
                StepOutcome::Continue => {
                    proof {
                        assert(rem.drop_first() =~= segs.skip(pos + 1));
                    }
                },
                StepOutcome::Resolved { id, is_folder } => {
                    return Ok((id, is_folder));
                },
                StepOutcome::Failed(e) => {
                    return Err(e);
                },
            }
        }
    }

    /// Resolves `path` to the identifier of the entry it names.  The root
    /// path has no identifier and is rejected with `RootUnaddressable`;
    /// a failed lookup names the exact segment that failed.
    pub fn resolve(&self, path: &str) -> (r: Result<u32, ResolveError>)
        ensures
            match spec_resolve(self, path@) {
                SpecResolution::RootPath => r matches Err(e) && e is RootUnaddressable,
                SpecResolution::Found(entry) => r == Ok::<u32, ResolveError>(entry.id),
                SpecResolution::NotFound(s) => r matches Err(e) && (e
                    matches ResolveError::NotFound(m) && m@ == s),
                SpecResolution::NotADirectory(s) => r matches Err(e) && (e
                    matches ResolveError::NotADirectory(m) && m@ == s),
            },
    {
        match self.resolve_raw(path) {
            Ok((id, _)) => Ok(id),
            Err(e) => Err(e),
        }
    }

    /// Lists the entries directly under `path`: the root listing for the
    /// root path, else the children of the folder the path resolves to.
    /// A path resolving to a file is refused with `NotADirectory` naming
    /// the final segment.  Entries come back exactly as recorded: unsorted,
    /// unfiltered.
    pub fn list(&self, path: &str) -> (r: Result<Vec<FileEntry>, ResolveError>)
        ensures
            spec_segments(path@).len() == 0 ==> (r matches Ok(v) && v@ == self.spec_children(
                ParentRef::Root,
            )),
            spec_segments(path@).len() > 0 ==> match spec_resolve(self, path@) {
                SpecResolution::RootPath => false,
                SpecResolution::Found(entry) => {
                    if entry.is_folder {
                        r matches Ok(v) && v@ == self.spec_children(ParentRef::Folder(entry.id))
                    } else {
                        r matches Err(e) && (e matches ResolveError::NotADirectory(m) && m@
                            == spec_segments(path@).last())
                    }
                },
                SpecResolution::NotFound(s) => r matches Err(e) && (e
                    matches ResolveError::NotFound(m) && m@ == s),
                SpecResolution::NotADirectory(s) => r matches Err(e) && (e
                    matches ResolveError::NotADirectory(m) && m@ == s),
            },
    {
        let segs = split_path(path);
        if segs.len() == 0 {
            proof {
                lemma_root_path_never_not_found(self, path@);
            }
            Ok(clone_entries(&self.root))
        } else {
            proof {
                lemma_resolve_not_rootpath(self, ParentRef::Root, spec_segments(path@));
            }
            match self.resolve_raw(path) {
                Err(e) => Err(e),
                Ok((id, is_folder)) => {
                    if !is_folder {
                        let last = segs[segs.len() - 1].clone();
                        proof {
                            assert(seq_views(segs@)[segs@.len() - 1] == spec_segments(
                                path@,
                            ).last());
                        }
                        Err(ResolveError::NotADirectory(last))
                    } else {
                        match self.lookup_folder(id) {
                            Some(v) => Ok(clone_entries(v)),
                            None => Ok(Vec::new()),
                        }
                    }
                },
            }
        }
    }
}

// ---------------------------------------------------------------------------
// Laws of resolution
// ---------------------------------------------------------------------------
/// A path that still has segments never resolves to the bare root.
pub proof fn lemma_resolve_not_rootpath(
    store: &ObjectStore,
    parent: ParentRef,
    segs: Seq<Seq<char>>,
)
    requires
        segs.len() > 0,
    ensures
        !(spec_resolve_from(store, parent, segs) is RootPath),
    decreases segs.len(),
{
    let children = store.spec_children(parent);
    if segs.len() > 1 {
        match first_match_idx(children, segs[0]) {
            None => {},
            Some(i) => {
                if children[i].is_folder {
                    lemma_resolve_not_rootpath(
                        store,
                        ParentRef::Folder(children[i].id),
                        segs.drop_first(),
                    );
                }
            },
        }
    }
}

/// The manual stepwise walk: children-of the current parent, first match on
/// the head segment, descend into folders only, accept whatever entry the
/// final segment names.
pub open spec fn spec_manual_walk(
    store: &ObjectStore,
    parent: ParentRef,
    segs: Seq<Seq<char>>,
) -> Option<FileEntry>
    decreases segs.len(),
{
    if segs.len() == 0 {
        None
    } else {
        let children = store.spec_children(parent);
        match first_match_idx(children, segs[0]) {
            None => None,
            Some(i) => {
                let e = children[i];
                if segs.len() == 1 {
                    Some(e)
                } else if e.is_folder {
                    spec_manual_walk(store, ParentRef::Folder(e.id), segs.drop_first())
                } else {
                    None
                }
            },
        }
    }
}

/// Law: whenever the manual stepwise walk over `children_of` reaches an
/// entry, resolution returns exactly that entry — `resolve` is the walk.
pub proof fn lemma_resolve_matches_manual_walk(
    store: &ObjectStore,
    parent: ParentRef,
    segs: Seq<Seq<char>>,
)
    requires
        spec_manual_walk(store, parent, segs) is Some,
    ensures
        spec_resolve_from(store, parent, segs) == SpecResolution::Found(
            spec_manual_walk(store, parent, segs)->0,
        ),
    decreases segs.len(),
{
    let children = store.spec_children(parent);
    if segs.len() > 1 {
        match first_match_idx(children, segs[0]) {
            None => {},
            Some(i) => {
                if children[i].is_folder {
                    lemma_resolve_matches_manual_walk(
                        store,
                        ParentRef::Folder(children[i].id),
                        segs.drop_first(),
                    );
                }
            },
        }
    }
}

/// Law: a path with no segments (the empty path, `"/"`, any run of
/// separators) hits the root restriction and is never reported as a
/// missing entry.
pub proof fn lemma_root_path_never_not_found(store: &ObjectStore, path: Seq<char>)
    requires
        spec_segments(path).len() == 0,
    ensures
        spec_resolve(store, path) == SpecResolution::RootPath,
        !(spec_resolve(store, path) is NotFound),
{
}

/// Law: a non-final segment whose first match is a file stops resolution
/// right there, with `NotADirectory` naming exactly that segment; listings
/// deeper down are never consulted.
pub proof fn lemma_file_in_middle_fails(
    store: &ObjectStore,
    parent: ParentRef,
    segs: Seq<Seq<char>>,
)
    requires
        segs.len() > 1,
        ({
            let children = store.spec_children(parent);
            first_match_idx(children, segs[0]) matches Some(i) && !children[i].is_folder
        }),
    ensures
        spec_resolve_from(store, parent, segs) == SpecResolution::NotADirectory(segs[0]),
{
}

/// Law: a segment with no match under its parent fails resolution with
/// `NotFound` naming exactly that segment.
pub proof fn lemma_unmatched_segment_fails(
    store: &ObjectStore,
    parent: ParentRef,
    segs: Seq<Seq<char>>,
)
    requires
        segs.len() > 0,
        first_match_idx(store.spec_children(parent), segs[0]) is None,
    ensures
        spec_resolve_from(store, parent, segs) == SpecResolution::NotFound(segs[0]),
{
}

/// Law: resolution descends: under a folder match on a non-final segment,
/// resolving the whole path is resolving the rest under that folder.  With
/// the three lemmas above this pins the entire walk, segment by segment.
pub proof fn lemma_resolve_descends(store: &ObjectStore, parent: ParentRef, segs: Seq<Seq<char>>)
    requires
        segs.len() > 1,
        ({
            let children = store.spec_children(parent);
            first_match_idx(children, segs[0]) matches Some(i) && children[i].is_folder
        }),
    ensures
        ({
            let children = store.spec_children(parent);
            let i = first_match_idx(children, segs[0])->0;
            spec_resolve_from(store, parent, segs) == spec_resolve_from(
                store,
                ParentRef::Folder(children[i].id),
                segs.drop_first(),
            )
        }),
{
}

} // verus!
