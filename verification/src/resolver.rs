use vstd::prelude::*;

use crate::device::{FileEntry, ParentRef};
use crate::error::Error;
use crate::text::seq_views;

verus! {

// ---------------------------------------------------------------------------
// Path segmentation
// ---------------------------------------------------------------------------
/// Splits `s` on `'/'`, dropping empty pieces, with `cur` the piece read so
/// far.  Leading, trailing and doubled separators therefore contribute
/// nothing: only non-empty segments remain.
pub open spec fn spec_segments_acc(s: Seq<char>, cur: Seq<char>) -> Seq<Seq<char>>
    decreases s.len(),
{
    if s.len() == 0 {
        if cur.len() > 0 {
            seq![cur]
        } else {
            Seq::empty()
        }
    } else if s[0] == '/' {
        if cur.len() > 0 {
            seq![cur] + spec_segments_acc(s.drop_first(), Seq::empty())
        } else {
            spec_segments_acc(s.drop_first(), Seq::empty())
        }
    } else {
        spec_segments_acc(s.drop_first(), cur.push(s[0]))
    }
}

/// The ordered non-empty segments of a slash-separated path.
pub open spec fn spec_segments(s: Seq<char>) -> Seq<Seq<char>> {
    spec_segments_acc(s, Seq::empty())
}

proof fn lemma_seq_views_push(s: Seq<String>, x: String)
    ensures
        seq_views(s.push(x)) =~= seq_views(s).push(x@),
{
}

/// Splits a path into its ordered non-empty segments.
pub fn split_path(path: &str) -> (segs: Vec<String>)
    ensures
        seq_views(segs@) == spec_segments(path@),
{
    let n: usize = path.unicode_len();
    let mut segs: Vec<String> = Vec::new();
    let mut start: usize = 0;
    let mut i: usize = 0;
    proof {
        assert(path@.skip(0) =~= path@);
        assert(path@.subrange(0, 0) =~= Seq::<char>::empty());
        assert(seq_views(segs@) + spec_segments_acc(path@, Seq::empty()) =~= spec_segments_acc(
            path@,
            Seq::empty(),
        ));
    }
    while i < n
        invariant
            start <= i <= n,
            n == path@.len(),
            spec_segments(path@) =~= seq_views(segs@) + spec_segments_acc(
                path@.skip(i as int),
                path@.subrange(start as int, i as int),
            ),
        decreases n - i,
    {
        let ghost rest = path@.skip(i as int);
        let ghost cur = path@.subrange(start as int, i as int);
        proof {
            assert(rest[0] == path@[i as int]);
            assert(rest.drop_first() =~= path@.skip(i as int + 1));
        }
        let c = path.get_char(i);
        if c == '/' {
            if start < i {
                let piece = path.substring_char(start, i);
                segs.push(String::from_str(piece));
                proof {
                    lemma_seq_views_push(segs@.drop_last(), segs@.last());
                    assert(seq_views(segs@.drop_last()).push(cur) =~= seq_views(segs@.drop_last())
                        + seq![cur]);
                    assert(segs@.drop_last().push(segs@.last()) =~= segs@);
                }
            }
            start = i + 1;
            proof {
                assert(path@.subrange(start as int, start as int) =~= Seq::<char>::empty());
            }
        } else {
            proof {
                assert(cur.push(path@[i as int]) =~= path@.subrange(start as int, i as int + 1));
            }
        }
        i = i + 1;
    }
    proof {
        assert(path@.skip(n as int) =~= Seq::<char>::empty());
    }
    if start < n {
        let piece = path.substring_char(start, n);
        segs.push(String::from_str(piece));
        proof {
            lemma_seq_views_push(segs@.drop_last(), segs@.last());
            assert(segs@.drop_last().push(segs@.last()) =~= segs@);
            assert(seq_views(segs@.drop_last()).push(path@.subrange(start as int, n as int))
                =~= seq_views(segs@.drop_last()) + seq![path@.subrange(start as int, n as int)]);
        }
    }
    proof {
        assert(seq_views(segs@) + Seq::<Seq<char>>::empty() =~= seq_views(segs@));
    }
    segs
}

// ---------------------------------------------------------------------------
// First-match lookup: duplicate names are possible in a flat object store,
// and the first entry in adapter iteration order wins.
// ---------------------------------------------------------------------------
/// The index of the first entry named `name`, if any.
pub open spec fn first_match_idx(entries: Seq<FileEntry>, name: Seq<char>) -> Option<int>
    decreases entries.len(),
{
    if entries.len() == 0 {
        None
    } else if entries[0].name@ == name {
        Some(0)
    } else {
        match first_match_idx(entries.drop_first(), name) {
            None => None,
            Some(i) => Some(i + 1),
        }
    }
}

/// What a first-match index means: it is in range, it names a match, and
/// nothing before it does; absence means nothing matches at all.
pub proof fn lemma_first_match_props(entries: Seq<FileEntry>, name: Seq<char>)
    ensures
        match first_match_idx(entries, name) {
            Some(i) => 0 <= i < entries.len() && entries[i].name@ == name && (forall|j: int|
                0 <= j < i ==> entries[j].name@ != name),
            None => forall|j: int| 0 <= j < entries.len() ==> entries[j].name@ != name,
        },
    decreases entries.len(),
{
    if entries.len() == 0 {
    } else if entries[0].name@ == name {
    } else {
        let rest = entries.drop_first();
        lemma_first_match_props(rest, name);
        assert(forall|j: int| 0 <= j < rest.len() ==> rest[j] == entries[j + 1]);
        match first_match_idx(rest, name) {
            Some(i) => {
                assert(first_match_idx(entries, name) == Some(i + 1));
                assert(entries[i + 1] == rest[i]);
                assert forall|j: int| 0 <= j < i + 1 implies entries[j].name@ != name by {
                    if j > 0 {
                        assert(entries[j] == rest[j - 1]);
                    }
                }
            },
            None => {
                assert forall|j: int| 0 <= j < entries.len() implies entries[j].name@ != name by {
                    if j > 0 {
                        assert(entries[j] == rest[j - 1]);
                    }
                }
            },
        }
    }
}

/// A position that matches, with no match before it, is the first match.
pub proof fn lemma_first_match_at(entries: Seq<FileEntry>, name: Seq<char>, i: int)
    requires
        0 <= i < entries.len(),
        entries[i].name@ == name,
        forall|j: int| 0 <= j < i ==> entries[j].name@ != name,
    ensures
        first_match_idx(entries, name) == Some(i),
    decreases entries.len(),
{
    if i == 0 {
    } else {
        let rest = entries.drop_first();
        assert(forall|j: int| 0 <= j < rest.len() ==> rest[j] == entries[j + 1]);
        assert(rest[i - 1] == entries[i]);
        lemma_first_match_at(rest, name, i - 1);
    }
}

/// If no entry matches, there is no first match.
pub proof fn lemma_first_match_none(entries: Seq<FileEntry>, name: Seq<char>)
    requires
        forall|j: int| 0 <= j < entries.len() ==> entries[j].name@ != name,
    ensures
        first_match_idx(entries, name) is None,
    decreases entries.len(),
{
    if entries.len() > 0 {
        let rest = entries.drop_first();
        assert(forall|j: int| 0 <= j < rest.len() ==> rest[j] == entries[j + 1]);
        lemma_first_match_none(rest, name);
    }
}

/// Finds the first entry named `name`, in listing order.
pub fn find_first(entries: &Vec<FileEntry>, name: &str) -> (r: Option<usize>)
    ensures
        r matches Some(i) ==> first_match_idx(entries@, name@) == Some(i as int),
        r is None ==> first_match_idx(entries@, name@) is None,
{
    let key = String::from_str(name);
    let n = entries.len();
    let mut i: usize = 0;
    while i < n
        invariant
            i <= n,
            n == entries@.len(),
            key@ == name@,
            forall|j: int| 0 <= j < i ==> entries@[j].name@ != name@,
        decreases n - i,
    {
        if entries[i].name == key {
            proof {
                lemma_first_match_at(entries@, name@, i as int);
            }
            return Some(i);
        }
        i = i + 1;
    }
    proof {
        lemma_first_match_none(entries@, name@);
    }
    None
}

// ---------------------------------------------------------------------------
// Resolution errors and the stepwise resolver
// ---------------------------------------------------------------------------
/// Why a path failed to resolve.  The root itself has no identifier in the
/// object model, so the root path is unresolvable by design; the other two
/// carry the exact offending segment.
#[derive(Debug, Clone)]
pub enum ResolveError {
    RootUnaddressable,
    NotFound(String),
    NotADirectory(String),
}

/// Maps a resolution failure onto the operation-level error surface.
/// The segment rides along untouched; display decoration is left to callers.
pub fn resolve_error_to_error(e: ResolveError) -> (r: Error)
    ensures
        match e {
            ResolveError::RootUnaddressable => r matches Error::InvalidPath(m) && m@
                == "Cannot resolve root path to ID"@,
            ResolveError::NotFound(s) => r matches Error::FileNotFound(m) && m@ == s@,
            ResolveError::NotADirectory(s) => r matches Error::InvalidPath(m) && m@ == s@,
        },
{
    match e {
        ResolveError::RootUnaddressable => Error::InvalidPath(
            String::from_str("Cannot resolve root path to ID"),
        ),
        ResolveError::NotFound(s) => Error::FileNotFound(s),
        ResolveError::NotADirectory(s) => Error::InvalidPath(s),
    }
}

/// What one resolution step decided.
#[derive(Debug)]
pub enum StepOutcome {
    /// Descended into a folder; ask for the children of `parent()` next.
    Continue,
    /// The final segment matched this entry.
    Resolved { id: u32, is_folder: bool },
    /// Resolution failed; the walk is over.
    Failed(ResolveError),
}

/// The stepwise path resolver.
///
/// Resolution alternates a children-of fetch (the caller's side: the device,
/// or an in-memory store) with one decision per segment (this machine).  The
/// caller fetches the children of `parent()` and hands them to `step`, until
/// `step` returns something other than `Continue`.
pub struct ResolveState {
    segments: Vec<String>,
    pos: usize,
    parent: ParentRef,
}

impl ResolveState {
    /// The segment views of the path being resolved.
    pub closed spec fn spec_segments(&self) -> Seq<Seq<char>> {
        seq_views(self.segments@)
    }

    /// How many segments have been consumed.
    pub closed spec fn spec_pos(&self) -> int {
        self.pos as int
    }

    /// The parent whose children the next step will inspect.
    pub closed spec fn spec_parent(&self) -> ParentRef {
        self.parent
    }

    /// An active resolver always has a segment left to look at.
    pub open spec fn inv(&self) -> bool {
        0 <= self.spec_pos() < self.spec_segments().len()
    }

    /// Starts resolving `path`.  The root path (no segments) is rejected
    /// here: root has no identifier, callers address it as `ParentRef::Root`.
    pub fn begin(path: &str) -> (r: Result<ResolveState, ResolveError>)
        ensures
            spec_segments(path@).len() == 0 ==> (r matches Err(e) && e is RootUnaddressable),
            spec_segments(path@).len() > 0 ==> (r matches Ok(st) && st.spec_segments()
                == spec_segments(path@) && st.spec_pos() == 0 && st.spec_parent() == ParentRef::Root
                && st.inv()),
    {
        let segments = split_path(path);
        if segments.len() == 0 {
            Err(ResolveError::RootUnaddressable)
        } else {
            Ok(ResolveState { segments, pos: 0, parent: ParentRef::Root })
        }
    }

    /// The parent whose children the caller should fetch for the next step.
    pub fn parent(&self) -> (p: ParentRef)
        ensures
            p == self.spec_parent(),
    {
        self.parent
    }

    /// One decision of the walk, over the children of `parent()` as the
    /// caller fetched them.  First match wins; a non-final segment must name
    /// a folder; the final segment may name anything.
    pub fn step(&mut self, children: &Vec<FileEntry>) -> (out: StepOutcome)
        requires
            old(self).inv(),
        ensures
            ({
                let seg = old(self).spec_segments()[old(self).spec_pos()];
                let last = old(self).spec_pos() == old(self).spec_segments().len() - 1;
                match first_match_idx(children@, seg) {
                    None => out matches StepOutcome::Failed(e) && e matches ResolveError::NotFound(
                        s,
                    ) && s@ == seg && *final(self) == *old(self),
                    Some(i) => {
                        let e = children@[i];
                        if last {
                            out matches StepOutcome::Resolved { id, is_folder } && id == e.id
                                && is_folder == e.is_folder && *final(self) == *old(self)
                        } else if !e.is_folder {
                            out matches StepOutcome::Failed(err) && err
                                matches ResolveError::NotADirectory(s) && s@ == seg && *final(self)
                                == *old(self)
                        } else {
                            &&& out is Continue
                            &&& final(self).spec_segments() == old(self).spec_segments()
                            &&& final(self).spec_pos() == old(self).spec_pos() + 1
                            &&& final(self).spec_parent() == ParentRef::Folder(e.id)
                            &&& final(self).inv()
                        }
                    },
                }
            }),
    {
        let found = find_first(children, self.segments[self.pos].as_str());
        proof {
            lemma_first_match_props(children@, self.spec_segments()[self.spec_pos()]);
        }
        match found {
            None => StepOutcome::Failed(
                ResolveError::NotFound(self.segments[self.pos].clone()),
            ),
            Some(i) => {
                let is_last = self.pos == self.segments.len() - 1;
                let id = children[i].id;
                let is_folder = children[i].is_folder;
                if is_last {
                    StepOutcome::Resolved { id, is_folder }
                } else if !is_folder {
                    StepOutcome::Failed(
                        ResolveError::NotADirectory(self.segments[self.pos].clone()),
                    )
                } else {
                    self.parent = ParentRef::Folder(id);
                    self.pos = self.pos + 1;
                    StepOutcome::Continue
                }
            },
        }
    }
}

} // verus!
