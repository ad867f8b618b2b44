use vstd::prelude::*;

use crate::device::FileEntry;

verus! {

broadcast use vstd::seq_lib::group_to_multiset_ensures;

/// Unicode lowercasing of a character sequence, exactly as
/// `str::to_lowercase` performs it.
pub uninterp spec fn lower_of(s: Seq<char>) -> Seq<char>;

/// Relies on `str::to_lowercase`: the lowercased text is a function of the
/// input characters alone.
#[verifier::external_body]
fn to_lower(s: &str) -> (r: String)
    ensures
        r@ == lower_of(s@),
{
    s.to_lowercase()
}

/// Lexicographic order over character sequences, by code point.
pub open spec fn lex_le(a: Seq<char>, b: Seq<char>) -> bool
    decreases a.len(),
{
    if a.len() == 0 {
        true
    } else if b.len() == 0 {
        false
    } else if (a[0] as u32) < (b[0] as u32) {
        true
    } else if (a[0] as u32) > (b[0] as u32) {
        false
    } else {
        lex_le(a.drop_first(), b.drop_first())
    }
}

/// Law: lexicographic order is total.
pub proof fn lemma_lex_le_total(a: Seq<char>, b: Seq<char>)
    ensures
        lex_le(a, b) || lex_le(b, a),
    decreases a.len(),
{
    if a.len() == 0 {
    } else if b.len() == 0 {
    } else if (a[0] as u32) == (b[0] as u32) {
        lemma_lex_le_total(a.drop_first(), b.drop_first());
    }
}

/// Law: lexicographic order is transitive.
pub proof fn lemma_lex_le_trans(a: Seq<char>, b: Seq<char>, c: Seq<char>)
    requires
        lex_le(a, b),
        lex_le(b, c),
    ensures
        lex_le(a, c),
    decreases a.len(),
{
    if a.len() == 0 {
    } else {
        assert(b.len() > 0);
        assert(c.len() > 0);
        if (a[0] as u32) == (b[0] as u32) && (b[0] as u32) == (c[0] as u32) {
            lemma_lex_le_trans(a.drop_first(), b.drop_first(), c.drop_first());
        }
    }
}

/// Browsing order: folders before files, case-insensitive name order within
/// each group.
pub open spec fn entry_le(a: FileEntry, b: FileEntry) -> bool {
    if a.is_folder != b.is_folder {
        a.is_folder
    } else {
        lex_le(lower_of(a.name@), lower_of(b.name@))
    }
}

/// Law: the browsing order is total.
pub proof fn lemma_entry_le_total(a: FileEntry, b: FileEntry)
    ensures
        entry_le(a, b) || entry_le(b, a),
{
    if a.is_folder == b.is_folder {
        lemma_lex_le_total(lower_of(a.name@), lower_of(b.name@));
    }
}

/// Law: the browsing order is transitive.
pub proof fn lemma_entry_le_trans(a: FileEntry, b: FileEntry, c: FileEntry)
    requires
        entry_le(a, b),
        entry_le(b, c),
    ensures
        entry_le(a, c),
{
    if a.is_folder == b.is_folder && b.is_folder == c.is_folder {
        lemma_lex_le_trans(
            lower_of(a.name@),
            lower_of(b.name@),
            lower_of(c.name@),
        );
    }
}

fn lex_le_exec(a: &str, b: &str) -> (r: bool)
    ensures
        r == lex_le(a@, b@),
{
    let an = a.unicode_len();
    let bn = b.unicode_len();
    let mut i: usize = 0;
    proof {
        assert(a@.skip(0) =~= a@);
        assert(b@.skip(0) =~= b@);
    }
    while i < an && i < bn
        invariant
            i <= an,
            i <= bn,
            an == a@.len(),
            bn == b@.len(),
            lex_le(a@, b@) == lex_le(a@.skip(i as int), b@.skip(i as int)),
        decreases an - i,
    {
        proof {
            assert(a@.skip(i as int)[0] == a@[i as int]);
            assert(b@.skip(i as int)[0] == b@[i as int]);
            assert(a@.skip(i as int).drop_first() =~= a@.skip(i as int + 1));
            assert(b@.skip(i as int).drop_first() =~= b@.skip(i as int + 1));
        }
        let ca = a.get_char(i) as u32;
        let cb = b.get_char(i) as u32;
        if ca < cb {
            return true;
        }
        if ca > cb {
            return false;
        }
        i = i + 1;
    }
    proof {
        if i == an {
            assert(a@.skip(i as int).len() == 0);
        } else {
            assert(b@.skip(i as int).len() == 0);
            assert(a@.skip(i as int).len() > 0);
        }
    }
    i >= an
}

/// Compares two entries in browsing order.  Lowercasing is recomputed per
/// comparison; it depends on the names alone, so the order is stable.
fn entry_le_exec(a: &FileEntry, b: &FileEntry) -> (r: bool)
    ensures
        r == entry_le(*a, *b),
{
    if a.is_folder != b.is_folder {
        a.is_folder
    } else {
        let la = to_lower(a.name.as_str());
        let lb = to_lower(b.name.as_str());
        lex_le_exec(la.as_str(), lb.as_str())
    }
}

proof fn lemma_take_indexes(s: Seq<FileEntry>, m: int)
    requires
        0 <= m <= s.len(),
        forall|k1: int, k2: int| 0 <= k1 < k2 < m ==> entry_le(s[k1], s[k2]),
    ensures
        entries_sorted(s.take(m)),
{
    assert forall|k1: int, k2: int| 0 <= k1 < k2 < s.take(m).len() implies entry_le(
        s.take(m)[k1],
        s.take(m)[k2],
    ) by {
        assert(s.take(m)[k1] == s[k1]);
        assert(s.take(m)[k2] == s[k2]);
    }
}

/// A listing in browsing order: every pair of positions is ordered, so all
/// folders precede all files and names are case-insensitively non-decreasing
/// within each group.
pub open spec fn entries_sorted(s: Seq<FileEntry>) -> bool {
    forall|i: int, j: int| 0 <= i < j < s.len() ==> entry_le(s[i], s[j])
}

/// Law: in a listing in browsing order, every folder precedes every file,
/// and within each group the lowercased names are non-decreasing.
pub proof fn lemma_sorted_browsing_shape(s: Seq<FileEntry>)
    requires
        entries_sorted(s),
    ensures
        forall|i: int, j: int|
            0 <= i < j < s.len() && (#[trigger] s[j]).is_folder ==> (#[trigger] s[i]).is_folder,
        forall|i: int, j: int|
            0 <= i < j < s.len() && (#[trigger] s[i]).is_folder == (#[trigger] s[j]).is_folder
                ==> lex_le(lower_of(s[i].name@), lower_of(s[j].name@)),
{
    assert forall|i: int, j: int|
        0 <= i < j < s.len() && (#[trigger] s[j]).is_folder implies (#[trigger] s[i]).is_folder by {
        assert(entry_le(s[i], s[j]));
    }
    assert forall|i: int, j: int|
        0 <= i < j < s.len() && (#[trigger] s[i]).is_folder == (#[trigger] s[j]).is_folder implies lex_le(
        lower_of(s[i].name@),
        lower_of(s[j].name@),
    ) by {
        assert(entry_le(s[i], s[j]));
    }
}

/// Sorts a listing into browsing order, keeping exactly the same entries.
pub fn sort_entries(v: &mut Vec<FileEntry>)
    ensures
        entries_sorted(final(v)@),
        final(v)@.to_multiset() == old(v)@.to_multiset(),
        final(v)@.len() == old(v)@.len(),
{
    let n = v.len();
    let mut i: usize = if n == 0 {
        0
    } else {
        1
    };
    while i < n
        invariant
            1 <= i || n == 0,
            i <= n,
            n == v@.len(),
            entries_sorted(v@.take(i as int)),
            v@.to_multiset() == old(v)@.to_multiset(),
        decreases n - i,
    {
        let mut j: usize = i;
        loop
            invariant
                0 <= j <= i < n,
                n == v@.len(),
                v@.to_multiset() == old(v)@.to_multiset(),
                entries_sorted(v@.subrange(0, j as int)),
                entries_sorted(v@.subrange(j as int, i as int + 1)),
                forall|k1: int, k2: int|
                    0 <= k1 < j && j < k2 <= i ==> entry_le(v@[k1], v@[k2]),
            ensures
                n == v@.len(),
                v@.to_multiset() == old(v)@.to_multiset(),
                entries_sorted(v@.take(i as int + 1)),
            decreases j,
        {
            if j == 0 {
                proof {
                    assert forall|k1: int, k2: int| 0 <= k1 < k2 <= i as int implies entry_le(
                        v@[k1],
                        v@[k2],
                    ) by {
                        assert(v@.subrange(0, i as int + 1)[k1] == v@[k1]);
                        assert(v@.subrange(0, i as int + 1)[k2] == v@[k2]);
                    }
                    lemma_take_indexes(v@, i as int + 1);
                }
                break;
            }
            if entry_le_exec(&v[j - 1], &v[j]) {
                proof {
                    assert forall|k1: int, k2: int| 0 <= k1 < k2 <= i as int implies entry_le(
                        v@[k1],
                        v@[k2],
                    ) by {
                        if k2 < j {
                            assert(v@.subrange(0, j as int)[k1] == v@[k1]);
                            assert(v@.subrange(0, j as int)[k2] == v@[k2]);
                        } else if k1 >= j {
                            assert(v@.subrange(j as int, i as int + 1)[k1 - j] == v@[k1]);
                            assert(v@.subrange(j as int, i as int + 1)[k2 - j] == v@[k2]);
                        } else if k2 == j {
                            assert(v@.subrange(0, j as int)[k1] == v@[k1]);
                            if k1 < j - 1 {
                                assert(v@.subrange(0, j as int)[j - 1] == v@[j - 1]);
                                lemma_entry_le_trans(v@[k1], v@[j as int - 1], v@[j as int]);
                            }
                        } else {
                            // k1 < j < k2
                            assert(entry_le(v@[k1], v@[k2]));
                        }
                    }
                    lemma_take_indexes(v@, i as int + 1);
                }
                break;
            }
            proof {
                lemma_entry_le_total(v@[j as int - 1], v@[j as int]);
            }
            let ghost prev = v@;
            let x = v.remove(j);
            v.insert(j - 1, x);
            proof {
                assert(v@ =~= prev.update(j as int, prev[j as int - 1]).update(
                    j as int - 1,
                    prev[j as int],
                ));
                assert(prev.remove(j as int).to_multiset() =~= prev.to_multiset().remove(
                    prev[j as int],
                ));
                assert(v@.to_multiset() =~= prev.remove(j as int).to_multiset().insert(
                    prev[j as int],
                ));
                assert(prev.contains(prev[j as int]));
                assert(prev.to_multiset().count(prev[j as int]) > 0);
                assert(v@.to_multiset() =~= prev.to_multiset());
                // order facts carried across the swap
                assert forall|k: int| 0 <= k < n && k != j && k != j - 1 implies v@[k] == prev[k]
                    by {}
                assert(v@[j as int - 1] == prev[j as int]);
                assert(v@[j as int] == prev[j as int - 1]);
                // the old invariants, spelled index-wise over prev
                assert forall|k1: int, k2: int| 0 <= k1 < k2 < j implies entry_le(
                    prev[k1],
                    prev[k2],
                ) by {
                    assert(prev.subrange(0, j as int)[k1] == prev[k1]);
                    assert(prev.subrange(0, j as int)[k2] == prev[k2]);
                }
                assert forall|k1: int, k2: int| j <= k1 < k2 <= i implies entry_le(
                    prev[k1],
                    prev[k2],
                ) by {
                    assert(prev.subrange(j as int, i as int + 1)[k1 - j] == prev[k1]);
                    assert(prev.subrange(j as int, i as int + 1)[k2 - j] == prev[k2]);
                }
                // the new prefix: untouched
                assert forall|k1: int, k2: int| 0 <= k1 < k2 < j - 1 implies #[trigger] entry_le(
                    v@[k1],
                    v@[k2],
                ) by {
                    assert(entry_le(prev[k1], prev[k2]));
                }
                assert(entries_sorted(v@.subrange(0, j as int - 1)));
                // the new suffix: swapped head pair, then the old tail
                assert forall|k1: int, k2: int|
                    j - 1 <= k1 < k2 <= i implies entry_le(v@[k1], v@[k2]) by {
                    if k1 == j - 1 && k2 == j {
                        // totality: the exec comparison said the pair was out
                        // of order, so the reverse holds
                    } else if k1 == j - 1 {
                        // v[j-1] = prev[j] <= prev[k2] since the old suffix
                        // was sorted from j on
                        assert(entry_le(prev[j as int], prev[k2]));
                    } else if k1 == j {
                        // v[j] = prev[j-1] <= prev[k2] by the old cross fact
                        assert(entry_le(prev[j as int - 1], prev[k2]));
                    } else {
                        assert(entry_le(prev[k1], prev[k2]));
                    }
                }
                assert forall|k1: int, k2: int|
                    0 <= k1 < k2 < v@.subrange(j as int - 1, i as int + 1).len()
                    implies #[trigger] entry_le(
                    v@.subrange(j as int - 1, i as int + 1)[k1],
                    v@.subrange(j as int - 1, i as int + 1)[k2],
                ) by {
                    assert(v@.subrange(j as int - 1, i as int + 1)[k1] == v@[k1 + j - 1]);
                    assert(v@.subrange(j as int - 1, i as int + 1)[k2] == v@[k2 + j - 1]);
                }
                assert(entries_sorted(v@.subrange(j as int - 1, i as int + 1)));
                // the new cross fact at j - 1
                assert forall|k1: int, k2: int|
                    0 <= k1 < j - 1 && j - 1 < k2 <= i implies entry_le(v@[k1], v@[k2]) by {
                    if k2 == j {
                        assert(entry_le(prev[k1], prev[j as int - 1]));
                    } else {
                        assert(entry_le(prev[k1], prev[k2]));
                    }
                }
            }
            j = j - 1;
        }
        i = i + 1;
    }
    proof {
        assert(v@.take(n as int) =~= v@);
        if n == 0 {
            assert(entries_sorted(v@));
        }
    }
}

} // verus!
