//! The value-level rules of the two file collaborators: the order in which
//! release notes are presented, and the default applied to the stored save
//! path. The file reading and writing around them stays with the caller.

use vstd::prelude::*;

use crate::order::PathOrder;
use crate::order::cmp_str;
use crate::order::lemma_lex_asym;
use crate::order::lemma_lex_connex;
use crate::order::lemma_lex_irrefl;
use crate::order::lemma_lex_trans;
use crate::order::lex_lt;

verus! {

/// One release note as handed to the presentation layer.
pub struct ReleaseNote {
    pub version: String,
    pub date: String,
    pub channel: String,
    pub content: String,
}

/// Newest first: no later entry has a greater version string.
pub open spec fn sorted_desc(s: Seq<ReleaseNote>) -> bool {
    forall|i: int, j: int| 0 <= i < j < s.len() ==> !lex_lt(s[i].version@, s[j].version@)
}

/// Index at which `v` belongs in the descending list `out`: right before
/// the first entry whose version is strictly below it.
fn find_desc_pos(out: &Vec<ReleaseNote>, v: &String) -> (i: usize)
    requires
        sorted_desc(out@),
    ensures
        0 <= i <= out@.len(),
        forall|k: int| 0 <= k < i ==> !lex_lt(out@[k].version@, v@),
        i < out@.len() ==> lex_lt(out@[i as int].version@, v@),
{
    let len = out.len();
    let mut i: usize = 0;
    while i < len
        invariant
            len == out@.len(),
            0 <= i <= len,
            forall|k: int| 0 <= k < i ==> !lex_lt(out@[k].version@, v@),
        decreases len - i,
    {
        match cmp_str(out[i].version.as_str(), v.as_str()) {
            PathOrder::Before => {
                return i;
            },
            PathOrder::Same => {
                proof {
                    lemma_lex_irrefl(v@);
                }
                i = i + 1;
            },
            PathOrder::After => {
                proof {
                    lemma_lex_asym(v@, out@[i as int].version@);
                }
                i = i + 1;
            },
        }
    }
    i
}

/// Insert one note into a descending list, keeping it descending and
/// adding exactly that note.
fn insert_note_desc(out: &mut Vec<ReleaseNote>, n: ReleaseNote)
    requires
        sorted_desc(old(out)@),
    ensures
        sorted_desc(final(out)@),
        final(out)@.to_multiset() == old(out)@.to_multiset().insert(n),
{
    broadcast use vstd::seq_lib::group_to_multiset_ensures;

    let i = find_desc_pos(out, &n.version);
    let ghost before = out@;
    let ghost v = n.version@;
    out.insert(i, n);
    proof {
        let after = out@;
        assert(after == before.insert(i as int, n));
        assert forall|a: int, b: int| 0 <= a < b < after.len() implies !lex_lt(
            after[a].version@,
            after[b].version@,
        ) by {
            if a < i && b == i {
            } else if a == i && b > i {
                let bv = before[b - 1].version@;
                assert(lex_lt(before[i as int].version@, v));
                if bv == before[i as int].version@ {
                    lemma_lex_asym(bv, v);
                } else {
                    assert(b - 1 > i);
                    assert(!lex_lt(before[i as int].version@, bv));
                    lemma_lex_connex(before[i as int].version@, bv);
                    lemma_lex_trans(bv, before[i as int].version@, v);
                    lemma_lex_asym(bv, v);
                }
            } else if a < i && b > i {
                assert(!lex_lt(before[a].version@, before[b - 1].version@));
            } else if a > i && b > i {
                assert(!lex_lt(before[a - 1].version@, before[b - 1].version@));
            }
        }
        vstd::seq_lib::to_multiset_insert(before, i as int, n);
    }
}

/// Order release notes newest first by version string: the result is
/// descending and holds exactly the notes given.
pub fn sort_release_notes(notes: Vec<ReleaseNote>) -> (r: Vec<ReleaseNote>)
    ensures
        sorted_desc(r@),
        r@.to_multiset() == notes@.to_multiset(),
{
    broadcast use vstd::multiset::group_multiset_axioms;

    let mut rest = notes;
    let mut out: Vec<ReleaseNote> = Vec::new();
    proof {
        assert(out@.to_multiset().add(rest@.to_multiset()) =~= rest@.to_multiset()) by {
            vstd::seq_lib::to_multiset_len(out@);
        };
    }
    while rest.len() > 0
        invariant
            sorted_desc(out@),
            out@.to_multiset().add(rest@.to_multiset()) == notes@.to_multiset(),
        decreases rest@.len(),
    {
        let ghost rest_before = rest@;
        let ghost out_before = out@;
        let n = rest.remove(0);
        proof {
            vstd::seq_lib::to_multiset_remove(rest_before, 0);
            vstd::seq_lib::to_multiset_contains(rest_before, n);
            assert(rest_before.contains(n)) by {
                assert(rest_before[0] == n);
            };
        }
        insert_note_desc(&mut out, n);
        proof {
            assert forall|x: ReleaseNote|
                out@.to_multiset().add(rest@.to_multiset()).count(x) == notes@.to_multiset().count(
                    x,
                ) by {
                assert(out@.to_multiset().count(x) == out_before.to_multiset().insert(n).count(x));
                assert(rest@.to_multiset().count(x) == rest_before.to_multiset().remove(n).count(
                    x,
                ));
            }
            assert(out@.to_multiset().add(rest@.to_multiset()) =~= notes@.to_multiset());
        }
    }
    proof {
        assert forall|x: ReleaseNote|
            out@.to_multiset().count(x) == notes@.to_multiset().count(x) by {
            vstd::seq_lib::to_multiset_contains(rest@, x);
            assert(!rest@.contains(x));
            assert(out@.to_multiset().add(rest@.to_multiset()).count(x) == notes@.to_multiset()
                .count(x));
        }
        assert(out@.to_multiset() =~= notes@.to_multiset());
    }
    out
}

/// Build one release note from an index entry's fields: a missing date
/// reads as empty, a missing channel as the stable channel.
pub fn make_release_note(
    version: String,
    date: Option<String>,
    channel: Option<String>,
    content: String,
) -> (n: ReleaseNote)
    ensures
        n.version == version,
        n.content == content,
        match date {
            Some(d) => n.date == d,
            None => n.date@ == Seq::<char>::empty(),
        },
        match channel {
            Some(c) => n.channel == c,
            None => n.channel@ == "stable"@,
        },
{
    ReleaseNote {
        version,
        date: match date {
            Some(d) => d,
            None => String::new(),
        },
        channel: match channel {
            Some(c) => c,
            None => "stable".to_owned(),
        },
        content,
    }
}

/// The save-path rule: a stored setting wins; without one the fallback
/// (the application-data logs directory) is used.
pub fn resolve_save_path(stored: Option<String>, fallback: String) -> (r: String)
    ensures
        match stored {
            Some(p) => r == p,
            None => r == fallback,
        },
{
    match stored {
        Some(p) => p,
        None => fallback,
    }
}

} // verus!
