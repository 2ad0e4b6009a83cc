//! Port discovery: picking the pseudo-terminal candidates out of a device
//! directory's entries, and merging them with the hardware enumeration
//! into one deduplicated, ascending list.
//!
//! The caller performs the outside work — walking the device directory and
//! querying the serial layer — and hands the results in as plain values;
//! every rule applied to them is verified here. Discovery never fails: a
//! failing hardware enumeration counts as zero results from that source.

use vstd::prelude::*;

use crate::classify::is_substring_at;
use crate::classify::matches_at;
use crate::order::PathOrder;
use crate::order::cmp_str;
use crate::order::lemma_lex_irrefl;
use crate::order::lemma_lex_trans;
use crate::order::lex_lt;

verus! {

/// Strictly ascending by path text: sorted, with no duplicate entries.
pub open spec fn sorted_port_list(s: Seq<String>) -> bool {
    forall|i: int, j: int| 0 <= i < j < s.len() ==> lex_lt(s[i]@, s[j]@)
}

/// Some entry of `s` reads `p`.
pub open spec fn contains_path(s: Seq<String>, p: Seq<char>) -> bool {
    exists|i: int| 0 <= i < s.len() && s[i]@ == p
}

/// A strictly ascending list holds no path twice.
pub proof fn lemma_sorted_no_dups(s: Seq<String>)
    requires
        sorted_port_list(s),
    ensures
        forall|i: int, j: int| 0 <= i < j < s.len() ==> s[i]@ != s[j]@,
{
    assert forall|i: int, j: int| 0 <= i < j < s.len() implies s[i]@ != s[j]@ by {
        lemma_lex_irrefl(s[i]@);
    }
}

/// Insert `p` into a strictly ascending list, keeping it so: the entry is
/// skipped when its text is already present.
fn insert_port(ports: &mut Vec<String>, p: String)
    requires
        sorted_port_list(old(ports)@),
    ensures
        sorted_port_list(final(ports)@),
        forall|x: Seq<char>|
            contains_path(final(ports)@, x) <==> contains_path(old(ports)@, x) || x == p@,
{
    let len = ports.len();
    let mut i: usize = 0;
    while i < len
        invariant
            len == ports@.len(),
            0 <= i <= len,
            *ports == *old(ports),
            sorted_port_list(ports@),
            forall|k: int| 0 <= k < i ==> lex_lt(ports@[k]@, p@),
        decreases len - i,
    {
        match cmp_str(ports[i].as_str(), p.as_str()) {
            PathOrder::Before => {
                i = i + 1;
            },
            PathOrder::Same => {
                assert(contains_path(ports@, p@));
                assert(forall|x: Seq<char>|
                    contains_path(ports@, x) <==> contains_path(old(ports)@, x) || x == p@);
                return ;
            },
            PathOrder::After => {
                let ghost before = ports@;
                ports.insert(i, p);
                proof {
                    let after = ports@;
                    assert(after == before.insert(i as int, p));
                    assert forall|a: int, b: int| 0 <= a < b < after.len() implies lex_lt(
                        after[a]@,
                        after[b]@,
                    ) by {
                        if a < i && b == i {
                        } else if a == i && b > i {
                            assert(lex_lt(p@, before[i as int]@));
                            if b > i + 1 {
                                lemma_lex_trans(p@, before[i as int]@, before[b - 1]@);
                            }
                        } else if a < i && b > i {
                            assert(lex_lt(before[a]@, before[b - 1]@));
                        } else if a > i && b > i {
                            assert(lex_lt(before[a - 1]@, before[b - 1]@));
                        }
                    }
                    assert forall|x: Seq<char>|
                        contains_path(after, x) <==> contains_path(before, x) || x == p@ by {
                        if contains_path(after, x) {
                            let w = choose|w: int| 0 <= w < after.len() && after[w]@ == x;
                            if w < i {
                                assert(before[w]@ == x);
                            } else if w == i {
                            } else {
                                assert(before[w - 1]@ == x);
                            }
                        }
                        if contains_path(before, x) {
                            let w = choose|w: int| 0 <= w < before.len() && before[w]@ == x;
                            if w < i {
                                assert(after[w]@ == x);
                            } else {
                                assert(after[w + 1]@ == x);
                            }
                        }
                        if x == p@ {
                            assert(after[i as int]@ == x);
                        }
                    }
                }
                return ;
            },
        }
    }
    let ghost before = ports@;
    ports.push(p);
    proof {
        let after = ports@;
        assert forall|a: int, b: int| 0 <= a < b < after.len() implies lex_lt(after[a]@, after[b]@)
        by {
            if b == after.len() - 1 {
                assert(after[a]@ == before[a]@);
            }
        }
        assert forall|x: Seq<char>|
            contains_path(after, x) <==> contains_path(before, x) || x == p@ by {
            if contains_path(after, x) {
                let w = choose|w: int| 0 <= w < after.len() && after[w]@ == x;
                if w < before.len() {
                    assert(before[w]@ == x);
                }
            }
            if contains_path(before, x) {
                let w = choose|w: int| 0 <= w < before.len() && before[w]@ == x;
                assert(after[w]@ == x);
            }
            if x == p@ {
                assert(after[after.len() - 1]@ == x);
            }
        }
    }
}

/// Merge the two discovery sources into one ascending, duplicate-free
/// list: the result holds exactly the paths of both.
pub fn merge_port_lists(hw: &Vec<String>, scanned: &Vec<String>) -> (r: Vec<String>)
    ensures
        sorted_port_list(r@),
        forall|x: Seq<char>|
            contains_path(r@, x) <==> contains_path(hw@, x) || contains_path(scanned@, x),
{
    let mut out: Vec<String> = Vec::new();
    let mut i: usize = 0;
    while i < hw.len()
        invariant
            0 <= i <= hw@.len(),
            sorted_port_list(out@),
            forall|x: Seq<char>|
                contains_path(out@, x) <==> exists|k: int| 0 <= k < i && hw@[k]@ == x,
        decreases hw@.len() - i,
    {
        insert_port(&mut out, hw[i].clone());
        assert forall|x: Seq<char>|
            contains_path(out@, x) <==> exists|k: int| 0 <= k < i + 1 && hw@[k]@ == x by {
            if contains_path(out@, x) && x != hw@[i as int]@ {
                let k = choose|k: int| 0 <= k < i && hw@[k]@ == x;
                assert(0 <= k < i + 1 && hw@[k]@ == x);
            }
            if x == hw@[i as int]@ {
                assert(0 <= i < i + 1 && hw@[i as int]@ == x);
            }
        }
        i = i + 1;
    }
    let mut j: usize = 0;
    while j < scanned.len()
        invariant
            0 <= j <= scanned@.len(),
            sorted_port_list(out@),
            forall|x: Seq<char>|
                contains_path(out@, x) <==> contains_path(hw@, x) || exists|k: int|
                    0 <= k < j && scanned@[k]@ == x,
        decreases scanned@.len() - j,
    {
        insert_port(&mut out, scanned[j].clone());
        assert forall|x: Seq<char>|
            contains_path(out@, x) <==> contains_path(hw@, x) || exists|k: int|
                0 <= k < j + 1 && scanned@[k]@ == x by {
            if contains_path(out@, x) && x != scanned@[j as int]@ && !contains_path(hw@, x) {
                let k = choose|k: int| 0 <= k < j && scanned@[k]@ == x;
                assert(0 <= k < j + 1 && scanned@[k]@ == x);
            }
            if x == scanned@[j as int]@ {
                assert(0 <= j < j + 1 && scanned@[j as int]@ == x);
            }
        }
        j = j + 1;
    }
    out
}

/// Which platform scan runs, selected at startup by the caller's target.
pub enum ScanStrategy {
    /// Scan the device directory for the two allow-listed name prefixes
    /// that denote pseudo-terminal mirrors.
    MacScan,
    /// Scan the terminal-slave directory, excluding the control device and
    /// the directory's self and parent entries.
    LinuxScan,
    /// No platform scan on this target.
    NoScan,
}

/// `p` is a prefix of `s`.
pub open spec fn prefix_of(p: Seq<char>, s: Seq<char>) -> bool {
    is_substring_at(p, s, 0)
}

/// A directory entry the first platform's scan keeps.
pub open spec fn mac_keeps(name: Seq<char>) -> bool {
    prefix_of("ttys"@, name) || prefix_of("ptyp"@, name)
}

/// A directory entry the second platform's scan keeps.
pub open spec fn linux_keeps(name: Seq<char>) -> bool {
    name != "ptmx"@ && name != "."@ && name != ".."@
}

/// Whether a scan keeps a directory entry of this name.
pub open spec fn scan_keeps(strategy: ScanStrategy, name: Seq<char>) -> bool {
    match strategy {
        ScanStrategy::MacScan => mac_keeps(name),
        ScanStrategy::LinuxScan => linux_keeps(name),
        ScanStrategy::NoScan => false,
    }
}

/// The directory prefix a scan puts before a kept entry's name.
pub open spec fn scan_dir(strategy: ScanStrategy) -> Seq<char> {
    match strategy {
        ScanStrategy::MacScan => "/dev/"@,
        ScanStrategy::LinuxScan => "/dev/pts/"@,
        ScanStrategy::NoScan => Seq::empty(),
    }
}

/// The candidate paths a scan makes of the directory's entry names: the
/// kept names, in order, each behind the scan's directory prefix.
pub open spec fn scan_spec(strategy: ScanStrategy, names: Seq<Seq<char>>) -> Seq<Seq<char>>
    decreases names.len(),
{
    if names.len() == 0 {
        Seq::empty()
    } else {
        let rest = scan_spec(strategy, names.drop_first());
        if scan_keeps(strategy, names[0]) {
            seq![scan_dir(strategy) + names[0]] + rest
        } else {
            rest
        }
    }
}

/// `p` is a prefix of `s`.
fn has_prefix(s: &str, p: &str) -> (r: bool)
    ensures
        r == prefix_of(p@, s@),
{
    let s_len = s.unicode_len();
    let p_len = p.unicode_len();
    if p_len > s_len {
        assert(!is_substring_at(p@, s@, 0));
        return false;
    }
    matches_at(s, s_len, p, p_len, 0)
}

/// Whether `name` reads the same as `lit`.
fn name_is(name: &String, lit: &str) -> (r: bool)
    ensures
        r == (name@ == lit@),
{
    match cmp_str(name.as_str(), lit) {
        PathOrder::Same => true,
        _ => false,
    }
}

/// Whether a scan keeps a directory entry of this name.
fn keeps_entry(strategy: &ScanStrategy, name: &String) -> (r: bool)
    ensures
        r == scan_keeps(*strategy, name@),
{
    match strategy {
        ScanStrategy::MacScan => {
            has_prefix(name.as_str(), "ttys") || has_prefix(name.as_str(), "ptyp")
        },
        ScanStrategy::LinuxScan => {
            !name_is(name, "ptmx") && !name_is(name, ".") && !name_is(name, "..")
        },
        ScanStrategy::NoScan => false,
    }
}

/// Turn a device directory's entry names into candidate paths: exactly the
/// names the platform's scan keeps, in directory order, each behind the
/// scan's directory prefix. The caller walks the directory and, where the
/// platform asks for it, confirms afterwards that a candidate still exists.
pub fn scan_candidates(strategy: &ScanStrategy, names: &Vec<String>) -> (r: Vec<String>)
    ensures
        r.deep_view() == scan_spec(*strategy, names.deep_view()),
{
    let ghost dv = names.deep_view();
    let mut r: Vec<String> = Vec::new();
    let mut i: usize = 0;
    proof {
        assert(r.deep_view() =~= Seq::<Seq<char>>::empty());
        assert(dv.skip(0) =~= dv);
    }
    while i < names.len()
        invariant
            dv == names.deep_view(),
            0 <= i <= names@.len(),
            r.deep_view() + scan_spec(*strategy, dv.skip(i as int)) == scan_spec(*strategy, dv),
        decreases names@.len() - i,
    {
        proof {
            assert(dv.skip(i as int)[0] == dv[i as int]);
            assert(dv.skip(i as int).drop_first() =~= dv.skip(i + 1 as int));
            assert(dv[i as int] == names@[i as int]@);
        }
        if keeps_entry(strategy, &names[i]) {
            let mut path: String = match strategy {
                ScanStrategy::MacScan => "/dev/".to_owned(),
                ScanStrategy::LinuxScan => "/dev/pts/".to_owned(),
                ScanStrategy::NoScan => String::new(),
            };
            path.append(names[i].as_str());
            let ghost r_dv = r.deep_view();
            r.push(path);
            proof {
                assert forall|j: int| 0 <= j < r.deep_view().len() implies r.deep_view()[j] == (
                r_dv + seq![scan_dir(*strategy) + dv[i as int]])[j] by {
                    assert(r.deep_view()[j] == r@[j]@);
                    if j < r_dv.len() {
                        assert(r@[j]@ == r_dv[j]);
                    }
                }
                assert(r.deep_view() =~= r_dv + seq![scan_dir(*strategy) + dv[i as int]]);
            }
        }
        proof {
            assert(r.deep_view() + scan_spec(*strategy, dv.skip(i + 1 as int)) =~= scan_spec(
                *strategy,
                dv,
            ));
        }
        i = i + 1;
    }
    proof {
        assert(dv.skip(i as int) =~= Seq::<Seq<char>>::empty());
        assert(r.deep_view() + scan_spec(*strategy, dv.skip(i as int)) =~= r.deep_view());
    }
    r
}

/// Enumerate connectable endpoints: what the hardware enumeration reported
/// (an enumeration error counts as zero results from that source, never as
/// a failure of the whole call) merged with the platform-scan candidates,
/// both handed in by the caller. The result is ascending, holds no
/// duplicates, and holds exactly the paths of the two sources.
pub fn list_serial_ports(hardware: Result<Vec<String>, String>, scanned: &Vec<String>) -> (r:
    Result<Vec<String>, String>)
    ensures
        r matches Ok(ports) && sorted_port_list(ports@) && (forall|i: int, j: int|
            0 <= i < j < ports@.len() ==> ports@[i]@ != ports@[j]@) && (forall|x: Seq<char>|
            contains_path(ports@, x) <==> (hardware matches Ok(h) && contains_path(h@, x))
                || contains_path(scanned@, x)),
{
    let hw = match hardware {
        Ok(names) => names,
        Err(_) => Vec::new(),
    };
    let merged = merge_port_lists(&hw, scanned);
    proof {
        lemma_sorted_no_dups(merged@);
    }
    Ok(merged)
}

} // verus!
