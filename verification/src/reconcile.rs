//! The reconciler: what a manifest becomes when a package is added.
//!
//! The lines of the installer snapshot that begin with the package's name
//! are appended to the manifest as it was. Then a line that repeats its
//! immediate predecessor is dropped, and after that every empty line.

use vstd::prelude::*;
use vstd::std_specs::iter::IteratorSpec;

verus! {

broadcast use {vstd::string::group_string_axioms, vstd::std_specs::vec::group_vec_axioms};

/// The lines of `snapshot` that begin with `name`, in the order of the
/// snapshot. The match is on characters and with regard to case; a line
/// that only shares the prefix with the package is selected too.
pub open spec fn matching(snapshot: Seq<Seq<char>>, name: Seq<char>) -> Seq<Seq<char>> {
    snapshot.filter(|line: Seq<char>| name.is_prefix_of(line))
}

/// `lines` without each line that equals the line just before it. Of a
/// run of equal neighbours the first stays; equal lines that are apart
/// both stay.
pub open spec fn compacted(lines: Seq<Seq<char>>) -> Seq<Seq<char>>
    decreases lines.len(),
{
    if lines.len() <= 1 {
        lines
    } else if lines[lines.len() - 2] == lines.last() {
        compacted(lines.drop_last())
    } else {
        compacted(lines.drop_last()).push(lines.last())
    }
}

/// `lines` without its empty lines.
pub open spec fn without_blank(lines: Seq<Seq<char>>) -> Seq<Seq<char>> {
    lines.filter(|line: Seq<char>| line.len() > 0)
}

/// The manifest after `name` was added: `prior` followed by the matching
/// lines of `snapshot`, compacted, then without empty lines.
pub open spec fn reconciled(
    prior: Seq<Seq<char>>,
    snapshot: Seq<Seq<char>>,
    name: Seq<char>,
) -> Seq<Seq<char>> {
    without_blank(compacted(prior + matching(snapshot, name)))
}

/// Compacting keeps the last line, as the last.
pub proof fn lemma_compacted_last(lines: Seq<Seq<char>>)
    requires
        lines.len() >= 1,
    ensures
        compacted(lines).len() >= 1,
        compacted(lines).last() == lines.last(),
    decreases lines.len(),
{
    if lines.len() >= 2 {
        lemma_compacted_last(lines.drop_last());
    }
}

/// Whether `line` begins with the characters of `name`, compared one by
/// one and with regard to case. Every line begins with the empty name.
pub fn has_prefix(line: &str, name: &str) -> (found: bool)
    ensures
        found == name@.is_prefix_of(line@),
{
    let mut rest_of_line = line.chars();
    let mut rest_of_name = name.chars();
    let ghost mut seen: int = 0;
    loop
        invariant
            0 <= seen <= name@.len(),
            seen <= line@.len(),
            rest_of_line.obeys_prophetic_iter_laws(),
            rest_of_name.obeys_prophetic_iter_laws(),
            rest_of_line.remaining() == line@.skip(seen),
            rest_of_name.remaining() == name@.skip(seen),
            name@.take(seen) == line@.take(seen),
        decreases name@.len() - seen,
    {
        match rest_of_name.next() {
            None => {
                assert(name@.take(seen) == name@);
                return true;
            },
            Some(wanted) => {
                match rest_of_line.next() {
                    None => {
                        return false;
                    },
                    Some(given) => {
                        if wanted != given {
                            assert(name@[seen] != line@[seen]);
                            return false;
                        }
                        proof {
                            assert(name@.take(seen + 1) == name@.take(seen).push(name@[seen]));
                            assert(line@.take(seen + 1) == line@.take(seen).push(line@[seen]));
                            assert(line@.skip(seen).drop_first() == line@.skip(seen + 1));
                            assert(name@.skip(seen).drop_first() == name@.skip(seen + 1));
                            seen = seen + 1;
                        }
                    },
                }
            },
        }
    }
}

/// Keeps the lines of the snapshot that begin with `name`.
pub fn filter_by_prefix(snapshot: Vec<String>, name: &str) -> (kept: Vec<String>)
    ensures
        kept.deep_view() == matching(snapshot.deep_view(), name@),
{
    let ghost all = snapshot.deep_view();
    let ghost wanted = |line: Seq<char>| name@.is_prefix_of(line);
    let mut kept: Vec<String> = Vec::new();
    proof {
        reveal(Seq::filter);
        assert(kept.deep_view() =~= all.take(0).filter(wanted));
    }
    for line in it: snapshot
        invariant
            all == it.seq().map_values(|s: String| s@),
            wanted == |line: Seq<char>| name@.is_prefix_of(line),
            kept.deep_view() == all.take(it.index()).filter(wanted),
    {
        let ghost before = kept.deep_view();
        let ghost seen = it.index();
        proof {
            reveal(Seq::filter);
            assert(all.take(seen + 1).drop_last() =~= all.take(seen));
            assert(all.take(seen + 1).last() == line@);
        }
        if has_prefix(line.as_str(), name) {
            kept.push(line);
            assert(kept.deep_view() =~= before.push(line@));
        } else {
            assert(kept.deep_view() =~= before);
        }
    }
    proof {
        assert(all.take(all.len() as int) =~= all);
    }
    kept
}

/// Drops each line that equals the line just before it.
pub fn dedup_adjacent(lines: Vec<String>) -> (kept: Vec<String>)
    ensures
        kept.deep_view() == compacted(lines.deep_view()),
{
    let ghost all = lines.deep_view();
    let mut kept: Vec<String> = Vec::new();
    proof {
        assert(kept.deep_view() =~= compacted(all.take(0)));
    }
    for line in it: lines
        invariant
            all == it.seq().map_values(|s: String| s@),
            kept.deep_view() == compacted(all.take(it.index())),
    {
        let ghost before = kept.deep_view();
        let ghost seen = it.index();
        proof {
            assert(all.take(seen + 1).drop_last() =~= all.take(seen));
            assert(all.take(seen + 1).last() == line@);
            if seen > 0 {
                lemma_compacted_last(all.take(seen));
                assert(all.take(seen).last() == all.take(seen + 1)[seen - 1]);
            }
        }
        let n = kept.len();
        if n > 0 && kept[n - 1] == line {
            assert(before.last() == kept[n - 1]@);
            assert(kept.deep_view() =~= before);
        } else {
            assert(n > 0 ==> before.last() == kept[n - 1]@);
            kept.push(line);
            assert(kept.deep_view() =~= before.push(line@));
        }
    }
    proof {
        assert(all.take(all.len() as int) =~= all);
    }
    kept
}

/// Drops the empty lines.
pub fn strip_blank(lines: Vec<String>) -> (kept: Vec<String>)
    ensures
        kept.deep_view() == without_blank(lines.deep_view()),
{
    let ghost all = lines.deep_view();
    let ghost filled = |line: Seq<char>| line.len() > 0;
    let mut kept: Vec<String> = Vec::new();
    proof {
        reveal(Seq::filter);
        assert(kept.deep_view() =~= all.take(0).filter(filled));
    }
    for line in it: lines
        invariant
            all == it.seq().map_values(|s: String| s@),
            filled == |line: Seq<char>| line.len() > 0,
            kept.deep_view() == all.take(it.index()).filter(filled),
    {
        let ghost before = kept.deep_view();
        let ghost seen = it.index();
        proof {
            reveal(Seq::filter);
            assert(all.take(seen + 1).drop_last() =~= all.take(seen));
            assert(all.take(seen + 1).last() == line@);
        }
        if line.as_str().is_empty() {
            assert(kept.deep_view() =~= before);
        } else {
            kept.push(line);
            assert(kept.deep_view() =~= before.push(line@));
        }
    }
    proof {
        assert(all.take(all.len() as int) =~= all);
    }
    kept
}

/// Computes the manifest after `name` was added, from the manifest as it
/// was and the installer snapshot taken after the installation.
pub fn reconcile(prior: Vec<String>, snapshot: Vec<String>, name: &str) -> (manifest: Vec<String>)
    ensures
        manifest.deep_view() == reconciled(prior.deep_view(), snapshot.deep_view(), name@),
{
    let mut merged = prior;
    let mut added = filter_by_prefix(snapshot, name);
    let ghost found = added.deep_view();
    merged.append(&mut added);
    assert(merged.deep_view() =~= prior.deep_view() + found);
    strip_blank(dedup_adjacent(merged))
}

} // verus!
