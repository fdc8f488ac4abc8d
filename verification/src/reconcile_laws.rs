//! What holds of every reconciliation.
//!
//! A reconciled manifest holds no empty line, moves no line, and begins
//! with what the manifest reconciles to on its own. Reconciling a second
//! time against the same snapshot changes nothing where the reconciled
//! manifest is compact and the lines that match the name are all alike.

use vstd::prelude::*;
use crate::reconcile::{compacted, lemma_compacted_last, matching, reconciled, without_blank};

verus! {

/// Whether no line of `lines` equals the line just before it.
pub open spec fn is_compact(lines: Seq<Seq<char>>) -> bool {
    forall|i: int| 0 < i < lines.len() ==> lines[i - 1] != #[trigger] lines[i]
}

/// Whether `lines` are one and the same line, however often. No line at
/// all is alike too.
pub open spec fn all_alike(lines: Seq<Seq<char>>) -> bool {
    forall|i: int, j: int|
        0 <= i < lines.len() && 0 <= j < lines.len() ==> #[trigger] lines[i] == #[trigger] lines[j]
}

/// Whether none of `lines` is empty.
pub open spec fn blank_free(lines: Seq<Seq<char>>) -> bool {
    forall|i: int| 0 <= i < lines.len() ==> (#[trigger] lines[i]).len() > 0
}

/// What appending `added` to `lines` adds to the compacted lines: the
/// compacted `added`, but for its first line where that repeats the last
/// of `lines`.
pub open spec fn compacted_tail(lines: Seq<Seq<char>>, added: Seq<Seq<char>>) -> Seq<Seq<char>> {
    if lines.len() > 0 && added.len() > 0 && lines.last() == added[0] {
        compacted(added).drop_first()
    } else {
        compacted(added)
    }
}

/// Whether `places` are places in `lines`, each after the one before it,
/// at which the lines of `kept` stand, one by one.
pub open spec fn stands_at(kept: Seq<Seq<char>>, lines: Seq<Seq<char>>, places: Seq<int>) -> bool {
    &&& places.len() == kept.len()
    &&& forall|i: int|
        0 <= i < places.len() ==> 0 <= #[trigger] places[i] < lines.len() && kept[i]
            == lines[places[i]]
    &&& forall|i: int, j: int|
        0 <= i < j < places.len() ==> #[trigger] places[i] < #[trigger] places[j]
}

/// Whether `kept` is made of lines of `lines` in the order in which they
/// stand there: some lines may be left out, none is moved or added.
pub open spec fn keeps_order(kept: Seq<Seq<char>>, lines: Seq<Seq<char>>) -> bool {
    exists|places: Seq<int>| stands_at(kept, lines, places)
}

/// Compacting keeps the first line, as the first.
pub proof fn lemma_compacted_first(lines: Seq<Seq<char>>)
    requires
        lines.len() >= 1,
    ensures
        compacted(lines).len() >= 1,
        compacted(lines)[0] == lines[0],
    decreases lines.len(),
{
    if lines.len() >= 2 {
        lemma_compacted_first(lines.drop_last());
    }
}

/// Compacted lines are compact, and every one of them is one of the lines
/// that were compacted.
pub proof fn lemma_compacted_is_compact(lines: Seq<Seq<char>>)
    ensures
        is_compact(compacted(lines)),
        compacted(lines).len() <= lines.len(),
        forall|i: int| 0 <= i < compacted(lines).len() ==> lines.contains(#[trigger] compacted(lines)[i]),
    decreases lines.len(),
{
    let kept = compacted(lines);
    if lines.len() <= 1 {
        assert forall|i: int| 0 <= i < kept.len() implies lines.contains(#[trigger] kept[i]) by {
            assert(lines[i] == kept[i]);
        }
    } else {
        let init = lines.drop_last();
        lemma_compacted_is_compact(init);
        lemma_compacted_last(init);
        assert forall|i: int| 0 <= i < kept.len() implies lines.contains(#[trigger] kept[i]) by {
            if i < compacted(init).len() {
                assert(init.contains(compacted(init)[i]));
                let k = choose|k: int| 0 <= k < init.len() && init[k] == compacted(init)[i];
                assert(lines[k] == kept[i]);
            } else {
                assert(lines[lines.len() - 1] == kept[i]);
            }
        }
    }
}

/// Compacting changes nothing in lines that are compact, and only in
/// those.
pub proof fn lemma_compact_is_fixed(lines: Seq<Seq<char>>)
    ensures
        is_compact(lines) <==> compacted(lines) == lines,
    decreases lines.len(),
{
    lemma_compacted_is_compact(lines);
    if is_compact(lines) && lines.len() >= 2 {
        let init = lines.drop_last();
        assert(is_compact(init)) by {
            assert forall|i: int| 0 < i < init.len() implies init[i - 1] != #[trigger] init[i] by {
                assert(lines[i - 1] != lines[i]);
            }
        }
        lemma_compact_is_fixed(init);
        assert(lines[lines.len() - 2] != lines[lines.len() - 1]);
        assert(init.push(lines.last()) =~= lines);
    }
}

/// Lines that are all alike compact to one line, and only those compact
/// to one line or none.
pub proof fn lemma_compacted_alike(lines: Seq<Seq<char>>)
    ensures
        all_alike(lines) <==> compacted(lines).len() <= 1,
    decreases lines.len(),
{
    if lines.len() >= 2 {
        let init = lines.drop_last();
        lemma_compacted_alike(init);
        lemma_compacted_last(init);
        if all_alike(lines) {
            assert(all_alike(init)) by {
                assert forall|i: int, j: int|
                    0 <= i < init.len() && 0 <= j < init.len() implies #[trigger] init[i]
                    == #[trigger] init[j] by {
                    assert(lines[i] == lines[j]);
                }
            }
            assert(lines[lines.len() - 2] == lines[lines.len() - 1]);
        }
        if compacted(lines).len() <= 1 {
            assert(lines[lines.len() - 2] == lines.last());
            assert forall|i: int, j: int|
                0 <= i < lines.len() && 0 <= j < lines.len() implies #[trigger] lines[i]
                == #[trigger] lines[j] by {
                let k = lines.len() - 2;
                assert(init[k] == lines[k]);
                if i < init.len() {
                    assert(init[i] == init[k]);
                }
                if j < init.len() {
                    assert(init[j] == init[k]);
                }
            }
        }
    }
}

/// Compacting lines with more lines appended compacts the lines as it
/// would alone, and adds to them what `compacted_tail` says.
pub proof fn lemma_compacted_concat(lines: Seq<Seq<char>>, added: Seq<Seq<char>>)
    ensures
        compacted(lines + added) == compacted(lines) + compacted_tail(lines, added),
    decreases added.len(),
{
    let whole = lines + added;
    if added.len() == 0 {
        assert(whole =~= lines);
        assert(compacted(lines) + compacted_tail(lines, added) =~= compacted(lines));
    } else if added.len() == 1 {
        assert(whole.drop_last() =~= lines);
        if lines.len() == 0 {
            assert(whole =~= added);
            assert(compacted(lines) + compacted_tail(lines, added) =~= compacted(added));
        } else {
            assert(whole[whole.len() - 2] == lines.last());
            assert(whole.last() == added[0]);
            if lines.last() == added[0] {
                assert(compacted(lines) + compacted_tail(lines, added) =~= compacted(lines));
            } else {
                assert(compacted(lines) + compacted_tail(lines, added) =~= compacted(lines).push(
                    added[0],
                ));
            }
        }
    } else {
        let fewer = added.drop_last();
        lemma_compacted_concat(lines, fewer);
        lemma_compacted_last(fewer);
        assert(whole.drop_last() =~= lines + fewer);
        assert(whole[whole.len() - 2] == added[added.len() - 2]);
        assert(whole.last() == added.last());
        assert(fewer[0] == added[0]);
        if added[added.len() - 2] != added.last() {
            assert(compacted(fewer).push(added.last()).drop_first() =~= compacted(
                fewer,
            ).drop_first().push(added.last()));
            assert(compacted(lines + fewer).push(added.last()) =~= compacted(lines)
                + compacted_tail(lines, added));
        }
    }
}

/// Dropping empty lines changes nothing where there is none, and what is
/// left never holds one.
pub proof fn lemma_without_blank(lines: Seq<Seq<char>>)
    ensures
        blank_free(without_blank(lines)),
        blank_free(lines) <==> without_blank(lines) == lines,
        lines.len() > 0 && lines.last().len() > 0 ==> without_blank(lines).len() > 0
            && without_blank(lines).last() == lines.last(),
    decreases lines.len(),
{
    reveal(Seq::filter);
    if lines.len() > 0 {
        let init = lines.drop_last();
        lemma_without_blank(init);
        init.lemma_filter_len(|line: Seq<char>| line.len() > 0);
        if blank_free(lines) {
            assert(blank_free(init)) by {
                assert forall|i: int| 0 <= i < init.len() implies (#[trigger] init[i]).len() > 0 by {
                    assert(lines[i].len() > 0);
                }
            }
            assert(lines.last().len() > 0);
            assert(init.push(lines.last()) =~= lines);
        }
        if without_blank(lines) == lines {
            assert(blank_free(lines));
        }
    } else {
        assert(without_blank(lines) =~= lines);
    }
}

/// Every line that matches a name begins with it, so a name that is not
/// empty matches no empty line.
pub proof fn lemma_matching_begin_with_name(snapshot: Seq<Seq<char>>, name: Seq<char>)
    ensures
        forall|i: int|
            0 <= i < matching(snapshot, name).len() ==> name.is_prefix_of(
                #[trigger] matching(snapshot, name)[i],
            ),
        name.len() > 0 ==> blank_free(matching(snapshot, name)),
{
    let wanted = |line: Seq<char>| name.is_prefix_of(line);
    assert forall|i: int| 0 <= i < matching(snapshot, name).len() implies name.is_prefix_of(
        #[trigger] matching(snapshot, name)[i],
    ) by {
        snapshot.lemma_filter_pred(wanted, i);
    }
}

/// A reconciled manifest holds no empty line.
pub proof fn lemma_reconciled_is_blank_free(
    prior: Seq<Seq<char>>,
    snapshot: Seq<Seq<char>>,
    name: Seq<char>,
)
    ensures
        blank_free(reconciled(prior, snapshot, name)),
{
    lemma_without_blank(compacted(prior + matching(snapshot, name)));
}

/// Adding a package only appends: the reconciled manifest begins with
/// what the manifest alone, with nothing to add, reconciles to. Lines
/// that were there keep their places among themselves, whatever the
/// installer lists.
pub proof fn lemma_reconciled_extends_prior(
    prior: Seq<Seq<char>>,
    snapshot: Seq<Seq<char>>,
    name: Seq<char>,
)
    ensures
        reconciled(prior, Seq::empty(), name).is_prefix_of(reconciled(prior, snapshot, name)),
        reconciled(prior, snapshot, name) == without_blank(compacted(prior)) + without_blank(
            compacted_tail(prior, matching(snapshot, name)),
        ),
{
    let filled = |line: Seq<char>| line.len() > 0;
    let found = matching(snapshot, name);
    lemma_compacted_concat(prior, found);
    Seq::filter_distributes_over_add(compacted(prior), compacted_tail(prior, found), filled);
    assert(matching(Seq::empty(), name) =~= Seq::<Seq<char>>::empty()) by {
        reveal(Seq::filter);
    }
    assert(prior + Seq::<Seq<char>>::empty() =~= prior);
    let alone = without_blank(compacted(prior));
    let more = without_blank(compacted_tail(prior, found));
    assert((alone + more).subrange(0, alone.len() as int) =~= alone);
}

/// Where none of the lines is filled, dropping the empty ones leaves
/// nothing.
proof fn lemma_without_blank_of_blank(lines: Seq<Seq<char>>)
    requires
        forall|i: int| 0 <= i < lines.len() ==> (#[trigger] lines[i]).len() == 0,
    ensures
        without_blank(lines).len() == 0,
    decreases lines.len(),
{
    reveal(Seq::filter);
    if lines.len() > 0 {
        let init = lines.drop_last();
        assert forall|i: int| 0 <= i < init.len() implies (#[trigger] init[i]).len() == 0 by {
            assert(lines[i].len() == 0);
        }
        lemma_without_blank_of_blank(init);
        assert(lines[lines.len() - 1].len() == 0);
    }
}

/// A manifest without empty lines, reconciled for a name that is not
/// empty, is the compacted manifest with the matching lines appended:
/// there is no empty line to drop. It is then compact.
pub proof fn lemma_reconciled_of_blank_free(
    prior: Seq<Seq<char>>,
    snapshot: Seq<Seq<char>>,
    name: Seq<char>,
)
    requires
        blank_free(prior),
        name.len() > 0,
    ensures
        reconciled(prior, snapshot, name) == compacted(prior + matching(snapshot, name)),
        is_compact(reconciled(prior, snapshot, name)),
{
    let merged = prior + matching(snapshot, name);
    lemma_matching_begin_with_name(snapshot, name);
    assert(blank_free(merged));
    lemma_compacted_is_compact(merged);
    assert(blank_free(compacted(merged))) by {
        assert forall|i: int| 0 <= i < compacted(merged).len() implies (#[trigger] compacted(
            merged,
        )[i]).len() > 0 by {
            let line = compacted(merged)[i];
            assert(merged.contains(line));
            let k = choose|k: int| 0 <= k < merged.len() && merged[k] == line;
            assert(merged[k].len() > 0);
        }
    }
    lemma_without_blank(compacted(merged));
}

/// The first run leaves the last matching line at the end of the
/// manifest, if that line is not empty.
proof fn lemma_reconciled_last(prior: Seq<Seq<char>>, snapshot: Seq<Seq<char>>, name: Seq<char>)
    requires
        matching(snapshot, name).len() > 0,
        matching(snapshot, name).last().len() > 0,
    ensures
        reconciled(prior, snapshot, name).len() > 0,
        reconciled(prior, snapshot, name).last() == matching(snapshot, name).last(),
{
    let found = matching(snapshot, name);
    assert((prior + found).last() == found.last());
    lemma_compacted_last(prior + found);
    lemma_without_blank(compacted(prior + found));
}

/// The second run changes nothing where the first left a compact manifest
/// and the matching lines are all alike.
proof fn lemma_second_run_keeps(prior: Seq<Seq<char>>, snapshot: Seq<Seq<char>>, name: Seq<char>)
    requires
        is_compact(reconciled(prior, snapshot, name)),
        all_alike(matching(snapshot, name)),
    ensures
        reconciled(reconciled(prior, snapshot, name), snapshot, name) == reconciled(
            prior,
            snapshot,
            name,
        ),
{
    let filled = |line: Seq<char>| line.len() > 0;
    let found = matching(snapshot, name);
    let once = reconciled(prior, snapshot, name);
    let tail = compacted_tail(once, found);
    lemma_compacted_concat(once, found);
    lemma_compact_is_fixed(once);
    assert(without_blank(once) == once) by {
        lemma_without_blank(compacted(prior + found));
        lemma_without_blank(once);
    }
    assert(without_blank(tail).len() == 0) by {
        if found.len() > 0 {
            lemma_compacted_alike(found);
            lemma_compacted_first(found);
            assert(found[0] == found[found.len() - 1]);
            if found[0].len() > 0 {
                lemma_reconciled_last(prior, snapshot, name);
                assert(tail.len() == 0);
            } else {
                assert forall|i: int| 0 <= i < tail.len() implies (#[trigger] tail[i]).len()
                    == 0 by {
                    assert(tail[i] == compacted(found)[0]);
                }
            }
        }
        lemma_without_blank_of_blank(tail);
    }
    Seq::filter_distributes_over_add(once, tail, filled);
    assert(once + without_blank(tail) =~= once);
}

/// Where the second run, for a name that is not empty, changes nothing,
/// the first left a compact manifest and the matching lines are all alike.
proof fn lemma_second_run_changes(prior: Seq<Seq<char>>, snapshot: Seq<Seq<char>>, name: Seq<char>)
    requires
        name.len() > 0,
        reconciled(reconciled(prior, snapshot, name), snapshot, name) == reconciled(
            prior,
            snapshot,
            name,
        ),
    ensures
        is_compact(reconciled(prior, snapshot, name)),
        all_alike(matching(snapshot, name)),
{
    let found = matching(snapshot, name);
    let once = reconciled(prior, snapshot, name);
    let tail = compacted_tail(once, found);
    lemma_reconciled_is_blank_free(prior, snapshot, name);
    // Nothing empty is appended, so the second run drops no line for being empty.
    lemma_reconciled_of_blank_free(once, snapshot, name);
    assert(is_compact(once));
    lemma_compacted_concat(once, found);
    lemma_compact_is_fixed(once);
    assert((once + tail).len() == once.len());
    assert(tail.len() == 0);
    lemma_compacted_alike(found);
    if found.len() > 0 {
        lemma_matching_begin_with_name(snapshot, name);
        assert(found[found.len() - 1].len() > 0);
        lemma_reconciled_last(prior, snapshot, name);
        lemma_compacted_first(found);
    }
}

/// Adding the same package a second time, against the same snapshot,
/// leaves the manifest as the first time left it where that manifest is
/// compact and the lines that match the name are all alike: the one line
/// that is appended again repeats the last line and is dropped. For a
/// name that is not empty it does so only there: two different matching
/// lines are appended a second time, and a manifest in which dropping an
/// empty line brought two equal lines together loses one of them.
pub proof fn lemma_reconciled_twice(
    prior: Seq<Seq<char>>,
    snapshot: Seq<Seq<char>>,
    name: Seq<char>,
)
    ensures
        ({
            let once = reconciled(prior, snapshot, name);
            let twice = reconciled(once, snapshot, name);
            let found = matching(snapshot, name);
            &&& is_compact(once) && all_alike(found) ==> twice == once
            &&& name.len() > 0 && twice == once ==> is_compact(once) && all_alike(found)
        }),
{
    let found = matching(snapshot, name);
    let once = reconciled(prior, snapshot, name);
    let twice = reconciled(once, snapshot, name);
    if is_compact(once) && all_alike(found) {
        lemma_second_run_keeps(prior, snapshot, name);
    }
    if name.len() > 0 && twice == once {
        lemma_second_run_changes(prior, snapshot, name);
    }
}

/// Lines selected by a rule keep the order in which they stood.
proof fn lemma_filter_keeps_order(lines: Seq<Seq<char>>, rule: spec_fn(Seq<char>) -> bool)
    ensures
        keeps_order(lines.filter(rule), lines),
    decreases lines.len(),
{
    reveal(Seq::filter);
    if lines.len() == 0 {
        assert(stands_at(lines.filter(rule), lines, Seq::<int>::empty()));
    } else {
        let init = lines.drop_last();
        lemma_filter_keeps_order(init, rule);
        let before = choose|places: Seq<int>| stands_at(init.filter(rule), init, places);
        if rule(lines.last()) {
            let places = before.push(lines.len() - 1);
            assert forall|i: int| 0 <= i < places.len() implies 0 <= #[trigger] places[i]
                < lines.len() && lines.filter(rule)[i] == lines[places[i]] by {
                if i < before.len() {
                    assert(0 <= before[i] < init.len());
                    assert(init[before[i]] == lines[before[i]]);
                }
            }
            assert forall|i: int, j: int| 0 <= i < j < places.len() implies #[trigger] places[i]
                < #[trigger] places[j] by {
                assert(0 <= before[i] < init.len());
                if j < before.len() {
                    assert(before[i] < before[j]);
                }
            }
            assert(stands_at(lines.filter(rule), lines, places));
        } else {
            assert forall|i: int| 0 <= i < before.len() implies 0 <= #[trigger] before[i]
                < lines.len() && lines.filter(rule)[i] == lines[before[i]] by {
                assert(0 <= before[i] < init.len());
                assert(init[before[i]] == lines[before[i]]);
            }
            assert(stands_at(lines.filter(rule), lines, before));
        }
    }
}

/// Compacted lines keep the order in which they stood.
proof fn lemma_compacted_keeps_order(lines: Seq<Seq<char>>)
    ensures
        keeps_order(compacted(lines), lines),
    decreases lines.len(),
{
    if lines.len() <= 1 {
        let places = Seq::new(lines.len(), |i: int| i);
        assert(stands_at(compacted(lines), lines, places));
    } else {
        let init = lines.drop_last();
        lemma_compacted_keeps_order(init);
        let before = choose|places: Seq<int>| stands_at(compacted(init), init, places);
        if lines[lines.len() - 2] == lines.last() {
            assert forall|i: int| 0 <= i < before.len() implies 0 <= #[trigger] before[i]
                < lines.len() && compacted(lines)[i] == lines[before[i]] by {
                assert(0 <= before[i] < init.len());
                assert(init[before[i]] == lines[before[i]]);
            }
            assert(stands_at(compacted(lines), lines, before));
        } else {
            let places = before.push(lines.len() - 1);
            assert forall|i: int| 0 <= i < places.len() implies 0 <= #[trigger] places[i]
                < lines.len() && compacted(lines)[i] == lines[places[i]] by {
                if i < before.len() {
                    assert(0 <= before[i] < init.len());
                    assert(init[before[i]] == lines[before[i]]);
                }
            }
            assert forall|i: int, j: int| 0 <= i < j < places.len() implies #[trigger] places[i]
                < #[trigger] places[j] by {
                assert(0 <= before[i] < init.len());
                if j < before.len() {
                    assert(before[i] < before[j]);
                }
            }
            assert(stands_at(compacted(lines), lines, places));
        }
    }
}

/// Keeping the order carries over: what keeps the order of lines that
/// keep the order of others keeps the order of those.
pub proof fn lemma_keeps_order_carries(
    kept: Seq<Seq<char>>,
    between: Seq<Seq<char>>,
    lines: Seq<Seq<char>>,
)
    requires
        keeps_order(kept, between),
        keeps_order(between, lines),
    ensures
        keeps_order(kept, lines),
{
    let inner = choose|places: Seq<int>| stands_at(kept, between, places);
    let outer = choose|places: Seq<int>| stands_at(between, lines, places);
    let places = Seq::new(kept.len(), |i: int| outer[inner[i]]);
    assert forall|i: int| 0 <= i < places.len() implies 0 <= #[trigger] places[i] < lines.len()
        && kept[i] == lines[places[i]] by {
        assert(0 <= inner[i] < between.len());
        assert(0 <= outer[inner[i]] < lines.len());
    }
    assert forall|i: int, j: int| 0 <= i < j < places.len() implies #[trigger] places[i]
        < #[trigger] places[j] by {
        assert(0 <= inner[i] < between.len());
        assert(0 <= inner[j] < between.len());
        assert(inner[i] < inner[j]);
        assert(outer[inner[i]] < outer[inner[j]]);
    }
    assert(stands_at(kept, lines, places));
}

/// Reconciling moves no line: the matching lines stand in the order of
/// the snapshot, and the reconciled manifest is made of the lines of the
/// manifest as it was, followed by the matching lines, in that order,
/// with some left out.
pub proof fn lemma_reconciled_keeps_order(
    prior: Seq<Seq<char>>,
    snapshot: Seq<Seq<char>>,
    name: Seq<char>,
)
    ensures
        keeps_order(matching(snapshot, name), snapshot),
        keeps_order(reconciled(prior, snapshot, name), prior + matching(snapshot, name)),
{
    let merged = prior + matching(snapshot, name);
    lemma_filter_keeps_order(snapshot, |line: Seq<char>| name.is_prefix_of(line));
    lemma_compacted_keeps_order(merged);
    lemma_filter_keeps_order(compacted(merged), |line: Seq<char>| line.len() > 0);
    lemma_keeps_order_carries(reconciled(prior, snapshot, name), compacted(merged), merged);
}

/// Reconciling invents no line: every line of the reconciled manifest is
/// a line of the manifest as it was or a line of the snapshot.
pub proof fn lemma_reconciled_lines_are_given(
    prior: Seq<Seq<char>>,
    snapshot: Seq<Seq<char>>,
    name: Seq<char>,
)
    ensures
        forall|i: int|
            0 <= i < reconciled(prior, snapshot, name).len() ==> {
                let line = #[trigger] reconciled(prior, snapshot, name)[i];
                prior.contains(line) || snapshot.contains(line)
            },
{
    let found = matching(snapshot, name);
    let merged = prior + found;
    let result = reconciled(prior, snapshot, name);
    lemma_compacted_is_compact(merged);
    assert forall|i: int| 0 <= i < result.len() implies {
        let line = #[trigger] result[i];
        prior.contains(line) || snapshot.contains(line)
    } by {
        let line = result[i];
        assert(result.contains(line));
        compacted(merged).lemma_filter_contains_rev(|l: Seq<char>| l.len() > 0, line);
        let k = choose|k: int| 0 <= k < compacted(merged).len() && compacted(merged)[k] == line;
        assert(merged.contains(compacted(merged)[k]));
        let m = choose|m: int| 0 <= m < merged.len() && merged[m] == line;
        if m < prior.len() {
            assert(prior[m] == line);
        } else {
            assert(found[m - prior.len()] == line);
            assert(found.contains(line));
            snapshot.lemma_filter_contains_rev(|l: Seq<char>| name.is_prefix_of(l), line);
        }
    }
}

/// A manifest of one empty line reconciles as the manifest of no line.
pub proof fn lemma_reconciled_of_empty_line(snapshot: Seq<Seq<char>>, name: Seq<char>)
    ensures
        reconciled(seq![Seq::<char>::empty()], snapshot, name) == reconciled(
            Seq::empty(),
            snapshot,
            name,
        ),
{
    let filled = |line: Seq<char>| line.len() > 0;
    let blank = seq![Seq::<char>::empty()];
    let found = matching(snapshot, name);
    let tail = compacted_tail(blank, found);
    lemma_compacted_concat(blank, found);
    Seq::filter_distributes_over_add(blank, tail, filled);
    lemma_without_blank_of_blank(blank);
    assert(without_blank(blank) + without_blank(tail) =~= without_blank(tail));
    assert(Seq::<Seq<char>>::empty() + found =~= found);
    if found.len() > 0 && found[0].len() == 0 {
        lemma_compacted_first(found);
        assert(blank[0] =~= found[0]);
        assert(compacted(found) =~= blank + tail);
    }
}

} // verus!
