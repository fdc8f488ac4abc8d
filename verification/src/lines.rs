//! Text and its lines.
//!
//! A manifest file and an installer snapshot are both plain text, read as
//! an ordered sequence of lines. The newline character is the only
//! separator: a carriage return, a tab or a space is part of its line, and
//! a text that ends in a newline ends in an empty line.

use vstd::prelude::*;
use vstd::std_specs::iter::IteratorSpec;
use vstd::utf8::{decode_utf8, valid_utf8};

verus! {

broadcast use vstd::string::group_string_axioms;

/// The lines of a text: the pieces between its newline characters, in
/// order. A text of `n` newlines has `n + 1` lines, so the empty text has
/// one empty line.
pub open spec fn lines_of(text: Seq<char>) -> Seq<Seq<char>>
    decreases text.len(),
{
    if text.len() == 0 {
        seq![Seq::<char>::empty()]
    } else {
        let before = lines_of(text.drop_last());
        if text.last() == '\n' {
            before.push(Seq::<char>::empty())
        } else {
            before.drop_last().push(before.last().push(text.last()))
        }
    }
}

/// The text made of `lines`, with one newline between each two
/// neighbours and none after the last.
pub open spec fn text_of(lines: Seq<Seq<char>>) -> Seq<char>
    decreases lines.len(),
{
    if lines.len() == 0 {
        Seq::<char>::empty()
    } else if lines.len() == 1 {
        lines[0]
    } else {
        text_of(lines.drop_last()) + seq!['\n'] + lines.last()
    }
}

/// Whether none of `lines` holds a newline character.
pub open spec fn newline_free(lines: Seq<Seq<char>>) -> bool {
    forall|i: int, j: int|
        0 <= i < lines.len() && 0 <= j < lines[i].len() ==> #[trigger] lines[i][j] != '\n'
}

/// `String::push` appends one character to the end of the string and
/// leaves the characters before it as they were.
pub assume_specification[ String::push ](s: &mut String, ch: char)
    ensures
        final(s)@ == old(s)@.push(ch),
;

/// `String::from_utf8` takes the bytes for a string where they are valid
/// UTF-8, and the string then holds the characters that they encode. On
/// any other bytes it fails, and nothing is returned here.
#[verifier::external_body]
pub(crate) fn decode_text(bytes: Vec<u8>) -> (text: Option<String>)
    ensures
        text is Some <==> valid_utf8(bytes@),
        text matches Some(t) ==> t@ == decode_utf8(bytes@),
{
    String::from_utf8(bytes).ok()
}

/// A text always has a first line, and no line of a text holds a newline.
pub proof fn lemma_lines_of_shape(text: Seq<char>)
    ensures
        lines_of(text).len() >= 1,
        newline_free(lines_of(text)),
    decreases text.len(),
{
    if text.len() > 0 {
        lemma_lines_of_shape(text.drop_last());
    }
}

/// Joining the lines of a text gives the text back.
pub proof fn lemma_text_of_lines_of(text: Seq<char>)
    ensures
        text_of(lines_of(text)) == text,
    decreases text.len(),
{
    if text.len() == 0 {
        assert(text_of(lines_of(text)) =~= text);
    } else {
        let shorter = text.drop_last();
        let before = lines_of(shorter);
        lemma_lines_of_shape(shorter);
        lemma_text_of_lines_of(shorter);
        if text.last() == '\n' {
            let after = before.push(Seq::<char>::empty());
            assert(after.drop_last() =~= before);
            assert(text_of(after) =~= shorter + seq!['\n']);
            assert(shorter + seq!['\n'] =~= text);
        } else {
            let grown = before.last().push(text.last());
            let after = before.drop_last().push(grown);
            assert(after.drop_last() =~= before.drop_last());
            if before.len() == 1 {
                assert(text_of(before) == before[0]);
                assert(text_of(after) =~= text);
            } else {
                assert(text_of(after) == text_of(before.drop_last()) + seq!['\n'] + grown);
                assert(text_of(before) == text_of(before.drop_last()) + seq!['\n'] + before.last());
                assert(text_of(after) =~= text_of(before).push(text.last()));
                assert(shorter.push(text.last()) =~= text);
            }
        }
    }
}

/// Appending characters that are no newline to a text makes its last line
/// longer and leaves the others.
proof fn lemma_lines_of_extended(text: Seq<char>, tail: Seq<char>)
    requires
        forall|j: int| 0 <= j < tail.len() ==> tail[j] != '\n',
    ensures
        lines_of(text + tail) == lines_of(text).drop_last().push(lines_of(text).last() + tail),
    decreases tail.len(),
{
    lemma_lines_of_shape(text);
    if tail.len() == 0 {
        assert(text + tail =~= text);
        assert(lines_of(text).last() + tail =~= lines_of(text).last());
        assert(lines_of(text).drop_last().push(lines_of(text).last()) =~= lines_of(text));
    } else {
        let whole = text + tail;
        lemma_lines_of_extended(text, tail.drop_last());
        assert(whole.drop_last() =~= text + tail.drop_last());
        assert(whole.last() == tail.last());
        let before = lines_of(whole.drop_last());
        assert(before.drop_last() =~= lines_of(text).drop_last());
        assert(before.last().push(tail.last()) =~= lines_of(text).last() + tail);
    }
}

/// Splitting the join of one or more lines, none of which holds a
/// newline, gives the lines back.
pub proof fn lemma_lines_of_text_of(lines: Seq<Seq<char>>)
    requires
        lines.len() >= 1,
        newline_free(lines),
    ensures
        lines_of(text_of(lines)) == lines,
    decreases lines.len(),
{
    let last = lines.last();
    assert forall|j: int| 0 <= j < last.len() implies last[j] != '\n' by {
        assert(lines[lines.len() - 1][j] != '\n');
    }
    let empty = Seq::<char>::empty();
    if lines.len() == 1 {
        lemma_lines_of_extended(empty, last);
        assert(empty + last =~= last);
        assert(lines_of(empty) =~= seq![empty]);
        assert(seq![empty].drop_last().push(empty + last) =~= lines);
    } else {
        let init = lines.drop_last();
        assert(newline_free(init)) by {
            assert(forall|i: int, j: int|
                0 <= i < init.len() && 0 <= j < init[i].len() ==> #[trigger] init[i][j]
                    == lines[i][j]);
        }
        lemma_lines_of_text_of(init);
        let head = text_of(init) + seq!['\n'];
        assert(head.drop_last() =~= text_of(init));
        assert(lines_of(head) == init.push(empty));
        lemma_lines_of_extended(head, last);
        assert(init.push(empty).drop_last() =~= init);
        assert(empty + last =~= last);
        assert(init.push(last) =~= lines);
        assert(text_of(lines) == head + last);
    }
}

/// Two sequences of lines without a newline, of one line or more each,
/// that join to the same text are the same lines.
pub proof fn lemma_text_of_is_injective(lines: Seq<Seq<char>>, others: Seq<Seq<char>>)
    requires
        lines.len() >= 1,
        others.len() >= 1,
        newline_free(lines),
        newline_free(others),
        text_of(lines) == text_of(others),
    ensures
        lines == others,
{
    lemma_lines_of_text_of(lines);
    lemma_lines_of_text_of(others);
}

/// Splits a text into its lines.
pub fn split_lines(text: &str) -> (lines: Vec<String>)
    ensures
        lines.deep_view() == lines_of(text@),
{
    let mut lines: Vec<String> = Vec::new();
    let mut current = String::new();
    let mut rest = text.chars();
    let ghost mut seen: int = 0;
    proof {
        assert(text@.take(0) =~= Seq::<char>::empty());
        assert(lines.deep_view().push(current@) =~= lines_of(text@.take(0)));
    }
    loop
        invariant
            0 <= seen <= text@.len(),
            rest.obeys_prophetic_iter_laws(),
            rest.remaining() == text@.skip(seen),
            lines.deep_view().push(current@) == lines_of(text@.take(seen)),
        decreases text@.len() - seen,
    {
        let ghost done = lines.deep_view();
        let ghost line = current@;
        match rest.next() {
            None => {
                lines.push(current);
                proof {
                    assert(text@.take(seen) =~= text@);
                    assert(lines.deep_view() =~= done.push(line));
                }
                return lines;
            },
            Some(c) => {
                if c == '\n' {
                    lines.push(current);
                    current = String::new();
                    proof {
                        assert(lines.deep_view() =~= done.push(line));
                    }
                } else {
                    current.push(c);
                    proof {
                        assert(lines.deep_view() =~= done);
                        assert(done.push(line).drop_last() =~= done);
                    }
                }
                proof {
                    assert(text@.take(seen + 1).drop_last() =~= text@.take(seen));
                    assert(text@.take(seen + 1).last() == c);
                    assert(text@.skip(seen).drop_first() =~= text@.skip(seen + 1));
                    seen = seen + 1;
                }
            },
        }
    }
}

/// Joins lines into one text, a newline between each two neighbours.
pub fn join_lines(lines: &Vec<String>) -> (text: String)
    ensures
        text@ == text_of(lines.deep_view()),
{
    let mut text = String::new();
    let mut i: usize = 0;
    while i < lines.len()
        invariant
            0 <= i <= lines.len(),
            text@ == text_of(lines.deep_view().take(i as int)),
        decreases lines.len() - i,
    {
        let ghost joined = text@;
        if i > 0 {
            text.push('\n');
        }
        text.append(lines[i].as_str());
        proof {
            let upto = lines.deep_view().take(i + 1);
            assert(upto.drop_last() =~= lines.deep_view().take(i as int));
            assert(upto.last() == lines[i as int]@);
            if i == 0 {
                assert(joined + lines[i as int]@ =~= lines[i as int]@);
            } else {
                assert(joined.push('\n') =~= joined + seq!['\n']);
            }
        }
        i = i + 1;
    }
    proof {
        assert(lines.deep_view().take(i as int) =~= lines.deep_view());
    }
    text
}

} // verus!
