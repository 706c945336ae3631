//! The report without its styling: what is left of it on a medium that shows
//! no colours. Every chunk reads as its lines behind a one-character marker,
//! in the order of the changeset; how a modified line is broken into spans
//! changes its styling and nothing else.

use crate::chunk::{chunks_of, left_text, lemma_chunks_partition, right_text, Piece};
use crate::render::{
    action_at, body_fragments, chunk_fragments, legend, refined_fragments, report, row, row_body,
    row_chunk, spans, whole_line, whole_lines, Action, Side,
};
use crate::style::{
    escape, escape_free, hl, lemma_plain_concat, lemma_single, lemma_strip_styled,
    lemma_strip_styled_then, lemma_styled_concat, lemma_triple, lit, plain, stripped, styled,
    Fragment, Highlight,
};
use crate::text::{
    concat, interspersed, lemma_replaced_concat, lemma_split_interspersed, lemma_split_nonempty,
    lines, replaced,
};
use vstd::prelude::*;

verus! {

/// Lines behind a marker: each line after the marker, and a line break after
/// each line.
pub open spec fn marked_lines(marker: char, ls: Seq<Seq<char>>) -> Seq<char>
    decreases ls.len(),
{
    if ls.len() == 0 {
        Seq::empty()
    } else {
        marked_lines(marker, ls.drop_last()) + seq![marker] + ls.last() + seq!['\n']
    }
}

/// The marker of a whole line: that of its class, a space where it has none.
pub open spec fn marker_of(class: Option<Highlight>) -> char {
    match class {
        None => ' ',
        Some(c) => c.marker(),
    }
}

/// The marker behind which the lines of a chunk read: a space for shared
/// text, `<` for deleted text, `>` for inserted text.
pub open spec fn marker_for(chunk: Piece) -> char {
    match chunk {
        Piece::Equal(_) => ' ',
        Piece::Delete(_) => '<',
        Piece::Insert(_) => '>',
    }
}

/// The plain text of one chunk: its lines behind its marker.
pub open spec fn plain_chunk(chunk: Piece) -> Seq<char> {
    marked_lines(marker_for(chunk), lines(chunk.text()))
}

/// The plain text of the first `n` chunks of a changeset.
pub open spec fn plain_body(chunks: Seq<Piece>, n: int) -> Seq<char>
    decreases n,
{
    if n <= 0 {
        Seq::empty()
    } else {
        plain_body(chunks, n - 1) + plain_chunk(chunks[n - 1])
    }
}

/// The legend line without styling: `< left / > right` and a line break.
pub open spec fn legend_line() -> Seq<char> {
    seq![
        '<',
        ' ',
        'l',
        'e',
        'f',
        't',
        ' ',
        '/',
        ' ',
        '>',
        ' ',
        'r',
        'i',
        'g',
        'h',
        't',
        '\n',
    ]
}

/// A text in which the marker follows every line break.
pub open spec fn broken(marker: char, text: Seq<char>) -> Seq<char> {
    replaced(text, '\n', seq!['\n', marker])
}

/// The text of a changeset on one side.
pub open spec fn side_text(side: Side, chunks: Seq<Piece>) -> Seq<char> {
    match side {
        Side::Left => left_text(chunks),
        Side::Right => right_text(chunks),
    }
}

/// Without styling, whole lines are their lines behind the marker.
pub proof fn lemma_whole_lines_plain(class: Option<Highlight>, ls: Seq<Seq<char>>)
    ensures
        plain(whole_lines(class, ls)) == marked_lines(marker_of(class), ls),
    decreases ls.len(),
{
    if ls.len() == 0 {
        assert(plain(Seq::<Fragment>::empty()) == Seq::<char>::empty());
    } else {
        lemma_whole_lines_plain(class, ls.drop_last());
        let w = whole_line(class, ls.last());
        assert(w == seq![w[0], w[1], w[2]]);
        lemma_triple(w[0], w[1], w[2]);
        lemma_plain_concat(whole_lines(class, ls.drop_last()), w);
        assert(plain(w) == seq![marker_of(class)] + ls.last() + seq!['\n']);
        assert(marked_lines(marker_of(class), ls.drop_last()) + (seq![marker_of(class)]
            + ls.last() + seq!['\n']) == marked_lines(marker_of(class), ls));
    }
}

/// Without styling, spans of one class are their blobs put together.
pub proof fn lemma_spans_plain(class: Highlight, blobs: Seq<Seq<char>>)
    ensures
        plain(spans(class, blobs)) == concat(blobs),
    decreases blobs.len(),
{
    if blobs.len() == 0 {
        assert(spans(class, blobs) == Seq::<Fragment>::empty());
        assert(plain(Seq::<Fragment>::empty()) == Seq::<char>::empty());
    } else {
        lemma_spans_plain(class, blobs.drop_last());
        assert(spans(class, blobs).drop_last() == spans(class, blobs.drop_last()));
        assert(spans(class, blobs).last().text == blobs.last());
    }
}

/// Without styling, what one chunk contributes to a row is its text with the
/// row's marker after every line break, if the chunk belongs to the row's
/// side, and nothing if it does not.
pub proof fn lemma_row_chunk_plain(side: Side, chunk: Piece)
    ensures
        plain(row_chunk(side, chunk)) == broken(
            side.unchanged_class().marker(),
            side_text(side, seq![chunk]),
        ),
{
    let marker = side.unchanged_class().marker();
    let one = seq![chunk];
    assert(one.drop_last() == Seq::<Piece>::empty());
    assert(left_text(Seq::<Piece>::empty()) == Seq::<char>::empty());
    assert(right_text(Seq::<Piece>::empty()) == Seq::<char>::empty());
    match side.class_for(chunk) {
        Some(class) => {
            assert(side_text(side, one) == Seq::<char>::empty() + chunk.text());
            assert(side_text(side, one) == chunk.text());
            lemma_spans_plain(class, interspersed(lines(chunk.text()), side.break_text()));
            lemma_split_interspersed(chunk.text(), '\n', side.break_text());
        },
        None => {
            assert(side_text(side, one) == Seq::<char>::empty() + Seq::<char>::empty());
            assert(side_text(side, one) == Seq::<char>::empty());
            assert(plain(Seq::<Fragment>::empty()) == Seq::<char>::empty());
        },
    }
}

/// The text of a changeset on one side grows by what its last chunk has on
/// that side.
proof fn lemma_side_text_push(side: Side, chunks: Seq<Piece>, chunk: Piece)
    ensures
        side_text(side, chunks.push(chunk)) == side_text(side, chunks) + side_text(
            side,
            seq![chunk],
        ),
{
    let one = seq![chunk];
    assert(one.drop_last() == Seq::<Piece>::empty());
    assert(left_text(Seq::<Piece>::empty()) == Seq::<char>::empty());
    assert(right_text(Seq::<Piece>::empty()) == Seq::<char>::empty());
    assert(chunks.push(chunk).drop_last() == chunks);
    assert(left_text(one) == Seq::<char>::empty() + match chunk {
        Piece::Insert(_) => Seq::<char>::empty(),
        Piece::Equal(t) => t,
        Piece::Delete(t) => t,
    });
    assert(right_text(one) == Seq::<char>::empty() + match chunk {
        Piece::Delete(_) => Seq::<char>::empty(),
        Piece::Equal(t) => t,
        Piece::Insert(t) => t,
    });
}

/// Without styling, what the chunks contribute to a row is the text of the
/// row's side with the row's marker after every line break.
pub proof fn lemma_row_body_plain(side: Side, chunks: Seq<Piece>)
    ensures
        plain(row_body(side, chunks)) == broken(
            side.unchanged_class().marker(),
            side_text(side, chunks),
        ),
    decreases chunks.len(),
{
    let marker = side.unchanged_class().marker();
    if chunks.len() == 0 {
        assert(plain(Seq::<Fragment>::empty()) == Seq::<char>::empty());
        assert(left_text(chunks) == Seq::<char>::empty());
        assert(right_text(chunks) == Seq::<char>::empty());
    } else {
        let init = chunks.drop_last();
        let last = chunks.last();
        lemma_row_body_plain(side, init);
        lemma_row_chunk_plain(side, last);
        lemma_plain_concat(row_body(side, init), row_chunk(side, last));
        assert(init.push(last) == chunks);
        lemma_side_text_push(side, init, last);
        lemma_replaced_concat(
            side_text(side, init),
            side_text(side, seq![last]),
            '\n',
            seq!['\n', marker],
        );
    }
}

/// A marker and a text in which the marker follows every line break are the
/// lines of the text behind the marker, but that the last line is left open.
pub proof fn lemma_open_lines(marker: char, text: Seq<char>)
    ensures
        lines(text).len() >= 1,
        seq![marker] + broken(marker, text) == marked_lines(marker, lines(text).drop_last())
            + seq![marker] + lines(text).last(),
    decreases text.len(),
{
    lemma_split_nonempty(text, '\n');
    if text.len() == 0 {
        let one = seq![Seq::<char>::empty()];
        assert(lines(text) == one);
        assert(one.drop_last() == Seq::<Seq<char>>::empty());
        assert(marked_lines(marker, Seq::<Seq<char>>::empty()) == Seq::<char>::empty());
        assert(seq![marker] + broken(marker, text) == Seq::<char>::empty() + seq![marker]
            + Seq::<char>::empty());
    } else {
        let before = text.drop_last();
        let c = text.last();
        let ls = lines(before);
        lemma_open_lines(marker, before);
        let open = marked_lines(marker, ls.drop_last()) + seq![marker] + ls.last();
        if c == '\n' {
            let next = ls.push(Seq::empty());
            assert(lines(text) == next);
            assert(next.drop_last() == ls);
            assert(ls.drop_last().push(ls.last()) == ls);
            assert(marked_lines(marker, ls) == open + seq!['\n']);
            assert(seq![marker] + broken(marker, text) == seq![marker] + broken(marker, before)
                + seq!['\n', marker]);
            assert(open + seq!['\n', marker] == open + seq!['\n'] + seq![marker]
                + Seq::<char>::empty());
        } else {
            let grown = ls.last().push(c);
            let next = ls.drop_last().push(grown);
            assert(lines(text) == next);
            assert(next.drop_last() == ls.drop_last());
            assert(seq![marker] + broken(marker, text) == seq![marker] + broken(marker, before)
                + seq![c]);
            assert(open + seq![c] == marked_lines(marker, ls.drop_last()) + seq![marker] + grown);
        }
    }
}

/// A marker, a text in which the marker follows every line break, and a
/// line break are the lines of the text behind the marker.
pub proof fn lemma_broken_lines(marker: char, text: Seq<char>)
    ensures
        seq![marker] + broken(marker, text) + seq!['\n'] == marked_lines(marker, lines(text)),
{
    lemma_open_lines(marker, text);
    let ls = lines(text);
    assert(ls.drop_last().push(ls.last()) == ls);
}

/// Without styling, a row of a modified line is the lines of its side's text
/// behind the side's marker.
pub proof fn lemma_row_plain(side: Side, fine: Seq<Piece>)
    ensures
        plain(row(side, fine)) == marked_lines(
            side.unchanged_class().marker(),
            lines(side_text(side, fine)),
        ),
{
    let marker = side.unchanged_class().marker();
    let head = seq![hl(side.unchanged_class(), seq![marker])];
    let tail = seq![lit(seq!['\n'])];
    lemma_single(head[0]);
    lemma_single(tail[0]);
    lemma_plain_concat(head, row_body(side, fine));
    lemma_plain_concat(head + row_body(side, fine), tail);
    lemma_row_body_plain(side, fine);
    lemma_broken_lines(marker, side_text(side, fine));
}

/// Without styling, a modified line reads as the removed lines followed by
/// the added lines: the fine-grained comparison decides which spans are
/// emphasized, and changes no character of the text.
pub proof fn lemma_refined_plain(removed: Seq<char>, added: Seq<char>)
    ensures
        plain(refined_fragments(chunks_of(removed, added))) == marked_lines('<', lines(removed))
            + marked_lines('>', lines(added)),
{
    let fine = chunks_of(removed, added);
    lemma_chunks_partition(removed, added);
    lemma_row_plain(Side::Left, fine);
    lemma_row_plain(Side::Right, fine);
    lemma_plain_concat(row(Side::Left, fine), row(Side::Right, fine));
}

/// Without styling, the legend is the legend line.
pub proof fn lemma_legend_plain()
    ensures
        plain(legend()) == legend_line(),
{
    let l = legend();
    lemma_triple(l[0], l[1], l[2]);
    lemma_triple(l[3], l[4], l[5]);
    lemma_single(l[6]);
    lemma_single(l[7]);
    assert(l == seq![l[0], l[1], l[2]] + seq![l[3], l[4], l[5]] + seq![l[6]] + seq![l[7]]);
    lemma_plain_concat(seq![l[0], l[1], l[2]], seq![l[3], l[4], l[5]]);
    lemma_plain_concat(seq![l[0], l[1], l[2]] + seq![l[3], l[4], l[5]], seq![l[6]]);
    lemma_plain_concat(seq![l[0], l[1], l[2]] + seq![l[3], l[4], l[5]] + seq![l[6]], seq![l[7]]);
    assert(plain(l) == legend_line());
}

/// The lines of a deletion that was passed over at index `n - 1` and is
/// still to be shown by the insertion at index `n`.
pub open spec fn pending(chunks: Seq<Piece>, n: int) -> Seq<char> {
    if 1 <= n <= chunks.len() && action_at(chunks, n - 1) == Action::Suppress {
        plain_chunk(chunks[n - 1])
    } else {
        Seq::empty()
    }
}

/// Without styling, what the first `n` chunks contribute to the report is
/// the plain text of each in order, but for a deletion at the very end of
/// them that waits for the insertion after it.
pub proof fn lemma_body_plain(chunks: Seq<Piece>, n: int)
    requires
        0 <= n <= chunks.len(),
    ensures
        plain(body_fragments(chunks, n)) + pending(chunks, n) == plain_body(chunks, n),
    decreases n,
{
    if n == 0 {
        assert(plain(Seq::<Fragment>::empty()) == Seq::<char>::empty());
        assert(Seq::<char>::empty() + Seq::<char>::empty() == Seq::<char>::empty());
    } else {
        let i = n - 1;
        lemma_body_plain(chunks, i);
        let sofar = plain(body_fragments(chunks, i));
        let here = chunk_fragments(chunks, i);
        let text = chunks[i].text();
        lemma_plain_concat(body_fragments(chunks, i), here);
        match action_at(chunks, i) {
            Action::Same => {
                lemma_whole_lines_plain(None, lines(text));
                assert(pending(chunks, i) == Seq::<char>::empty());
                assert(sofar + Seq::<char>::empty() == sofar);
                assert(sofar + plain(here) + Seq::<char>::empty() == sofar + plain(here));
            },
            Action::Add => {
                lemma_whole_lines_plain(Some(Highlight::AddedWhole), lines(text));
                assert(pending(chunks, i) == Seq::<char>::empty());
                assert(sofar + Seq::<char>::empty() == sofar);
                assert(sofar + plain(here) + Seq::<char>::empty() == sofar + plain(here));
            },
            Action::Remove => {
                lemma_whole_lines_plain(Some(Highlight::RemovedWhole), lines(text));
                assert(pending(chunks, i) == Seq::<char>::empty());
                assert(sofar + Seq::<char>::empty() == sofar);
                assert(sofar + plain(here) + Seq::<char>::empty() == sofar + plain(here));
            },
            Action::Suppress => {
                assert(pending(chunks, i) == Seq::<char>::empty());
                assert(plain(here) == Seq::<char>::empty());
                assert(sofar + Seq::<char>::empty() == sofar);
                assert(pending(chunks, n) == plain_chunk(chunks[i]));
            },
            Action::Refine => {
                let removed = chunks[i - 1].text();
                lemma_refined_plain(removed, text);
                assert(pending(chunks, i) == marked_lines('<', lines(removed)));
                assert(pending(chunks, n) == Seq::<char>::empty());
                assert(sofar + (marked_lines('<', lines(removed)) + marked_lines('>', lines(text)))
                    + Seq::<char>::empty() == sofar + marked_lines('<', lines(removed))
                    + marked_lines('>', lines(text)));
            },
        }
    }
}

/// Without styling, the report is the legend line and then the lines of
/// every chunk of the changeset, in order, each behind the marker of its
/// chunk. Modified lines are no exception.
pub proof fn lemma_report_plain(chunks: Seq<Piece>)
    ensures
        plain(report(chunks)) == legend_line() + plain_body(chunks, chunks.len() as int),
{
    let n = chunks.len() as int;
    lemma_legend_plain();
    lemma_body_plain(chunks, n);
    lemma_plain_concat(legend(), body_fragments(chunks, n));
    assert(pending(chunks, n) == Seq::<char>::empty());
    assert(plain(body_fragments(chunks, n)) + Seq::<char>::empty() == plain(
        body_fragments(chunks, n),
    ));
}

/// The marker follows line breaks in a text free of the escape character
/// without bringing one in.
pub proof fn lemma_broken_escape_free(marker: char, text: Seq<char>)
    requires
        escape_free(text),
        marker != escape(),
    ensures
        escape_free(broken(marker, text)),
    decreases text.len(),
{
    if text.len() > 0 {
        let before = text.drop_last();
        assert(escape_free(before)) by {
            assert forall|i: int| 0 <= i < before.len() implies before[i] != escape() by {
                assert(before[i] == text[i]);
            }
        }
        lemma_broken_escape_free(marker, before);
        assert(text.last() == text[text.len() - 1]);
    }
}

/// The lines of a text free of the escape character, behind a marker that
/// is not that character, are free of it.
pub proof fn lemma_marked_lines_escape_free(marker: char, text: Seq<char>)
    requires
        escape_free(text),
        marker != escape(),
    ensures
        escape_free(marked_lines(marker, lines(text))),
{
    lemma_broken_escape_free(marker, text);
    lemma_broken_lines(marker, text);
}

/// A text made of two is free of the escape character exactly when both are.
proof fn lemma_escape_free_concat(a: Seq<char>, b: Seq<char>)
    ensures
        escape_free(a + b) <==> escape_free(a) && escape_free(b),
{
    if escape_free(a + b) {
        assert forall|i: int| 0 <= i < a.len() implies a[i] != escape() by {
            assert((a + b)[i] == a[i]);
        }
        assert forall|i: int| 0 <= i < b.len() implies b[i] != escape() by {
            assert((a + b)[a.len() + i] == b[i]);
        }
    }
}

/// The chunks of a changeset whose two texts are free of the escape
/// character are free of it.
pub proof fn lemma_chunks_escape_free(chunks: Seq<Piece>, i: int)
    requires
        escape_free(left_text(chunks)),
        escape_free(right_text(chunks)),
        0 <= i < chunks.len(),
    ensures
        escape_free(chunks[i].text()),
    decreases chunks.len(),
{
    let init = chunks.drop_last();
    let last = chunks.last();
    let l = match last {
        Piece::Insert(_) => Seq::<char>::empty(),
        Piece::Equal(t) => t,
        Piece::Delete(t) => t,
    };
    let r = match last {
        Piece::Delete(_) => Seq::<char>::empty(),
        Piece::Equal(t) => t,
        Piece::Insert(t) => t,
    };
    lemma_escape_free_concat(left_text(init), l);
    lemma_escape_free_concat(right_text(init), r);
    if i < chunks.len() - 1 {
        lemma_chunks_escape_free(init, i);
    }
}

/// The plain text of a changeset whose two texts are free of the escape
/// character is free of it.
pub proof fn lemma_plain_body_escape_free(chunks: Seq<Piece>, n: int)
    requires
        escape_free(left_text(chunks)),
        escape_free(right_text(chunks)),
        0 <= n <= chunks.len(),
    ensures
        escape_free(plain_body(chunks, n)),
    decreases n,
{
    if n > 0 {
        lemma_plain_body_escape_free(chunks, n - 1);
        lemma_chunks_escape_free(chunks, n - 1);
        lemma_marked_lines_escape_free(marker_for(chunks[n - 1]), chunks[n - 1].text());
        lemma_escape_free_concat(plain_body(chunks, n - 1), plain_chunk(chunks[n - 1]));
    }
}

/// The legend line is always the first line of the report, with and without
/// styling: the plain text of the report begins with it, and so does what
/// is left of the styled report when its styling is stripped. This holds of
/// every changeset, the empty one too.
pub proof fn lemma_legend_first(chunks: Seq<Piece>)
    ensures
        legend_line().is_prefix_of(plain(report(chunks))),
        legend_line().is_prefix_of(stripped(styled(report(chunks)))),
{
    let body = body_fragments(chunks, chunks.len() as int);
    lemma_legend_plain();
    lemma_plain_concat(legend(), body);
    lemma_styled_concat(legend(), body);
    lemma_strip_styled_then(legend(), styled(body));
}

/// What is left of the styled report of a changeset when its styling is
/// stripped is its plain text, if the two texts of the changeset are free of
/// the escape character: the legend line, then the lines of every chunk
/// behind the marker of the chunk.
pub proof fn lemma_report_stripped(chunks: Seq<Piece>)
    requires
        escape_free(left_text(chunks)),
        escape_free(right_text(chunks)),
    ensures
        stripped(styled(report(chunks))) == plain(report(chunks)),
        stripped(styled(report(chunks))) == legend_line() + plain_body(
            chunks,
            chunks.len() as int,
        ),
{
    lemma_report_plain(chunks);
    lemma_plain_body_escape_free(chunks, chunks.len() as int);
    lemma_escape_free_concat(legend_line(), plain_body(chunks, chunks.len() as int));
    lemma_strip_styled(report(chunks));
}

/// The report of two texts is fixed by the texts: two reports of the same
/// texts are the same, and so is what is left of each when the styling is
/// stripped. If the texts are free of the escape character, what is left is
/// the plain text of the report.
pub proof fn lemma_stripped_report_stable(
    expected: Seq<char>,
    actual: Seq<char>,
    first: Seq<char>,
    second: Seq<char>,
)
    requires
        first == styled(report(chunks_of(expected, actual))),
        second == styled(report(chunks_of(expected, actual))),
    ensures
        stripped(first) == stripped(second),
        escape_free(expected) && escape_free(actual) ==> stripped(first) == plain(
            report(chunks_of(expected, actual)),
        ),
{
    lemma_chunks_partition(expected, actual);
    if escape_free(expected) && escape_free(actual) {
        lemma_report_stripped(chunks_of(expected, actual));
    }
}

} // verus!
