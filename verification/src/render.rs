//! The report: a legend, then every chunk of the difference in order, with a
//! deleted text and the inserted text that follows it shown as one modified
//! line in two rows.

use crate::chunk::{chunks_of, diff_chunks, pieces, Chunk, Piece};
use crate::plain::{legend_line, lemma_legend_first};
use crate::style::{
    hl, lemma_single, lemma_styled_concat, lemma_triple, lit, paint, painted, stripped, styled,
    Fragment, Highlight,
};
use crate::text::{intersperse, interspersed, lines, split_lines, texts};
use vstd::prelude::*;

verus! {

/// The side of the comparison that a row of a modified line shows.
#[derive(Clone, Copy, Debug, PartialEq, Eq, Structural)]
pub enum Side {
    /// The "expected" text.
    Left,
    /// The "actual" text.
    Right,
}

impl Side {
    /// The class of text on this row that did not change.
    pub open spec fn unchanged_class(self) -> Highlight {
        match self {
            Side::Left => Highlight::UnchangedLeft,
            Side::Right => Highlight::UnchangedRight,
        }
    }

    /// What stands for a line separator inside a row: the line break, then
    /// the row's marker again.
    pub open spec fn break_text(self) -> Seq<char> {
        seq!['\n', self.unchanged_class().marker()]
    }

    /// The class in which a chunk's text is shown on this row, if the row
    /// shows it at all: a row passes over what only the other side has.
    pub open spec fn class_for(self, chunk: Piece) -> Option<Highlight> {
        match (self, chunk) {
            (_, Piece::Equal(_)) => Some(self.unchanged_class()),
            (Side::Left, Piece::Delete(_)) => Some(Highlight::RemovedSpan),
            (Side::Right, Piece::Insert(_)) => Some(Highlight::AddedSpan),
            _ => None,
        }
    }

    /// The class of text on this row that did not change.
    pub fn unchanged(self) -> (class: Highlight)
        ensures
            class == self.unchanged_class(),
    {
        match self {
            Side::Left => Highlight::UnchangedLeft,
            Side::Right => Highlight::UnchangedRight,
        }
    }

    /// The line break of this row as a string.
    pub fn line_break(self) -> (r: &'static str)
        ensures
            r@ == self.break_text(),
    {
        proof {
            reveal_strlit("\n<");
            reveal_strlit("\n>");
        }
        match self {
            Side::Left => {
                assert("\n<"@ =~= seq!['\n', '<']);
                "\n<"
            },
            Side::Right => {
                assert("\n>"@ =~= seq!['\n', '>']);
                "\n>"
            },
        }
    }

    /// The class in which this row shows a chunk, if it shows it.
    pub fn class_of(self, chunk: &Chunk) -> (class: Option<Highlight>)
        ensures
            class == self.class_for(chunk@),
    {
        match chunk {
            Chunk::Equal(_) => Some(self.unchanged()),
            Chunk::Delete(_) => match self {
                Side::Left => Some(Highlight::RemovedSpan),
                Side::Right => None,
            },
            Chunk::Insert(_) => match self {
                Side::Left => None,
                Side::Right => Some(Highlight::AddedSpan),
            },
        }
    }
}

/// One whole line of the report. Without a class it is an unchanged line: a
/// space, the line, a line break. With a class it is the class's marker and
/// the line, each styled, and a line break.
pub open spec fn whole_line(class: Option<Highlight>, line: Seq<char>) -> Seq<Fragment> {
    match class {
        None => seq![lit(seq![' ']), lit(line), lit(seq!['\n'])],
        Some(c) => seq![hl(c, seq![c.marker()]), hl(c, line), lit(seq!['\n'])],
    }
}

/// Whole lines, one after the other.
pub open spec fn whole_lines(class: Option<Highlight>, ls: Seq<Seq<char>>) -> Seq<Fragment>
    decreases ls.len(),
{
    if ls.len() == 0 {
        Seq::empty()
    } else {
        whole_lines(class, ls.drop_last()) + whole_line(class, ls.last())
    }
}

/// The lines of a text that both sides share.
pub open spec fn same_fragments(text: Seq<char>) -> Seq<Fragment> {
    whole_lines(None, lines(text))
}

/// The lines of a text that only the right side has.
pub open spec fn added_fragments(text: Seq<char>) -> Seq<Fragment> {
    whole_lines(Some(Highlight::AddedWhole), lines(text))
}

/// The lines of a text that only the left side has.
pub open spec fn removed_fragments(text: Seq<char>) -> Seq<Fragment> {
    whole_lines(Some(Highlight::RemovedWhole), lines(text))
}

/// Each blob as a span of one class.
pub open spec fn spans(class: Highlight, blobs: Seq<Seq<char>>) -> Seq<Fragment> {
    blobs.map_values(|blob: Seq<char>| hl(class, blob))
}

/// What one chunk of the fine-grained difference contributes to a row: its
/// lines in the class that the row gives it, with the row's line break
/// between them, each as a span of its own.
pub open spec fn row_chunk(side: Side, chunk: Piece) -> Seq<Fragment> {
    match side.class_for(chunk) {
        Some(class) => spans(class, interspersed(lines(chunk.text()), side.break_text())),
        None => Seq::empty(),
    }
}

/// What the chunks of the fine-grained difference contribute to a row.
pub open spec fn row_body(side: Side, chunks: Seq<Piece>) -> Seq<Fragment>
    decreases chunks.len(),
{
    if chunks.len() == 0 {
        Seq::empty()
    } else {
        row_body(side, chunks.drop_last()) + row_chunk(side, chunks.last())
    }
}

/// One row of a modified line: the side's marker, the chunks, a line break.
pub open spec fn row(side: Side, chunks: Seq<Piece>) -> Seq<Fragment> {
    seq![hl(side.unchanged_class(), seq![side.unchanged_class().marker()])] + row_body(side, chunks)
        + seq![lit(seq!['\n'])]
}

/// A modified line: the left row, then the right row.
pub open spec fn refined_fragments(fine: Seq<Piece>) -> Seq<Fragment> {
    row(Side::Left, fine) + row(Side::Right, fine)
}

/// What is done with one chunk of a changeset.
#[derive(Clone, Copy, Debug, PartialEq, Eq, Structural)]
pub enum Action {
    /// Shared text: shown as unchanged lines.
    Same,
    /// An insertion right after a deletion: the two are shown together as a
    /// modified line.
    Refine,
    /// An insertion on its own: shown as added lines.
    Add,
    /// A deletion right before an insertion: nothing is shown for it here,
    /// the insertion that follows shows both.
    Suppress,
    /// A deletion on its own: shown as removed lines.
    Remove,
}

/// The action for the chunk at index `i`, decided by its tag and by the tag of
/// one neighbour: the chunk before an insertion, the chunk after a deletion.
pub open spec fn action_at(chunks: Seq<Piece>, i: int) -> Action {
    match chunks[i] {
        Piece::Equal(_) => Action::Same,
        Piece::Insert(_) => if i >= 1 && chunks[i - 1] is Delete {
            Action::Refine
        } else {
            Action::Add
        },
        Piece::Delete(_) => if i + 1 < chunks.len() && chunks[i + 1] is Insert {
            Action::Suppress
        } else {
            Action::Remove
        },
    }
}

/// What the chunk at index `i` contributes to the report.
pub open spec fn chunk_fragments(chunks: Seq<Piece>, i: int) -> Seq<Fragment> {
    match action_at(chunks, i) {
        Action::Same => same_fragments(chunks[i].text()),
        Action::Refine => refined_fragments(chunks_of(chunks[i - 1].text(), chunks[i].text())),
        Action::Add => added_fragments(chunks[i].text()),
        Action::Suppress => Seq::empty(),
        Action::Remove => removed_fragments(chunks[i].text()),
    }
}

/// What the first `n` chunks contribute to the report.
pub open spec fn body_fragments(chunks: Seq<Piece>, n: int) -> Seq<Fragment>
    decreases n,
{
    if n <= 0 {
        Seq::empty()
    } else {
        body_fragments(chunks, n - 1) + chunk_fragments(chunks, n - 1)
    }
}

/// The legend: `< left / > right` and a line break, each marker and label in
/// the colour of its side.
pub open spec fn legend() -> Seq<Fragment> {
    seq![
        hl(Highlight::UnchangedLeft, seq!['<']),
        lit(seq![' ']),
        hl(Highlight::UnchangedLeft, seq!['l', 'e', 'f', 't']),
        lit(seq![' ', '/', ' ']),
        hl(Highlight::UnchangedRight, seq!['>']),
        lit(seq![' ']),
        hl(Highlight::UnchangedRight, seq!['r', 'i', 'g', 'h', 't']),
        lit(seq!['\n']),
    ]
}

/// The whole report for a changeset: the legend, then every chunk in order.
pub open spec fn report(chunks: Seq<Piece>) -> Seq<Fragment> {
    legend() + body_fragments(chunks, chunks.len() as int)
}

/// Whether the chunk at index `i` is shown on its own, as added or removed
/// lines.
pub open spec fn shown_alone(chunks: Seq<Piece>, i: int) -> bool {
    action_at(chunks, i) == Action::Add || action_at(chunks, i) == Action::Remove
}

/// Whether the chunk at index `i` is shown as one half of a modified line:
/// it is the insertion that is refined, or the deletion right before it.
pub open spec fn shown_in_pair(chunks: Seq<Piece>, i: int) -> bool {
    action_at(chunks, i) == Action::Refine || (i + 1 < chunks.len() && action_at(chunks, i + 1)
        == Action::Refine)
}

/// Every insertion and every deletion of a changeset is shown exactly once:
/// on its own or as one half of a modified line, never both. A modified line
/// is made of a suppressed deletion and the refined insertion right after
/// it, and of nothing else: the deletion is suppressed exactly when the next
/// chunk is refined, and an insertion is refined exactly when the chunk
/// before it is suppressed. Shared text is never part of a modified line.
pub proof fn lemma_pairing_exclusive(chunks: Seq<Piece>, i: int)
    requires
        0 <= i < chunks.len(),
    ensures
        !(chunks[i] is Equal) ==> (shown_alone(chunks, i) != shown_in_pair(chunks, i)),
        chunks[i] is Equal ==> !shown_alone(chunks, i) && !shown_in_pair(chunks, i),
        action_at(chunks, i) == Action::Refine <==> i >= 1 && chunks[i] is Insert && action_at(
            chunks,
            i - 1,
        ) == Action::Suppress,
        action_at(chunks, i) == Action::Suppress <==> i + 1 < chunks.len() && chunks[i] is Delete
            && action_at(chunks, i + 1) == Action::Refine,
        action_at(chunks, i) == Action::Suppress ==> chunk_fragments(chunks, i).len() == 0,
        action_at(chunks, i) == Action::Refine ==> chunk_fragments(chunks, i) == refined_fragments(
            chunks_of(chunks[i - 1].text(), chunks[i].text()),
        ),
{
}

/// Puts a span in the styling of a class at the end of `out`.
fn emit(out: &mut String, class: Highlight, text: &str)
    ensures
        final(out)@ == old(out)@ + painted(class, text@),
{
    let s = paint(class, text);
    out.append(s.as_str());
}

/// Puts every line of `text` at the end of `out` as a whole line.
fn format_whole(out: &mut String, class: Option<Highlight>, text: &str)
    ensures
        final(out)@ == old(out)@ + styled(whole_lines(class, lines(text@))),
{
    let parts = split_lines(text);
    let ghost start = out@;
    let ghost ls = lines(text@);
    for i in 0..parts.len()
        invariant
            texts(parts@) == ls,
            out@ == start + styled(whole_lines(class, ls.take(i as int))),
    {
        let ghost before = out@;
        let line = parts[i].as_str();
        assert(line@ == ls[i as int]);
        match class {
            None => {
                out.append(" ");
                out.append(line);
                out.append("\n");
                proof {
                    reveal_strlit(" ");
                    reveal_strlit("\n");
                    assert(" "@ =~= seq![' ']);
                    assert("\n"@ =~= seq!['\n']);
                }
            },
            Some(c) => {
                emit(out, c, c.glyph());
                emit(out, c, line);
                out.append("\n");
                proof {
                    reveal_strlit("\n");
                    assert("\n"@ =~= seq!['\n']);
                }
            },
        }
        proof {
            let done = ls.take(i as int);
            let next = ls.take(i + 1);
            assert(next.drop_last() == done);
            assert(next.last() == line@);
            let w = whole_line(class, line@);
            lemma_triple(w[0], w[1], w[2]);
            assert(w == seq![w[0], w[1], w[2]]);
            lemma_styled_concat(whole_lines(class, done), w);
            assert(out@ == before + styled(w));
        }
    }
    proof {
        assert(ls.take(parts@.len() as int) == ls);
    }
}

/// Writes the lines of a text that both sides share: each after a single
/// space, without styling.
pub fn format_same(out: &mut String, text: &str)
    ensures
        final(out)@ == old(out)@ + styled(same_fragments(text@)),
{
    format_whole(out, None, text)
}

/// Writes the lines of a text that only the right side has: each after the
/// right marker, marker and line in the colour of the right side.
pub fn format_add(out: &mut String, text: &str)
    ensures
        final(out)@ == old(out)@ + styled(added_fragments(text@)),
{
    format_whole(out, Some(Highlight::AddedWhole), text)
}

/// Writes the lines of a text that only the left side has: each after the
/// left marker, marker and line in the colour of the left side.
pub fn format_rem(out: &mut String, text: &str)
    ensures
        final(out)@ == old(out)@ + styled(removed_fragments(text@)),
{
    format_whole(out, Some(Highlight::RemovedWhole), text)
}

/// Writes the text of one fine-grained chunk into a row.
fn format_spans(out: &mut String, class: Highlight, line_break: &str, text: &str)
    ensures
        final(out)@ == old(out)@ + styled(
            spans(class, interspersed(lines(text@), line_break@)),
        ),
{
    let blobs = intersperse(split_lines(text), line_break);
    let ghost start = out@;
    let ghost bs = interspersed(lines(text@), line_break@);
    for j in 0..blobs.len()
        invariant
            texts(blobs@) == bs,
            out@ == start + styled(spans(class, bs.take(j as int))),
    {
        let blob = blobs[j].as_str();
        assert(blob@ == bs[j as int]);
        emit(out, class, blob);
        proof {
            let next = spans(class, bs.take(j + 1));
            assert(next.drop_last() == spans(class, bs.take(j as int)));
            assert(next.last() == hl(class, blob@));
        }
    }
    proof {
        assert(bs.take(blobs@.len() as int) == bs);
    }
}

/// Writes one row of a modified line.
fn format_row(out: &mut String, side: Side, diffs: &Vec<Chunk>)
    ensures
        final(out)@ == old(out)@ + styled(row(side, pieces(diffs@))),
{
    let ghost start = out@;
    let ghost fine = pieces(diffs@);
    let ghost head = seq![hl(side.unchanged_class(), seq![side.unchanged_class().marker()])];
    emit(out, side.unchanged(), side.unchanged().glyph());
    proof {
        lemma_single(head[0]);
        assert(head + row_body(side, fine.take(0)) == head);
    }
    for i in 0..diffs.len()
        invariant
            fine == pieces(diffs@),
            head == seq![hl(side.unchanged_class(), seq![side.unchanged_class().marker()])],
            out@ == start + styled(head + row_body(side, fine.take(i as int))),
    {
        let ghost before = out@;
        match side.class_of(&diffs[i]) {
            Some(class) => format_spans(out, class, side.line_break(), diffs[i].text()),
            None => {},
        }
        proof {
            let done = fine.take(i as int);
            let next = fine.take(i + 1);
            assert(next.drop_last() == done);
            assert(next.last() == diffs[i as int]@);
            assert(out@ == before + styled(row_chunk(side, diffs[i as int]@)));
            lemma_styled_concat(head + row_body(side, done), row_chunk(side, diffs[i as int]@));
            assert(head + row_body(side, next) == head + row_body(side, done) + row_chunk(
                side,
                diffs[i as int]@,
            ));
        }
    }
    out.append("\n");
    proof {
        reveal_strlit("\n");
        assert("\n"@ =~= seq!['\n']);
        assert(fine.take(diffs@.len() as int) == fine);
        let tail = seq![lit(seq!['\n'])];
        lemma_single(tail[0]);
        lemma_styled_concat(head + row_body(side, fine), tail);
    }
}

/// Writes a modified line from its fine-grained difference: the left row with
/// the removed spans emphasized, then the right row with the added spans
/// emphasized.
pub fn format_rows(out: &mut String, diffs: &Vec<Chunk>)
    ensures
        final(out)@ == old(out)@ + styled(refined_fragments(pieces(diffs@))),
{
    let ghost fine = pieces(diffs@);
    format_row(out, Side::Left, diffs);
    format_row(out, Side::Right, diffs);
    proof {
        lemma_styled_concat(row(Side::Left, fine), row(Side::Right, fine));
    }
}

/// Writes a deleted text and the inserted text that took its place as one
/// modified line: the two are compared once more, and the rows show what of
/// each is shared and what is not.
pub fn format_add_rem(out: &mut String, added: &str, removed: &str)
    ensures
        final(out)@ == old(out)@ + styled(refined_fragments(chunks_of(removed@, added@))),
{
    let diffs = diff_chunks(removed, added);
    format_rows(out, &diffs);
}

/// Decides what is done with the chunk at index `i` of a changeset.
pub fn classify(changeset: &Vec<Chunk>, i: usize) -> (action: Action)
    requires
        i < changeset.len(),
    ensures
        action == action_at(pieces(changeset@), i as int),
{
    match changeset[i] {
        Chunk::Equal(_) => Action::Same,
        Chunk::Insert(_) => {
            if i >= 1 {
                match changeset[i - 1] {
                    Chunk::Delete(_) => Action::Refine,
                    _ => Action::Add,
                }
            } else {
                Action::Add
            }
        },
        Chunk::Delete(_) => {
            if i + 1 < changeset.len() {
                match changeset[i + 1] {
                    Chunk::Insert(_) => Action::Suppress,
                    _ => Action::Remove,
                }
            } else {
                Action::Remove
            }
        },
    }
}

/// Writes the legend line.
fn format_legend(out: &mut String)
    ensures
        final(out)@ == old(out)@ + styled(legend()),
{
    emit(out, Highlight::UnchangedLeft, "<");
    out.append(" ");
    emit(out, Highlight::UnchangedLeft, "left");
    out.append(" / ");
    emit(out, Highlight::UnchangedRight, ">");
    out.append(" ");
    emit(out, Highlight::UnchangedRight, "right");
    out.append("\n");
    proof {
        reveal_strlit("<");
        reveal_strlit(" ");
        reveal_strlit("left");
        reveal_strlit(" / ");
        reveal_strlit(">");
        reveal_strlit("right");
        reveal_strlit("\n");
        assert("<"@ =~= seq!['<']);
        assert(" "@ =~= seq![' ']);
        assert("left"@ =~= seq!['l', 'e', 'f', 't']);
        assert(" / "@ =~= seq![' ', '/', ' ']);
        assert(">"@ =~= seq!['>']);
        assert("right"@ =~= seq!['r', 'i', 'g', 'h', 't']);
        assert("\n"@ =~= seq!['\n']);
        let l = legend();
        lemma_triple(l[0], l[1], l[2]);
        lemma_triple(l[3], l[4], l[5]);
        lemma_single(l[6]);
        lemma_single(l[7]);
        assert(l == seq![l[0], l[1], l[2]] + seq![l[3], l[4], l[5]] + seq![l[6]] + seq![l[7]]);
        lemma_styled_concat(seq![l[0], l[1], l[2]], seq![l[3], l[4], l[5]]);
        lemma_styled_concat(seq![l[0], l[1], l[2]] + seq![l[3], l[4], l[5]], seq![l[6]]);
        lemma_styled_concat(
            seq![l[0], l[1], l[2]] + seq![l[3], l[4], l[5]] + seq![l[6]],
            seq![l[7]],
        );
    }
}

/// Writes the report for a changeset: the legend first, then each chunk by
/// its action, in one pass from the first chunk to the last.
pub fn fmt_changeset(out: &mut String, changeset: &Vec<Chunk>)
    ensures
        final(out)@ == old(out)@ + styled(report(pieces(changeset@))),
{
    let ghost start = out@;
    let ghost chunks = pieces(changeset@);
    format_legend(out);
    proof {
        assert(legend() + body_fragments(chunks, 0) == legend());
    }
    for i in 0..changeset.len()
        invariant
            chunks == pieces(changeset@),
            out@ == start + styled(legend() + body_fragments(chunks, i as int)),
    {
        let ghost before = out@;
        match classify(changeset, i) {
            Action::Same => format_same(out, changeset[i].text()),
            Action::Refine => format_add_rem(out, changeset[i].text(), changeset[i - 1].text()),
            Action::Add => format_add(out, changeset[i].text()),
            Action::Suppress => {},
            Action::Remove => format_rem(out, changeset[i].text()),
        }
        proof {
            assert(out@ == before + styled(chunk_fragments(chunks, i as int)));
            lemma_styled_concat(
                legend() + body_fragments(chunks, i as int),
                chunk_fragments(chunks, i as int),
            );
            assert(legend() + body_fragments(chunks, i + 1) == legend() + body_fragments(
                chunks,
                i as int,
            ) + chunk_fragments(chunks, i as int));
        }
    }
}

/// Writes the difference between two texts: they are compared, and the
/// changeset found is written as a report.
pub fn diff(out: &mut String, expected: &str, actual: &str)
    ensures
        final(out)@ == old(out)@ + styled(report(chunks_of(expected@, actual@))),
{
    let changeset = diff_chunks(expected, actual);
    fmt_changeset(out, &changeset);
}

/// Two texts to compare; its string form is the report of their difference.
#[derive(Clone, Copy, Debug)]
pub struct PrettyDifference<'a> {
    pub expected: &'a str,
    pub actual: &'a str,
}

impl<'a> PrettyDifference<'a> {
    /// The report of the difference between `expected` and `actual`. Its
    /// first line is the legend line, whatever the two texts are.
    pub fn to_string(&self) -> (s: String)
        ensures
            s@ == styled(report(chunks_of(self.expected@, self.actual@))),
            legend_line().is_prefix_of(stripped(s@)),
    {
        let mut out = String::new();
        diff(&mut out, self.expected, self.actual);
        proof {
            lemma_legend_first(chunks_of(self.expected@, self.actual@));
        }
        out
    }
}

} // verus!
