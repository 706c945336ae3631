//! Chunks of a difference, and where they come from.

use vstd::prelude::*;

verus! {

/// A span of text that the two sides share, or that one side alone has.
#[derive(Clone, Copy, Debug, PartialEq, Eq)]
pub enum Chunk<'a> {
    /// Text that both sides have.
    Equal(&'a str),
    /// Text that only the left side has.
    Delete(&'a str),
    /// Text that only the right side has.
    Insert(&'a str),
}

/// A chunk as a mathematical value.
pub enum Piece {
    Equal(Seq<char>),
    Delete(Seq<char>),
    Insert(Seq<char>),
}

impl Piece {
    /// The text of the chunk, whatever its tag.
    pub open spec fn text(self) -> Seq<char> {
        match self {
            Piece::Equal(t) => t,
            Piece::Delete(t) => t,
            Piece::Insert(t) => t,
        }
    }
}

impl<'a> Chunk<'a> {
    /// The text of the chunk, whatever its tag.
    pub fn text(&self) -> (t: &'a str)
        ensures
            t@ == self@.text(),
    {
        match *self {
            Chunk::Equal(t) => t,
            Chunk::Delete(t) => t,
            Chunk::Insert(t) => t,
        }
    }
}

impl<'a> View for Chunk<'a> {
    type V = Piece;

    open spec fn view(&self) -> Piece {
        match *self {
            Chunk::Equal(t) => Piece::Equal(t@),
            Chunk::Delete(t) => Piece::Delete(t@),
            Chunk::Insert(t) => Piece::Insert(t@),
        }
    }
}

/// The chunks of a sequence as mathematical values.
pub open spec fn pieces(chunks: Seq<Chunk>) -> Seq<Piece> {
    chunks.map_values(|c: Chunk| c@)
}

/// What `dissimilar::diff` returns for two texts.
pub uninterp spec fn dissimilar_diff(text1: Seq<char>, text2: Seq<char>) -> Seq<Piece>;

/// `dissimilar::diff`: the chunks it computes depend on the two texts alone,
/// and each is handed on under its own tag with its own text.
#[verifier::external_body]
fn raw_diff<'a>(text1: &'a str, text2: &'a str) -> (chunks: Vec<Chunk<'a>>)
    ensures
        pieces(chunks@) == dissimilar_diff(text1@, text2@),
{
    dissimilar::diff(text1, text2).into_iter().map(|c| match c {
        dissimilar::Chunk::Equal(t) => Chunk::Equal(t),
        dissimilar::Chunk::Delete(t) => Chunk::Delete(t),
        dissimilar::Chunk::Insert(t) => Chunk::Insert(t),
    }).collect()
}

/// The left text that a chunk sequence stands for: the texts of its `Equal`
/// and `Delete` chunks, in order.
pub open spec fn left_text(chunks: Seq<Piece>) -> Seq<char>
    decreases chunks.len(),
{
    if chunks.len() == 0 {
        Seq::empty()
    } else {
        left_text(chunks.drop_last()) + match chunks.last() {
            Piece::Insert(_) => Seq::empty(),
            Piece::Equal(t) => t,
            Piece::Delete(t) => t,
        }
    }
}

/// The right text that a chunk sequence stands for: the texts of its `Equal`
/// and `Insert` chunks, in order.
pub open spec fn right_text(chunks: Seq<Piece>) -> Seq<char>
    decreases chunks.len(),
{
    if chunks.len() == 0 {
        Seq::empty()
    } else {
        right_text(chunks.drop_last()) + match chunks.last() {
            Piece::Delete(_) => Seq::empty(),
            Piece::Equal(t) => t,
            Piece::Insert(t) => t,
        }
    }
}

/// Whether a chunk sequence partitions the two texts: its left text is `a` and
/// its right text is `b`.
pub open spec fn partitions(chunks: Seq<Piece>, a: Seq<char>, b: Seq<char>) -> bool {
    left_text(chunks) == a && right_text(chunks) == b
}

/// Decides whether a chunk sequence partitions the two texts.
pub fn is_partition(chunks: &Vec<Chunk>, a: &str, b: &str) -> (ok: bool)
    ensures
        ok == partitions(pieces(chunks@), a@, b@),
{
    let mut left = String::new();
    let mut right = String::new();
    for i in 0..chunks.len()
        invariant
            left@ == left_text(pieces(chunks@).take(i as int)),
            right@ == right_text(pieces(chunks@).take(i as int)),
    {
        proof {
            assert(pieces(chunks@).take(i + 1).drop_last() == pieces(chunks@).take(i as int));
        }
        match chunks[i] {
            Chunk::Equal(t) => {
                left.append(t);
                right.append(t);
            },
            Chunk::Delete(t) => {
                left.append(t);
            },
            Chunk::Insert(t) => {
                right.append(t);
            },
        }
    }
    proof {
        assert(pieces(chunks@).take(chunks@.len() as int) == pieces(chunks@));
    }
    left == a.to_owned() && right == b.to_owned()
}

/// The changeset that says nothing more than that `a` became `b`: all of
/// `a` deleted, all of `b` inserted.
pub open spec fn replacement(a: Seq<char>, b: Seq<char>) -> Seq<Piece> {
    seq![Piece::Delete(a), Piece::Insert(b)]
}

/// A changeset offered for two texts, as far as it can be relied on: the
/// offered chunks where they partition the texts, the plain replacement of
/// one text by the other where they do not.
pub open spec fn accepted(offered: Seq<Piece>, a: Seq<char>, b: Seq<char>) -> Seq<Piece> {
    if partitions(offered, a, b) {
        offered
    } else {
        replacement(a, b)
    }
}

/// The changeset that this library works with for two texts: what
/// `dissimilar::diff` finds, as far as it can be relied on.
pub open spec fn chunks_of(a: Seq<char>, b: Seq<char>) -> Seq<Piece> {
    accepted(dissimilar_diff(a, b), a, b)
}

/// A replacement partitions its two texts.
pub proof fn lemma_replacement_partitions(a: Seq<char>, b: Seq<char>)
    ensures
        partitions(replacement(a, b), a, b),
{
    let r = replacement(a, b);
    assert(r.drop_last() == seq![Piece::Delete(a)]);
    assert(r.drop_last().drop_last() == Seq::<Piece>::empty());
    assert(left_text(Seq::<Piece>::empty()) == Seq::<char>::empty());
    assert(right_text(Seq::<Piece>::empty()) == Seq::<char>::empty());
    assert(left_text(r.drop_last()) == a);
    assert(right_text(r.drop_last()) == Seq::<char>::empty());
    assert(left_text(r) == a);
    assert(right_text(r) == b);
}

/// The changeset that this library works with for two texts partitions them.
pub proof fn lemma_chunks_partition(a: Seq<char>, b: Seq<char>)
    ensures
        partitions(chunks_of(a, b), a, b),
        left_text(chunks_of(a, b)) == a,
        right_text(chunks_of(a, b)) == b,
{
    lemma_replacement_partitions(a, b);
}

/// Takes a changeset offered for two texts if it partitions them, and puts
/// the plain replacement in its place if it does not.
pub fn accept<'a>(offered: Vec<Chunk<'a>>, a: &'a str, b: &'a str) -> (chunks: Vec<Chunk<'a>>)
    ensures
        pieces(chunks@) == accepted(pieces(offered@), a@, b@),
        partitions(pieces(chunks@), a@, b@),
{
    if is_partition(&offered, a, b) {
        offered
    } else {
        proof {
            lemma_replacement_partitions(a@, b@);
        }
        let mut chunks: Vec<Chunk<'a>> = Vec::new();
        chunks.push(Chunk::Delete(a));
        chunks.push(Chunk::Insert(b));
        assert(pieces(chunks@) == replacement(a@, b@));
        chunks
    }
}

/// Compares two texts. The chunks returned partition them: the `Equal` and
/// `Delete` chunks make up `expected`, the `Equal` and `Insert` chunks make
/// up `actual`, each in order.
pub fn diff_chunks<'a>(expected: &'a str, actual: &'a str) -> (chunks: Vec<Chunk<'a>>)
    ensures
        pieces(chunks@) == chunks_of(expected@, actual@),
        left_text(pieces(chunks@)) == expected@,
        right_text(pieces(chunks@)) == actual@,
{
    accept(raw_diff(expected, actual), expected, actual)
}

} // verus!
