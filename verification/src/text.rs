//! Texts as sequences of characters: lines, separators and joins.

use itertools::Itertools;
use vstd::prelude::*;

verus! {

/// `String::push` appends the given character to the end of the string.
pub assume_specification[ String::push ](s: &mut String, c: char)
    ensures
        final(s)@ == old(s)@.push(c),
;

/// The line separator.
pub open spec fn newline() -> char {
    '\n'
}

/// The pieces of `s` between occurrences of `sep`, in order. There is always
/// at least one piece: a text without separator is its own single piece, and
/// a separator at either end leaves an empty piece there.
pub open spec fn split(s: Seq<char>, sep: char) -> Seq<Seq<char>>
    decreases s.len(),
{
    if s.len() == 0 {
        seq![Seq::empty()]
    } else {
        let before = split(s.drop_last(), sep);
        if s.last() == sep {
            before.push(Seq::empty())
        } else {
            before.drop_last().push(before.last().push(s.last()))
        }
    }
}

/// The lines of a text.
pub open spec fn lines(s: Seq<char>) -> Seq<Seq<char>> {
    split(s, newline())
}

/// The texts that a sequence of strings holds.
pub open spec fn texts(v: Seq<String>) -> Seq<Seq<char>> {
    v.map_values(|s: String| s@)
}

/// The items with a separator put between each two neighbours: nothing is
/// added before the first item or after the last.
pub open spec fn interspersed(items: Seq<Seq<char>>, sep: Seq<char>) -> Seq<Seq<char>>
    decreases items.len(),
{
    if items.len() <= 1 {
        items
    } else {
        interspersed(items.drop_last(), sep).push(sep).push(items.last())
    }
}

/// `Itertools::intersperse`, collected: the adaptor yields the items of the
/// iterator in order, with a clone of the given element between each two of
/// them, and nothing else.
#[verifier::external_body]
pub(crate) fn intersperse(items: Vec<String>, sep: &str) -> (r: Vec<String>)
    ensures
        texts(r@) == interspersed(texts(items@), sep@),
{
    Itertools::intersperse(items.into_iter(), sep.to_owned()).collect()
}

/// Texts put one after the other.
pub open spec fn concat(blobs: Seq<Seq<char>>) -> Seq<char>
    decreases blobs.len(),
{
    if blobs.len() == 0 {
        Seq::empty()
    } else {
        concat(blobs.drop_last()) + blobs.last()
    }
}

/// A text in which every occurrence of the character `c` is replaced by the
/// text `by`.
pub open spec fn replaced(text: Seq<char>, c: char, by: Seq<char>) -> Seq<char>
    decreases text.len(),
{
    if text.len() == 0 {
        Seq::empty()
    } else {
        replaced(text.drop_last(), c, by) + if text.last() == c {
            by
        } else {
            seq![text.last()]
        }
    }
}

/// A split text has at least one piece.
pub proof fn lemma_split_nonempty(s: Seq<char>, sep: char)
    ensures
        split(s, sep).len() >= 1,
    decreases s.len(),
{
    if s.len() > 0 {
        lemma_split_nonempty(s.drop_last(), sep);
    }
}

/// No piece of a split text holds the separator.
pub proof fn lemma_split_pieces(s: Seq<char>, sep: char)
    ensures
        forall|i: int, j: int|
            0 <= i < split(s, sep).len() && 0 <= j < split(s, sep)[i].len() ==> split(
                s,
                sep,
            )[i][j] != sep,
    decreases s.len(),
{
    if s.len() > 0 {
        lemma_split_pieces(s.drop_last(), sep);
        lemma_split_nonempty(s.drop_last(), sep);
    }
}

/// Putting a text after others adds it at the end.
pub proof fn lemma_concat_push(blobs: Seq<Seq<char>>, blob: Seq<char>)
    ensures
        concat(blobs.push(blob)) == concat(blobs) + blob,
{
    assert(blobs.push(blob).drop_last() == blobs);
}

/// Characters are replaced one by one, so they are in a text made of two as
/// they are in each.
pub proof fn lemma_replaced_concat(a: Seq<char>, b: Seq<char>, c: char, by: Seq<char>)
    ensures
        replaced(a + b, c, by) == replaced(a, c, by) + replaced(b, c, by),
    decreases b.len(),
{
    if b.len() == 0 {
        assert(a + b == a);
        assert(replaced(a, c, by) + replaced(b, c, by) == replaced(a, c, by));
    } else {
        lemma_replaced_concat(a, b.drop_last(), c, by);
        assert((a + b).drop_last() == a + b.drop_last());
        assert((a + b).last() == b.last());
        let tail = if b.last() == c {
            by
        } else {
            seq![b.last()]
        };
        let head = replaced(a, c, by);
        let body = replaced(b.drop_last(), c, by);
        assert(head + body + tail == head + (body + tail));
    }
}

/// Replacing a character by itself changes nothing.
pub proof fn lemma_replaced_same(text: Seq<char>, c: char)
    ensures
        replaced(text, c, seq![c]) == text,
    decreases text.len(),
{
    if text.len() > 0 {
        lemma_replaced_same(text.drop_last(), c);
        assert(text.drop_last() + seq![text.last()] == text);
    }
}

/// The pieces of a split text with another text put between them are, put
/// together, the text with every separator replaced by that other text.
pub proof fn lemma_split_interspersed(text: Seq<char>, sep: char, by: Seq<char>)
    ensures
        concat(interspersed(split(text, sep), by)) == replaced(text, sep, by),
    decreases text.len(),
{
    if text.len() == 0 {
        let one = seq![Seq::<char>::empty()];
        assert(split(text, sep) == one);
        assert(interspersed(one, by) == one);
        lemma_concat_push(Seq::empty(), Seq::<char>::empty());
        assert(Seq::<Seq<char>>::empty().push(Seq::<char>::empty()) == one);
        assert(concat(Seq::<Seq<char>>::empty()) == Seq::<char>::empty());
    } else {
        let before = text.drop_last();
        let c = text.last();
        let ls = split(before, sep);
        lemma_split_nonempty(before, sep);
        lemma_split_interspersed(before, sep, by);
        if c == sep {
            let next = ls.push(Seq::empty());
            assert(split(text, sep) == next);
            assert(next.drop_last() == ls);
            assert(interspersed(next, by) == interspersed(ls, by).push(by).push(Seq::empty()));
            lemma_concat_push(interspersed(ls, by).push(by), Seq::empty());
            lemma_concat_push(interspersed(ls, by), by);
            assert(concat(interspersed(next, by)) == replaced(before, sep, by) + by);
        } else {
            let grown = ls.last().push(c);
            let next = ls.drop_last().push(grown);
            assert(split(text, sep) == next);
            assert(next.drop_last() == ls.drop_last());
            if ls.len() == 1 {
                assert(interspersed(ls, by) == ls);
                assert(interspersed(next, by) == next);
                lemma_concat_push(ls.drop_last(), grown);
                lemma_concat_push(ls.drop_last(), ls.last());
                assert(ls.drop_last().push(ls.last()) == ls);
                assert(concat(next) == concat(ls.drop_last()) + (ls.last() + seq![c]));
                assert(concat(next) == concat(ls) + seq![c]);
            } else {
                let head = interspersed(ls.drop_last(), by).push(by);
                assert(interspersed(ls, by) == head.push(ls.last()));
                assert(interspersed(next, by) == head.push(grown));
                lemma_concat_push(head, ls.last());
                lemma_concat_push(head, grown);
                assert(concat(head) + (ls.last() + seq![c]) == concat(head) + ls.last() + seq![c]);
            }
            assert(concat(interspersed(next, by)) == replaced(before, sep, by) + seq![c]);
        }
    }
}

/// The pieces of a split text, with the separator put back between them,
/// are the text.
pub proof fn lemma_split_joins(text: Seq<char>, sep: char)
    ensures
        concat(interspersed(split(text, sep), seq![sep])) == text,
{
    lemma_split_interspersed(text, sep, seq![sep]);
    lemma_replaced_same(text, sep);
}

/// Splits a text into its lines: the pieces between its line breaks. No line
/// holds a line break, and the lines with the line breaks put back between
/// them are the text.
pub fn split_lines(text: &str) -> (parts: Vec<String>)
    ensures
        texts(parts@) == lines(text@),
        parts@.len() >= 1,
        forall|i: int, j: int|
            0 <= i < parts@.len() && 0 <= j < parts@[i]@.len() ==> parts@[i]@[j] != newline(),
        concat(interspersed(texts(parts@), seq![newline()])) == text@,
{
    let mut done: Vec<String> = Vec::new();
    let mut cur = String::new();
    for c in it: text.chars()
        invariant
            it.seq() == text@,
            texts(done@).push(cur@) == lines(text@.take(it.index() as int)),
    {
        proof {
            let i = it.index() as int;
            assert(text@.take(i + 1).drop_last() == text@.take(i));
            lemma_split_nonempty(text@.take(i), newline());
        }
        if c == '\n' {
            done.push(cur);
            cur = String::new();
        } else {
            cur.push(c);
        }
    }
    done.push(cur);
    proof {
        assert(text@.take(text@.len() as int) == text@);
        lemma_split_nonempty(text@, newline());
        lemma_split_pieces(text@, newline());
        lemma_split_joins(text@, newline());
        assert forall|i: int, j: int|
            0 <= i < done@.len() && 0 <= j < done@[i]@.len() implies done@[i]@[j]
            != newline() by {
            assert(done@[i]@ == lines(text@)[i]);
        }
    }
    done
}

} // verus!
