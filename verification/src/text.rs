//! Splitting text into fields: the words of a mesh line, which ASCII
//! whitespace separates, and the pieces of a metadata field, which a single
//! separator byte separates.
//!
//! Text is handled as bytes. Every separator is an ASCII byte, and no byte of
//! a multi-byte UTF-8 sequence is ASCII, so splitting the bytes of a UTF-8
//! string gives the bytes of the fields of the string.

use vstd::prelude::*;
use vstd::slice::slice_subrange;
use vstd::slice::slice_to_vec;

verus! {

/// Whether `b` is one of the five ASCII whitespace bytes: space, tab, line
/// feed, form feed, carriage return.
pub open spec fn is_space(b: u8) -> bool {
    b == 0x20 || b == 0x09 || b == 0x0a || b == 0x0c || b == 0x0d
}

/// The contents of each buffer of `v`, in order.
pub open spec fn texts(v: Seq<Vec<u8>>) -> Seq<Seq<u8>> {
    v.map_values(|t: Vec<u8>| t@)
}

/// The number of bytes at the front of `s` before its first whitespace byte;
/// the length of `s` where it holds none.
pub open spec fn word_len(s: Seq<u8>) -> nat
    decreases s.len(),
{
    if s.len() == 0 || is_space(s[0]) {
        0
    } else {
        1 + word_len(s.drop_first())
    }
}

/// The words of `s`: its maximal runs of bytes that are not whitespace, in
/// the order in which they occur.
pub open spec fn words(s: Seq<u8>) -> Seq<Seq<u8>>
    decreases s.len(),
    via words_decreases
{
    if s.len() == 0 {
        Seq::empty()
    } else if is_space(s[0]) {
        words(s.drop_first())
    } else {
        seq![s.take(word_len(s) as int)] + words(s.skip(word_len(s) as int))
    }
}

#[via_fn]
proof fn words_decreases(s: Seq<u8>) {
    lemma_word_len_bounds(s);
}

/// The number of bytes at the front of `s` before the first byte equal to
/// `sep`; the length of `s` where `sep` does not occur.
pub open spec fn piece_len(s: Seq<u8>, sep: u8) -> nat
    decreases s.len(),
{
    if s.len() == 0 || s[0] == sep {
        0
    } else {
        1 + piece_len(s.drop_first(), sep)
    }
}

/// The pieces into which the occurrences of `sep` cut `s`. There is one piece
/// more than `s` holds separators, so there is always at least one, and a
/// piece between two adjacent separators is empty.
pub open spec fn pieces(s: Seq<u8>, sep: u8) -> Seq<Seq<u8>>
    decreases s.len(),
{
    if piece_len(s, sep) >= s.len() {
        seq![s]
    } else {
        seq![s.take(piece_len(s, sep) as int)] + pieces(s.skip(piece_len(s, sep) as int + 1), sep)
    }
}

/// A word at the front of a text is never longer than the text, and is not
/// empty where the text starts with a byte that is not whitespace.
pub proof fn lemma_word_len_bounds(s: Seq<u8>)
    ensures
        word_len(s) <= s.len(),
        s.len() > 0 && !is_space(s[0]) ==> word_len(s) >= 1,
    decreases s.len(),
{
    if s.len() > 0 && !is_space(s[0]) {
        lemma_word_len_bounds(s.drop_first());
    }
}

/// A run of `n` bytes without whitespace that ends at whitespace or at the end
/// of the text is the word at the front of the text.
pub proof fn lemma_word_len_is(s: Seq<u8>, n: nat)
    requires
        n <= s.len(),
        forall|k: int| 0 <= k < n ==> !is_space(#[trigger] s[k]),
        n == s.len() || is_space(s[n as int]),
    ensures
        word_len(s) == n,
    decreases n,
{
    if n > 0 {
        let rest = s.drop_first();
        assert forall|k: int| 0 <= k < n - 1 implies !is_space(#[trigger] rest[k]) by {
            assert(rest[k] == s[k + 1]);
        }
        lemma_word_len_is(rest, (n - 1) as nat);
    }
}

/// A run of `n` bytes without `sep` that ends at `sep` or at the end of the
/// text is the piece at the front of the text.
pub proof fn lemma_piece_len_is(s: Seq<u8>, sep: u8, n: nat)
    requires
        n <= s.len(),
        forall|k: int| 0 <= k < n ==> #[trigger] s[k] != sep,
        n == s.len() || s[n as int] == sep,
    ensures
        piece_len(s, sep) == n,
    decreases n,
{
    if n > 0 {
        let rest = s.drop_first();
        assert forall|k: int| 0 <= k < n - 1 implies #[trigger] rest[k] != sep by {
            assert(rest[k] == s[k + 1]);
        }
        lemma_piece_len_is(rest, sep, (n - 1) as nat);
    }
}

/// Whether `s` holds no whitespace.
pub open spec fn has_no_space(s: Seq<u8>) -> bool {
    forall|i: int| 0 <= i < s.len() ==> !is_space(#[trigger] s[i])
}

/// Whether `sep` does not occur in `s`.
pub open spec fn lacks(s: Seq<u8>, sep: u8) -> bool {
    forall|i: int| 0 <= i < s.len() ==> #[trigger] s[i] != sep
}

/// Whitespace at the front of a text adds no word.
pub proof fn lemma_words_after_space(b: u8, rest: Seq<u8>)
    requires
        is_space(b),
    ensures
        words(seq![b] + rest) == words(rest),
{
    assert((seq![b] + rest).drop_first() =~= rest);
}

/// A text that starts with a run `w` of bytes that are not whitespace, and
/// goes on with whitespace or ends there, has `w` as its first word, and
/// after it the words of what follows.
pub proof fn lemma_words_after_word(w: Seq<u8>, rest: Seq<u8>)
    requires
        w.len() > 0,
        has_no_space(w),
        rest.len() == 0 || is_space(rest[0]),
    ensures
        words(w + rest) == seq![w] + words(rest),
{
    let s = w + rest;
    assert forall|k: int| 0 <= k < w.len() implies !is_space(#[trigger] s[k]) by {
        assert(s[k] == w[k]);
    }
    if rest.len() > 0 {
        assert(s[w.len() as int] == rest[0]);
    }
    lemma_word_len_is(s, w.len());
    assert(s.take(w.len() as int) =~= w);
    assert(s.skip(w.len() as int) =~= rest);
}

/// A text without the separator is one piece.
pub proof fn lemma_pieces_of_piece(x: Seq<u8>, sep: u8)
    requires
        lacks(x, sep),
    ensures
        pieces(x, sep) == seq![x],
{
    lemma_piece_len_is(x, sep, x.len());
}

/// A text that starts with a run `x` without the separator, then holds the
/// separator, has `x` as its first piece, and after it the pieces of what
/// follows the separator.
pub proof fn lemma_pieces_after_piece(x: Seq<u8>, rest: Seq<u8>, sep: u8)
    requires
        lacks(x, sep),
    ensures
        pieces(x + seq![sep] + rest, sep) == seq![x] + pieces(rest, sep),
{
    let s = x + seq![sep] + rest;
    assert forall|k: int| 0 <= k < x.len() implies #[trigger] s[k] != sep by {
        assert(s[k] == x[k]);
    }
    assert(s[x.len() as int] == sep);
    lemma_piece_len_is(s, sep, x.len());
    assert(s.take(x.len() as int) =~= x);
    assert(s.skip(x.len() as int + 1) =~= rest);
}

/// Tells whether `b` is ASCII whitespace.
pub fn is_space_byte(b: u8) -> (r: bool)
    ensures
        r == is_space(b),
{
    b == 0x20 || b == 0x09 || b == 0x0a || b == 0x0c || b == 0x0d
}

/// Splits `line` at ASCII whitespace and returns its words, in order. A line
/// that is empty or all whitespace has no words.
pub fn split_words(line: &[u8]) -> (out: Vec<Vec<u8>>)
    ensures
        texts(out@) == words(line@),
{
    let mut out: Vec<Vec<u8>> = Vec::new();
    let mut i: usize = 0;
    proof {
        assert(line@.skip(0) =~= line@);
        assert(texts(out@) + words(line@) =~= words(line@));
    }
    while i < line.len()
        invariant
            i <= line.len(),
            words(line@) == texts(out@) + words(line@.skip(i as int)),
        decreases line.len() - i,
    {
        if is_space_byte(line[i]) {
            proof {
                assert(line@.skip(i as int).drop_first() =~= line@.skip(i + 1));
            }
            i += 1;
        } else {
            let start: usize = i;
            let mut end: usize = i + 1;
            while end < line.len() && !is_space_byte(line[end])
                invariant
                    start < end <= line.len(),
                    forall|k: int| start <= k < end ==> !is_space(#[trigger] line@[k]),
                decreases line.len() - end,
            {
                end += 1;
            }
            let word = slice_to_vec(slice_subrange(line, start, end));
            proof {
                let rest = line@.skip(start as int);
                let n = (end - start) as nat;
                assert forall|k: int| 0 <= k < n implies !is_space(#[trigger] rest[k]) by {
                    assert(rest[k] == line@[start + k]);
                }
                lemma_word_len_is(rest, n);
                assert(rest.take(n as int) =~= word@);
                assert(rest.skip(n as int) =~= line@.skip(end as int));
                assert(texts(out@.push(word)) =~= texts(out@).push(word@));
            }
            out.push(word);
            i = end;
        }
    }
    proof {
        assert(line@.skip(i as int) =~= Seq::<u8>::empty());
    }
    out
}

/// Splits `text` at every occurrence of `sep` and returns the pieces, in
/// order: one more than `text` holds separators. Nothing is trimmed.
pub fn split_on(text: &[u8], sep: u8) -> (out: Vec<Vec<u8>>)
    ensures
        texts(out@) == pieces(text@, sep),
{
    let mut out: Vec<Vec<u8>> = Vec::new();
    let mut start: usize = 0;
    proof {
        assert(text@.skip(0) =~= text@);
        assert(texts(out@) + pieces(text@, sep) =~= pieces(text@, sep));
    }
    loop
        invariant_except_break
            start <= text.len(),
            pieces(text@, sep) == texts(out@) + pieces(text@.skip(start as int), sep),
        ensures
            texts(out@) == pieces(text@, sep),
        decreases text.len() - start,
    {
        let mut end: usize = start;
        while end < text.len() && text[end] != sep
            invariant
                start <= end <= text.len(),
                forall|k: int| start <= k < end ==> #[trigger] text@[k] != sep,
            decreases text.len() - end,
        {
            end += 1;
        }
        let piece = slice_to_vec(slice_subrange(text, start, end));
        proof {
            let rest = text@.skip(start as int);
            let n = (end - start) as nat;
            assert forall|k: int| 0 <= k < n implies #[trigger] rest[k] != sep by {
                assert(rest[k] == text@[start + k]);
            }
            lemma_piece_len_is(rest, sep, n);
            assert(rest.take(n as int) =~= piece@);
            assert(texts(out@.push(piece)) =~= texts(out@).push(piece@));
            if end < text.len() {
                assert(rest.skip(n as int + 1) =~= text@.skip(end + 1));
            } else {
                assert(rest =~= piece@);
            }
        }
        out.push(piece);
        if end >= text.len() {
            break;
        }
        start = end + 1;
    }
    out
}

} // verus!
