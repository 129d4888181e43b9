//! The lines of a mesh file: which of them give a vertex position, which
//! fields of such a line hold the coordinates, and how a vertex line is
//! written.
//!
//! The coordinates stay text here. Turning a field into a number, adding the
//! offset and printing the sum is the caller's part; everything around it is
//! decided in this module.

use vstd::prelude::*;
use crate::error::Error;
use crate::text::has_no_space;
use crate::text::is_space_byte;
use crate::text::lemma_word_len_bounds;
use crate::text::lemma_word_len_is;
use crate::text::lemma_words_after_space;
use crate::text::lemma_words_after_word;
use crate::text::split_words;
use crate::text::texts;
use crate::text::word_len;
use crate::text::words;

verus! {

/// The letter that is the first word of a vertex line.
pub const MARKER: u8 = 0x76;

/// The byte that separates the words of a vertex line as this module writes
/// it.
pub const BLANK: u8 = 0x20;

/// The texts of three coordinates, each without whitespace around it.
#[derive(Clone, Debug, PartialEq, Eq)]
pub struct Triple {
    pub x: Vec<u8>,
    pub y: Vec<u8>,
    pub z: Vec<u8>,
}

/// Three coordinate texts as sequences of bytes.
pub struct TripleView {
    pub x: Seq<u8>,
    pub y: Seq<u8>,
    pub z: Seq<u8>,
}

impl View for Triple {
    type V = TripleView;

    open spec fn view(&self) -> TripleView {
        TripleView { x: self.x@, y: self.y@, z: self.z@ }
    }
}

/// What is to be done with one line of the source.
#[derive(Clone, Debug, PartialEq, Eq)]
pub enum LinePlan {
    /// The line gives no vertex position: it goes to the output as it is.
    Copy,
    /// The line gives a vertex position: the three fields are to be shifted
    /// by the offset, and the line written anew from the results.
    Shift(Triple),
}

/// Whether `line` gives a vertex position: its first word is the marker.
/// Whitespace in front of the marker does not count, and any whitespace may
/// follow it.
pub open spec fn is_vertex_line(line: Seq<u8>) -> bool {
    words(line).len() > 0 && words(line)[0] == seq![MARKER]
}

/// Whether `line` is a vertex line with fewer than three fields after the
/// marker.
pub open spec fn is_short_vertex_line(line: Seq<u8>) -> bool {
    is_vertex_line(line) && words(line).len() < 4
}

/// The three coordinate fields of a vertex line: the words that follow the
/// marker. Words after the third are not part of the position.
pub open spec fn coordinate_fields(line: Seq<u8>) -> TripleView
    recommends
        is_vertex_line(line),
        words(line).len() >= 4,
{
    TripleView { x: words(line)[1], y: words(line)[2], z: words(line)[3] }
}

/// The vertex line that holds the coordinates `t`: the marker and the three
/// texts, with one blank between neighbours and no line end.
pub open spec fn vertex_text(t: TripleView) -> Seq<u8> {
    seq![MARKER, BLANK] + t.x + seq![BLANK] + t.y + seq![BLANK] + t.z
}

/// What a line becomes, where `shift` stands for the arithmetic on the
/// three fields of a vertex line and gives none where one of them is no
/// number. A line that gives no vertex position stays as it is. A vertex
/// line is written anew from its shifted coordinates, and is malformed
/// where it has fewer than three fields or one that is no number.
pub open spec fn translation(
    line: Seq<u8>,
    shift: spec_fn(TripleView) -> Option<TripleView>,
) -> Result<Seq<u8>, Error> {
    if !is_vertex_line(line) {
        Ok(line)
    } else if is_short_vertex_line(line) {
        Err(Error::MalformedVertexLine)
    } else {
        match shift(coordinate_fields(line)) {
            Some(t) => Ok(vertex_text(t)),
            None => Err(Error::MalformedVertexLine),
        }
    }
}

/// A line whose first word is not the marker is translated to itself,
/// whatever it holds and whatever the arithmetic does.
pub proof fn lemma_other_lines_stay(line: Seq<u8>, shift: spec_fn(TripleView) -> Option<TripleView>)
    requires
        !is_vertex_line(line),
    ensures
        translation(line, shift) == Ok::<Seq<u8>, Error>(line),
{
}

/// Whether `r` is the plan for `line`: a line that gives no vertex position is
/// copied, a vertex line with three fields or more has the first three
/// shifted, and a vertex line with fewer is refused.
pub open spec fn planned(line: Seq<u8>, r: Result<LinePlan, Error>) -> bool {
    if !is_vertex_line(line) {
        r == Ok::<LinePlan, Error>(LinePlan::Copy)
    } else if is_short_vertex_line(line) {
        r == Err::<LinePlan, Error>(Error::MalformedVertexLine)
    } else {
        r matches Ok(LinePlan::Shift(t)) && t@ == coordinate_fields(line)
    }
}

/// A vertex line as this module writes it reads back as the coordinates
/// that it was written from, where each of them is a word: not empty, and
/// without whitespace.
pub proof fn lemma_vertex_text_reads_back(t: TripleView)
    requires
        t.x.len() > 0 && has_no_space(t.x),
        t.y.len() > 0 && has_no_space(t.y),
        t.z.len() > 0 && has_no_space(t.z),
    ensures
        is_vertex_line(vertex_text(t)),
        !is_short_vertex_line(vertex_text(t)),
        words(vertex_text(t)) == seq![seq![MARKER], t.x, t.y, t.z],
        coordinate_fields(vertex_text(t)) == t,
{
    let blank = seq![BLANK];
    let from_z = blank + t.z;
    let from_y = blank + (t.y + from_z);
    let from_x = blank + (t.x + from_y);
    let line = seq![MARKER] + from_x;
    assert(line =~= vertex_text(t));
    lemma_words_after_word(t.z, Seq::empty());
    assert(t.z + Seq::<u8>::empty() =~= t.z);
    lemma_words_after_space(BLANK, t.z);
    lemma_words_after_word(t.y, from_z);
    lemma_words_after_space(BLANK, t.y + from_z);
    lemma_words_after_word(t.x, from_y);
    lemma_words_after_space(BLANK, t.x + from_y);
    assert(has_no_space(seq![MARKER]));
    lemma_words_after_word(seq![MARKER], from_x);
    assert(words(line) =~= seq![seq![MARKER], t.x, t.y, t.z]);
}

/// Tells whether `line` gives a vertex position.
pub fn starts_vertex(line: &[u8]) -> (r: bool)
    ensures
        r == is_vertex_line(line@),
{
    let mut i: usize = 0;
    proof {
        assert(line@.skip(0) =~= line@);
    }
    while i < line.len() && is_space_byte(line[i])
        invariant
            i <= line.len(),
            words(line@) == words(line@.skip(i as int)),
        decreases line.len() - i,
    {
        proof {
            assert(line@.skip(i as int).drop_first() =~= line@.skip(i + 1));
        }
        i += 1;
    }
    if i >= line.len() {
        proof {
            assert(line@.skip(i as int) =~= Seq::<u8>::empty());
        }
        return false;
    }
    let ghost rest = line@.skip(i as int);
    proof {
        assert(rest[0] == line@[i as int]);
        lemma_word_len_bounds(rest);
        assert(words(rest)[0] == rest.take(word_len(rest) as int));
    }
    if line[i] != MARKER {
        proof {
            assert(words(rest)[0][0] == rest[0]);
        }
        return false;
    }
    if i + 1 < line.len() && !is_space_byte(line[i + 1]) {
        proof {
            assert(rest.drop_first()[0] == line@[i + 1]);
            lemma_word_len_bounds(rest.drop_first());
            assert(words(rest)[0].len() >= 2);
        }
        return false;
    }
    proof {
        if i + 1 < line.len() {
            assert(rest[1] == line@[i + 1]);
        }
        lemma_word_len_is(rest, 1);
        assert(rest.take(1) =~= seq![MARKER]);
    }
    true
}

/// Decides what is to be done with `line`. A line that gives no vertex
/// position is copied, whatever it holds. A vertex line yields its three
/// coordinate fields, and is refused where it has fewer.
pub fn plan_line(line: &[u8]) -> (r: Result<LinePlan, Error>)
    ensures
        planned(line@, r),
        !is_vertex_line(line@) ==> r == Ok::<LinePlan, Error>(LinePlan::Copy),
{
    if !starts_vertex(line) {
        return Ok(LinePlan::Copy);
    }
    let mut fields = split_words(line);
    if fields.len() < 4 {
        return Err(Error::MalformedVertexLine);
    }
    assert(forall|i: int| 0 <= i < 4 ==> texts(fields@)[i] == fields@[i]@);
    let x = fields.remove(1);
    let y = fields.remove(1);
    let z = fields.remove(1);
    Ok(LinePlan::Shift(Triple { x, y, z }))
}

/// Appends the bytes of `text` to `out`.
pub(crate) fn append(out: &mut Vec<u8>, text: &[u8])
    ensures
        final(out)@ == old(out)@ + text@,
{
    let mut i: usize = 0;
    while i < text.len()
        invariant
            i <= text.len(),
            out@ == old(out)@ + text@.take(i as int),
        decreases text.len() - i,
    {
        out.push(text[i]);
        proof {
            assert(text@.take(i + 1) =~= text@.take(i as int).push(text@[i as int]));
        }
        i += 1;
    }
    proof {
        assert(text@.take(i as int) =~= text@);
    }
}

/// Writes the vertex line that holds the coordinates `t`, without a line end.
pub fn vertex_line(t: &Triple) -> (out: Vec<u8>)
    ensures
        out@ == vertex_text(t@),
{
    let mut out: Vec<u8> = Vec::new();
    out.push(MARKER);
    out.push(BLANK);
    assert(out@ =~= seq![MARKER, BLANK]);
    append(&mut out, t.x.as_slice());
    out.push(BLANK);
    append(&mut out, t.y.as_slice());
    out.push(BLANK);
    append(&mut out, t.z.as_slice());
    assert(out@ =~= vertex_text(t@));
    out
}

} // verus!
