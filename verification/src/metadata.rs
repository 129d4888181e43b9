//! The origin record of a metadata document: a field whose value is a list
//! of numbers with commas between them, of which the first three are the
//! coordinates of the origin.
//!
//! Finding the field in the document and reading its components as numbers
//! is the caller's part; this module cuts the field and says which component
//! is which.

use vstd::prelude::*;
use crate::error::Error;
use crate::line::Triple;
use crate::line::TripleView;
use crate::text::lacks;
use crate::text::lemma_pieces_after_piece;
use crate::text::lemma_pieces_of_piece;
use crate::text::pieces;
use crate::text::split_on;
use crate::text::texts;

verus! {

/// The byte that separates the components of the origin field.
pub const COMMA: u8 = 0x2c;

/// The components of an origin field.
#[derive(Clone, Debug, PartialEq, Eq)]
pub struct OriginRecord {
    /// The first three components: x, y and z of the origin.
    pub origin: Triple,
    /// The components after the third, in order. They are no part of the
    /// origin, but a record is only valid where each of them is a number too.
    pub extra: Vec<Vec<u8>>,
}

/// Whether `field` holds the three components of an origin.
pub open spec fn has_origin(field: Seq<u8>) -> bool {
    pieces(field, COMMA).len() >= 3
}

/// The origin that `field` gives: its first three components, as they
/// stand, with nothing trimmed.
pub open spec fn origin_of(field: Seq<u8>) -> TripleView
    recommends
        has_origin(field),
{
    TripleView {
        x: pieces(field, COMMA)[0],
        y: pieces(field, COMMA)[1],
        z: pieces(field, COMMA)[2],
    }
}

/// The origin field that holds the components `t` and no others.
pub open spec fn origin_text(t: TripleView) -> Seq<u8> {
    t.x + seq![COMMA] + t.y + seq![COMMA] + t.z
}

/// A field written from three components without a comma reads back as
/// those three, exactly, and holds no others.
pub proof fn lemma_origin_reads_back(t: TripleView)
    requires
        lacks(t.x, COMMA),
        lacks(t.y, COMMA),
        lacks(t.z, COMMA),
    ensures
        has_origin(origin_text(t)),
        pieces(origin_text(t), COMMA) == seq![t.x, t.y, t.z],
        origin_of(origin_text(t)) == t,
{
    let comma = seq![COMMA];
    let from_y = t.y + comma + t.z;
    assert(origin_text(t) =~= t.x + comma + from_y);
    lemma_pieces_of_piece(t.z, COMMA);
    lemma_pieces_after_piece(t.y, t.z, COMMA);
    lemma_pieces_after_piece(t.x, from_y, COMMA);
    assert(pieces(origin_text(t), COMMA) =~= seq![t.x, t.y, t.z]);
}

/// Cuts the origin field at its commas. A field with fewer than three
/// components is refused; of any other the first three components are the
/// origin and the others are handed back beside it.
pub fn read_origin(field: &[u8]) -> (r: Result<OriginRecord, Error>)
    ensures
        has_origin(field@) ==> (r matches Ok(record) && record.origin@ == origin_of(field@)
            && texts(record.extra@) == pieces(field@, COMMA).skip(3)),
        !has_origin(field@) ==> r == Err::<OriginRecord, Error>(Error::MalformedMetadata),
{
    let mut parts = split_on(field, COMMA);
    if parts.len() < 3 {
        return Err(Error::MalformedMetadata);
    }
    assert(forall|i: int| 0 <= i < parts@.len() ==> texts(parts@)[i] == parts@[i]@);
    let ghost all = parts@;
    let x = parts.remove(0);
    let y = parts.remove(0);
    let z = parts.remove(0);
    assert(parts@ =~= all.skip(3));
    assert(texts(parts@) =~= pieces(field@, COMMA).skip(3));
    Ok(OriginRecord { origin: Triple { x, y, z }, extra: parts })
}

} // verus!
