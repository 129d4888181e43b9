//! How far a conversion has come: a share of the bytes of its source, and the
//! signals that carry it to an observer.

use vstd::prelude::*;
use crate::error::Error;

verus! {

/// A share of a whole: `numer` parts out of `denom`. A fraction that this
/// library hands out is well formed: see [`Fraction::wf`].
#[derive(Clone, Copy, Debug, PartialEq, Eq, Structural)]
pub struct Fraction {
    pub numer: u64,
    pub denom: u64,
}

/// The number of parts in which progress on a source of `total` bytes is
/// counted: its bytes, and one part for a source that is empty.
pub open spec fn full_scale(total: u64) -> u64 {
    if total == 0 {
        1
    } else {
        total
    }
}

/// The share of a source of `total` bytes that `bytes` consumed bytes make
/// up, cut off at the whole. Against an empty source any consumed byte is
/// the whole.
pub open spec fn share(bytes: nat, total: u64) -> Fraction {
    Fraction {
        numer: if bytes >= full_scale(total) {
            full_scale(total)
        } else {
            bytes as u64
        },
        denom: full_scale(total),
    }
}

/// The whole of a source of `total` bytes: the fraction that ends a
/// conversion.
pub open spec fn whole(total: u64) -> Fraction {
    Fraction { numer: full_scale(total), denom: full_scale(total) }
}

impl Fraction {
    /// A well-formed fraction lies between nought and one.
    pub open spec fn wf(self) -> bool {
        0 < self.denom && self.numer <= self.denom
    }

    /// Whether the fraction is exactly one.
    pub open spec fn is_whole(self) -> bool {
        self.numer == self.denom
    }

    /// Whether the fraction is at most `other`, as rational numbers.
    pub open spec fn le(self, other: Fraction) -> bool {
        self.numer * other.denom <= other.numer * self.denom
    }

    /// The share of a source of `total` bytes that `bytes` consumed bytes
    /// make up.
    pub fn of(bytes: u64, total: u64) -> (r: Fraction)
        ensures
            r == share(bytes as nat, total),
            r.wf(),
    {
        let denom: u64 = if total == 0 {
            1
        } else {
            total
        };
        let numer: u64 = if bytes >= denom {
            denom
        } else {
            bytes
        };
        Fraction { numer, denom }
    }

    /// The whole of a source of `total` bytes.
    pub fn whole_of(total: u64) -> (r: Fraction)
        ensures
            r == whole(total),
            r.wf(),
            r.is_whole(),
    {
        let denom: u64 = if total == 0 {
            1
        } else {
            total
        };
        Fraction { numer: denom, denom }
    }

    /// Tells whether the fraction is exactly one.
    pub fn is_complete(&self) -> (r: bool)
        ensures
            r == self.is_whole(),
    {
        self.numer == self.denom
    }
}

/// What a conversion lets its observer know.
#[derive(Clone, Copy, Debug, PartialEq, Eq, Structural)]
pub enum Signal {
    /// This share of the source has been consumed.
    Advanced(Fraction),
    /// The conversion was given up for this reason; nothing follows.
    Failed(Error),
}

/// A signal about the conversion of the file at `path`.
#[derive(Clone, Debug, PartialEq, Eq)]
pub struct ProgressEvent {
    pub path: String,
    pub signal: Signal,
}

} // verus!
