//! Typed view of the stored path-result column.
//!
//! The store keeps a small signed integer per cached path: a non-positive
//! value means "no usable path was computed", and a positive value `v`
//! stands for a path of `v - 1` edges. That off-by-one encoding is fixed
//! by the persisted schema; this module wraps it so the rest of the crate
//! never touches the raw integer directly.

use vstd::prelude::*;

verus! {

/// Largest path length (in edges) that the encoding can carry:
/// a length `l` is stored as `l + 1`, which must fit in an `i16`.
pub const MAX_PATH_LEN: u16 = 32766;

/// A path-search outcome: either no path was found, or a path with the
/// given number of edges.
#[derive(Clone, Copy, PartialEq, Eq, Structural, Debug)]
pub enum PathOutcome {
    Unreached,
    Found(u16),
}

impl PathOutcome {
    /// A `Found` length must be encodable as a positive `i16`.
    pub open spec fn wf(self) -> bool {
        match self {
            PathOutcome::Unreached => true,
            PathOutcome::Found(len) => len <= MAX_PATH_LEN,
        }
    }
}

/// The stored integer for an outcome: `0` for no path, `len + 1` otherwise.
pub open spec fn spec_encode(o: PathOutcome) -> i16 {
    match o {
        PathOutcome::Unreached => 0,
        PathOutcome::Found(len) => (len + 1) as i16,
    }
}

/// The outcome a stored integer stands for: positive `v` is a path of
/// `v - 1` edges, anything else is "no path".
pub open spec fn spec_decode(r: i16) -> PathOutcome {
    if r > 0 {
        PathOutcome::Found((r - 1) as u16)
    } else {
        PathOutcome::Unreached
    }
}

pub fn encode_outcome(o: PathOutcome) -> (r: i16)
    requires
        o.wf(),
    ensures
        r == spec_encode(o),
{
    match o {
        PathOutcome::Unreached => 0,
        PathOutcome::Found(len) => (len + 1) as i16,
    }
}

pub fn decode_outcome(r: i16) -> (o: PathOutcome)
    ensures
        o == spec_decode(r),
        o.wf(),
{
    if r > 0 {
        PathOutcome::Found((r - 1) as u16)
    } else {
        PathOutcome::Unreached
    }
}

/// Decoding inverts encoding: the typed boundary loses nothing.
pub proof fn lemma_encode_decode_roundtrip(o: PathOutcome)
    requires
        o.wf(),
    ensures
        spec_decode(spec_encode(o)) == o,
{
}

} // verus!
