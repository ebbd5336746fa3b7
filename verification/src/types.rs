//! Element-type capability traits: a closed set of element kinds, each
//! self-describing its wire-format identifier and byte width.

use vstd::prelude::*;

verus! {

/// Marker for the element types an array may hold.
pub trait ArrType: Copy {
}

impl ArrType for bool {}

impl ArrType for u8 {}

impl ArrType for i8 {}

impl ArrType for i16 {}

impl ArrType for i32 {}

/// Implemented by types that know their own wire-format identifier and the
/// width of one encoded element.
pub trait TypeAware: ArrType {
    /// The type's identifier in the binary array format header.
    spec fn id_spec() -> u8;

    /// The width of one encoded element, in bytes.
    spec fn bytes_spec() -> nat;

    fn id() -> (r: u8)
        ensures
            r == Self::id_spec(),
    ;

    fn bytes() -> (r: usize)
        ensures
            r == Self::bytes_spec(),
            1 <= r <= 8,
    ;
}

/// A unit type standing for an element kind, carrying the same
/// self-description as `TypeAware`.
pub trait DType: Copy {
    fn new() -> Self;

    fn bytes() -> usize;

    fn id() -> u8;
}

impl TypeAware for bool {
    open spec fn id_spec() -> u8 {
        0x07
    }

    open spec fn bytes_spec() -> nat {
        1
    }

    fn id() -> u8 {
        0x07
    }

    fn bytes() -> usize {
        1
    }
}

impl TypeAware for u8 {
    open spec fn id_spec() -> u8 {
        0x08
    }

    open spec fn bytes_spec() -> nat {
        1
    }

    fn id() -> u8 {
        0x08
    }

    fn bytes() -> usize {
        1
    }
}

impl TypeAware for i8 {
    open spec fn id_spec() -> u8 {
        0x09
    }

    open spec fn bytes_spec() -> nat {
        1
    }

    fn id() -> u8 {
        0x09
    }

    fn bytes() -> usize {
        1
    }
}

impl TypeAware for i16 {
    open spec fn id_spec() -> u8 {
        0x0B
    }

    open spec fn bytes_spec() -> nat {
        2
    }

    fn id() -> u8 {
        0x0B
    }

    fn bytes() -> usize {
        2
    }
}

impl TypeAware for i32 {
    open spec fn id_spec() -> u8 {
        0x0C
    }

    open spec fn bytes_spec() -> nat {
        4
    }

    fn id() -> u8 {
        0x0C
    }

    fn bytes() -> usize {
        4
    }
}

} // verus!
