//! Byte order and its resolution.

use vstd::prelude::*;

verus! {

/// Byte order of a multi-byte value.
#[derive(Debug, Clone, Copy, PartialEq, Eq, Structural)]
pub enum Endian {
    /// Least significant byte first.
    Little,
    /// Most significant byte first.
    Big,
}

/// Marker for a value whose byte order is not decided at run time.
#[derive(Debug, Clone, Copy, PartialEq, Eq, Structural)]
pub struct NoEndian;

/// The resolved byte order of a field: either explicit, or not applicable.
#[derive(Debug, Clone, Copy, PartialEq, Eq, Structural)]
pub enum EndianContext {
    /// The field is coded in the given byte order.
    Explicit(Endian),
    /// The field's coding does not depend on a byte order.
    NotApplicable(NoEndian),
}

impl Endian {
    /// The context that codes a value in this byte order.
    pub fn into_context(self) -> (r: EndianContext)
        ensures
            r == EndianContext::Explicit(self),
    {
        EndianContext::Explicit(self)
    }
}

} // verus!
