//! Error values returned by the library.  Nothing in this crate aborts the
//! process: every rejected input is reported through one of these types.
use vstd::prelude::*;

verus! {

/// A buffer does not have the structure of a map file.
#[derive(Clone, Copy, Debug, PartialEq, Eq)]
pub enum LayoutError {
    /// The buffer is shorter than the fixed header.
    HeaderTruncated,
    /// The byte range of descriptor `index` does not lie inside the buffer.
    /// `index` is the first descriptor for which this is the case.
    OutOfBounds { index: usize },
}

/// A guard on a slot cannot be granted.
#[derive(Clone, Copy, Debug, PartialEq, Eq)]
pub enum AccessError {
    /// The directory has no slot with the requested index.
    IndexOutOfRange,
    /// A guard that is outstanding on the slot excludes the requested one.
    /// The request can be repeated once that guard was released.
    BorrowConflict,
}

/// A lump cannot be viewed as a record of the requested size.
#[derive(Clone, Copy, Debug, PartialEq, Eq)]
pub enum CastError {
    /// The directory has no slot with the requested index.
    IndexOutOfRange,
    /// A guard that is outstanding on the slot excludes the requested one.
    BorrowConflict,
    /// The lump holds `actual` bytes, which is not what the view takes: a
    /// single record takes exactly `expected` bytes, a sequence of records a
    /// whole multiple of `expected`.
    SizeMismatch { expected: usize, actual: usize },
}

/// A directory cannot be written.
#[derive(Clone, Copy, Debug, PartialEq, Eq)]
pub enum WriteError {
    /// A write guard is outstanding, so the lump behind it cannot be read.
    BorrowConflict,
    /// Header and lumps together are longer than 32-bit offsets can address.
    TooLarge,
}

} // verus!
