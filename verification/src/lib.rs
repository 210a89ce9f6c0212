//! Reader and writer for a fixed-layout binary map container.
//!
//! A file is a header of [`HEADER_SIZE`] bytes holding a table of
//! [`LUMP_DEF_COUNT`] lump descriptors, followed by the data that the
//! descriptors point at.  [`Bsp::parse`] exposes each lump as an independently
//! addressable slot that keeps referring to the input buffer until it is first
//! opened for writing; [`Bsp::write_to_io`] linearizes the directory again,
//! recomputing every offset.
//!
//! Access to a slot goes through guards.  [`Bsp::lump`] grants read guards,
//! [`Bsp::lump_mut`] the write guard; a request that would put a second guard
//! beside a write guard on the same slot is refused at once, while guards on
//! different slots never get in each other's way.  A guard is a plain value
//! that names its slot, and it is released by handing it back to the
//! directory.
//!
//! The modules [`model`] and [`laws`] hold the mathematical description of
//! all this and the theorems proved about it.
pub mod directory;
pub mod error;
pub mod laws;
pub mod model;
pub mod raw;
pub mod record;

pub use directory::{Bsp, LumpRef, LumpRefMut};
pub use error::{AccessError, CastError, LayoutError, WriteError};
pub use model::{BspView, LumpView, SlotState};
pub use record::{Header, LumpDef, LumpMetadata};
pub use record::{HEADER_SIZE, LUMP_DEF_COUNT, LUMP_DEF_SIZE, LUMP_METADATA_SIZE};
