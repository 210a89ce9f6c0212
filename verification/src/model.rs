//! The mathematical model of a directory: what its slots hold, how guards
//! change a slot, what a buffer must look like to be parsed and what a
//! directory looks like once it is written.
use crate::error::{AccessError, CastError};
use crate::record::{
    header_encoding, u32_from_le, Header, LumpDef, LumpMetadata, HEADER_SIZE,
    LUMP_DEF_COUNT, LUMP_DEF_SIZE,
};
use vstd::prelude::*;

verus! {

/// Who currently has access to a slot.
#[derive(Clone, Copy, Debug, PartialEq, Eq)]
pub enum SlotState {
    /// No guard is outstanding.
    Free,
    /// This many read guards are outstanding.
    Shared(usize),
    /// One write guard is outstanding.
    Exclusive,
}

/// What one slot of a directory holds.
#[verifier::ext_equal]
pub struct LumpView {
    /// Version and identifier of the lump.
    pub metadata: LumpMetadata,
    /// The lump's current bytes.
    pub bytes: Seq<u8>,
    /// Whether the bytes live in a buffer of the slot's own (`true`) or are
    /// still a range of the input buffer (`false`).
    pub owned: bool,
    /// The guards that are outstanding on the slot.
    pub state: SlotState,
}

impl LumpView {
    /// A shared slot has at least one reader.
    pub open spec fn wf(self) -> bool {
        self.state matches SlotState::Shared(n) ==> n >= 1
    }

    /// Whether a further read guard can be granted.
    pub open spec fn readable(self) -> bool {
        match self.state {
            SlotState::Free => true,
            SlotState::Shared(n) => n < usize::MAX,
            SlotState::Exclusive => false,
        }
    }

    /// Whether a write guard can be granted.
    pub open spec fn writable(self) -> bool {
        self.state is Free
    }

    /// The slot after one more read guard was granted.
    pub open spec fn share(self) -> LumpView {
        LumpView {
            state: match self.state {
                SlotState::Shared(n) => SlotState::Shared((n + 1) as usize),
                _ => SlotState::Shared(1),
            },
            ..self
        }
    }

    /// The slot after one read guard was given back.
    pub open spec fn unshare(self) -> LumpView {
        LumpView {
            state: match self.state {
                SlotState::Shared(n) => if n > 1 {
                    SlotState::Shared((n - 1) as usize)
                } else {
                    SlotState::Free
                },
                other => other,
            },
            ..self
        }
    }

    /// The slot after the write guard was granted: the bytes are unchanged,
    /// but from now on they live in a buffer of the slot's own.
    pub open spec fn lock(self) -> LumpView {
        LumpView { owned: true, state: SlotState::Exclusive, ..self }
    }

    /// The slot after the write guard was given back.
    pub open spec fn unlock(self) -> LumpView {
        LumpView {
            state: match self.state {
                SlotState::Exclusive => SlotState::Free,
                other => other,
            },
            ..self
        }
    }
}

/// Why a typed view is refused, if it is: for the reason that the guard is
/// refused for, else because the size of the lump does not suit the view.
pub open spec fn typed_error(
    access: Option<AccessError>,
    mismatch: bool,
    expected: int,
    actual: int,
) -> Option<CastError> {
    match access {
        Some(AccessError::IndexOutOfRange) => Some(CastError::IndexOutOfRange),
        Some(AccessError::BorrowConflict) => Some(CastError::BorrowConflict),
        None => if mismatch {
            Some(CastError::SizeMismatch { expected: expected as usize, actual: actual as usize })
        } else {
            None
        },
    }
}

/// Whether `len` bytes are a whole number of records of `size` bytes each.
/// Records of no bytes make up the empty lump only.
pub open spec fn whole_records(len: int, size: int) -> bool {
    if size == 0 {
        len == 0
    } else {
        len % size == 0
    }
}

/// How many records of `size` bytes each `len` bytes hold.
pub open spec fn record_count(len: int, size: int) -> int {
    if size == 0 {
        0
    } else {
        len / size
    }
}

/// Record `k` of `bytes` cut into records of `size` bytes each.
pub open spec fn record_at(bytes: Seq<u8>, size: int, k: int) -> Seq<u8> {
    bytes.subrange(k * size, k * size + size)
}

/// What a directory holds: its header and its slots, in index order.
#[verifier::ext_equal]
pub struct BspView {
    /// The header as it was decoded or last assigned.
    pub header: Header,
    /// The [`LUMP_DEF_COUNT`] slots.
    pub lumps: Seq<LumpView>,
}

/// Total length of the first `n` lumps.
pub open spec fn data_len(lumps: Seq<LumpView>, n: int) -> int
    decreases n,
{
    if n <= 0 {
        0
    } else {
        data_len(lumps, n - 1) + lumps[n - 1].bytes.len()
    }
}

/// The bytes of the first `n` lumps, one lump after the other without gaps.
pub open spec fn data_region(lumps: Seq<LumpView>, n: int) -> Seq<u8>
    decreases n,
{
    if n <= 0 {
        Seq::empty()
    } else {
        data_region(lumps, n - 1) + lumps[n - 1].bytes
    }
}

impl BspView {
    /// There are exactly [`LUMP_DEF_COUNT`] slots, each well formed.
    pub open spec fn wf(self) -> bool {
        &&& self.lumps.len() == LUMP_DEF_COUNT
        &&& forall|i: int| 0 <= i < LUMP_DEF_COUNT ==> (#[trigger] self.lumps[i]).wf()
    }

    /// This directory with slot `i` replaced.
    pub open spec fn with_lump(self, i: int, lump: LumpView) -> BspView {
        BspView { header: self.header, lumps: self.lumps.update(i, lump) }
    }

    /// Replacing a slot by a well-formed one keeps the directory well formed.
    pub proof fn lemma_with_lump_wf(self, i: int, lump: LumpView)
        requires
            self.wf(),
            0 <= i < LUMP_DEF_COUNT,
            lump.wf(),
        ensures
            self.with_lump(i, lump).wf(),
    {
        let next = self.with_lump(i, lump);
        assert forall|j: int| 0 <= j < LUMP_DEF_COUNT implies (#[trigger] next.lumps[j]).wf() by {
            if j != i {
                assert(self.lumps[j].wf());
            }
        }
    }

    /// Why a read guard on slot `index` is refused, if it is.
    pub open spec fn read_error(self, index: int) -> Option<AccessError> {
        if index >= LUMP_DEF_COUNT {
            Some(AccessError::IndexOutOfRange)
        } else if !self.lumps[index].readable() {
            Some(AccessError::BorrowConflict)
        } else {
            None
        }
    }

    /// Why a write guard on slot `index` is refused, if it is.
    pub open spec fn write_error(self, index: int) -> Option<AccessError> {
        if index >= LUMP_DEF_COUNT {
            Some(AccessError::IndexOutOfRange)
        } else if !self.lumps[index].writable() {
            Some(AccessError::BorrowConflict)
        } else {
            None
        }
    }

    /// Why a read guard on slot `index`, seen as one record of `size` bytes,
    /// is refused, if it is: the slot must exist, a read guard must be
    /// available, and the lump must hold exactly `size` bytes.
    pub open spec fn cast_error(self, index: int, size: int) -> Option<CastError> {
        typed_error(
            self.read_error(index),
            self.lumps[index].bytes.len() != size,
            size,
            self.lumps[index].bytes.len() as int,
        )
    }

    /// Why the write guard on slot `index`, seen as one record of `size`
    /// bytes, is refused, if it is.
    pub open spec fn cast_mut_error(self, index: int, size: int) -> Option<CastError> {
        typed_error(
            self.write_error(index),
            self.lumps[index].bytes.len() != size,
            size,
            self.lumps[index].bytes.len() as int,
        )
    }

    /// Why a read guard on slot `index`, seen as a sequence of records of
    /// `size` bytes each, is refused, if it is: the slot must exist, a read
    /// guard must be available, and the lump must hold a whole number of
    /// records.
    pub open spec fn cast_slice_error(self, index: int, size: int) -> Option<CastError> {
        typed_error(
            self.read_error(index),
            !whole_records(self.lumps[index].bytes.len() as int, size),
            size,
            self.lumps[index].bytes.len() as int,
        )
    }

    /// Why the write guard on slot `index`, seen as a sequence of records of
    /// `size` bytes each, is refused, if it is.
    pub open spec fn cast_slice_mut_error(self, index: int, size: int) -> Option<CastError> {
        typed_error(
            self.write_error(index),
            !whole_records(self.lumps[index].bytes.len() as int, size),
            size,
            self.lumps[index].bytes.len() as int,
        )
    }

    /// No write guard is outstanding on any slot.
    pub open spec fn unlocked(self) -> bool {
        forall|i: int| 0 <= i < LUMP_DEF_COUNT ==> !((#[trigger] self.lumps[i]).state is Exclusive)
    }

    /// Header and lump data together can be addressed by 32-bit offsets.
    pub open spec fn fits(self) -> bool {
        HEADER_SIZE + data_len(self.lumps, LUMP_DEF_COUNT as int) <= u32::MAX
    }

    /// The descriptor that a written file has for slot `i`: the lump starts
    /// where the lumps before it end, the first one right after the header.
    pub open spec fn canonical_def(self, i: int) -> LumpDef {
        LumpDef {
            offset: (HEADER_SIZE + data_len(self.lumps, i)) as u32,
            length: self.lumps[i].bytes.len() as u32,
            metadata: self.lumps[i].metadata,
        }
    }

    /// The descriptor table of a written file.
    pub open spec fn canonical_defs(self) -> Seq<LumpDef> {
        Seq::new(LUMP_DEF_COUNT as nat, |i: int| self.canonical_def(i))
    }

    /// Whether `h` is the header of the written file: identifier, version and
    /// revision of this directory with the descriptor table recomputed.
    pub open spec fn is_layout(self, h: Header) -> bool {
        &&& h.identifier == self.header.identifier
        &&& h.version == self.header.version
        &&& h.revision == self.header.revision
        &&& h.lump_defs@ == self.canonical_defs()
    }

    /// The bytes of the written file: the recomputed header, then every lump
    /// in index order.
    pub open spec fn serialized(self) -> Seq<u8> {
        header_encoding(
            self.header.identifier@,
            self.header.version,
            self.canonical_defs(),
            self.header.revision,
        ) + data_region(self.lumps, LUMP_DEF_COUNT as int)
    }
}

/// The offset that descriptor `i` of the file `b` gives, counted from the
/// start of the file.
pub open spec fn def_offset(b: Seq<u8>, i: int) -> u32 {
    u32_from_le(b.subrange(8 + LUMP_DEF_SIZE * i, 12 + LUMP_DEF_SIZE * i))
}

/// The length that descriptor `i` of the file `b` gives.
pub open spec fn def_length(b: Seq<u8>, i: int) -> u32 {
    u32_from_le(b.subrange(12 + LUMP_DEF_SIZE * i, 16 + LUMP_DEF_SIZE * i))
}

/// Where lump `i` of the file `b` starts, counted from the end of the header.
/// An offset that points into the header is read as the end of the header.
pub open spec fn lump_start(b: Seq<u8>, i: int) -> int {
    if def_offset(b, i) >= HEADER_SIZE {
        def_offset(b, i) - HEADER_SIZE
    } else {
        0
    }
}

/// Whether the range of lump `i` lies inside the file `b`.
pub open spec fn lump_fits(b: Seq<u8>, i: int) -> bool {
    HEADER_SIZE + lump_start(b, i) + def_length(b, i) <= b.len()
}

/// The bytes of lump `i` in the file `b`.
pub open spec fn lump_bytes(b: Seq<u8>, i: int) -> Seq<u8> {
    b.subrange(HEADER_SIZE + lump_start(b, i), HEADER_SIZE + lump_start(b, i) + def_length(b, i))
}

/// Whether `b` can be parsed: it holds a whole header and the range of every
/// lump lies inside it.
pub open spec fn parses(b: Seq<u8>) -> bool {
    &&& b.len() >= HEADER_SIZE
    &&& forall|i: int| 0 <= i < LUMP_DEF_COUNT ==> #[trigger] lump_fits(b, i)
}

/// Whether `k` is the first slot whose range does not lie inside `b`.
pub open spec fn first_misfit(b: Seq<u8>, k: int) -> bool {
    &&& 0 <= k < LUMP_DEF_COUNT
    &&& !lump_fits(b, k)
    &&& forall|i: int| 0 <= i < k ==> #[trigger] lump_fits(b, i)
}

impl BspView {
    /// Whether this is the directory that parsing `b` yields: `b` can be
    /// parsed, the header is the one that `b` starts with, and every slot
    /// refers to the range of `b` that its descriptor names, with no guard
    /// outstanding.
    pub open spec fn parsed_from(self, b: Seq<u8>) -> bool {
        &&& parses(b)
        &&& self.header.decodes(b)
        &&& self.lumps.len() == LUMP_DEF_COUNT
        &&& forall|i: int|
            0 <= i < LUMP_DEF_COUNT ==> #[trigger] self.lumps[i] == (LumpView {
                metadata: self.header.lump_defs@[i].metadata,
                bytes: lump_bytes(b, i),
                owned: false,
                state: SlotState::Free,
            })
    }
}

/// The total length of the lumps grows with the number of lumps counted.
pub proof fn lemma_data_len_monotonic(lumps: Seq<LumpView>, i: int, j: int)
    requires
        i <= j,
    ensures
        0 <= data_len(lumps, i) <= data_len(lumps, j),
        data_region(lumps, j).len() == data_len(lumps, j),
    decreases j,
{
    if j > 0 {
        if i < j {
            lemma_data_len_monotonic(lumps, i, j - 1);
        } else {
            lemma_data_len_monotonic(lumps, i - 1, j - 1);
        }
    }
}

/// In the data region, lump `i` lies between the end of the lumps before it
/// and the end of the lumps up to it.
pub proof fn lemma_data_region_lump(lumps: Seq<LumpView>, n: int, i: int)
    requires
        0 <= i < n,
    ensures
        data_region(lumps, n).subrange(data_len(lumps, i), data_len(lumps, i + 1))
            == lumps[i].bytes,
    decreases n,
{
    lemma_data_len_monotonic(lumps, i, n - 1);
    lemma_data_len_monotonic(lumps, i + 1, n);
    lemma_data_len_monotonic(lumps, i, i + 1);
    if i < n - 1 {
        lemma_data_region_lump(lumps, n - 1, i);
        lemma_data_len_monotonic(lumps, i + 1, n - 1);
        assert(data_region(lumps, n).subrange(data_len(lumps, i), data_len(lumps, i + 1))
            =~= data_region(lumps, n - 1).subrange(data_len(lumps, i), data_len(lumps, i + 1)));
    } else {
        assert(data_region(lumps, n).subrange(data_len(lumps, i), data_len(lumps, i + 1))
            =~= lumps[i].bytes);
    }
}

/// A descriptor decoded from its place in the table of `b` has the offset and
/// the length that the table gives for its slot.
pub proof fn lemma_def_fields(b: Seq<u8>, def: LumpDef, i: int)
    requires
        b.len() >= HEADER_SIZE,
        0 <= i < LUMP_DEF_COUNT,
        def.decodes(b.subrange(8 + LUMP_DEF_SIZE * i, 8 + LUMP_DEF_SIZE * i + LUMP_DEF_SIZE)),
    ensures
        def.offset == def_offset(b, i),
        def.length == def_length(b, i),
{
    let chunk = b.subrange(8 + LUMP_DEF_SIZE * i, 8 + LUMP_DEF_SIZE * i + LUMP_DEF_SIZE);
    assert(chunk.subrange(0, 4) =~= b.subrange(8 + LUMP_DEF_SIZE * i, 12 + LUMP_DEF_SIZE * i));
    assert(chunk.subrange(4, 8) =~= b.subrange(12 + LUMP_DEF_SIZE * i, 16 + LUMP_DEF_SIZE * i));
}

} // verus!
