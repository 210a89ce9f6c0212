//! The lump directory: parsing, per-slot access and write-back.
use crate::error::{AccessError, CastError, LayoutError, WriteError};
use crate::model::{
    data_len, data_region, first_misfit, lemma_data_len_monotonic, lemma_def_fields, lump_bytes,
    lump_fits, lump_start, parses, record_at, record_count, whole_records, BspView, LumpView,
    SlotState,
};
use crate::raw::read_exact;
use crate::record::{Header, LumpDef, LumpMetadata, HEADER_SIZE, LUMP_DEF_COUNT};
use vstd::prelude::*;
use vstd::slice::{slice_subrange, slice_to_vec};

verus! {

/// The bytes of a lump: a range of the input buffer until the lump is first
/// opened for writing, a buffer of the slot's own from then on.
#[derive(Debug)]
enum Payload<'a> {
    Borrowed(&'a [u8]),
    Owned(Vec<u8>),
}

impl<'a> Payload<'a> {
    spec fn bytes(&self) -> Seq<u8> {
        match self {
            Payload::Borrowed(s) => s@,
            Payload::Owned(v) => v@,
        }
    }

    fn as_slice(&self) -> (r: &[u8])
        ensures
            r@ == self.bytes(),
    {
        match self {
            Payload::Borrowed(s) => s,
            Payload::Owned(v) => v.as_slice(),
        }
    }
}

/// One slot of the directory.
#[derive(Debug)]
struct Lump<'a> {
    metadata: LumpMetadata,
    payload: Payload<'a>,
    state: SlotState,
}

impl<'a> Lump<'a> {
    spec fn view(&self) -> LumpView {
        LumpView {
            metadata: self.metadata,
            bytes: self.payload.bytes(),
            owned: self.payload is Owned,
            state: self.state,
        }
    }
}

/// Read guard on one slot.
///
/// Any number of read guards can be outstanding on a slot, and none while a
/// write guard is.  A guard names its slot and nothing else: the lump is read
/// through [`Bsp::data`] and [`Bsp::metadata`], and the guard is given back
/// with [`Bsp::release`].
#[derive(Debug)]
pub struct LumpRef {
    index: usize,
}

impl LumpRef {
    #[verifier::type_invariant]
    spec fn in_range(self) -> bool {
        self.index < LUMP_DEF_COUNT
    }

    /// The slot that this guard is for.
    pub closed spec fn slot(&self) -> int {
        self.index as int
    }

    /// The slot that this guard is for.
    pub fn index(&self) -> (r: usize)
        ensures
            r == self.slot(),
            r < LUMP_DEF_COUNT,
    {
        proof {
            use_type_invariant(self);
        }
        self.index
    }
}

/// Write guard on one slot.
///
/// At most one write guard is outstanding on a slot, and only while no read
/// guard is.  The lump is changed through [`Bsp::data_mut`] and
/// [`Bsp::metadata_mut`], and the guard is given back with
/// [`Bsp::release_mut`].
#[derive(Debug)]
pub struct LumpRefMut {
    index: usize,
}

impl LumpRefMut {
    #[verifier::type_invariant]
    spec fn in_range(self) -> bool {
        self.index < LUMP_DEF_COUNT
    }

    /// The slot that this guard is for.
    pub closed spec fn slot(&self) -> int {
        self.index as int
    }

    /// The slot that this guard is for.
    pub fn index(&self) -> (r: usize)
        ensures
            r == self.slot(),
            r < LUMP_DEF_COUNT,
    {
        proof {
            use_type_invariant(self);
        }
        self.index
    }
}

/// Cuts `bytes` into records of `N` bytes each, if they are a whole number
/// of records.
fn split_records<const N: usize>(bytes: &[u8]) -> (r: Option<Vec<[u8; N]>>)
    ensures
        r is Some <==> whole_records(bytes@.len() as int, N as int),
        r matches Some(records) ==> {
            &&& records@.len() == record_count(bytes@.len() as int, N as int)
            &&& forall|k: int|
                0 <= k < records@.len() ==> (#[trigger] records@[k])@ == record_at(
                    bytes@,
                    N as int,
                    k,
                )
        },
{
    let mut records: Vec<[u8; N]> = Vec::new();
    if N == 0 {
        return if bytes.len() == 0 {
            Some(records)
        } else {
            None
        };
    }
    if bytes.len() % N != 0 {
        return None;
    }
    let count: usize = bytes.len() / N;
    proof {
        vstd::arithmetic::div_mod::lemma_fundamental_div_mod(bytes@.len() as int, N as int);
        assert(N * count == count * N) by (nonlinear_arith);
    }
    let mut at: usize = 0;
    let mut k: usize = 0;
    while k < count
        invariant
            N > 0,
            k <= count,
            bytes.len() == count * N,
            at == k * N,
            records@.len() == k,
            forall|j: int|
                0 <= j < k ==> (#[trigger] records@[j])@ == record_at(bytes@, N as int, j),
        decreases count - k,
    {
        proof {
            assert((k + 1) * N == k * N + N) by (nonlinear_arith);
            assert((k + 1) * N <= count * N) by (nonlinear_arith)
                requires
                    k + 1 <= count,
                    N >= 0,
            ;
        }
        let chunk = slice_subrange(bytes, at, at + N);
        match read_exact::<N>(chunk) {
            Ok(record) => {
                records.push(record);
            },
            Err(_) => {
                return None;
            },
        }
        at = at + N;
        k = k + 1;
    }
    Some(records)
}

/// A parsed map file: the header and [`LUMP_DEF_COUNT`] lump slots.
#[derive(Debug)]
pub struct Bsp<'a> {
    header: Header,
    lumps: Vec<Lump<'a>>,
}

impl<'a> View for Bsp<'a> {
    type V = BspView;

    closed spec fn view(&self) -> BspView {
        BspView {
            header: self.header,
            lumps: Seq::new(self.lumps@.len(), |i: int| self.lumps@[i].view()),
        }
    }
}

impl<'a> Bsp<'a> {
    /// The invariant of the type, established by [`Bsp::parse`] and kept by
    /// every method.
    pub open spec fn wf(&self) -> bool {
        self@.wf()
    }

    /// Parses a whole file.
    ///
    /// The header is decoded from the start of `data`.  Slot `i` then refers,
    /// without copying, to the `length` bytes of `data` that start at the
    /// descriptor's `offset`; an offset that points into the header is read as
    /// the end of the header.  Parsing is all or nothing: it fails when `data`
    /// is shorter than the header, and when the range of any one descriptor
    /// does not lie inside `data`.
    pub fn parse(data: &'a [u8]) -> (r: Result<Bsp<'a>, LayoutError>)
        ensures
            r is Ok <==> parses(data@),
            r matches Ok(bsp) ==> bsp.wf() && bsp@.parsed_from(data@),
            r matches Err(LayoutError::HeaderTruncated) ==> data@.len() < HEADER_SIZE,
            r matches Err(LayoutError::OutOfBounds { index }) ==> data@.len() >= HEADER_SIZE
                && first_misfit(data@, index as int),
    {
        let (header, rest) = match Header::decode(data) {
            Ok(parts) => parts,
            Err(e) => {
                return Err(e);
            },
        };
        let mut lumps: Vec<Lump<'a>> = Vec::new();
        let mut i: usize = 0;
        while i < LUMP_DEF_COUNT
            invariant
                i <= LUMP_DEF_COUNT,
                data@.len() >= HEADER_SIZE,
                header.decodes(data@),
                rest@ == data@.subrange(HEADER_SIZE as int, data@.len() as int),
                lumps@.len() == i,
                forall|j: int| 0 <= j < i ==> #[trigger] lump_fits(data@, j),
                forall|j: int|
                    0 <= j < i ==> (#[trigger] lumps@[j]).view() == (LumpView {
                        metadata: header.lump_defs@[j].metadata,
                        bytes: lump_bytes(data@, j),
                        owned: false,
                        state: SlotState::Free,
                    }),
            decreases LUMP_DEF_COUNT - i,
        {
            let def: LumpDef = header.lump_defs[i];
            proof {
                lemma_def_fields(data@, header.lump_defs@[i as int], i as int);
            }
            let offset: usize = def.offset as usize;
            let length: usize = def.length as usize;
            let start: usize = if offset >= HEADER_SIZE {
                offset - HEADER_SIZE
            } else {
                0
            };
            assert(start == lump_start(data@, i as int));
            if start > rest.len() || length > rest.len() - start {
                assert(!lump_fits(data@, i as int));
                return Err(LayoutError::OutOfBounds { index: i });
            }
            assert(lump_fits(data@, i as int));
            let bytes: &'a [u8] = slice_subrange(rest, start, start + length);
            assert(bytes@ =~= lump_bytes(data@, i as int));
            lumps.push(
                Lump {
                    metadata: def.metadata,
                    payload: Payload::Borrowed(bytes),
                    state: SlotState::Free,
                },
            );
            i = i + 1;
        }
        let bsp = Bsp { header, lumps };
        proof {
            assert forall|j: int| 0 <= j < LUMP_DEF_COUNT implies #[trigger] bsp@.lumps[j] == (
            LumpView {
                metadata: bsp@.header.lump_defs@[j].metadata,
                bytes: lump_bytes(data@, j),
                owned: false,
                state: SlotState::Free,
            }) by {
                assert(bsp@.lumps[j] == bsp.lumps@[j].view());
            }
        }
        Ok(bsp)
    }

    /// The header of the file that [`Bsp::write_to_io`] writes.
    ///
    /// Identifier, version and revision are those of the directory.  The
    /// descriptor table is computed anew in one pass over the slots: each lump
    /// starts where the one before it ends, the first right after the header,
    /// and its descriptor takes the lump's current length and metadata.  What
    /// the descriptors said when the file was parsed plays no part.
    ///
    /// Fails with [`WriteError::BorrowConflict`] while a write guard is
    /// outstanding, else with [`WriteError::TooLarge`] when the file would
    /// not fit 32-bit offsets.
    pub fn updated_header(&self) -> (r: Result<Header, WriteError>)
        requires
            self.wf(),
        ensures
            r is Ok <==> self@.unlocked() && self@.fits(),
            r matches Ok(h) ==> self@.is_layout(h),
            r matches Err(e) ==> (e == WriteError::BorrowConflict <==> !self@.unlocked()),
    {
        let mut k: usize = 0;
        while k < LUMP_DEF_COUNT
            invariant
                k <= LUMP_DEF_COUNT,
                self.wf(),
                forall|j: int| 0 <= j < k ==> !((#[trigger] self@.lumps[j]).state is Exclusive),
            decreases LUMP_DEF_COUNT - k,
        {
            match self.lumps[k].state {
                SlotState::Exclusive => {
                    assert(self@.lumps[k as int].state is Exclusive);
                    return Err(WriteError::BorrowConflict);
                },
                _ => {},
            }
            k = k + 1;
        }
        let blank = LumpDef {
            offset: 0,
            length: 0,
            metadata: LumpMetadata { version: 0, identifier: [0u8; 4] },
        };
        let mut lump_defs: [LumpDef; 64] = [blank; 64];
        let mut cursor: usize = HEADER_SIZE;
        let mut i: usize = 0;
        while i < LUMP_DEF_COUNT
            invariant
                i <= LUMP_DEF_COUNT,
                self.wf(),
                self@.unlocked(),
                cursor == HEADER_SIZE + data_len(self@.lumps, i as int),
                cursor <= u32::MAX,
                forall|j: int| 0 <= j < i ==> #[trigger] lump_defs@[j] == self@.canonical_def(j),
            decreases LUMP_DEF_COUNT - i,
        {
            let length: usize = self.lumps[i].payload.as_slice().len();
            assert(length == self@.lumps[i as int].bytes.len());
            if length > u32::MAX as usize - cursor {
                proof {
                    lemma_data_len_monotonic(self@.lumps, i + 1, LUMP_DEF_COUNT as int);
                }
                return Err(WriteError::TooLarge);
            }
            lump_defs[i] = LumpDef {
                offset: cursor as u32,
                length: length as u32,
                metadata: self.lumps[i].metadata,
            };
            cursor = cursor + length;
            i = i + 1;
        }
        assert(lump_defs@ =~= self@.canonical_defs());
        Ok(
            Header {
                identifier: self.header.identifier,
                version: self.header.version,
                lump_defs,
                revision: self.header.revision,
            },
        )
    }

    /// Appends the whole file to `out`: the header with its descriptor table
    /// recomputed (see [`Bsp::updated_header`]), then the current bytes of
    /// every lump in index order, with nothing between them.
    ///
    /// The directory itself is not changed.  Nothing is appended when the
    /// directory cannot be written.
    pub fn write_to_io(&self, out: &mut Vec<u8>) -> (r: Result<(), WriteError>)
        requires
            self.wf(),
        ensures
            r is Ok <==> self@.unlocked() && self@.fits(),
            r is Ok ==> final(out)@ == old(out)@ + self@.serialized(),
            r matches Err(e) ==> final(out)@ == old(out)@ && (e == WriteError::BorrowConflict
                <==> !self@.unlocked()),
    {
        let header = match self.updated_header() {
            Ok(header) => header,
            Err(e) => {
                return Err(e);
            },
        };
        header.write(out);
        let ghost start = out@;
        let mut i: usize = 0;
        while i < LUMP_DEF_COUNT
            invariant
                i <= LUMP_DEF_COUNT,
                self.wf(),
                out@ == start + data_region(self@.lumps, i as int),
            decreases LUMP_DEF_COUNT - i,
        {
            let ghost before = out@;
            let bytes = self.lumps[i].payload.as_slice();
            out.extend_from_slice(bytes);
            assert(out@ =~= before + self@.lumps[i as int].bytes);
            assert(out@ =~= start + data_region(self@.lumps, i + 1));
            i = i + 1;
        }
        assert(out@ =~= old(out)@ + self@.serialized());
        Ok(())
    }

    /// Requests a read guard on slot `index`.
    ///
    /// The request is refused with [`AccessError::IndexOutOfRange`] when there
    /// is no such slot, and with [`AccessError::BorrowConflict`] while a write
    /// guard is outstanding on it (or the slot already has as many readers as
    /// can be counted).  Guards on other slots play no part.  Granting the
    /// guard changes nothing but the slot's reader count; in particular a slot
    /// that refers to the input buffer keeps doing so.
    pub fn lump(&mut self, index: usize) -> (r: Result<LumpRef, AccessError>)
        requires
            old(self).wf(),
        ensures
            final(self).wf(),
            match r {
                Ok(guard) => {
                    &&& old(self)@.read_error(index as int) is None
                    &&& guard.slot() == index
                    &&& final(self)@ == old(self)@.with_lump(
                        index as int,
                        old(self)@.lumps[index as int].share(),
                    )
                },
                Err(e) => old(self)@.read_error(index as int) == Some(e) && final(self)@ == old(self)@,
            },
    {
        if index >= LUMP_DEF_COUNT {
            return Err(AccessError::IndexOutOfRange);
        }
        let next = match self.lumps[index].state {
            SlotState::Free => SlotState::Shared(1),
            SlotState::Shared(n) => {
                if n == usize::MAX {
                    return Err(AccessError::BorrowConflict);
                }
                SlotState::Shared(n + 1)
            },
            SlotState::Exclusive => {
                return Err(AccessError::BorrowConflict);
            },
        };
        self.lumps[index].state = next;
        proof {
            let slot = old(self)@.lumps[index as int];
            assert(slot.wf());
            old(self)@.lemma_with_lump_wf(index as int, slot.share());
            assert(self@ =~= old(self)@.with_lump(index as int, slot.share()));
        }
        Ok(LumpRef { index })
    }

    /// Requests the write guard on slot `index`.
    ///
    /// The request is refused with [`AccessError::IndexOutOfRange`] when there
    /// is no such slot, and with [`AccessError::BorrowConflict`] while any
    /// guard, read or write, is outstanding on it.  Guards on other slots play
    /// no part.  When the guard is granted and the slot still refers to the
    /// input buffer, the lump is copied into a buffer of the slot's own; the
    /// bytes that the slot holds are the same before and after.
    pub fn lump_mut(&mut self, index: usize) -> (r: Result<LumpRefMut, AccessError>)
        requires
            old(self).wf(),
        ensures
            final(self).wf(),
            match r {
                Ok(guard) => {
                    &&& old(self)@.write_error(index as int) is None
                    &&& guard.slot() == index
                    &&& final(self)@ == old(self)@.with_lump(
                        index as int,
                        old(self)@.lumps[index as int].lock(),
                    )
                },
                Err(e) => old(self)@.write_error(index as int) == Some(e) && final(self)@ == old(self)@,
            },
    {
        if index >= LUMP_DEF_COUNT {
            return Err(AccessError::IndexOutOfRange);
        }
        match self.lumps[index].state {
            SlotState::Free => {},
            _ => {
                return Err(AccessError::BorrowConflict);
            },
        }
        self.make_owned(index);
        let ghost mid = self@;
        self.lumps[index].state = SlotState::Exclusive;
        proof {
            let slot = old(self)@.lumps[index as int];
            old(self)@.lemma_with_lump_wf(index as int, slot.lock());
            let target = old(self)@.with_lump(index as int, slot.lock());
            assert forall|j: int| 0 <= j < LUMP_DEF_COUNT implies self@.lumps[j]
                == target.lumps[j] by {
                assert(mid.lumps[j] == old(self)@.with_lump(
                    index as int,
                    LumpView { owned: true, ..slot },
                ).lumps[j]);
            }
            assert(self@ =~= target);
        }
        Ok(LumpRefMut { index })
    }

    /// Moves the bytes of slot `index` into a buffer of the slot's own, unless
    /// they are in one already.
    fn make_owned(&mut self, index: usize)
        requires
            old(self).wf(),
            index < LUMP_DEF_COUNT,
        ensures
            final(self).wf(),
            final(self).lumps@[index as int].payload is Owned,
            final(self)@ == old(self)@.with_lump(
                index as int,
                LumpView { owned: true, ..old(self)@.lumps[index as int] },
            ),
    {
        let copy: Option<Vec<u8>> = match &self.lumps[index].payload {
            Payload::Borrowed(s) => Some(slice_to_vec(s)),
            Payload::Owned(_) => None,
        };
        match copy {
            Some(bytes) => {
                self.lumps[index].payload = Payload::Owned(bytes);
            },
            None => {},
        }
        proof {
            let slot = old(self)@.lumps[index as int];
            assert(slot.wf());
            let owned = LumpView { owned: true, ..slot };
            old(self)@.lemma_with_lump_wf(index as int, owned);
            assert(self@ =~= old(self)@.with_lump(index as int, owned));
        }
    }

    /// Gives a read guard back.  The slot's reader count goes down by one; a
    /// slot that is not held for reading is left as it is.
    pub fn release(&mut self, guard: LumpRef)
        requires
            old(self).wf(),
        ensures
            final(self).wf(),
            final(self)@ == old(self)@.with_lump(
                guard.slot(),
                old(self)@.lumps[guard.slot()].unshare(),
            ),
    {
        let index: usize = guard.index();
        let next = match self.lumps[index].state {
            SlotState::Shared(n) => {
                if n > 1 {
                    SlotState::Shared(n - 1)
                } else {
                    SlotState::Free
                }
            },
            other => other,
        };
        self.lumps[index].state = next;
        proof {
            let slot = old(self)@.lumps[index as int];
            assert(slot.wf());
            old(self)@.lemma_with_lump_wf(index as int, slot.unshare());
            assert(self@ =~= old(self)@.with_lump(index as int, slot.unshare()));
        }
    }

    /// Gives the write guard back.  The slot is free again and keeps what was
    /// written; a slot that is not held for writing is left as it is.
    pub fn release_mut(&mut self, guard: LumpRefMut)
        requires
            old(self).wf(),
        ensures
            final(self).wf(),
            final(self)@ == old(self)@.with_lump(
                guard.slot(),
                old(self)@.lumps[guard.slot()].unlock(),
            ),
    {
        let index: usize = guard.index();
        let next = match self.lumps[index].state {
            SlotState::Exclusive => SlotState::Free,
            other => other,
        };
        self.lumps[index].state = next;
        proof {
            let slot = old(self)@.lumps[index as int];
            assert(slot.wf());
            old(self)@.lemma_with_lump_wf(index as int, slot.unlock());
            assert(self@ =~= old(self)@.with_lump(index as int, slot.unlock()));
        }
    }

    /// Requests a read guard on slot `index` and views the lump as one record
    /// of `N` bytes.
    ///
    /// The size is checked exactly: a lump that is one byte shorter or longer
    /// than `N` is refused, never cut or padded.  The guard that comes with
    /// the record is an ordinary read guard on the slot and is given back with
    /// [`Bsp::release`].  A refused request leaves the directory as it was.
    pub fn lump_cast<const N: usize>(&mut self, index: usize) -> (r: Result<
        (LumpRef, [u8; N]),
        CastError,
    >)
        requires
            old(self).wf(),
        ensures
            final(self).wf(),
            match r {
                Ok((guard, record)) => {
                    &&& old(self)@.cast_error(index as int, N as int) is None
                    &&& guard.slot() == index
                    &&& record@ == old(self)@.lumps[index as int].bytes
                    &&& final(self)@ == old(self)@.with_lump(
                        index as int,
                        old(self)@.lumps[index as int].share(),
                    )
                },
                Err(e) => old(self)@.cast_error(index as int, N as int) == Some(e) && final(self)@ == old(self)@,
            },
    {
        if index >= LUMP_DEF_COUNT {
            return Err(CastError::IndexOutOfRange);
        }
        let next = match self.lumps[index].state {
            SlotState::Free => SlotState::Shared(1),
            SlotState::Shared(n) => {
                if n == usize::MAX {
                    return Err(CastError::BorrowConflict);
                }
                SlotState::Shared(n + 1)
            },
            SlotState::Exclusive => {
                return Err(CastError::BorrowConflict);
            },
        };
        let bytes = self.lumps[index].payload.as_slice();
        let record: [u8; N] = match read_exact::<N>(bytes) {
            Ok(record) => record,
            Err(_) => {
                return Err(CastError::SizeMismatch { expected: N, actual: bytes.len() });
            },
        };
        self.lumps[index].state = next;
        proof {
            let slot = old(self)@.lumps[index as int];
            assert(slot.wf());
            old(self)@.lemma_with_lump_wf(index as int, slot.share());
            assert(self@ =~= old(self)@.with_lump(index as int, slot.share()));
        }
        Ok((LumpRef { index }, record))
    }

    /// Requests the write guard on slot `index` and views the lump as one
    /// record of `N` bytes.
    ///
    /// The size is checked exactly, as in [`Bsp::lump_cast`], and before
    /// anything is changed: a refused request leaves the directory as it was,
    /// so a slot that refers to the input buffer keeps doing so.  The guard
    /// that comes with the record is an ordinary write guard on the slot; a
    /// changed record is stored through [`Bsp::data_mut`].
    pub fn lump_cast_mut<const N: usize>(&mut self, index: usize) -> (r: Result<
        (LumpRefMut, [u8; N]),
        CastError,
    >)
        requires
            old(self).wf(),
        ensures
            final(self).wf(),
            match r {
                Ok((guard, record)) => {
                    &&& old(self)@.cast_mut_error(index as int, N as int) is None
                    &&& guard.slot() == index
                    &&& record@ == old(self)@.lumps[index as int].bytes
                    &&& final(self)@ == old(self)@.with_lump(
                        index as int,
                        old(self)@.lumps[index as int].lock(),
                    )
                },
                Err(e) => old(self)@.cast_mut_error(index as int, N as int) == Some(e) && final(self)@ == old(self)@,
            },
    {
        if index >= LUMP_DEF_COUNT {
            return Err(CastError::IndexOutOfRange);
        }
        match self.lumps[index].state {
            SlotState::Free => {},
            _ => {
                return Err(CastError::BorrowConflict);
            },
        }
        let bytes = self.lumps[index].payload.as_slice();
        let record: [u8; N] = match read_exact::<N>(bytes) {
            Ok(record) => record,
            Err(_) => {
                return Err(CastError::SizeMismatch { expected: N, actual: bytes.len() });
            },
        };
        match self.lump_mut(index) {
            Ok(guard) => Ok((guard, record)),
            Err(_) => Err(CastError::BorrowConflict),
        }
    }

    /// Requests a read guard on slot `index` and views the lump as a sequence
    /// of records of `N` bytes each.
    ///
    /// The lump must hold a whole number of records: a remainder is refused,
    /// never cut or padded.  Records of no bytes make up the empty lump only.
    /// The guard that comes with the records is an ordinary read guard on the
    /// slot.  A refused request leaves the directory as it was.
    pub fn lump_cast_slice<const N: usize>(&mut self, index: usize) -> (r: Result<
        (LumpRef, Vec<[u8; N]>),
        CastError,
    >)
        requires
            old(self).wf(),
        ensures
            final(self).wf(),
            match r {
                Ok((guard, records)) => {
                    let bytes = old(self)@.lumps[index as int].bytes;
                    &&& old(self)@.cast_slice_error(index as int, N as int) is None
                    &&& guard.slot() == index
                    &&& records@.len() == record_count(bytes.len() as int, N as int)
                    &&& forall|k: int|
                        0 <= k < records@.len() ==> (#[trigger] records@[k])@ == record_at(
                            bytes,
                            N as int,
                            k,
                        )
                    &&& final(self)@ == old(self)@.with_lump(
                        index as int,
                        old(self)@.lumps[index as int].share(),
                    )
                },
                Err(e) => old(self)@.cast_slice_error(index as int, N as int) == Some(e)
                    && final(self)@ == old(self)@,
            },
    {
        if index >= LUMP_DEF_COUNT {
            return Err(CastError::IndexOutOfRange);
        }
        let next = match self.lumps[index].state {
            SlotState::Free => SlotState::Shared(1),
            SlotState::Shared(n) => {
                if n == usize::MAX {
                    return Err(CastError::BorrowConflict);
                }
                SlotState::Shared(n + 1)
            },
            SlotState::Exclusive => {
                return Err(CastError::BorrowConflict);
            },
        };
        let bytes = self.lumps[index].payload.as_slice();
        let records: Vec<[u8; N]> = match split_records::<N>(bytes) {
            Some(records) => records,
            None => {
                return Err(CastError::SizeMismatch { expected: N, actual: bytes.len() });
            },
        };
        self.lumps[index].state = next;
        proof {
            let slot = old(self)@.lumps[index as int];
            assert(slot.wf());
            old(self)@.lemma_with_lump_wf(index as int, slot.share());
            assert(self@ =~= old(self)@.with_lump(index as int, slot.share()));
        }
        Ok((LumpRef { index }, records))
    }

    /// Requests the write guard on slot `index` and views the lump as a
    /// sequence of records of `N` bytes each.
    ///
    /// The size is checked as in [`Bsp::lump_cast_slice`], and before anything
    /// is changed: a refused request leaves the directory as it was.  The
    /// guard that comes with the records is an ordinary write guard on the
    /// slot; changed records are stored through [`Bsp::data_mut`].
    pub fn lump_cast_slice_mut<const N: usize>(&mut self, index: usize) -> (r: Result<
        (LumpRefMut, Vec<[u8; N]>),
        CastError,
    >)
        requires
            old(self).wf(),
        ensures
            final(self).wf(),
            match r {
                Ok((guard, records)) => {
                    let bytes = old(self)@.lumps[index as int].bytes;
                    &&& old(self)@.cast_slice_mut_error(index as int, N as int) is None
                    &&& guard.slot() == index
                    &&& records@.len() == record_count(bytes.len() as int, N as int)
                    &&& forall|k: int|
                        0 <= k < records@.len() ==> (#[trigger] records@[k])@ == record_at(
                            bytes,
                            N as int,
                            k,
                        )
                    &&& final(self)@ == old(self)@.with_lump(
                        index as int,
                        old(self)@.lumps[index as int].lock(),
                    )
                },
                Err(e) => old(self)@.cast_slice_mut_error(index as int, N as int) == Some(e)
                    && final(self)@ == old(self)@,
            },
    {
        if index >= LUMP_DEF_COUNT {
            return Err(CastError::IndexOutOfRange);
        }
        match self.lumps[index].state {
            SlotState::Free => {},
            _ => {
                return Err(CastError::BorrowConflict);
            },
        }
        let bytes = self.lumps[index].payload.as_slice();
        let records: Vec<[u8; N]> = match split_records::<N>(bytes) {
            Some(records) => records,
            None => {
                return Err(CastError::SizeMismatch { expected: N, actual: bytes.len() });
            },
        };
        match self.lump_mut(index) {
            Ok(guard) => Ok((guard, records)),
            Err(_) => Err(CastError::BorrowConflict),
        }
    }

    /// The bytes of the lump behind a read guard.
    pub fn data(&self, guard: &LumpRef) -> (r: &[u8])
        requires
            self.wf(),
        ensures
            r@ == self@.lumps[guard.slot()].bytes,
    {
        let index: usize = guard.index();
        self.lumps[index].payload.as_slice()
    }

    /// The metadata of the lump behind a read guard.
    pub fn metadata(&self, guard: &LumpRef) -> (r: &LumpMetadata)
        requires
            self.wf(),
        ensures
            *r == self@.lumps[guard.slot()].metadata,
    {
        let index: usize = guard.index();
        &self.lumps[index].metadata
    }

    /// The bytes of the lump behind a write guard, to read and to change.
    ///
    /// Whatever the caller does to the buffer becomes the content of this one
    /// slot: the lump can be overwritten, grown, shrunk or emptied.  No other
    /// slot and nothing else of this slot changes.
    pub fn data_mut(&mut self, guard: &LumpRefMut) -> (r: &mut Vec<u8>)
        requires
            old(self).wf(),
        ensures
            r@ == old(self)@.lumps[guard.slot()].bytes,
            final(self)@ == old(self)@.with_lump(
                guard.slot(),
                LumpView { bytes: final(r)@, owned: true, ..old(self)@.lumps[guard.slot()] },
            ),
            final(self).wf(),
    {
        let index: usize = guard.index();
        self.make_owned(index);
        proof {
            let slot = old(self)@.lumps[index as int];
            let owned = old(self)@.with_lump(index as int, LumpView { owned: true, ..slot });
            assert forall|j: int| 0 <= j < LUMP_DEF_COUNT implies (#[trigger] self.lumps@[j]).view()
                == owned.lumps[j] by {
                assert(self@.lumps[j] == owned.lumps[j]);
            }
            assert(slot.wf());
            assert forall|bytes: Seq<u8>|
                #[trigger] old(self)@.with_lump(
                    index as int,
                    LumpView { bytes, owned: true, ..slot },
                ).wf() by {
                old(self)@.lemma_with_lump_wf(index as int, LumpView { bytes, owned: true, ..slot });
            }
        }
        match &mut self.lumps[index].payload {
            Payload::Owned(v) => v,
            Payload::Borrowed(_) => vstd::pervasive::unreached(),
        }
    }

    /// The metadata of the lump behind a write guard, to read and to change.
    /// No other slot and nothing else of this slot changes.
    pub fn metadata_mut(&mut self, guard: &LumpRefMut) -> (r: &mut LumpMetadata)
        requires
            old(self).wf(),
        ensures
            *r == old(self)@.lumps[guard.slot()].metadata,
            final(self)@ == old(self)@.with_lump(
                guard.slot(),
                LumpView { metadata: *final(r), ..old(self)@.lumps[guard.slot()] },
            ),
            final(self).wf(),
    {
        let index: usize = guard.index();
        proof {
            let slot = old(self)@.lumps[index as int];
            assert(slot.wf());
            assert forall|metadata: LumpMetadata|
                #[trigger] old(self)@.with_lump(index as int, LumpView { metadata, ..slot }).wf() by {
                old(self)@.lemma_with_lump_wf(index as int, LumpView { metadata, ..slot });
            }
        }
        &mut self.lumps[index].metadata
    }

    /// The header of the directory.  Its descriptor table is the one that was
    /// decoded; [`Bsp::updated_header`] gives the table of the current lumps.
    pub fn header(&self) -> (r: &Header)
        ensures
            *r == self@.header,
    {
        &self.header
    }

    /// The header of the directory, to change identifier, version or
    /// revision.  The slots are not touched.
    pub fn header_mut(&mut self) -> (r: &mut Header)
        ensures
            *r == old(self)@.header,
            final(self)@ == (BspView { header: *final(r), lumps: old(self)@.lumps }),
            old(self).wf() ==> final(self).wf(),
    {
        &mut self.header
    }

    /// The guards that are outstanding on slot `index`, or `None` when there
    /// is no such slot.
    pub fn state(&self, index: usize) -> (r: Option<SlotState>)
        requires
            self.wf(),
        ensures
            r == if index < LUMP_DEF_COUNT {
                Some(self@.lumps[index as int].state)
            } else {
                None
            },
    {
        if index < LUMP_DEF_COUNT {
            Some(self.lumps[index].state)
        } else {
            None
        }
    }

    /// Whether slot `index` exists and holds its bytes in a buffer of its
    /// own, rather than referring to the input buffer.
    pub fn is_owned(&self, index: usize) -> (r: bool)
        requires
            self.wf(),
        ensures
            r == (index < LUMP_DEF_COUNT && self@.lumps[index as int].owned),
    {
        if index < LUMP_DEF_COUNT {
            match &self.lumps[index].payload {
                Payload::Owned(_) => true,
                Payload::Borrowed(_) => false,
            }
        } else {
            false
        }
    }
}

} // verus!
