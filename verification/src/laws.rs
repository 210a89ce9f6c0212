//! Laws that hold of the directory as a whole, proved over its model.
use crate::error::{AccessError, CastError};
use crate::model::{
    data_len, data_region, def_length, def_offset, lemma_data_len_monotonic,
    lemma_data_region_lump, lemma_def_fields, lump_bytes, lump_fits, lump_start, parses,
    whole_records, BspView, LumpView,
};
use crate::record::{
    header_decodes, header_encoding, lemma_header_decode_unique, lemma_header_decodes_prefix,
    lemma_header_encode_decode, Header, HEADER_SIZE, LUMP_DEF_COUNT,
};
use vstd::prelude::*;

verus! {

/// A buffer is parsed to one directory only.
pub proof fn lemma_parse_unique(b: Seq<u8>, d: BspView, d2: BspView)
    requires
        d.parsed_from(b),
        d2.parsed_from(b),
    ensures
        d == d2,
{
    d.header.lemma_decode_unique(d2.header, b);
    assert(d.lumps =~= d2.lumps);
}

/// A directory is written with one header only.
pub proof fn lemma_layout_unique(d: BspView, h: Header, h2: Header)
    requires
        d.is_layout(h),
        d.is_layout(h2),
    ensures
        h == h2,
{
    assert(h.lump_defs =~= h2.lump_defs);
}

/// Offset recomputation: in the header of the written file, descriptor `i`
/// starts at the header size plus the lengths of the lumps before `i` and has
/// the current length and metadata of lump `i`.  What the descriptors of the
/// directory's own header say plays no part; consecutive lumps touch.
pub proof fn lemma_layout_offsets(d: BspView, h: Header, i: int)
    requires
        d.wf(),
        d.fits(),
        d.is_layout(h),
        0 <= i < LUMP_DEF_COUNT,
    ensures
        h.lump_defs@[i].offset == HEADER_SIZE + data_len(d.lumps, i),
        h.lump_defs@[i].length == d.lumps[i].bytes.len(),
        h.lump_defs@[i].metadata == d.lumps[i].metadata,
        i == 0 ==> h.lump_defs@[i].offset == HEADER_SIZE,
        i + 1 < LUMP_DEF_COUNT ==> h.lump_defs@[i + 1].offset == h.lump_defs@[i].offset
            + h.lump_defs@[i].length,
{
    lemma_data_len_monotonic(d.lumps, i, i + 1);
    lemma_data_len_monotonic(d.lumps, i + 1, LUMP_DEF_COUNT as int);
    assert(h.lump_defs@[i] == d.canonical_def(i));
    if i + 1 < LUMP_DEF_COUNT {
        lemma_data_len_monotonic(d.lumps, i + 2, LUMP_DEF_COUNT as int);
        assert(h.lump_defs@[i + 1] == d.canonical_def(i + 1));
    }
}

/// What is written can be parsed, and the file says what the directory held.
///
/// The written file starts with a header that carries the directory's
/// identifier, version and revision and the recomputed descriptor table.
/// Descriptor `i` gives as offset the header size plus the lengths of the
/// lumps before `i`, and as length the length of lump `i`; the bytes it names
/// are the bytes of lump `i`.
pub proof fn lemma_written_file(d: BspView)
    requires
        d.wf(),
        d.fits(),
    ensures
        parses(d.serialized()),
        header_decodes(
            d.header.identifier@,
            d.header.version,
            d.canonical_defs(),
            d.header.revision,
            d.serialized(),
        ),
        forall|i: int|
            0 <= i < LUMP_DEF_COUNT ==> {
                &&& #[trigger] lump_bytes(d.serialized(), i) == d.lumps[i].bytes
                &&& def_offset(d.serialized(), i) == HEADER_SIZE + data_len(d.lumps, i)
                &&& def_length(d.serialized(), i) == d.lumps[i].bytes.len()
            },
{
    let s = d.serialized();
    let defs = d.canonical_defs();
    let head = header_encoding(d.header.identifier@, d.header.version, defs, d.header.revision);
    let region = data_region(d.lumps, LUMP_DEF_COUNT as int);
    assert(d.header.identifier@.len() == 4);
    lemma_header_encode_decode(d.header.identifier@, d.header.version, defs, d.header.revision);
    assert(head.subrange(0, HEADER_SIZE as int) =~= s.subrange(0, HEADER_SIZE as int));
    lemma_header_decodes_prefix(
        d.header.identifier@,
        d.header.version,
        defs,
        d.header.revision,
        head,
        s,
    );
    lemma_data_len_monotonic(d.lumps, 0, LUMP_DEF_COUNT as int);
    assert forall|i: int| 0 <= i < LUMP_DEF_COUNT implies {
        &&& lump_fits(s, i)
        &&& #[trigger] lump_bytes(s, i) == d.lumps[i].bytes
        &&& def_offset(s, i) == HEADER_SIZE + data_len(d.lumps, i)
        &&& def_length(s, i) == d.lumps[i].bytes.len()
    } by {
        lemma_data_len_monotonic(d.lumps, i, i + 1);
        lemma_data_len_monotonic(d.lumps, i + 1, LUMP_DEF_COUNT as int);
        assert(defs[i] == d.canonical_def(i));
        lemma_def_fields(s, defs[i], i);
        lemma_data_region_lump(d.lumps, LUMP_DEF_COUNT as int, i);
        assert(lump_start(s, i) == data_len(d.lumps, i));
        assert(lump_bytes(s, i) =~= region.subrange(
            data_len(d.lumps, i),
            data_len(d.lumps, i + 1),
        ));
    }
    assert forall|i: int| 0 <= i < LUMP_DEF_COUNT implies #[trigger] lump_fits(s, i) by {
        assert(lump_bytes(s, i) == d.lumps[i].bytes);
    }
}

/// Writing a directory and parsing what was written gives the written lumps
/// back, whatever was changed since the directory itself was parsed.
///
/// The parsed directory has the identifier, version and revision of the
/// written one, the same bytes and metadata in every slot, and the recomputed
/// descriptor table in its header.
pub proof fn lemma_write_then_parse(d: BspView, d2: BspView)
    requires
        d.wf(),
        d.fits(),
        d2.parsed_from(d.serialized()),
    ensures
        d2.header.identifier == d.header.identifier,
        d2.header.version == d.header.version,
        d2.header.revision == d.header.revision,
        d2.header.lump_defs@ == d.canonical_defs(),
        forall|i: int|
            0 <= i < LUMP_DEF_COUNT ==> {
                &&& (#[trigger] d2.lumps[i]).bytes == d.lumps[i].bytes
                &&& d2.lumps[i].metadata == d.lumps[i].metadata
            },
{
    let s = d.serialized();
    lemma_written_file(d);
    lemma_header_decode_unique(
        d.header.identifier@,
        d.header.version,
        d.canonical_defs(),
        d.header.revision,
        d2.header.identifier@,
        d2.header.version,
        d2.header.lump_defs@,
        d2.header.revision,
        s,
    );
    assert(d2.header.identifier =~= d.header.identifier);
    assert forall|i: int| 0 <= i < LUMP_DEF_COUNT implies {
        &&& (#[trigger] d2.lumps[i]).bytes == d.lumps[i].bytes
        &&& d2.lumps[i].metadata == d.lumps[i].metadata
    } by {
        assert(lump_bytes(s, i) == d.lumps[i].bytes);
        assert(d.canonical_defs()[i] == d.canonical_def(i));
    }
}

/// Round trip: a directory that was parsed from `b` and written without any
/// change parses back to the same directory, but for the offsets in the
/// descriptor table.
///
/// Identifier, version and revision are those of `b`; every descriptor keeps
/// its length and metadata; every slot holds the same bytes and metadata.
/// The offsets are the recomputed ones: header size plus the lengths of the
/// lumps before.
pub proof fn lemma_round_trip(b: Seq<u8>, d: BspView, d2: BspView)
    requires
        d.parsed_from(b),
        d.fits(),
        d2.parsed_from(d.serialized()),
    ensures
        d2.header.identifier == d.header.identifier,
        d2.header.version == d.header.version,
        d2.header.revision == d.header.revision,
        d2.lumps == d.lumps,
        forall|i: int|
            0 <= i < LUMP_DEF_COUNT ==> {
                &&& (#[trigger] d2.header.lump_defs@[i]).length == d.header.lump_defs@[i].length
                &&& d2.header.lump_defs@[i].metadata == d.header.lump_defs@[i].metadata
                &&& d2.header.lump_defs@[i].offset == HEADER_SIZE + data_len(d.lumps, i)
            },
{
    assert forall|i: int| 0 <= i < LUMP_DEF_COUNT implies (#[trigger] d.lumps[i]).wf() by {}
    lemma_write_then_parse(d, d2);
    lemma_written_file(d);
    let s = d.serialized();
    assert forall|i: int| 0 <= i < LUMP_DEF_COUNT implies {
        &&& d2.lumps[i] == d.lumps[i]
        &&& (#[trigger] d2.header.lump_defs@[i]).length == d.header.lump_defs@[i].length
        &&& d2.header.lump_defs@[i].metadata == d.header.lump_defs@[i].metadata
        &&& d2.header.lump_defs@[i].offset == HEADER_SIZE + data_len(d.lumps, i)
    } by {
        assert(d2.lumps[i].bytes == d.lumps[i].bytes);
        assert(d.canonical_defs()[i] == d.canonical_def(i));
        assert(lump_fits(b, i));
        assert(d.lumps[i].bytes == lump_bytes(b, i));
        lemma_def_fields(
            b,
            d.header.lump_defs@[i],
            i,
        );
        lemma_def_fields(s, d2.header.lump_defs@[i], i);
        assert(lump_bytes(s, i) == d.lumps[i].bytes);
    }
    assert(d2.lumps =~= d.lumps);
}

/// Isolation: whatever is done to slot `i` through its guards, every other
/// slot keeps its bytes, its metadata, its buffer and its guards.
pub proof fn lemma_slots_isolated(d: BspView, i: int, changed: LumpView, j: int)
    requires
        d.wf(),
        0 <= i < LUMP_DEF_COUNT,
        0 <= j < LUMP_DEF_COUNT,
        i != j,
    ensures
        d.with_lump(i, changed).lumps[j] == d.lumps[j],
        d.with_lump(i, changed).header == d.header,
{
}

/// Copy on write: read guards never move a lump out of the input buffer, and
/// the write guard moves it without changing a byte.
pub proof fn lemma_copy_on_write(slot: LumpView)
    ensures
        slot.share().owned == slot.owned,
        slot.share().bytes == slot.bytes,
        slot.unshare().owned == slot.owned,
        slot.unshare().bytes == slot.bytes,
        slot.lock().owned,
        slot.lock().bytes == slot.bytes,
        slot.lock().metadata == slot.metadata,
        slot.unlock().owned == slot.owned,
        slot.unlock().bytes == slot.bytes,
{
}

/// Conflict arbitration: while the write guard on slot `i` is outstanding,
/// every request for a guard on `i` is refused as a conflict, and a request
/// on another slot `j` is answered as if there were no guard on `i`; it is
/// granted when `j` is free.
pub proof fn lemma_write_guard_excludes(d: BspView, i: int, j: int, size: int)
    requires
        d.wf(),
        0 <= i < LUMP_DEF_COUNT,
        0 <= j,
        d.write_error(i) is None,
    ensures
        ({
            let held = d.with_lump(i, d.lumps[i].lock());
            &&& held.read_error(i) == Some(AccessError::BorrowConflict)
            &&& held.write_error(i) == Some(AccessError::BorrowConflict)
            &&& held.cast_error(i, size) == Some(CastError::BorrowConflict)
            &&& held.cast_mut_error(i, size) == Some(CastError::BorrowConflict)
            &&& held.cast_slice_error(i, size) == Some(CastError::BorrowConflict)
            &&& held.cast_slice_mut_error(i, size) == Some(CastError::BorrowConflict)
            &&& !held.unlocked()
            &&& j != i ==> {
                &&& held.read_error(j) == d.read_error(j)
                &&& held.write_error(j) == d.write_error(j)
                &&& held.cast_error(j, size) == d.cast_error(j, size)
                &&& held.cast_mut_error(j, size) == d.cast_mut_error(j, size)
                &&& held.cast_slice_error(j, size) == d.cast_slice_error(j, size)
                &&& held.cast_slice_mut_error(j, size) == d.cast_slice_mut_error(j, size)
            }
            &&& j != i && j < LUMP_DEF_COUNT && d.lumps[j].state is Free ==> {
                &&& held.read_error(j) is None
                &&& held.write_error(j) is None
            }
        }),
{
    let held = d.with_lump(i, d.lumps[i].lock());
    assert(held.lumps[i].state is Exclusive);
}

/// While a read guard on slot `i` is outstanding, the write guard on `i` is
/// refused as a conflict, and requests on another slot `j` are answered as if
/// there were no guard on `i`.
pub proof fn lemma_read_guard_excludes_write(d: BspView, i: int, j: int)
    requires
        d.wf(),
        0 <= i < LUMP_DEF_COUNT,
        0 <= j,
        d.read_error(i) is None,
    ensures
        ({
            let held = d.with_lump(i, d.lumps[i].share());
            &&& held.write_error(i) == Some(AccessError::BorrowConflict)
            &&& held.unlocked() == d.unlocked()
            &&& j != i ==> {
                &&& held.read_error(j) == d.read_error(j)
                &&& held.write_error(j) == d.write_error(j)
            }
        }),
{
    let held = d.with_lump(i, d.lumps[i].share());
    if d.unlocked() {
        assert forall|k: int| 0 <= k < LUMP_DEF_COUNT implies !((#[trigger] held.lumps[k]).state
            is Exclusive) by {
            assert(!(d.lumps[k].state is Exclusive));
        }
    }
    if held.unlocked() {
        assert forall|k: int| 0 <= k < LUMP_DEF_COUNT implies !((#[trigger] d.lumps[k]).state
            is Exclusive) by {
            assert(!(held.lumps[k].state is Exclusive));
        }
    }
}

/// Giving a guard back undoes taking it: the slot has the guards again that
/// it had before, and holds what it held.
pub proof fn lemma_release_restores(slot: LumpView)
    requires
        slot.wf(),
    ensures
        slot.readable() ==> slot.share().unshare() == slot,
        slot.writable() ==> slot.lock().unlock() == (LumpView { owned: true, ..slot }),
{
}

/// Exactness of typed views: where a guard on the slot is available, the lump
/// is seen as one record of `size` bytes exactly when it holds `size` bytes,
/// and as a sequence of such records exactly when it holds a whole number of
/// them.  A lump that is a byte short or a byte long of one record is refused
/// as a record.
pub proof fn lemma_cast_exact(d: BspView, i: int, size: int)
    requires
        d.wf(),
        0 <= i < LUMP_DEF_COUNT,
    ensures
        d.read_error(i) is None ==> (d.cast_error(i, size) is None <==> d.lumps[i].bytes.len()
            == size),
        d.write_error(i) is None ==> (d.cast_mut_error(i, size) is None <==> d.lumps[i].bytes.len()
            == size),
        d.read_error(i) is None ==> (d.cast_slice_error(i, size) is None <==> whole_records(
            d.lumps[i].bytes.len() as int,
            size,
        )),
        d.write_error(i) is None ==> (d.cast_slice_mut_error(i, size) is None <==> whole_records(
            d.lumps[i].bytes.len() as int,
            size,
        )),
        d.lumps[i].bytes.len() == size - 1 ==> d.cast_error(i, size) is Some && d.cast_mut_error(
            i,
            size,
        ) is Some,
        d.lumps[i].bytes.len() == size + 1 ==> d.cast_error(i, size) is Some && d.cast_mut_error(
            i,
            size,
        ) is Some,
{
}

} // verus!
