//! The fixed-layout records of the file format and their byte encoding.
//!
//! All integers are stored little-endian and the fields follow each other
//! without padding:
//!
//! | record         | bytes | fields                                          |
//! |----------------|-------|-------------------------------------------------|
//! | `LumpMetadata` | 8     | version, identifier                             |
//! | `LumpDef`      | 16    | offset, length, metadata                        |
//! | `Header`       | 1036  | identifier, version, 64 descriptors, revision   |
use crate::error::LayoutError;
use crate::raw::read_prefix;
use vstd::prelude::*;

verus! {

/// Number of lump descriptors in a header.
pub const LUMP_DEF_COUNT: usize = 64;

/// Encoded size of a [`LumpMetadata`].
pub const LUMP_METADATA_SIZE: usize = 8;

/// Encoded size of a [`LumpDef`].
pub const LUMP_DEF_SIZE: usize = 16;

/// Encoded size of a [`Header`]; lump data starts at this offset in a file
/// written by this library.
pub const HEADER_SIZE: usize = 1036;

/// The four bytes that store `x` in little-endian order.
pub open spec fn u32_le(x: u32) -> Seq<u8> {
    seq![
        (x % 256) as u8,
        ((x / 256) % 256) as u8,
        ((x / 65536) % 256) as u8,
        (x / 16777216) as u8,
    ]
}

/// The number that the first four bytes of `b` store in little-endian order.
pub open spec fn u32_from_le(b: Seq<u8>) -> u32 {
    (b[0] + 256 * b[1] + 65536 * b[2] + 16777216 * b[3]) as u32
}

/// The unsigned number with the same 32-bit two's complement pattern as `x`.
pub open spec fn i32_bits(x: i32) -> u32 {
    if x >= 0 {
        x as u32
    } else {
        (x + 0x1_0000_0000) as u32
    }
}

/// The signed number with the same 32-bit two's complement pattern as `x`.
pub open spec fn i32_from_bits(x: u32) -> i32 {
    if x < 0x8000_0000 {
        x as i32
    } else {
        (x - 0x1_0000_0000) as i32
    }
}

/// A `u32` is the sum of its four little-endian digits.
proof fn lemma_u32_digits(x: u32)
    by (bit_vector)
    ensures
        x == (x % 256) + 256 * ((x / 256) % 256) + 65536 * ((x / 65536) % 256) + 16777216 * (x
            / 16777216),
        x / 16777216 < 256,
{
}

/// Four digits below 256 are recovered from their little-endian sum.
proof fn lemma_u32_from_digits(b0: u32, b1: u32, b2: u32, b3: u32)
    by (bit_vector)
    requires
        b0 < 256,
        b1 < 256,
        b2 < 256,
        b3 < 256,
    ensures
        b0 + 256 * b1 + 65536 * b2 + 16777216 * b3 < 0x1_0000_0000,
        ((b0 + 256 * b1 + 65536 * b2 + 16777216 * b3) as u32) % 256 == b0,
        (((b0 + 256 * b1 + 65536 * b2 + 16777216 * b3) as u32) / 256) % 256 == b1,
        (((b0 + 256 * b1 + 65536 * b2 + 16777216 * b3) as u32) / 65536) % 256 == b2,
        ((b0 + 256 * b1 + 65536 * b2 + 16777216 * b3) as u32) / 16777216 == b3,
{
}

/// Encoding and decoding a `u32` are inverse to each other.
pub proof fn lemma_u32_le_round_trip(x: u32, b: Seq<u8>)
    ensures
        u32_le(x).len() == 4,
        u32_from_le(u32_le(x)) == x,
        b.len() == 4 ==> u32_le(u32_from_le(b)) == b,
{
    lemma_u32_digits(x);
    if b.len() == 4 {
        lemma_u32_from_digits(b[0] as u32, b[1] as u32, b[2] as u32, b[3] as u32);
        assert(u32_le(u32_from_le(b)) =~= b);
    }
}

/// The two's complement pattern of an `i32` determines it.
pub proof fn lemma_i32_bits_round_trip(x: i32, y: u32)
    ensures
        i32_from_bits(i32_bits(x)) == x,
        i32_bits(i32_from_bits(y)) == y,
{
}

/// Reads the little-endian `u32` stored at `bytes[at..at + 4]`.
pub(crate) fn read_u32(bytes: &[u8], at: usize) -> (r: u32)
    requires
        at + 4 <= bytes.len(),
    ensures
        r == u32_from_le(bytes@.subrange(at as int, at + 4)),
{
    let b0: u32 = bytes[at] as u32;
    let b1: u32 = bytes[at + 1] as u32;
    let b2: u32 = bytes[at + 2] as u32;
    let b3: u32 = bytes[at + 3] as u32;
    b0 + 256 * b1 + 65536 * b2 + 16777216 * b3
}

/// Appends the little-endian encoding of `x` to `out`.
pub fn write_u32(out: &mut Vec<u8>, x: u32)
    ensures
        final(out)@ == old(out)@ + u32_le(x),
{
    out.push((x % 256) as u8);
    out.push(((x / 256) % 256) as u8);
    out.push(((x / 65536) % 256) as u8);
    out.push((x / 16777216) as u8);
    assert(out@ =~= old(out)@ + u32_le(x));
}

/// Reads a little-endian `i32` stored at `bytes[at..at + 4]`.
pub(crate) fn read_i32(bytes: &[u8], at: usize) -> (r: i32)
    requires
        at + 4 <= bytes.len(),
    ensures
        r == i32_from_bits(u32_from_le(bytes@.subrange(at as int, at + 4))),
{
    let bits: u32 = read_u32(bytes, at);
    if bits < 0x8000_0000 {
        bits as i32
    } else {
        (bits as i64 - 0x1_0000_0000) as i32
    }
}

/// Appends the little-endian encoding of `x` to `out`.
pub fn write_i32(out: &mut Vec<u8>, x: i32)
    ensures
        final(out)@ == old(out)@ + u32_le(i32_bits(x)),
{
    let bits: u32 = if x >= 0 {
        x as u32
    } else {
        (x as i64 + 0x1_0000_0000) as u32
    };
    write_u32(out, bits);
}

/// Version and identifier tag of one lump.
#[derive(Clone, Copy, Debug, PartialEq, Eq)]
pub struct LumpMetadata {
    /// Lump version.
    pub version: u32,
    /// Lump identifier.
    pub identifier: [u8; 4],
}

impl LumpMetadata {
    /// The bytes that store this record.
    pub open spec fn encoding(self) -> Seq<u8> {
        u32_le(self.version) + self.identifier@
    }

    /// Whether this record is what the first eight bytes of `b` store.
    pub open spec fn decodes(self, b: Seq<u8>) -> bool {
        &&& self.version == u32_from_le(b.subrange(0, 4))
        &&& self.identifier@ == b.subrange(4, 8)
    }

    /// Reads the record stored at `bytes[at..at + 8]`.
    pub(crate) fn read(bytes: &[u8], at: usize) -> (r: LumpMetadata)
        requires
            at + LUMP_METADATA_SIZE <= bytes.len(),
        ensures
            r.decodes(bytes@.subrange(at as int, at + LUMP_METADATA_SIZE)),
    {
        let version: u32 = read_u32(bytes, at);
        let identifier: [u8; 4] = [bytes[at + 4], bytes[at + 5], bytes[at + 6], bytes[at + 7]];
        proof {
            let b = bytes@.subrange(at as int, at + LUMP_METADATA_SIZE);
            assert(b.subrange(0, 4) =~= bytes@.subrange(at as int, at + 4));
            assert(identifier@ =~= b.subrange(4, 8));
        }
        LumpMetadata { version, identifier }
    }

    /// Decodes a record from exactly its encoded size.
    pub fn decode(bytes: &[u8; 8]) -> (r: LumpMetadata)
        ensures
            r.decodes(bytes@),
    {
        let r = LumpMetadata::read(bytes.as_slice(), 0);
        assert(bytes@.subrange(0, 8) =~= bytes@);
        r
    }

    /// Appends the encoding of this record to `out`.
    pub fn write(&self, out: &mut Vec<u8>)
        ensures
            final(out)@ == old(out)@ + self.encoding(),
    {
        write_u32(out, self.version);
        out.push(self.identifier[0]);
        out.push(self.identifier[1]);
        out.push(self.identifier[2]);
        out.push(self.identifier[3]);
        assert(out@ =~= old(out)@ + self.encoding());
    }

    /// The encoding of this record, [`LUMP_METADATA_SIZE`] bytes long.
    pub fn encode(&self) -> (out: Vec<u8>)
        ensures
            out@ == self.encoding(),
            out@.len() == LUMP_METADATA_SIZE,
    {
        let mut out: Vec<u8> = Vec::new();
        self.write(&mut out);
        assert(out@ =~= self.encoding());
        out
    }

    /// A record decodes from its own encoding, which has the fixed size.
    pub proof fn lemma_encode_decode(self)
        ensures
            self.encoding().len() == LUMP_METADATA_SIZE,
            self.decodes(self.encoding()),
    {
        lemma_u32_le_round_trip(self.version, Seq::empty());
        assert(self.encoding().subrange(0, 4) =~= u32_le(self.version));
        assert(self.encoding().subrange(4, 8) =~= self.identifier@);
    }

    /// The record decoded from eight bytes encodes to those bytes again.
    pub proof fn lemma_decode_encode(self, b: Seq<u8>)
        requires
            b.len() == LUMP_METADATA_SIZE,
            self.decodes(b),
        ensures
            self.encoding() == b,
    {
        lemma_u32_le_round_trip(0, b.subrange(0, 4));
        assert(self.encoding() =~= b.subrange(0, 4) + b.subrange(4, 8));
        assert(b.subrange(0, 4) + b.subrange(4, 8) =~= b);
    }

    /// Bytes store at most one record.
    pub proof fn lemma_decode_unique(self, other: LumpMetadata, b: Seq<u8>)
        requires
            self.decodes(b),
            other.decodes(b),
        ensures
            self == other,
    {
        assert(self.identifier@ == other.identifier@);
        assert(self.identifier =~= other.identifier);
    }
}

/// One entry of the header's descriptor table: where a lump lies in the file.
#[derive(Clone, Copy, Debug, PartialEq, Eq)]
pub struct LumpDef {
    /// Offset of the lump's first byte, counted from the start of the file.
    pub offset: u32,
    /// Length of the lump in bytes.
    pub length: u32,
    /// Version and identifier of the lump.
    pub metadata: LumpMetadata,
}

impl LumpDef {
    /// The bytes that store this descriptor.
    pub open spec fn encoding(self) -> Seq<u8> {
        u32_le(self.offset) + u32_le(self.length) + self.metadata.encoding()
    }

    /// Whether this descriptor is what the first sixteen bytes of `b` store.
    pub open spec fn decodes(self, b: Seq<u8>) -> bool {
        &&& self.offset == u32_from_le(b.subrange(0, 4))
        &&& self.length == u32_from_le(b.subrange(4, 8))
        &&& self.metadata.decodes(b.subrange(8, 16))
    }

    /// Reads the descriptor stored at `bytes[at..at + 16]`.
    pub(crate) fn read(bytes: &[u8], at: usize) -> (r: LumpDef)
        requires
            at + LUMP_DEF_SIZE <= bytes.len(),
        ensures
            r.decodes(bytes@.subrange(at as int, at + LUMP_DEF_SIZE)),
    {
        let offset: u32 = read_u32(bytes, at);
        let length: u32 = read_u32(bytes, at + 4);
        let metadata = LumpMetadata::read(bytes, at + 8);
        proof {
            let b = bytes@.subrange(at as int, at + LUMP_DEF_SIZE);
            assert(b.subrange(0, 4) =~= bytes@.subrange(at as int, at + 4));
            assert(b.subrange(4, 8) =~= bytes@.subrange(at + 4, at + 8));
            assert(b.subrange(8, 16) =~= bytes@.subrange(at + 8, at + 16));
        }
        LumpDef { offset, length, metadata }
    }

    /// Decodes a descriptor from exactly its encoded size.
    pub fn decode(bytes: &[u8; 16]) -> (r: LumpDef)
        ensures
            r.decodes(bytes@),
    {
        let r = LumpDef::read(bytes.as_slice(), 0);
        assert(bytes@.subrange(0, 16) =~= bytes@);
        r
    }

    /// Appends the encoding of this descriptor to `out`.
    pub fn write(&self, out: &mut Vec<u8>)
        ensures
            final(out)@ == old(out)@ + self.encoding(),
    {
        write_u32(out, self.offset);
        write_u32(out, self.length);
        self.metadata.write(out);
        assert(out@ =~= old(out)@ + self.encoding());
    }

    /// The encoding of this descriptor, [`LUMP_DEF_SIZE`] bytes long.
    pub fn encode(&self) -> (out: Vec<u8>)
        ensures
            out@ == self.encoding(),
            out@.len() == LUMP_DEF_SIZE,
    {
        let mut out: Vec<u8> = Vec::new();
        self.write(&mut out);
        assert(out@ =~= self.encoding());
        out
    }

    /// A descriptor decodes from its own encoding, which has the fixed size.
    pub proof fn lemma_encode_decode(self)
        ensures
            self.encoding().len() == LUMP_DEF_SIZE,
            self.decodes(self.encoding()),
    {
        lemma_u32_le_round_trip(self.offset, Seq::empty());
        lemma_u32_le_round_trip(self.length, Seq::empty());
        self.metadata.lemma_encode_decode();
        assert(self.encoding().subrange(0, 4) =~= u32_le(self.offset));
        assert(self.encoding().subrange(4, 8) =~= u32_le(self.length));
        assert(self.encoding().subrange(8, 16) =~= self.metadata.encoding());
    }

    /// The descriptor decoded from sixteen bytes encodes to those bytes again.
    pub proof fn lemma_decode_encode(self, b: Seq<u8>)
        requires
            b.len() == LUMP_DEF_SIZE,
            self.decodes(b),
        ensures
            self.encoding() == b,
    {
        lemma_u32_le_round_trip(0, b.subrange(0, 4));
        lemma_u32_le_round_trip(0, b.subrange(4, 8));
        self.metadata.lemma_decode_encode(b.subrange(8, 16));
        assert(self.encoding() =~= b.subrange(0, 4) + b.subrange(4, 8) + b.subrange(8, 16));
        assert(b.subrange(0, 4) + b.subrange(4, 8) + b.subrange(8, 16) =~= b);
    }

    /// Bytes store at most one descriptor.
    pub proof fn lemma_decode_unique(self, other: LumpDef, b: Seq<u8>)
        requires
            self.decodes(b),
            other.decodes(b),
        ensures
            self == other,
    {
        self.metadata.lemma_decode_unique(other.metadata, b.subrange(8, 16));
    }
}

/// The bytes that store a table of descriptors, one after the other.
pub open spec fn defs_encoding(defs: Seq<LumpDef>) -> Seq<u8>
    decreases defs.len(),
{
    if defs.len() == 0 {
        Seq::empty()
    } else {
        defs_encoding(defs.drop_last()) + defs.last().encoding()
    }
}

/// The encoded table is sixteen bytes per descriptor, and descriptor `i`
/// occupies the bytes from `16 * i`.
pub proof fn lemma_defs_encoding(defs: Seq<LumpDef>, i: int)
    ensures
        defs_encoding(defs).len() == LUMP_DEF_SIZE * defs.len(),
        0 <= i < defs.len() ==> defs_encoding(defs).subrange(
            LUMP_DEF_SIZE * i,
            LUMP_DEF_SIZE * i + LUMP_DEF_SIZE,
        ) == defs[i].encoding(),
    decreases defs.len(),
{
    if defs.len() > 0 {
        let init = defs.drop_last();
        lemma_defs_encoding(init, i);
        defs.last().lemma_encode_decode();
        if 0 <= i < defs.len() {
            if i < init.len() {
                assert(defs_encoding(defs).subrange(
                    LUMP_DEF_SIZE * i,
                    LUMP_DEF_SIZE * i + LUMP_DEF_SIZE,
                ) =~= defs_encoding(init).subrange(
                    LUMP_DEF_SIZE * i,
                    LUMP_DEF_SIZE * i + LUMP_DEF_SIZE,
                ));
            } else {
                assert(defs_encoding(defs).subrange(
                    LUMP_DEF_SIZE * i,
                    LUMP_DEF_SIZE * i + LUMP_DEF_SIZE,
                ) =~= defs.last().encoding());
            }
        }
    }
}

/// The bytes that store a header with the given fields: identifier, version,
/// descriptor table and revision, in this order.
pub open spec fn header_encoding(
    identifier: Seq<u8>,
    version: u32,
    defs: Seq<LumpDef>,
    revision: i32,
) -> Seq<u8> {
    identifier + u32_le(version) + defs_encoding(defs) + u32_le(i32_bits(revision))
}

/// Whether the given fields are what the first [`HEADER_SIZE`] bytes of `b`
/// store as a header.
pub open spec fn header_decodes(
    identifier: Seq<u8>,
    version: u32,
    defs: Seq<LumpDef>,
    revision: i32,
    b: Seq<u8>,
) -> bool {
    &&& identifier == b.subrange(0, 4)
    &&& version == u32_from_le(b.subrange(4, 8))
    &&& defs.len() == LUMP_DEF_COUNT
    &&& forall|i: int|
        0 <= i < LUMP_DEF_COUNT ==> (#[trigger] defs[i]).decodes(
            b.subrange(8 + LUMP_DEF_SIZE * i, 8 + LUMP_DEF_SIZE * i + LUMP_DEF_SIZE),
        )
    &&& revision == i32_from_bits(u32_from_le(b.subrange(1032, 1036)))
}

/// Decoding a header looks at the first [`HEADER_SIZE`] bytes only.
pub proof fn lemma_header_decodes_prefix(
    identifier: Seq<u8>,
    version: u32,
    defs: Seq<LumpDef>,
    revision: i32,
    a: Seq<u8>,
    b: Seq<u8>,
)
    requires
        a.len() >= HEADER_SIZE,
        b.len() >= HEADER_SIZE,
        a.subrange(0, HEADER_SIZE as int) == b.subrange(0, HEADER_SIZE as int),
        header_decodes(identifier, version, defs, revision, a),
    ensures
        header_decodes(identifier, version, defs, revision, b),
{
    let pa = a.subrange(0, HEADER_SIZE as int);
    let pb = b.subrange(0, HEADER_SIZE as int);
    assert(a.subrange(0, 4) =~= pa.subrange(0, 4));
    assert(b.subrange(0, 4) =~= pb.subrange(0, 4));
    assert(a.subrange(4, 8) =~= pa.subrange(4, 8));
    assert(b.subrange(4, 8) =~= pb.subrange(4, 8));
    assert(a.subrange(1032, 1036) =~= pa.subrange(1032, 1036));
    assert(b.subrange(1032, 1036) =~= pb.subrange(1032, 1036));
    assert forall|i: int| 0 <= i < LUMP_DEF_COUNT implies (#[trigger] defs[i]).decodes(
        b.subrange(8 + LUMP_DEF_SIZE * i, 8 + LUMP_DEF_SIZE * i + LUMP_DEF_SIZE),
    ) by {
        let lo = 8 + LUMP_DEF_SIZE * i;
        assert(a.subrange(lo, lo + LUMP_DEF_SIZE) =~= pa.subrange(lo, lo + LUMP_DEF_SIZE));
        assert(b.subrange(lo, lo + LUMP_DEF_SIZE) =~= pb.subrange(lo, lo + LUMP_DEF_SIZE));
    }
}

/// Header fields decode from their own encoding, which has the fixed size.
pub proof fn lemma_header_encode_decode(
    identifier: Seq<u8>,
    version: u32,
    defs: Seq<LumpDef>,
    revision: i32,
)
    requires
        identifier.len() == 4,
        defs.len() == LUMP_DEF_COUNT,
    ensures
        header_encoding(identifier, version, defs, revision).len() == HEADER_SIZE,
        header_decodes(
            identifier,
            version,
            defs,
            revision,
            header_encoding(identifier, version, defs, revision),
        ),
{
    let e = header_encoding(identifier, version, defs, revision);
    let table = defs_encoding(defs);
    lemma_defs_encoding(defs, 0);
    lemma_u32_le_round_trip(version, Seq::empty());
    lemma_u32_le_round_trip(i32_bits(revision), Seq::empty());
    lemma_i32_bits_round_trip(revision, 0);
    assert(e.subrange(0, 4) =~= identifier);
    assert(e.subrange(4, 8) =~= u32_le(version));
    assert(e.subrange(1032, 1036) =~= u32_le(i32_bits(revision)));
    assert forall|i: int| 0 <= i < LUMP_DEF_COUNT implies (#[trigger] defs[i]).decodes(
        e.subrange(8 + LUMP_DEF_SIZE * i, 8 + LUMP_DEF_SIZE * i + LUMP_DEF_SIZE),
    ) by {
        lemma_defs_encoding(defs, i);
        defs[i].lemma_encode_decode();
        assert(e.subrange(8 + LUMP_DEF_SIZE * i, 8 + LUMP_DEF_SIZE * i + LUMP_DEF_SIZE)
            =~= table.subrange(LUMP_DEF_SIZE * i, LUMP_DEF_SIZE * i + LUMP_DEF_SIZE));
    }
}

/// The header fields decoded from [`HEADER_SIZE`] bytes encode to those bytes
/// again.
pub proof fn lemma_header_decode_encode(
    identifier: Seq<u8>,
    version: u32,
    defs: Seq<LumpDef>,
    revision: i32,
    b: Seq<u8>,
)
    requires
        b.len() == HEADER_SIZE,
        header_decodes(identifier, version, defs, revision, b),
    ensures
        header_encoding(identifier, version, defs, revision) == b,
{
    let e = header_encoding(identifier, version, defs, revision);
    let table = defs_encoding(defs);
    lemma_defs_encoding(defs, 0);
    lemma_u32_le_round_trip(0, b.subrange(4, 8));
    lemma_u32_le_round_trip(0, b.subrange(1032, 1036));
    lemma_i32_bits_round_trip(0, u32_from_le(b.subrange(1032, 1036)));
    assert(table =~= b.subrange(8, 1032)) by {
        assert forall|k: int| 0 <= k < 1024 implies table[k] == b[8 + k] by {
            let i = k / 16;
            lemma_defs_encoding(defs, i);
            let chunk = b.subrange(8 + LUMP_DEF_SIZE * i, 8 + LUMP_DEF_SIZE * i + LUMP_DEF_SIZE);
            assert(defs[i].decodes(chunk));
            defs[i].lemma_decode_encode(chunk);
            assert(table.subrange(LUMP_DEF_SIZE * i, LUMP_DEF_SIZE * i + LUMP_DEF_SIZE)[k - 16
                * i] == table[k]);
            assert(chunk[k - 16 * i] == b[8 + k]);
        }
    }
    assert(e =~= b.subrange(0, 4) + b.subrange(4, 8) + b.subrange(8, 1032) + b.subrange(
        1032,
        1036,
    ));
    assert(b.subrange(0, 4) + b.subrange(4, 8) + b.subrange(8, 1032) + b.subrange(1032, 1036)
        =~= b);
}

/// Bytes store at most one set of header fields.
pub proof fn lemma_header_decode_unique(
    identifier: Seq<u8>,
    version: u32,
    defs: Seq<LumpDef>,
    revision: i32,
    identifier2: Seq<u8>,
    version2: u32,
    defs2: Seq<LumpDef>,
    revision2: i32,
    b: Seq<u8>,
)
    requires
        header_decodes(identifier, version, defs, revision, b),
        header_decodes(identifier2, version2, defs2, revision2, b),
    ensures
        identifier == identifier2,
        version == version2,
        defs == defs2,
        revision == revision2,
{
    assert forall|i: int| 0 <= i < LUMP_DEF_COUNT implies defs[i] == defs2[i] by {
        defs[i].lemma_decode_unique(
            defs2[i],
            b.subrange(8 + LUMP_DEF_SIZE * i, 8 + LUMP_DEF_SIZE * i + LUMP_DEF_SIZE),
        );
    }
    assert(defs =~= defs2);
}

/// The fixed-size record at the start of every file.
#[derive(Clone, Debug, PartialEq, Eq)]
pub struct Header {
    /// File format identifier.
    pub identifier: [u8; 4],
    /// File format version.
    pub version: u32,
    /// Lump descriptors, in slot order.
    pub lump_defs: [LumpDef; 64],
    /// File revision.
    pub revision: i32,
}

impl Header {
    /// The bytes that store this header.
    pub open spec fn encoding(self) -> Seq<u8> {
        header_encoding(self.identifier@, self.version, self.lump_defs@, self.revision)
    }

    /// Whether this header is what the first [`HEADER_SIZE`] bytes of `b`
    /// store.
    pub open spec fn decodes(self, b: Seq<u8>) -> bool {
        header_decodes(self.identifier@, self.version, self.lump_defs@, self.revision, b)
    }

    /// Reads the header stored in the first [`HEADER_SIZE`] bytes of `bytes`.
    pub(crate) fn read(bytes: &[u8]) -> (r: Header)
        requires
            HEADER_SIZE <= bytes.len(),
        ensures
            r.decodes(bytes@),
    {
        let identifier: [u8; 4] = [bytes[0], bytes[1], bytes[2], bytes[3]];
        let version: u32 = read_u32(bytes, 4);
        let blank = LumpDef {
            offset: 0,
            length: 0,
            metadata: LumpMetadata { version: 0, identifier: [0u8; 4] },
        };
        let mut lump_defs: [LumpDef; 64] = [blank; 64];
        let mut i: usize = 0;
        while i < LUMP_DEF_COUNT
            invariant
                i <= LUMP_DEF_COUNT,
                HEADER_SIZE <= bytes.len(),
                forall|j: int|
                    0 <= j < i ==> (#[trigger] lump_defs@[j]).decodes(
                        bytes@.subrange(
                            8 + LUMP_DEF_SIZE * j,
                            8 + LUMP_DEF_SIZE * j + LUMP_DEF_SIZE,
                        ),
                    ),
            decreases LUMP_DEF_COUNT - i,
        {
            let def = LumpDef::read(bytes, 8 + LUMP_DEF_SIZE * i);
            lump_defs[i] = def;
            i = i + 1;
        }
        let revision: i32 = read_i32(bytes, 1032);
        proof {
            assert(identifier@ =~= bytes@.subrange(0, 4));
        }
        Header { identifier, version, lump_defs, revision }
    }

    /// Splits `buffer` into the header that it starts with and the bytes
    /// that follow the header.
    ///
    /// Fails exactly when `buffer` is shorter than [`HEADER_SIZE`].  The
    /// header is decoded byte by byte, so no alignment is asked of `buffer`.
    pub fn decode<'a>(buffer: &'a [u8]) -> (r: Result<(Header, &'a [u8]), LayoutError>)
        ensures
            r is Ok <==> buffer@.len() >= HEADER_SIZE,
            r matches Ok((header, rest)) ==> header.decodes(buffer@) && rest@ == buffer@.subrange(
                HEADER_SIZE as int,
                buffer@.len() as int,
            ),
            r matches Err(e) ==> e == LayoutError::HeaderTruncated,
    {
        match read_prefix::<1036>(buffer) {
            Ok((head, rest)) => {
                let header = Header::read(head.as_slice());
                proof {
                    assert(head@.subrange(0, HEADER_SIZE as int) =~= buffer@.subrange(
                        0,
                        HEADER_SIZE as int,
                    ));
                    header.lemma_decodes_prefix(head@, buffer@);
                }
                Ok((header, rest))
            },
            Err(_) => Err(LayoutError::HeaderTruncated),
        }
    }

    /// Appends the encoding of this header to `out`.
    pub fn write(&self, out: &mut Vec<u8>)
        ensures
            final(out)@ == old(out)@ + self.encoding(),
    {
        out.push(self.identifier[0]);
        out.push(self.identifier[1]);
        out.push(self.identifier[2]);
        out.push(self.identifier[3]);
        write_u32(out, self.version);
        let ghost start = out@;
        assert(start =~= old(out)@ + self.identifier@ + u32_le(self.version));
        let mut i: usize = 0;
        while i < LUMP_DEF_COUNT
            invariant
                i <= LUMP_DEF_COUNT,
                out@ == start + defs_encoding(self.lump_defs@.take(i as int)),
            decreases LUMP_DEF_COUNT - i,
        {
            self.lump_defs[i].write(out);
            proof {
                let next = self.lump_defs@.take(i + 1);
                assert(next.drop_last() =~= self.lump_defs@.take(i as int));
                assert(out@ =~= start + defs_encoding(next));
            }
            i = i + 1;
        }
        assert(self.lump_defs@.take(LUMP_DEF_COUNT as int) =~= self.lump_defs@);
        write_i32(out, self.revision);
        assert(out@ =~= old(out)@ + self.encoding());
    }

    /// The encoding of this header, [`HEADER_SIZE`] bytes long.
    pub fn encode(&self) -> (out: Vec<u8>)
        ensures
            out@ == self.encoding(),
            out@.len() == HEADER_SIZE,
    {
        let mut out: Vec<u8> = Vec::new();
        self.write(&mut out);
        proof {
            assert(out@ =~= self.encoding());
            self.lemma_encode_decode();
        }
        out
    }

    /// Decoding looks at the first [`HEADER_SIZE`] bytes only.
    pub proof fn lemma_decodes_prefix(self, a: Seq<u8>, b: Seq<u8>)
        requires
            a.len() >= HEADER_SIZE,
            b.len() >= HEADER_SIZE,
            a.subrange(0, HEADER_SIZE as int) == b.subrange(0, HEADER_SIZE as int),
            self.decodes(a),
        ensures
            self.decodes(b),
    {
        lemma_header_decodes_prefix(
            self.identifier@,
            self.version,
            self.lump_defs@,
            self.revision,
            a,
            b,
        );
    }

    /// A header decodes from its own encoding, which has the fixed size.
    pub proof fn lemma_encode_decode(self)
        ensures
            self.encoding().len() == HEADER_SIZE,
            self.decodes(self.encoding()),
    {
        lemma_header_encode_decode(
            self.identifier@,
            self.version,
            self.lump_defs@,
            self.revision,
        );
    }

    /// The header decoded from [`HEADER_SIZE`] bytes encodes to those bytes
    /// again.
    pub proof fn lemma_decode_encode(self, b: Seq<u8>)
        requires
            b.len() == HEADER_SIZE,
            self.decodes(b),
        ensures
            self.encoding() == b,
    {
        lemma_header_decode_encode(
            self.identifier@,
            self.version,
            self.lump_defs@,
            self.revision,
            b,
        );
    }

    /// Bytes store at most one header.
    pub proof fn lemma_decode_unique(self, other: Header, b: Seq<u8>)
        requires
            self.decodes(b),
            other.decodes(b),
        ensures
            self == other,
    {
        lemma_header_decode_unique(
            self.identifier@,
            self.version,
            self.lump_defs@,
            self.revision,
            other.identifier@,
            other.version,
            other.lump_defs@,
            other.revision,
            b,
        );
        assert(self.identifier =~= other.identifier);
        assert(self.lump_defs =~= other.lump_defs);
    }
}

} // verus!
