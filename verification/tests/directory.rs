use bsp::{AccessError, Bsp, CastError, Header, LayoutError, LumpDef, LumpMetadata, SlotState};
use bsp::{WriteError, HEADER_SIZE, LUMP_DEF_COUNT};

fn meta(version: u32, tag: &[u8; 4]) -> LumpMetadata {
    LumpMetadata { version, identifier: *tag }
}

fn empty_defs() -> [LumpDef; 64] {
    [LumpDef { offset: 0, length: 0, metadata: meta(0, &[0, 0, 0, 0]) }; 64]
}

fn header_with(lump_defs: [LumpDef; 64]) -> Header {
    Header { identifier: *b"VBSP", version: 20, lump_defs, revision: 3 }
}

/// A file whose first slots hold `lumps`, laid out as the library writes it:
/// every lump right after the one before, the first right after the header.
fn file_of(lumps: &[&[u8]]) -> Vec<u8> {
    let mut defs = empty_defs();
    let mut data: Vec<u8> = Vec::new();
    for (i, def) in defs.iter_mut().enumerate() {
        def.offset = (HEADER_SIZE + data.len()) as u32;
        if i < lumps.len() {
            def.length = lumps[i].len() as u32;
            def.metadata = meta(100 + i as u32, &[b'L', i as u8, 0, 1]);
            data.extend_from_slice(lumps[i]);
        }
    }
    let mut file = header_with(defs).encode();
    file.extend_from_slice(&data);
    file
}

fn bytes_of(bsp: &mut Bsp, index: usize) -> Vec<u8> {
    let guard = bsp.lump(index).unwrap();
    let bytes = bsp.data(&guard).to_vec();
    bsp.release(guard);
    bytes
}

fn metadata_of(bsp: &mut Bsp, index: usize) -> LumpMetadata {
    let guard = bsp.lump(index).unwrap();
    let metadata = *bsp.metadata(&guard);
    bsp.release(guard);
    metadata
}

#[test]
fn parse_rejects_a_buffer_shorter_than_the_header() {
    let file = file_of(&[]);
    assert_eq!(file.len(), HEADER_SIZE);
    assert_eq!(Bsp::parse(&file[..HEADER_SIZE - 1]).unwrap_err(), LayoutError::HeaderTruncated);
    assert_eq!(Bsp::parse(&[]).unwrap_err(), LayoutError::HeaderTruncated);
    assert!(Bsp::parse(&file).is_ok());
}

#[test]
fn parse_slices_every_lump() {
    let file = file_of(&[b"hello", b"", b"world!", &[1, 2, 3]]);
    let mut bsp = Bsp::parse(&file).unwrap();
    assert_eq!(bytes_of(&mut bsp, 0), b"hello");
    assert_eq!(bytes_of(&mut bsp, 1), b"");
    assert_eq!(bytes_of(&mut bsp, 2), b"world!");
    assert_eq!(bytes_of(&mut bsp, 3), [1, 2, 3]);
    for index in 4..LUMP_DEF_COUNT {
        assert!(bytes_of(&mut bsp, index).is_empty());
    }
    assert_eq!(metadata_of(&mut bsp, 2), meta(102, &[b'L', 2, 0, 1]));
    assert_eq!(metadata_of(&mut bsp, 63), meta(0, &[0, 0, 0, 0]));
    assert_eq!(bsp.header().identifier, *b"VBSP");
    assert_eq!(bsp.header().version, 20);
    assert_eq!(bsp.header().revision, 3);
    assert_eq!(bsp.header().lump_defs[2].offset, 1036 + 5);
    assert_eq!(bsp.header().lump_defs[2].length, 6);
}

#[test]
fn parse_follows_offsets_wherever_they_point() {
    let mut defs = empty_defs();
    defs[0] = LumpDef { offset: 1036 + 6, length: 4, metadata: meta(1, b"last") };
    defs[7] = LumpDef { offset: 1036, length: 6, metadata: meta(2, b"frst") };
    defs[63] = LumpDef { offset: 1036 + 2, length: 5, metadata: meta(3, b"ovlp") };
    let mut file = header_with(defs).encode();
    file.extend_from_slice(b"abcdefghij");
    let mut bsp = Bsp::parse(&file).unwrap();
    assert_eq!(bytes_of(&mut bsp, 0), b"ghij");
    assert_eq!(bytes_of(&mut bsp, 7), b"abcdef");
    assert_eq!(bytes_of(&mut bsp, 63), b"cdefg");
    assert_eq!(metadata_of(&mut bsp, 63), meta(3, b"ovlp"));
}

#[test]
fn parse_reads_an_offset_inside_the_header_as_its_end() {
    let mut defs = empty_defs();
    defs[1] = LumpDef { offset: 0, length: 3, metadata: meta(0, b"zero") };
    defs[2] = LumpDef { offset: 1035, length: 2, metadata: meta(0, b"near") };
    defs[3] = LumpDef { offset: 1037, length: 2, metadata: meta(0, b"past") };
    let mut file = header_with(defs).encode();
    file.extend_from_slice(b"xyz");
    let mut bsp = Bsp::parse(&file).unwrap();
    assert_eq!(bytes_of(&mut bsp, 1), b"xyz");
    assert_eq!(bytes_of(&mut bsp, 2), b"xy");
    assert_eq!(bytes_of(&mut bsp, 3), b"yz");
}

#[test]
fn parse_fails_as_a_whole_on_one_bad_descriptor() {
    let mut defs = empty_defs();
    defs[0] = LumpDef { offset: 1036, length: 4, metadata: meta(0, b"good") };
    defs[9] = LumpDef { offset: 1036 + 2, length: 3, metadata: meta(0, b"badd") };
    let mut file = header_with(defs).encode();
    file.extend_from_slice(b"abcd");
    assert_eq!(Bsp::parse(&file).unwrap_err(), LayoutError::OutOfBounds { index: 9 });
    file.push(b'e');
    assert!(Bsp::parse(&file).is_ok());
}

#[test]
fn parse_names_the_first_bad_descriptor() {
    let mut defs = empty_defs();
    defs[20] = LumpDef { offset: 1036, length: 1, metadata: meta(0, b"aaaa") };
    defs[5] = LumpDef { offset: 5000, length: 0, metadata: meta(0, b"bbbb") };
    defs[40] = LumpDef { offset: u32::MAX, length: u32::MAX, metadata: meta(0, b"cccc") };
    let file = header_with(defs).encode();
    assert_eq!(Bsp::parse(&file).unwrap_err(), LayoutError::OutOfBounds { index: 5 });
}

#[test]
fn parse_accepts_an_empty_lump_at_the_very_end() {
    let mut defs = empty_defs();
    defs[0] = LumpDef { offset: 1036 + 4, length: 0, metadata: meta(0, b"tail") };
    let mut file = header_with(defs).encode();
    file.extend_from_slice(b"abcd");
    let mut bsp = Bsp::parse(&file).unwrap();
    assert!(bytes_of(&mut bsp, 0).is_empty());
    defs[0].offset = 1036 + 5;
    let mut longer = header_with(defs).encode();
    longer.extend_from_slice(b"abcd");
    assert_eq!(Bsp::parse(&longer).unwrap_err(), LayoutError::OutOfBounds { index: 0 });
}

#[test]
fn parse_survives_extreme_offsets_and_lengths() {
    let mut defs = empty_defs();
    defs[0] = LumpDef { offset: u32::MAX, length: u32::MAX, metadata: meta(0, b"huge") };
    let file = header_with(defs).encode();
    assert_eq!(Bsp::parse(&file).unwrap_err(), LayoutError::OutOfBounds { index: 0 });
    defs[0] = LumpDef { offset: 0, length: u32::MAX, metadata: meta(0, b"long") };
    let file = header_with(defs).encode();
    assert_eq!(Bsp::parse(&file).unwrap_err(), LayoutError::OutOfBounds { index: 0 });
}

#[test]
fn slots_refer_to_the_input_until_written() {
    let file = file_of(&[b"hello", b"world"]);
    let mut bsp = Bsp::parse(&file).unwrap();
    for index in 0..LUMP_DEF_COUNT {
        assert!(!bsp.is_owned(index));
    }
    let reader = bsp.lump(0).unwrap();
    assert!(!bsp.is_owned(0));
    let (typed, _) = bsp.lump_cast::<5>(0).unwrap();
    assert!(!bsp.is_owned(0));
    bsp.release(reader);
    bsp.release(typed);
    assert!(!bsp.is_owned(0));

    let writer = bsp.lump_mut(0).unwrap();
    assert!(bsp.is_owned(0));
    assert!(!bsp.is_owned(1));
    assert_eq!(bsp.data_mut(&writer).as_slice(), b"hello");
    bsp.release_mut(writer);
    assert!(bsp.is_owned(0));
    assert_eq!(bytes_of(&mut bsp, 0), b"hello");
    assert!(!bsp.is_owned(LUMP_DEF_COUNT));
}

#[test]
fn writing_never_reaches_the_input() {
    let file = file_of(&[b"hello", b"world"]);
    let copy = file.clone();
    let mut bsp = Bsp::parse(&file).unwrap();
    let writer = bsp.lump_mut(0).unwrap();
    bsp.data_mut(&writer)[0] = b'J';
    bsp.data_mut(&writer).push(b'!');
    bsp.release_mut(writer);
    assert_eq!(bytes_of(&mut bsp, 0), b"Jello!");
    assert_eq!(bytes_of(&mut bsp, 1), b"world");
    assert!(file == copy);
}

#[test]
fn a_write_guard_excludes_every_guard_on_its_slot() {
    let file = file_of(&[b"hello", b"world"]);
    let mut bsp = Bsp::parse(&file).unwrap();
    let writer = bsp.lump_mut(0).unwrap();
    assert_eq!(writer.index(), 0);
    assert_eq!(bsp.state(0), Some(SlotState::Exclusive));
    assert_eq!(bsp.lump(0).unwrap_err(), AccessError::BorrowConflict);
    assert_eq!(bsp.lump_mut(0).unwrap_err(), AccessError::BorrowConflict);
    assert_eq!(bsp.lump_cast::<5>(0).unwrap_err(), CastError::BorrowConflict);
    assert_eq!(bsp.lump_cast_mut::<5>(0).unwrap_err(), CastError::BorrowConflict);
    assert_eq!(bsp.lump_cast::<4>(0).unwrap_err(), CastError::BorrowConflict);
    assert_eq!(bsp.state(0), Some(SlotState::Exclusive));
    bsp.release_mut(writer);
    assert_eq!(bsp.state(0), Some(SlotState::Free));
    let reader = bsp.lump(0).unwrap();
    bsp.release(reader);
    let writer = bsp.lump_mut(0).unwrap();
    bsp.release_mut(writer);
}

#[test]
fn guards_on_other_slots_never_conflict() {
    let file = file_of(&[b"hello", b"world", b"three"]);
    let mut bsp = Bsp::parse(&file).unwrap();
    let w0 = bsp.lump_mut(0).unwrap();
    let w1 = bsp.lump_mut(1).unwrap();
    let r2 = bsp.lump(2).unwrap();
    let r2b = bsp.lump(2).unwrap();
    let w63 = bsp.lump_mut(63).unwrap();
    assert_eq!((w0.index(), w1.index(), r2.index(), r2b.index(), w63.index()), (0, 1, 2, 2, 63));
    assert_eq!(bsp.state(0), Some(SlotState::Exclusive));
    assert_eq!(bsp.state(1), Some(SlotState::Exclusive));
    assert_eq!(bsp.state(2), Some(SlotState::Shared(2)));
    assert_eq!(bsp.state(3), Some(SlotState::Free));
    bsp.data_mut(&w1).clear();
    bsp.data_mut(&w0).extend_from_slice(b", you");
    assert_eq!(bsp.data(&r2), b"three");
    bsp.release_mut(w63);
    bsp.release(r2);
    bsp.release_mut(w0);
    bsp.release(r2b);
    bsp.release_mut(w1);
    for index in 0..LUMP_DEF_COUNT {
        assert_eq!(bsp.state(index), Some(SlotState::Free));
    }
    assert_eq!(bytes_of(&mut bsp, 0), b"hello, you");
    assert_eq!(bytes_of(&mut bsp, 1), b"");
    assert_eq!(bytes_of(&mut bsp, 2), b"three");
}

#[test]
fn read_guards_share_a_slot_and_exclude_the_writer() {
    let file = file_of(&[b"hello"]);
    let mut bsp = Bsp::parse(&file).unwrap();
    let a = bsp.lump(0).unwrap();
    assert_eq!(bsp.state(0), Some(SlotState::Shared(1)));
    let b = bsp.lump(0).unwrap();
    let (c, record) = bsp.lump_cast::<5>(0).unwrap();
    assert_eq!(&record, b"hello");
    assert_eq!(bsp.state(0), Some(SlotState::Shared(3)));
    assert_eq!(bsp.data(&a), b"hello");
    assert_eq!(bsp.data(&b), b"hello");
    assert_eq!(bsp.lump_mut(0).unwrap_err(), AccessError::BorrowConflict);
    assert_eq!(bsp.lump_cast_mut::<5>(0).unwrap_err(), CastError::BorrowConflict);
    bsp.release(a);
    bsp.release(c);
    assert_eq!(bsp.state(0), Some(SlotState::Shared(1)));
    assert_eq!(bsp.lump_mut(0).unwrap_err(), AccessError::BorrowConflict);
    bsp.release(b);
    assert_eq!(bsp.state(0), Some(SlotState::Free));
    assert!(bsp.lump_mut(0).is_ok());
}

#[test]
fn there_are_exactly_sixty_four_slots() {
    let file = file_of(&[b"hello"]);
    let mut bsp = Bsp::parse(&file).unwrap();
    assert!(bsp.lump(63).is_ok());
    assert_eq!(bsp.lump(64).unwrap_err(), AccessError::IndexOutOfRange);
    assert_eq!(bsp.lump_mut(64).unwrap_err(), AccessError::IndexOutOfRange);
    assert_eq!(bsp.lump(usize::MAX).unwrap_err(), AccessError::IndexOutOfRange);
    assert_eq!(bsp.lump_cast::<0>(64).unwrap_err(), CastError::IndexOutOfRange);
    assert_eq!(bsp.lump_cast_mut::<0>(usize::MAX).unwrap_err(), CastError::IndexOutOfRange);
    assert_eq!(bsp.state(64), None);
    assert_eq!(bsp.state(63), Some(SlotState::Shared(1)));
}

#[test]
fn a_refused_request_changes_nothing() {
    let file = file_of(&[b"hello"]);
    let mut bsp = Bsp::parse(&file).unwrap();
    let reader = bsp.lump(0).unwrap();
    assert!(bsp.lump_mut(0).is_err());
    assert!(bsp.lump_cast::<4>(0).is_err());
    assert!(bsp.lump_cast_mut::<5>(0).is_err());
    assert_eq!(bsp.state(0), Some(SlotState::Shared(1)));
    assert!(!bsp.is_owned(0));
    bsp.release(reader);
    assert!(bsp.lump_cast_mut::<4>(0).is_err());
    assert_eq!(bsp.state(0), Some(SlotState::Free));
    assert!(!bsp.is_owned(0));
}

#[test]
fn releasing_on_a_slot_that_is_not_held_changes_nothing() {
    let file = file_of(&[b"hello"]);
    let mut first = Bsp::parse(&file).unwrap();
    let mut second = Bsp::parse(&file).unwrap();
    let reader = first.lump(0).unwrap();
    let writer = first.lump_mut(1).unwrap();
    second.release(reader);
    second.release_mut(writer);
    assert_eq!(second.state(0), Some(SlotState::Free));
    assert_eq!(second.state(1), Some(SlotState::Free));
    let held = second.lump(1).unwrap();
    let stray = first.lump_mut(2).unwrap();
    assert_eq!(stray.index(), 2);
    let other = first.lump_mut(3).unwrap();
    second.release_mut(other);
    assert_eq!(second.state(1), Some(SlotState::Shared(1)));
    second.release(held);
    assert_eq!(second.state(1), Some(SlotState::Free));
}

#[test]
fn changing_one_lump_leaves_the_others_alone() {
    let file = file_of(&[b"zero", b"one", b"two", b"three"]);
    let mut bsp = Bsp::parse(&file).unwrap();
    let writer = bsp.lump_mut(2).unwrap();
    *bsp.data_mut(&writer) = vec![9; 1000];
    *bsp.metadata_mut(&writer) = meta(77, b"new!");
    bsp.release_mut(writer);
    assert_eq!(bytes_of(&mut bsp, 0), b"zero");
    assert_eq!(bytes_of(&mut bsp, 1), b"one");
    assert_eq!(bytes_of(&mut bsp, 2), vec![9; 1000]);
    assert_eq!(bytes_of(&mut bsp, 3), b"three");
    assert_eq!(metadata_of(&mut bsp, 1), meta(101, &[b'L', 1, 0, 1]));
    assert_eq!(metadata_of(&mut bsp, 2), meta(77, b"new!"));
    assert_eq!(metadata_of(&mut bsp, 3), meta(103, &[b'L', 3, 0, 1]));
    for index in 0..LUMP_DEF_COUNT {
        assert_eq!(bsp.is_owned(index), index == 2);
        assert_eq!(bsp.state(index), Some(SlotState::Free));
    }
}

#[test]
fn a_typed_view_takes_the_exact_size() {
    let file = file_of(&[&[1, 0, 0, 0, b'L', b'Z', b'M', b'A'], b"1234567", b"123456789", b""]);
    let mut bsp = Bsp::parse(&file).unwrap();
    let (guard, record) = bsp.lump_cast::<8>(0).unwrap();
    assert_eq!(guard.index(), 0);
    assert_eq!(record, [1, 0, 0, 0, b'L', b'Z', b'M', b'A']);
    assert_eq!(LumpMetadata::decode(&record), meta(1, b"LZMA"));
    bsp.release(guard);
    assert_eq!(
        bsp.lump_cast::<8>(1).unwrap_err(),
        CastError::SizeMismatch { expected: 8, actual: 7 }
    );
    assert_eq!(
        bsp.lump_cast::<8>(2).unwrap_err(),
        CastError::SizeMismatch { expected: 8, actual: 9 }
    );
    assert_eq!(
        bsp.lump_cast::<8>(3).unwrap_err(),
        CastError::SizeMismatch { expected: 8, actual: 0 }
    );
    assert_eq!(
        bsp.lump_cast::<0>(0).unwrap_err(),
        CastError::SizeMismatch { expected: 0, actual: 8 }
    );
    let (guard, record) = bsp.lump_cast::<0>(3).unwrap();
    assert_eq!(record, [0u8; 0]);
    bsp.release(guard);
    let (guard, record) = bsp.lump_cast::<7>(1).unwrap();
    assert_eq!(&record, b"1234567");
    bsp.release(guard);
}

#[test]
fn a_typed_write_view_takes_the_exact_size() {
    let file = file_of(&[&[1, 0, 0, 0, b'L', b'Z', b'M', b'A'], b"1234567", b"123456789"]);
    let mut bsp = Bsp::parse(&file).unwrap();
    assert_eq!(
        bsp.lump_cast_mut::<8>(1).unwrap_err(),
        CastError::SizeMismatch { expected: 8, actual: 7 }
    );
    assert_eq!(
        bsp.lump_cast_mut::<8>(2).unwrap_err(),
        CastError::SizeMismatch { expected: 8, actual: 9 }
    );
    assert!(!bsp.is_owned(1));
    assert!(!bsp.is_owned(2));
    let (guard, record) = bsp.lump_cast_mut::<8>(0).unwrap();
    assert_eq!(record, [1, 0, 0, 0, b'L', b'Z', b'M', b'A']);
    assert_eq!(bsp.state(0), Some(SlotState::Exclusive));
    assert!(bsp.is_owned(0));
    let mut typed = LumpMetadata::decode(&record);
    typed.version = 0x0201;
    *bsp.data_mut(&guard) = typed.encode();
    bsp.release_mut(guard);
    assert_eq!(bytes_of(&mut bsp, 0), [1, 2, 0, 0, b'L', b'Z', b'M', b'A']);
}

#[test]
fn a_typed_view_follows_what_was_written() {
    let file = file_of(&[b"1234"]);
    let mut bsp = Bsp::parse(&file).unwrap();
    let writer = bsp.lump_mut(0).unwrap();
    bsp.data_mut(&writer).push(b'5');
    bsp.release_mut(writer);
    assert_eq!(
        bsp.lump_cast::<4>(0).unwrap_err(),
        CastError::SizeMismatch { expected: 4, actual: 5 }
    );
    let (guard, record) = bsp.lump_cast::<5>(0).unwrap();
    assert_eq!(&record, b"12345");
    bsp.release(guard);
}

#[test]
fn offsets_are_recomputed_from_the_lumps() {
    let mut defs = empty_defs();
    defs[0] = LumpDef { offset: 1036 + 6, length: 4, metadata: meta(1, b"last") };
    defs[1] = LumpDef { offset: 1036, length: 6, metadata: meta(2, b"frst") };
    defs[3] = LumpDef { offset: 7, length: 5, metadata: meta(3, b"ovlp") };
    let mut file = header_with(defs).encode();
    file.extend_from_slice(b"abcdefghij");
    let mut bsp = Bsp::parse(&file).unwrap();
    let writer = bsp.lump_mut(1).unwrap();
    bsp.data_mut(&writer).truncate(2);
    *bsp.metadata_mut(&writer) = meta(9, b"edit");
    bsp.release_mut(writer);

    let header = bsp.updated_header().unwrap();
    assert_eq!(header.identifier, *b"VBSP");
    assert_eq!(header.version, 20);
    assert_eq!(header.revision, 3);
    assert_eq!(header.lump_defs[0], LumpDef { offset: 1036, length: 4, metadata: meta(1, b"last") });
    assert_eq!(header.lump_defs[1], LumpDef { offset: 1040, length: 2, metadata: meta(9, b"edit") });
    assert_eq!(header.lump_defs[2], LumpDef { offset: 1042, length: 0, metadata: meta(0, &[0; 4]) });
    assert_eq!(header.lump_defs[3], LumpDef { offset: 1042, length: 5, metadata: meta(3, b"ovlp") });
    for index in 4..LUMP_DEF_COUNT {
        assert_eq!(
            header.lump_defs[index],
            LumpDef { offset: 1047, length: 0, metadata: meta(0, &[0; 4]) }
        );
    }
    assert_eq!(bsp.header().lump_defs[0].offset, 1042);
    assert_eq!(bsp.header().lump_defs[1].length, 6);
}

#[test]
fn writing_emits_header_then_lumps_without_gaps() {
    let mut defs = empty_defs();
    defs[0] = LumpDef { offset: 1036 + 6, length: 4, metadata: meta(1, b"last") };
    defs[2] = LumpDef { offset: 1036, length: 6, metadata: meta(2, b"frst") };
    let mut file = header_with(defs).encode();
    file.extend_from_slice(b"abcdefghij-unused-tail");
    let bsp = Bsp::parse(&file).unwrap();
    let mut out = vec![0xEE, 0xFF];
    assert_eq!(bsp.write_to_io(&mut out), Ok(()));
    let mut expected = vec![0xEE, 0xFF];
    expected.extend_from_slice(&bsp.updated_header().unwrap().encode());
    expected.extend_from_slice(b"ghijabcdef");
    assert!(out == expected);
    assert_eq!(out.len(), 2 + HEADER_SIZE + 10);
    assert_eq!(out[2 + 8..2 + 12], [0x0c, 0x04, 0, 0]);
    assert_eq!(out[2 + 8 + 32..2 + 8 + 36], [0x10, 0x04, 0, 0]);
}

#[test]
fn a_canonical_file_is_written_back_byte_for_byte() {
    let file = file_of(&[b"hello", b"", b"world!", &[1, 2, 3]]);
    let bsp = Bsp::parse(&file).unwrap();
    let mut out = Vec::new();
    bsp.write_to_io(&mut out).unwrap();
    assert!(out == file);
}

#[test]
fn what_is_written_parses_back_to_the_same_lumps() {
    let mut defs = empty_defs();
    defs[0] = LumpDef { offset: 1036 + 6, length: 4, metadata: meta(1, b"last") };
    defs[5] = LumpDef { offset: 1036, length: 6, metadata: meta(2, b"frst") };
    defs[63] = LumpDef { offset: 3, length: 10, metadata: meta(3, b"full") };
    let mut file = header_with(defs).encode();
    file.extend_from_slice(b"abcdefghij");
    let mut bsp = Bsp::parse(&file).unwrap();
    let mut out = Vec::new();
    bsp.write_to_io(&mut out).unwrap();
    let mut again = Bsp::parse(&out).unwrap();
    assert_eq!(again.header().identifier, bsp.header().identifier);
    assert_eq!(again.header().version, bsp.header().version);
    assert_eq!(again.header().revision, bsp.header().revision);
    for index in 0..LUMP_DEF_COUNT {
        assert_eq!(bytes_of(&mut again, index), bytes_of(&mut bsp, index));
        assert_eq!(metadata_of(&mut again, index), metadata_of(&mut bsp, index));
        assert_eq!(again.header().lump_defs[index].length, bsp.header().lump_defs[index].length);
        assert_eq!(
            again.header().lump_defs[index].metadata,
            bsp.header().lump_defs[index].metadata
        );
    }
    assert_eq!(again.header().lump_defs[0].offset, 1036);
    assert_eq!(again.header().lump_defs[5].offset, 1040);
    assert_eq!(again.header().lump_defs[63].offset, 1046);
    let mut third = Vec::new();
    again.write_to_io(&mut third).unwrap();
    assert!(third == out);
}

#[test]
fn what_was_changed_is_what_is_written() {
    let file = file_of(&[b"hello", b"world"]);
    let mut bsp = Bsp::parse(&file).unwrap();
    let writer = bsp.lump_mut(1).unwrap();
    *bsp.data_mut(&writer) = b"everyone".to_vec();
    bsp.release_mut(writer);
    let writer = bsp.lump_mut(40).unwrap();
    bsp.data_mut(&writer).extend_from_slice(b"late");
    *bsp.metadata_mut(&writer) = meta(4, b"XXXX");
    bsp.release_mut(writer);
    bsp.header_mut().version = 21;
    bsp.header_mut().revision = -5;
    let mut out = Vec::new();
    bsp.write_to_io(&mut out).unwrap();
    assert_eq!(out[HEADER_SIZE..], *b"helloeveryonelate");
    let mut again = Bsp::parse(&out).unwrap();
    assert_eq!(again.header().version, 21);
    assert_eq!(again.header().revision, -5);
    assert_eq!(bytes_of(&mut again, 0), b"hello");
    assert_eq!(bytes_of(&mut again, 1), b"everyone");
    assert_eq!(bytes_of(&mut again, 40), b"late");
    assert_eq!(metadata_of(&mut again, 40), meta(4, b"XXXX"));
    assert_eq!(again.header().lump_defs[40].offset, 1036 + 13);
    assert_eq!(again.header().lump_defs[40].length, 4);
    assert_eq!(again.header().lump_defs[41].offset, 1036 + 17);
}

#[test]
fn writing_waits_for_the_write_guards() {
    let file = file_of(&[b"hello", b"world"]);
    let mut bsp = Bsp::parse(&file).unwrap();
    let reader = bsp.lump(0).unwrap();
    let mut out = vec![1, 2, 3];
    assert_eq!(bsp.write_to_io(&mut out), Ok(()));
    assert_eq!(out.len(), 3 + file.len());
    let writer = bsp.lump_mut(1).unwrap();
    let mut out = vec![1, 2, 3];
    assert_eq!(bsp.write_to_io(&mut out), Err(WriteError::BorrowConflict));
    assert_eq!(out, vec![1, 2, 3]);
    assert_eq!(bsp.updated_header().unwrap_err(), WriteError::BorrowConflict);
    bsp.release_mut(writer);
    assert_eq!(bsp.write_to_io(&mut out), Ok(()));
    assert!(out[3..] == file[..]);
    bsp.release(reader);
}

#[test]
fn writing_refuses_what_offsets_cannot_address() {
    let length: u32 = 68 << 20;
    let mut defs = empty_defs();
    for def in defs.iter_mut() {
        *def = LumpDef { offset: 1036, length, metadata: meta(0, b"same") };
    }
    let mut file = header_with(defs).encode();
    file.resize(HEADER_SIZE + length as usize, 0);
    let mut bsp = Bsp::parse(&file).unwrap();
    let mut out = vec![5u8];
    assert_eq!(bsp.updated_header().unwrap_err(), WriteError::TooLarge);
    assert_eq!(bsp.write_to_io(&mut out), Err(WriteError::TooLarge));
    assert_eq!(out, vec![5u8]);
    let writer = bsp.lump_mut(63).unwrap();
    assert_eq!(bsp.updated_header().unwrap_err(), WriteError::BorrowConflict);
    bsp.data_mut(&writer).clear();
    bsp.release_mut(writer);
    assert_eq!(bsp.updated_header().unwrap_err(), WriteError::TooLarge);
}

#[test]
fn the_largest_addressable_layout_is_accepted() {
    let length: u32 = 64 << 20;
    let mut defs = empty_defs();
    for def in defs.iter_mut().take(63) {
        *def = LumpDef { offset: 1036, length, metadata: meta(0, b"same") };
    }
    defs[63] = LumpDef { offset: 1036, length: length - 1036 - 1, metadata: meta(0, b"last") };
    let mut file = header_with(defs).encode();
    file.resize(HEADER_SIZE + length as usize, 0);
    let mut bsp = Bsp::parse(&file).unwrap();
    let header = bsp.updated_header().unwrap();
    assert_eq!(header.lump_defs[63].offset, 1036 + 63 * length);
    assert_eq!(header.lump_defs[63].offset as u64 + header.lump_defs[63].length as u64, u32::MAX as u64);
    let writer = bsp.lump_mut(62).unwrap();
    bsp.data_mut(&writer).push(0);
    bsp.release_mut(writer);
    assert_eq!(bsp.updated_header().unwrap_err(), WriteError::TooLarge);
}

#[test]
fn a_sequence_view_takes_whole_records() {
    let file = file_of(&[b"abcdefghijkl", b""]);
    let mut bsp = Bsp::parse(&file).unwrap();
    let (guard, records) = bsp.lump_cast_slice::<4>(0).unwrap();
    assert_eq!(guard.index(), 0);
    assert_eq!(records, vec![*b"abcd", *b"efgh", *b"ijkl"]);
    assert_eq!(bsp.state(0), Some(SlotState::Shared(1)));
    assert!(!bsp.is_owned(0));
    bsp.release(guard);
    let (guard, records) = bsp.lump_cast_slice::<12>(0).unwrap();
    assert_eq!(records, vec![*b"abcdefghijkl"]);
    bsp.release(guard);
    let (guard, records) = bsp.lump_cast_slice::<1>(0).unwrap();
    assert_eq!(records.len(), 12);
    assert_eq!(records[11], [b'l']);
    bsp.release(guard);
    assert_eq!(
        bsp.lump_cast_slice::<5>(0).unwrap_err(),
        CastError::SizeMismatch { expected: 5, actual: 12 }
    );
    assert_eq!(
        bsp.lump_cast_slice::<13>(0).unwrap_err(),
        CastError::SizeMismatch { expected: 13, actual: 12 }
    );
    assert_eq!(
        bsp.lump_cast_slice::<0>(0).unwrap_err(),
        CastError::SizeMismatch { expected: 0, actual: 12 }
    );
    assert_eq!(bsp.state(0), Some(SlotState::Free));
    let (guard, records) = bsp.lump_cast_slice::<4>(1).unwrap();
    assert!(records.is_empty());
    bsp.release(guard);
    let (guard, records) = bsp.lump_cast_slice::<0>(1).unwrap();
    assert!(records.is_empty());
    bsp.release(guard);
    assert_eq!(bsp.lump_cast_slice::<4>(64).unwrap_err(), CastError::IndexOutOfRange);
}

#[test]
fn a_sequence_view_obeys_the_guards() {
    let file = file_of(&[b"abcdefgh", b"12345"]);
    let mut bsp = Bsp::parse(&file).unwrap();
    assert_eq!(
        bsp.lump_cast_slice_mut::<4>(1).unwrap_err(),
        CastError::SizeMismatch { expected: 4, actual: 5 }
    );
    assert!(!bsp.is_owned(1));
    assert_eq!(bsp.state(1), Some(SlotState::Free));
    assert_eq!(bsp.lump_cast_slice_mut::<4>(64).unwrap_err(), CastError::IndexOutOfRange);
    let reader = bsp.lump(0).unwrap();
    assert_eq!(bsp.lump_cast_slice_mut::<4>(0).unwrap_err(), CastError::BorrowConflict);
    let (second, records) = bsp.lump_cast_slice::<4>(0).unwrap();
    assert_eq!(records.len(), 2);
    assert_eq!(bsp.state(0), Some(SlotState::Shared(2)));
    bsp.release(reader);
    assert_eq!(bsp.lump_cast_slice_mut::<4>(0).unwrap_err(), CastError::BorrowConflict);
    bsp.release(second);
    assert_eq!(bsp.state(0), Some(SlotState::Free));
    let (writer, mut records) = bsp.lump_cast_slice_mut::<4>(0).unwrap();
    assert_eq!(records, vec![*b"abcd", *b"efgh"]);
    assert_eq!(bsp.state(0), Some(SlotState::Exclusive));
    assert!(bsp.is_owned(0));
    assert_eq!(bsp.lump_cast_slice::<4>(0).unwrap_err(), CastError::BorrowConflict);
    assert_eq!(bsp.lump_cast_slice_mut::<3>(0).unwrap_err(), CastError::BorrowConflict);
    records.swap(0, 1);
    *bsp.data_mut(&writer) = records.concat();
    bsp.release_mut(writer);
    assert_eq!(bytes_of(&mut bsp, 0), b"efghabcd");
}

#[test]
fn a_guard_holds_its_slot_until_it_is_given_back() {
    let file = file_of(&[b"hello"]);
    let mut bsp = Bsp::parse(&file).unwrap();
    let reader = bsp.lump(0).unwrap();
    let kept = format!("{:?}", reader);
    drop(reader);
    assert!(kept.contains('0'));
    assert_eq!(bsp.state(0), Some(SlotState::Shared(1)));
    assert_eq!(bsp.lump_mut(0).unwrap_err(), AccessError::BorrowConflict);
    let again = bsp.lump(0).unwrap();
    bsp.release(again);
    assert_eq!(bsp.state(0), Some(SlotState::Shared(1)));
}
