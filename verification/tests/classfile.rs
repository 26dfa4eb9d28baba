use classfile::BufMut;
use classfile::{
    Attribute, ClassAccessFlags, ClassMetadata, ClassfileHeader, ConstantEntry, Error,
    FieldAccessFlags, FieldHeader, FixedBuf, MethodAccessFlags, MethodHeader, ModifiedUtf8,
    NonZeroU16, Reader, Version, Writer,
};

fn nz(v: u16) -> NonZeroU16 {
    NonZeroU16::new(v).unwrap()
}

/// Writes a small classfile: a pool of three entries, one interface, one field
/// with one attribute, one method with none, and one class attribute.
fn sample() -> Vec<u8> {
    let writer = Writer::new(Vec::new());
    let mut writer = writer
        .set_header(&ClassfileHeader { version: Version { major: 61, minor: 0 } })
        .unwrap();
    writer.push(&ConstantEntry::Utf8(ModifiedUtf8(b"Foo"))).unwrap();
    writer.push(&ConstantEntry::Class(nz(1))).unwrap();
    writer.push(&ConstantEntry::Integer(-1)).unwrap();
    let writer = writer.finish().unwrap();
    let meta = ClassMetadata {
        access_flags: ClassAccessFlags::from_bits(ClassAccessFlags::PUBLIC).unwrap(),
        this_class: nz(2),
        super_class: None,
    };
    let mut writer = writer.set_metadata(&meta).unwrap();
    writer.push(nz(2)).unwrap();
    let writer = writer.finish().unwrap();
    let field = FieldHeader {
        access_flags: FieldAccessFlags::from_bits(FieldAccessFlags::PRIVATE).unwrap(),
        name_index: nz(1),
        descriptor_index: nz(1),
    };
    let mut w = writer.set_header(&field).unwrap();
    w.push(&Attribute { name_index: nz(1), info: &[9, 8] }).unwrap();
    let writer = w.finish().unwrap();
    let writer = writer.finish().unwrap();
    let method = MethodHeader {
        access_flags: MethodAccessFlags::from_bits(MethodAccessFlags::PUBLIC).unwrap(),
        name_index: nz(1),
        descriptor_index: nz(1),
    };
    let w = writer.set_header(&method).unwrap();
    let writer = w.finish().unwrap();
    let mut writer = writer.finish().unwrap();
    writer.push(&Attribute { name_index: nz(1), info: &[] }).unwrap();
    writer.finish().unwrap()
}

#[test]
fn writer_lays_out_a_classfile() {
    let bytes = sample();
    let expected: Vec<u8> = vec![
        0xCA, 0xFE, 0xBA, 0xBE, 0, 0, 0, 61, // header
        0, 4, // constant pool count
        1, 0, 3, b'F', b'o', b'o', // #1
        7, 0, 1, // #2
        3, 0xFF, 0xFF, 0xFF, 0xFF, // #3
        0, 1, 0, 2, 0, 0, // metadata
        0, 1, 0, 2, // interfaces
        0, 1, 0, 2, 0, 1, 0, 1, 0, 1, 0, 1, 0, 0, 0, 2, 9, 8, // fields
        0, 1, 0, 1, 0, 1, 0, 1, 0, 0, // methods
        0, 1, 0, 1, 0, 0, 0, 0, // attributes
    ];
    assert_eq!(bytes, expected);
}

#[test]
fn reader_reads_what_the_writer_wrote() {
    let bytes = sample();
    let reader = Reader::new(&bytes[..]);
    let (header, mut reader) = reader.header().unwrap();
    assert_eq!(header.version, Version { major: 61, minor: 0 });
    assert_eq!(reader.size_hint(), (2, Some(3)));
    let mut entries = Vec::new();
    while let Some(item) = reader.next() {
        entries.push(item.unwrap());
    }
    assert_eq!(entries.len(), 3);
    assert_eq!(entries[0], (nz(1), ConstantEntry::Utf8(ModifiedUtf8(b"Foo"))));
    assert_eq!(entries[1], (nz(2), ConstantEntry::Class(nz(1))));
    assert_eq!(entries[2], (nz(3), ConstantEntry::Integer(-1)));
    let reader = reader.finish().unwrap();
    let (meta, mut reader) = reader.metadata().unwrap();
    assert_eq!(meta.this_class, nz(2));
    assert_eq!(reader.size_hint(), (1, Some(1)));
    assert_eq!(reader.next().unwrap().unwrap(), nz(2));
    assert!(reader.next().is_none());
    let mut reader = reader.finish().unwrap();
    let mut field = reader.next().unwrap().unwrap();
    assert_eq!(field.header().name_index, nz(1));
    assert_eq!(field.size_hint(), (1, Some(1)));
    let attr = field.next().unwrap().unwrap();
    assert_eq!(attr.info, &[9, 8]);
    field.finish().unwrap();
    assert!(reader.next().is_none());
    let mut reader = reader.finish().unwrap();
    let method = reader.next().unwrap().unwrap();
    assert_eq!(method.header().access_flags.bits(), MethodAccessFlags::PUBLIC);
    assert!(reader.next().is_none());
    let mut reader = reader.finish().unwrap();
    let attr = reader.next().unwrap().unwrap();
    assert_eq!(attr.info.len(), 0);
    assert!(reader.next().is_none());
    assert_eq!(reader.haystack().len(), 0);
}

#[test]
fn finish_walks_over_what_was_not_read() {
    let bytes = sample();
    let reader = Reader::new(&bytes[..]);
    let (_, reader) = reader.header().unwrap();
    let reader = reader.finish().unwrap();
    let (_, reader) = reader.metadata().unwrap();
    let reader = reader.finish().unwrap();
    let reader = reader.finish().unwrap();
    let reader = reader.finish().unwrap();
    assert_eq!(reader.size_hint(), (1, Some(1)));
}

#[test]
fn truncated_classfile_is_refused() {
    let bytes = sample();
    let cut = &bytes[..bytes.len() - 3];
    let reader = Reader::new(cut);
    let (_, reader) = reader.header().unwrap();
    let reader = reader.finish().unwrap();
    let (_, reader) = reader.metadata().unwrap();
    let reader = reader.finish().unwrap();
    let reader = reader.finish().unwrap();
    let mut reader = reader.finish().unwrap();
    assert_eq!(reader.next().unwrap().unwrap_err(), Error::UnexpectedEOF);
}

#[test]
fn pipe_reproduces_the_input() {
    let input = sample();
    let reader = Reader::new(&input[..]);
    let writer = Writer::new(Vec::new());
    let (header, mut reader) = reader.header().unwrap();
    let mut writer = writer.set_header(&header).unwrap();
    while let Some(item) = reader.next() {
        let (_, entry) = item.unwrap();
        writer.push(&entry).unwrap();
    }
    let reader = reader.finish().unwrap();
    let writer = writer.finish().unwrap();
    let (meta, mut reader) = reader.metadata().unwrap();
    let mut writer = writer.set_metadata(&meta).unwrap();
    while let Some(item) = reader.next() {
        writer.push(item.unwrap()).unwrap();
    }
    let mut reader = reader.finish().unwrap();
    let mut writer = writer.finish().unwrap();
    while let Some(item) = reader.next() {
        let mut field = item.unwrap();
        let mut w = writer.set_header(field.header()).unwrap();
        while let Some(attr) = field.next() {
            w.push(&attr.unwrap()).unwrap();
        }
        writer = w.finish().unwrap();
    }
    let mut reader = reader.finish().unwrap();
    let mut writer = writer.finish().unwrap();
    while let Some(item) = reader.next() {
        let mut method = item.unwrap();
        let mut w = writer.set_header(method.header()).unwrap();
        while let Some(attr) = method.next() {
            w.push(&attr.unwrap()).unwrap();
        }
        writer = w.finish().unwrap();
    }
    let mut reader = reader.finish().unwrap();
    let mut writer = writer.finish().unwrap();
    while let Some(item) = reader.next() {
        writer.push(&item.unwrap()).unwrap();
    }
    let output = writer.finish().unwrap();
    assert_eq!(output, input);
}

#[test]
fn long_entries_advance_the_index_by_two() {
    let writer = Writer::new(Vec::new());
    let mut writer = writer
        .set_header(&ClassfileHeader { version: Version { major: 61, minor: 0 } })
        .unwrap();
    writer.push(&ConstantEntry::Long(7)).unwrap();
    writer.push(&ConstantEntry::Integer(1)).unwrap();
    writer.finish().unwrap();
    let bytes: Vec<u8> = vec![
        0xCA, 0xFE, 0xBA, 0xBE, 0, 0, 0, 61, 0, 4, 5, 0, 0, 0, 0, 0, 0, 0, 7, 3, 0, 0, 0, 1,
    ];
    let reader = Reader::new(&bytes[..]);
    let (_, mut reader) = reader.header().unwrap();
    assert_eq!(reader.next().unwrap().unwrap(), (nz(1), ConstantEntry::Long(7)));
    assert_eq!(reader.next().unwrap().unwrap(), (nz(3), ConstantEntry::Integer(1)));
}

#[test]
fn writer_into_a_full_buffer_fails() {
    let writer = Writer::new(FixedBuf::new(vec![0; 9]));
    let result = writer.set_header(&ClassfileHeader { version: Version { major: 61, minor: 0 } });
    assert!(matches!(result, Err(Error::UnexpectedEOF)));
    let writer = Writer::new(FixedBuf::new(vec![0; 10]));
    let writer = writer
        .set_header(&ClassfileHeader { version: Version { major: 61, minor: 0 } })
        .unwrap();
    let writer = writer.finish().unwrap();
    assert_eq!(writer.buf().position(), 10);
}

#[test]
fn pipe_function_reproduces_the_input() {
    let input = sample();
    assert_eq!(classfile::pipe::pipe(&input).unwrap(), input);
}

#[test]
fn pipe_ignores_bytes_after_the_class_attributes() {
    let input = sample();
    let mut longer = input.clone();
    longer.extend_from_slice(&[1, 2, 3]);
    assert_eq!(classfile::pipe::pipe(&longer).unwrap(), input);
}

#[test]
fn pipe_gives_the_first_error() {
    let input = sample();
    assert_eq!(classfile::pipe::pipe(&input[..input.len() - 3]), Err(Error::UnexpectedEOF));
    let mut bad = input.clone();
    bad[0] = 0;
    assert_eq!(classfile::pipe::pipe(&bad), Err(Error::MalformedMagic(0x00FE_BABE)));
}

#[test]
fn pipe_counts_the_index_space_of_wide_entries() {
    // A long at the last index below the count runs past it; the writer counts
    // the whole index space that the entries take.
    let input: Vec<u8> = vec![
        0xCA, 0xFE, 0xBA, 0xBE, 0, 0, 0, 61, 0, 2, 5, 0, 0, 0, 0, 0, 0, 0, 7, // pool
        0, 1, 0, 1, 0, 0, // metadata
        0, 0, 0, 0, 0, 0, 0, 0, // interfaces, fields, methods, attributes
    ];
    let output = classfile::pipe::pipe(&input).unwrap();
    assert_eq!(output.len(), input.len());
    assert_eq!(&output[8..10], &[0, 3]);
    assert_eq!(&output[..8], &input[..8]);
    assert_eq!(&output[10..], &input[10..]);
}

#[test]
fn pool_reader_stops_at_the_count_after_a_long() {
    let bytes: Vec<u8> = vec![
        0xCA, 0xFE, 0xBA, 0xBE, 0, 0, 0, 52, 0, 4, 5, 0, 0, 0, 0, 0, 0, 0, 1, 1, 0, 1, 0x41, 0,
        0x21, 0, 3, 0, 0,
    ];
    let (_, mut r) = Reader::new(&bytes[..]).header().unwrap();
    assert_eq!(r.size_hint(), (2, Some(3)));
    assert_eq!(r.next().unwrap().unwrap(), (nz(1), ConstantEntry::Long(1)));
    assert_eq!(r.next().unwrap().unwrap(), (nz(3), ConstantEntry::Utf8(ModifiedUtf8(b"A"))));
    assert!(r.next().is_none());
    assert_eq!(*r.haystack(), &[0, 0x21, 0, 3, 0, 0][..]);
}

#[test]
fn pool_finish_stops_at_the_end_of_the_pool() {
    let bytes: Vec<u8> = vec![
        0xCA, 0xFE, 0xBA, 0xBE, 0, 0, 0, 52, 0, 4, 6, 0, 0, 0, 0, 0, 0, 0, 1, 1, 0, 1, 0x41, 0,
        0x21, 0, 3, 0, 0,
    ];
    let (_, r) = Reader::new(&bytes[..]).header().unwrap();
    let m = r.finish().unwrap();
    assert_eq!(*m.haystack(), &[0, 0x21, 0, 3, 0, 0][..]);
}

#[test]
fn wide_entries_written_are_read_back() {
    let writer = Writer::new(Vec::new());
    let mut writer = writer
        .set_header(&ClassfileHeader { version: Version { major: 61, minor: 0 } })
        .unwrap();
    let entries = [
        ConstantEntry::Double(0x4000_0000_0000_0000),
        ConstantEntry::Integer(5),
        ConstantEntry::Long(-2),
    ];
    for e in &entries {
        writer.push(e).unwrap();
    }
    let mut bytes = writer.finish().unwrap().buf().clone();
    assert_eq!(&bytes[8..10], &[0, 6]);
    bytes.extend_from_slice(&[9, 9]);
    let (_, mut r) = Reader::new(&bytes[..]).header().unwrap();
    assert_eq!(r.next().unwrap().unwrap(), (nz(1), entries[0].clone()));
    assert_eq!(r.next().unwrap().unwrap(), (nz(3), entries[1].clone()));
    assert_eq!(r.next().unwrap().unwrap(), (nz(4), entries[2].clone()));
    assert!(r.next().is_none());
    assert_eq!(*r.haystack(), &[9, 9][..]);
}

#[test]
fn field_attributes_past_the_input_fail_at_the_field() {
    let bytes: Vec<u8> = vec![
        0xCA, 0xFE, 0xBA, 0xBE, 0, 0, 0, 52, 0, 1, 0, 0x21, 0, 7, 0, 0, 0, 0, 0, 1, 0, 2, 0, 5, 0,
        6, 0, 2,
    ];
    let (_, r) = Reader::new(&bytes[..]).header().unwrap();
    let r = r.finish().unwrap();
    let (_, r) = r.metadata().unwrap();
    let mut r = r.finish().unwrap();
    let f = r.next().unwrap().unwrap();
    assert_eq!(f.header().name_index, nz(5));
    assert_eq!(f.finish(), Err(Error::UnexpectedEOF));
    assert_eq!(r.next().map(|x| x.is_ok()), None);
    assert!(matches!(r.finish(), Err(Error::UnexpectedEOF)));
}

#[test]
fn pipe_gives_back_a_classfile_with_wide_entries() {
    let input: Vec<u8> = vec![
        0xCA, 0xFE, 0xBA, 0xBE, 0, 0, 0, 61, 0, 3, 5, 0, 0, 0, 0, 0, 0, 0, 7, // pool
        0, 1, 0, 1, 0, 0, // metadata
        0, 0, 0, 0, 0, 0, 0, 0, // interfaces, fields, methods, attributes
    ];
    assert_eq!(classfile::pipe::pipe(&input).unwrap(), input);
}

#[test]
fn unfilled_count_slot_holds_zeros() {
    let h = ClassfileHeader { version: Version { major: 52, minor: 0 } };
    let m = ClassMetadata {
        access_flags: ClassAccessFlags::from_bits(ClassAccessFlags::PUBLIC | ClassAccessFlags::SUPER)
            .unwrap(),
        this_class: nz(1),
        super_class: None,
    };
    let w = Writer::new(Vec::new()).set_header(&h).unwrap().finish().unwrap();
    let w = w.set_metadata(&m).unwrap().finish().unwrap();
    let field = FieldHeader {
        access_flags: FieldAccessFlags::from_bits(FieldAccessFlags::PRIVATE).unwrap(),
        name_index: nz(5),
        descriptor_index: nz(6),
    };
    let mut w = w.set_header(&field).unwrap();
    w.push(&Attribute { name_index: nz(7), info: &[1, 2] }).unwrap();
    let w = w.finish().unwrap().finish().unwrap();
    assert_eq!(
        &w.buf()[18..],
        &[0, 1, 0, 2, 0, 5, 0, 6, 0, 1, 0, 7, 0, 0, 0, 2, 1, 2, 0, 0][..]
    );
}

#[test]
fn fixed_buffer_keeps_the_storage_past_the_written_bytes() {
    let mut b = FixedBuf::new(vec![9, 9, 9, 9]);
    assert_eq!(b.write_from_slice(&[1, 2]), 2);
    assert!(!b.write_bytes(&[3, 4, 5]));
    assert_eq!(b.position(), 2);
    assert!(b.reserve_chunk(1).is_some());
    assert_eq!(b.write_from_slice(&[7, 8]), 1);
    assert_eq!(b.into_inner(), vec![1, 2, 9, 7]);
}

#[test]
fn parent_reader_is_past_a_finished_member() {
    let bytes = sample();
    let (_, r) = Reader::new(&bytes[..]).header().unwrap();
    let r = r.finish().unwrap();
    let (_, r) = r.metadata().unwrap();
    let mut r = r.finish().unwrap();
    let mut f = r.next().unwrap().unwrap();
    let attr = f.next().unwrap().unwrap();
    assert_eq!(attr.info, &[9, 8][..]);
    f.finish().unwrap();
    assert_eq!(*r.haystack(), &bytes[52..]);
    let mut r = r.finish().unwrap();
    let m = r.next().unwrap().unwrap();
    m.finish().unwrap();
    assert_eq!(*r.haystack(), &bytes[bytes.len() - 8..]);
}

#[test]
fn pool_fits_checks_the_index_space() {
    assert!(classfile::pipe::pool_fits(&sample()));
    assert!(classfile::pipe::pool_fits(&[0, 1, 2]));
    let mut big: Vec<u8> = vec![0xCA, 0xFE, 0xBA, 0xBE, 0, 0, 0, 61, 0xFF, 0xFF];
    for _ in 0..32766 {
        big.extend_from_slice(&[5, 0, 0, 0, 0, 0, 0, 0, 0]);
    }
    big.extend_from_slice(&[3, 0, 0, 0, 0]);
    assert!(classfile::pipe::pool_fits(&big));
    big.extend_from_slice(&[6, 0, 0, 0, 0, 0, 0, 0, 0]);
    assert!(!classfile::pipe::pool_fits(&big));
}
