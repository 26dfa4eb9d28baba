use classfile::{
    Attribute, ClassAccessFlags, ClassMetadata, ClassfileHeader, ConstantEntry, Decode, Encode,
    Error, FieldAccessFlags, FieldHeader, FixedBuf, MethodAccessFlags, MethodHeader,
    ModifiedUtf8, NonZeroU16, ReferenceKind, Version,
};

fn nz(v: u16) -> NonZeroU16 {
    NonZeroU16::new(v).unwrap()
}

fn enc<T: Encode>(v: &T) -> Vec<u8> {
    let mut out = Vec::new();
    v.encode(&mut out).unwrap();
    out
}

fn dec<'a, T: Decode<'a>>(bytes: &'a [u8]) -> Result<(T, usize), Error> {
    let mut s = bytes;
    let v = T::decode(&mut s)?;
    Ok((v, bytes.len() - s.len()))
}

#[test]
fn header_round_trip() {
    let header = ClassfileHeader { version: Version { major: 52, minor: 3 } };
    let bytes = enc(&header);
    assert_eq!(bytes, vec![0xCA, 0xFE, 0xBA, 0xBE, 0, 3, 0, 52]);
    let (back, n) = dec::<ClassfileHeader>(&bytes).unwrap();
    assert_eq!(back, header);
    assert_eq!(n, 8);
}

#[test]
fn header_malformed_magic() {
    let bytes = [0xCA, 0xFE, 0xBA, 0xBF, 0, 0, 0, 52];
    assert_eq!(dec::<ClassfileHeader>(&bytes).unwrap_err(), Error::MalformedMagic(0xCAFEBABF));
}

#[test]
fn header_too_short() {
    let bytes = [0xCA, 0xFE, 0xBA];
    assert_eq!(dec::<ClassfileHeader>(&bytes).unwrap_err(), Error::UnexpectedEOF);
}

#[test]
fn zero_index_is_refused() {
    assert_eq!(dec::<NonZeroU16>(&[0, 0]).unwrap_err(), Error::UnexpectedZero);
    assert_eq!(dec::<NonZeroU16>(&[1, 2]).unwrap().0.get(), 0x0102);
    assert_eq!(dec::<Option<NonZeroU16>>(&[0, 0]).unwrap().0, None);
    assert_eq!(dec::<Option<NonZeroU16>>(&[0, 5]).unwrap().0, Some(nz(5)));
    assert_eq!(enc(&None::<NonZeroU16>), vec![0, 0]);
}

#[test]
fn saturating_index() {
    assert_eq!(nz(0xFFFE).saturating_add(5).get(), 0xFFFF);
    assert_eq!(nz(3).saturating_add(2).get(), 5);
    assert!(NonZeroU16::new(0).is_none());
}

#[test]
fn integers_are_big_endian() {
    assert_eq!(enc(&0x0102u16), vec![1, 2]);
    assert_eq!(enc(&0x01020304u32), vec![1, 2, 3, 4]);
    assert_eq!(enc(&-2i64), vec![0xFF, 0xFF, 0xFF, 0xFF, 0xFF, 0xFF, 0xFF, 0xFE]);
    assert_eq!(dec::<i16>(&[0xFF, 0xFE]).unwrap().0, -2);
    assert_eq!(dec::<u64>(&[0, 0, 0, 0, 0, 0, 1, 0]).unwrap().0, 256);
    assert_eq!(dec::<u32>(&[1, 2, 3]).unwrap_err(), Error::UnexpectedEOF);
}

#[test]
fn modified_utf8_round_trip() {
    let s = ModifiedUtf8(b"hi");
    let bytes = enc(&s);
    assert_eq!(bytes, vec![0, 2, b'h', b'i']);
    let (back, n) = dec::<ModifiedUtf8>(&bytes).unwrap();
    assert_eq!(back, s);
    assert_eq!(n, 4);
    assert_eq!(dec::<ModifiedUtf8>(&[0, 3, b'a']).unwrap_err(), Error::UnexpectedEOF);
}

#[test]
fn constant_utf8() {
    let bytes = [1, 0, 3, b'a', b'b', b'c'];
    let (entry, n) = dec::<ConstantEntry>(&bytes).unwrap();
    assert_eq!(entry, ConstantEntry::Utf8(ModifiedUtf8(b"abc")));
    assert_eq!(n, 6);
    assert_eq!(entry.space(), 1);
    assert_eq!(enc(&entry), bytes.to_vec());
}

#[test]
fn constant_long_takes_two_slots() {
    let bytes = [5, 0xFF, 0xFF, 0xFF, 0xFF, 0xFF, 0xFF, 0xFF, 0xFE];
    let (entry, _) = dec::<ConstantEntry>(&bytes).unwrap();
    assert_eq!(entry, ConstantEntry::Long(-2));
    assert_eq!(entry.space(), 2);
    assert_eq!(ConstantEntry::Double(0).space(), 2);
    assert_eq!(ConstantEntry::Integer(7).space(), 1);
    assert_eq!(enc(&entry), bytes.to_vec());
}

#[test]
fn constant_floats_as_bits() {
    let bytes = [4, 0x3F, 0x80, 0, 0];
    let (entry, _) = dec::<ConstantEntry>(&bytes).unwrap();
    assert_eq!(entry, ConstantEntry::Float(1.0f32.to_bits()));
    let bytes = [6, 0x3F, 0xF0, 0, 0, 0, 0, 0, 0];
    let (entry, _) = dec::<ConstantEntry>(&bytes).unwrap();
    assert_eq!(entry, ConstantEntry::Double(1.0f64.to_bits()));
}

#[test]
fn constant_refs() {
    let entry = ConstantEntry::MethodRef { class_index: nz(3), name_and_type_index: nz(9) };
    assert_eq!(enc(&entry), vec![10, 0, 3, 0, 9]);
    let entry = ConstantEntry::Class(nz(2));
    assert_eq!(enc(&entry), vec![7, 0, 2]);
    let entry = ConstantEntry::NameAndType { name_index: nz(1), descriptor_index: nz(2) };
    assert_eq!(dec::<ConstantEntry>(&[12, 0, 1, 0, 2]).unwrap().0, entry);
    let entry = ConstantEntry::InvokeDynamic { bootstrap_method_attr_index: 0, name_and_type_index: nz(4) };
    assert_eq!(enc(&entry), vec![18, 0, 0, 0, 4]);
    assert_eq!(dec::<ConstantEntry>(&[20, 0, 8]).unwrap().0, ConstantEntry::Package(nz(8)));
}

#[test]
fn constant_method_handle() {
    let bytes = [15, 6, 0, 3];
    let (entry, _) = dec::<ConstantEntry>(&bytes).unwrap();
    assert_eq!(entry, ConstantEntry::MethodHandle { ref_kind: ReferenceKind::InvokeStatic, ref_index: nz(3) });
    assert_eq!(enc(&entry), bytes.to_vec());
    assert_eq!(dec::<ConstantEntry>(&[15, 0, 0, 3]).unwrap_err(), Error::UnknownReferenceKind(0));
    assert_eq!(dec::<ConstantEntry>(&[15, 10, 0, 3]).unwrap_err(), Error::UnknownReferenceKind(10));
}

#[test]
fn constant_unknown_tag() {
    assert_eq!(dec::<ConstantEntry>(&[2, 0, 0]).unwrap_err(), Error::UnknownConstantTag(2));
    assert_eq!(dec::<ConstantEntry>(&[]).unwrap_err(), Error::UnexpectedEOF);
}

#[test]
fn reference_kind_names() {
    assert_eq!(ReferenceKind::GetField.name(), "REF_getField");
    assert_eq!(ReferenceKind::InvokeStatic.name(), "REF_invokeStatic");
    assert_eq!(ReferenceKind::NewInvokeSpecial.name(), "REF_newInvokeSpecial");
    assert_eq!(ReferenceKind::InvokeInterface.number(), 9);
    assert_eq!(ReferenceKind::GetField.number(), 1);
}

#[test]
fn class_flags_are_validated() {
    assert!(ClassAccessFlags::from_bits(ClassAccessFlags::PUBLIC | ClassAccessFlags::SUPER).is_some());
    assert!(ClassAccessFlags::from_bits(0x0002).is_none());
    assert_eq!(ClassAccessFlags::from_bits_truncate(0x0003).bits(), 0x0001);
    let bytes = [0, 2, 0, 1, 0, 0];
    assert_eq!(dec::<ClassMetadata>(&bytes).unwrap_err(), Error::UnknownAccessFlags(2));
    let bytes = [0, 0x21, 0, 1, 0, 0];
    let (meta, _) = dec::<ClassMetadata>(&bytes).unwrap();
    assert_eq!(meta.this_class, nz(1));
    assert_eq!(meta.super_class, None);
    assert!(meta.access_flags.contains(ClassAccessFlags::from_bits_retain(ClassAccessFlags::PUBLIC)));
    assert_eq!(enc(&meta), bytes.to_vec());
}

#[test]
fn flag_set_operations() {
    let mut f = FieldAccessFlags::empty();
    assert!(f.is_empty());
    f.insert(FieldAccessFlags::from_bits_retain(FieldAccessFlags::STATIC));
    f.insert(FieldAccessFlags::from_bits_retain(FieldAccessFlags::FINAL));
    assert_eq!(f.bits(), FieldAccessFlags::STATIC | FieldAccessFlags::FINAL);
    assert!(f.intersects(FieldAccessFlags::from_bits_retain(FieldAccessFlags::FINAL)));
    f.remove(FieldAccessFlags::from_bits_retain(FieldAccessFlags::FINAL));
    assert_eq!(f.bits(), FieldAccessFlags::STATIC);
    assert_eq!(FieldAccessFlags::all().bits(), FieldAccessFlags::ALL_BITS);
    let u = MethodAccessFlags::from_bits_retain(MethodAccessFlags::PUBLIC).union(MethodAccessFlags::from_bits_retain(MethodAccessFlags::STATIC));
    assert_eq!(u.bits(), MethodAccessFlags::PUBLIC | MethodAccessFlags::STATIC);
}

#[test]
fn member_headers() {
    let field = FieldHeader {
        access_flags: FieldAccessFlags::from_bits(FieldAccessFlags::PRIVATE).unwrap(),
        name_index: nz(5),
        descriptor_index: nz(6),
    };
    let bytes = enc(&field);
    assert_eq!(bytes, vec![0, 2, 0, 5, 0, 6]);
    assert_eq!(dec::<FieldHeader>(&bytes).unwrap().0, field);
    let method = MethodHeader {
        access_flags: MethodAccessFlags::from_bits(MethodAccessFlags::PUBLIC).unwrap(),
        name_index: nz(7),
        descriptor_index: nz(8),
    };
    assert_eq!(dec::<MethodHeader>(&enc(&method)).unwrap().0, method);
    assert_eq!(dec::<FieldHeader>(&[0x80, 0, 0, 5, 0, 6]).unwrap_err(), Error::UnknownAccessFlags(0x8000));
}

#[test]
fn attribute_round_trip() {
    let attr = Attribute { name_index: nz(1), info: &[1, 2, 3] };
    let bytes = enc(&attr);
    assert_eq!(bytes, vec![0, 1, 0, 0, 0, 3, 1, 2, 3]);
    let (back, n) = dec::<Attribute>(&bytes).unwrap();
    assert_eq!(back, attr);
    assert_eq!(n, 9);
    assert_eq!(dec::<Attribute>(&[0, 1, 0, 0, 0, 4, 1]).unwrap_err(), Error::UnexpectedEOF);
}

#[test]
fn bounded_buffer_runs_out() {
    let header = ClassfileHeader { version: Version { major: 52, minor: 0 } };
    let mut small = FixedBuf::new(vec![0; 5]);
    assert_eq!(header.encode(&mut small).unwrap_err(), Error::UnexpectedEOF);
    let mut exact = FixedBuf::new(vec![0; 8]);
    header.encode(&mut exact).unwrap();
    assert_eq!(exact.position(), 8);
    assert_eq!(exact.into_inner(), vec![0xCA, 0xFE, 0xBA, 0xBE, 0, 0, 0, 52]);
}

#[test]
fn error_messages() {
    assert_eq!(classfile::Error::UnexpectedEOF.message(), "unexpected end of file");
    assert_eq!(classfile::Error::UnknownConstantTag(2).message(), "unknown constant pool entry tag");
}

#[test]
fn version_text() {
    assert_eq!(classfile::Version { major: 52, minor: 0 }.text(), "52.0");
    assert_eq!(classfile::Version { major: 65535, minor: 10 }.text(), "65535.10");
    assert_eq!(classfile::Version { major: 7, minor: 109 }.text(), "7.109");
}
