use classfile::attributes::{
    Annotation, AnnotationTarget, ArrayReaderU8, ArrayWriterU8, BootstrapMethod, CodeBody,
    CodeReader, CodeWriter, ComponentInfo, ConstantPoolIndex, ConstantValue,
    ElementConstValueType, ElementValue, EmptyAnnotationKind, EnclosingMethod,
    ExceptionTableEntry, ExceptionsReader, ExceptionsWriter, InnerClass, InnerClassAccessFlags,
    LineNumber, LineNumberTableReader, LineNumberTableWriter, LocalVarKind, LocalVarTableEntry,
    LocalVariable, MethodParam, MethodParamAccessFlags, MethodParamsReader, MethodParamsWriter,
    Module, ModuleFlags, ModuleProvided, ModuleRequired, ModuleRequiredFlags,
    OffsetAnnotationKind, PackageFlags, PackageRelation, ParamAnnotations, StackMapFrame,
    TypeArgumentKind, TypeParameterKind, TypePathEntry, TypedAnnotation, TypedLocalVariable,
    VerificationType, NAME_CODE, NAME_STACK_MAP_TABLE,
};
use classfile::attributes::{range_fits, target_fits, LocalVariableTableReader};
use classfile::{Attribute, Decode, Encode, Error, FixedBuf, NonZeroU16};

fn nz(v: u16) -> NonZeroU16 {
    NonZeroU16::new(v).unwrap()
}

fn enc<T: Encode>(v: &T) -> Vec<u8> {
    let mut out = Vec::new();
    v.encode(&mut out).unwrap();
    out
}

fn dec<'a, T: Decode<'a>>(bytes: &'a [u8]) -> Result<(T, usize), Error> {
    let mut s = bytes;
    let v = T::decode(&mut s)?;
    Ok((v, bytes.len() - s.len()))
}

#[test]
fn constant_value_read_write() {
    let v = ConstantValue { constant_value_index: nz(7) };
    let mut out = Vec::new();
    v.write(&mut out).unwrap();
    assert_eq!(out, vec![0, 7]);
    let mut s = &out[..];
    assert_eq!(ConstantValue::read(&mut s).unwrap(), v);
}

#[test]
fn code_attribute_round_trip() {
    let writer = CodeWriter::new(Vec::new());
    let body = CodeBody { max_stack: 2, max_locals: 1, code: &[0x2A, 0xB1] };
    let mut writer = writer.set_body(&body).unwrap();
    let entry = ExceptionTableEntry { range_pc: 0..2, handler_pc: 1, catch_type: None };
    writer.push(&entry).unwrap();
    let mut writer = writer.finish().unwrap();
    writer.push(&Attribute { name_index: nz(4), info: &[1] }).unwrap();
    let bytes = writer.finish().unwrap();
    assert_eq!(
        bytes,
        vec![0, 2, 0, 1, 0, 0, 0, 2, 0x2A, 0xB1, 0, 1, 0, 0, 0, 2, 0, 1, 0, 0, 0, 1, 0, 4, 0, 0, 0, 1, 1]
    );
    let reader = CodeReader::new(&bytes[..]);
    let (body, mut reader) = reader.body().unwrap();
    assert_eq!(body.max_stack, 2);
    assert_eq!(body.max_locals, 1);
    assert_eq!(body.code, &[0x2A, 0xB1]);
    assert_eq!(reader.size_hint(), (1, Some(1)));
    assert_eq!(reader.next().unwrap().unwrap(), entry);
    assert!(reader.next().is_none());
    let mut reader = reader.finish().unwrap();
    let attr = reader.next().unwrap().unwrap();
    assert_eq!(attr.name_index, nz(4));
    reader.finish().unwrap();
    assert_eq!(NAME_CODE, "Code");
}

#[test]
fn code_reader_skips_entries() {
    let bytes = vec![
        0, 0, 0, 0, 0, 0, 0, 0, 0, 2, 0, 0, 0, 1, 0, 1, 0, 0, 0, 0, 0, 1, 0, 2, 0, 3, 0, 0,
    ];
    let reader = CodeReader::new(&bytes[..]);
    let (_, reader) = reader.body().unwrap();
    let reader = reader.finish().unwrap();
    assert_eq!(reader.size_hint(), (0, Some(0)));
    reader.finish().unwrap();
}

#[test]
fn line_number_table() {
    let mut w = LineNumberTableWriter::new(Vec::new()).unwrap();
    w.push(&LineNumber { start_pc: 0, line_number: 10 }).unwrap();
    w.push(&LineNumber { start_pc: 4, line_number: 11 }).unwrap();
    let bytes = w.finish().unwrap();
    assert_eq!(bytes, vec![0, 2, 0, 0, 0, 10, 0, 4, 0, 11]);
    let mut r = LineNumberTableReader::new(&bytes[..]).unwrap();
    assert_eq!(r.size_hint(), (2, Some(2)));
    assert_eq!(r.next().unwrap().unwrap(), LineNumber { start_pc: 0, line_number: 10 });
    assert_eq!(r.next().unwrap().unwrap(), LineNumber { start_pc: 4, line_number: 11 });
    assert!(r.next().is_none());
}

#[test]
fn exceptions_table() {
    let mut w = ExceptionsWriter::new(Vec::new()).unwrap();
    w.push(&nz(3)).unwrap();
    let bytes = w.finish().unwrap();
    assert_eq!(bytes, vec![0, 1, 0, 3]);
    let mut r = ExceptionsReader::new(&bytes[..]).unwrap();
    assert_eq!(r.next().unwrap().unwrap(), nz(3));
    assert!(ExceptionsReader::new(&bytes[..1]).is_err());
}

#[test]
fn array_writer_without_room() {
    assert_eq!(LineNumberTableWriter::new(FixedBuf::new(vec![0; 1])).unwrap_err(), Error::UnexpectedEOF);
    assert!(ArrayWriterU8::<FixedBuf, MethodParam>::new(FixedBuf::new(vec![])).is_err());
}

#[test]
fn method_params_use_a_one_byte_count() {
    let p = MethodParam {
        name_idx: Some(nz(2)),
        access_flags: MethodParamAccessFlags::from_bits_retain(MethodParamAccessFlags::FINAL),
    };
    let mut w = MethodParamsWriter::new(Vec::new()).unwrap();
    w.push(&p).unwrap();
    let bytes = w.finish().unwrap();
    assert_eq!(bytes, vec![1, 0, 2, 0, 0x10]);
    let mut r: MethodParamsReader<&[u8]> = ArrayReaderU8::new(&bytes[..]).unwrap();
    assert_eq!(r.next().unwrap().unwrap(), p);
    assert!(r.next().is_none());
}

#[test]
fn inner_classes_keep_unknown_flags() {
    let c = InnerClass {
        inner_info_idx: nz(1),
        outer_info_idx: None,
        inner_name_idx: Some(nz(3)),
        inner_access_flags: InnerClassAccessFlags::from_bits_retain(0x0801),
    };
    let bytes = enc(&c);
    assert_eq!(bytes, vec![0, 1, 0, 0, 0, 3, 0x08, 0x01]);
    assert_eq!(dec::<InnerClass>(&bytes).unwrap().0, c);
}

#[test]
fn enclosing_method_and_index() {
    let m = EnclosingMethod { class_idx: nz(5), method_idx: None };
    let mut out = Vec::new();
    m.write(&mut out).unwrap();
    assert_eq!(out, vec![0, 5, 0, 0]);
    let mut s = &out[..];
    assert_eq!(EnclosingMethod::read(&mut s).unwrap(), m);
    let i = ConstantPoolIndex(nz(9));
    let mut out = Vec::new();
    i.write(&mut out).unwrap();
    assert_eq!(out, vec![0, 9]);
}

#[test]
fn local_variable_range() {
    let v = LocalVariable { indices: 3..10, name_idx: nz(1), desc_idx: nz(2), index: 4 };
    let bytes = enc(&v);
    assert_eq!(bytes, vec![0, 3, 0, 7, 0, 1, 0, 2, 0, 4]);
    assert_eq!(dec::<LocalVariable>(&bytes).unwrap().0, v);
    let t = TypedLocalVariable { indices: 0..0, name_idx: nz(1), signature_idx: nz(5), index: 0 };
    assert_eq!(dec::<TypedLocalVariable>(&enc(&t)).unwrap().0, t);
}

#[test]
fn verification_types() {
    assert_eq!(enc(&VerificationType::Top), vec![0]);
    assert_eq!(enc(&VerificationType::Object(nz(4))), vec![7, 0, 4]);
    assert_eq!(enc(&VerificationType::Uninitialized(9)), vec![8, 0, 9]);
    assert_eq!(dec::<VerificationType>(&[6]).unwrap().0, VerificationType::UninitializedThis);
    assert_eq!(dec::<VerificationType>(&[9]).unwrap_err(), Error::UnknownVerificationType(9));
}

#[test]
fn stack_map_frames() {
    assert_eq!(enc(&StackMapFrame::SameFrame(5)), vec![5]);
    assert_eq!(dec::<StackMapFrame>(&[63]).unwrap().0, StackMapFrame::SameFrame(63));
    let f = StackMapFrame::SameLocals1StackItemFrame(3, VerificationType::Integer);
    assert_eq!(enc(&f), vec![67, 1]);
    assert_eq!(dec::<StackMapFrame>(&[67, 1]).unwrap().0, f);
    let f = StackMapFrame::SameLocals1StackItemFrameExtended(300, VerificationType::Null);
    assert_eq!(enc(&f), vec![247, 1, 44, 5]);
    let f = StackMapFrame::ChopFrame { offset_delta: 2, absent: nz(2) };
    assert_eq!(enc(&f), vec![249, 0, 2]);
    assert_eq!(dec::<StackMapFrame>(&[249, 0, 2]).unwrap().0, f);
    assert_eq!(enc(&StackMapFrame::SameFrameExtended(1)), vec![251, 0, 1]);
    let bytes = [253, 0, 7, 1, 2];
    let (f, n) = dec::<StackMapFrame>(&bytes).unwrap();
    assert_eq!(n, 5);
    match &f {
        StackMapFrame::AppendFrame { offset_delta, locals } => {
            assert_eq!(*offset_delta, 7);
            assert_eq!(locals.as_slice(), &[VerificationType::Integer, VerificationType::Float]);
        },
        _ => panic!("expected an append frame"),
    }
    assert_eq!(enc(&f), bytes.to_vec());
    assert_eq!(f.clone(), f);
    let full = StackMapFrame::FullFrame {
        offset_delta: 1,
        locals: vec![VerificationType::Long],
        stack: vec![VerificationType::Object(nz(2)), VerificationType::Top],
    };
    let bytes = enc(&full);
    assert_eq!(bytes, vec![255, 0, 1, 0, 1, 4, 0, 2, 7, 0, 2, 0]);
    assert_eq!(dec::<StackMapFrame>(&bytes).unwrap().0, full);
    assert_eq!(NAME_STACK_MAP_TABLE, "StackMapTable");
}

#[test]
fn stack_map_frame_errors() {
    assert_eq!(dec::<StackMapFrame>(&[200]).unwrap_err(), Error::UnknownFrameType(200));
    assert_eq!(dec::<StackMapFrame>(&[64, 42]).unwrap_err(), Error::UnknownVerificationType(42));
    let mut out = Vec::new();
    assert_eq!(StackMapFrame::SameFrame(64).encode(&mut out).unwrap_err(), Error::OffsetOutOfBounds);
    assert!(out.is_empty());
    let f = StackMapFrame::SameLocals1StackItemFrame(64, VerificationType::Top);
    assert_eq!(f.encode(&mut out).unwrap_err(), Error::OffsetOutOfBounds);
    let f = StackMapFrame::ChopFrame { offset_delta: 0, absent: nz(4) };
    assert_eq!(f.encode(&mut out).unwrap_err(), Error::OffsetOutOfBounds);
    assert!(out.is_empty());
}

#[test]
fn element_values_nest() {
    let value = ElementValue::Array(vec![
        ElementValue::Const { tag: ElementConstValueType::Int, index: nz(3) },
        ElementValue::Enum { type_name_idx: nz(4), const_name_idx: nz(5) },
        ElementValue::Class(nz(6)),
        ElementValue::Annotation(Annotation {
            type_idx: nz(7),
            pairs: vec![(nz(8), ElementValue::Const { tag: ElementConstValueType::String, index: nz(9) })],
        }),
    ]);
    let bytes = enc(&value);
    assert_eq!(
        bytes,
        vec![
            b'[', 0, 4, b'I', 0, 3, b'e', 0, 4, 0, 5, b'c', 0, 6, b'@', 0, 7, 0, 1, 0, 8, b's', 0, 9
        ]
    );
    let (back, n) = dec::<ElementValue>(&bytes).unwrap();
    assert_eq!(back, value);
    assert_eq!(n, bytes.len());
    let mut s = &bytes[..];
    assert_eq!(ElementValue::read(&mut s).unwrap(), value);
    let mut out = Vec::new();
    value.write(&mut out).unwrap();
    assert_eq!(out, bytes);
    assert_eq!(dec::<ElementValue>(&[b'x']).unwrap_err(), Error::UnknownElementValueType(b'x'));
}

#[test]
fn annotation_targets() {
    let cases: Vec<(AnnotationTarget, Vec<u8>)> = vec![
        (AnnotationTarget::TypeParameter(TypeParameterKind::Method, 2), vec![0x01, 2]),
        (AnnotationTarget::SuperType(None), vec![0x10, 0xFF, 0xFF]),
        (AnnotationTarget::SuperType(Some(3)), vec![0x10, 0, 3]),
        (
            AnnotationTarget::TypeParameterBound { kind: TypeParameterKind::Class, type_param_idx: 1, bound_idx: 2 },
            vec![0x11, 1, 2],
        ),
        (AnnotationTarget::Empty(EmptyAnnotationKind::Receiver), vec![0x15]),
        (AnnotationTarget::FormalParameter(4), vec![0x16, 4]),
        (AnnotationTarget::Throws(5), vec![0x17, 0, 5]),
        (
            AnnotationTarget::LocalVar(LocalVarKind::Resource, vec![LocalVarTableEntry { indices: 1..3, index: 2 }]),
            vec![0x41, 0, 1, 0, 1, 0, 2, 0, 2],
        ),
        (AnnotationTarget::Catch(6), vec![0x42, 0, 6]),
        (AnnotationTarget::Offset(OffsetAnnotationKind::MethodRefIdent, 7), vec![0x46, 0, 7]),
        (
            AnnotationTarget::TypeArgument { kind: TypeArgumentKind::MethodRefIdent, offset: 8, type_arg_idx: 1 },
            vec![0x4B, 0, 8, 1],
        ),
    ];
    for (target, bytes) in cases {
        assert_eq!(enc(&target), bytes);
        assert_eq!(dec::<AnnotationTarget>(&bytes).unwrap().0, target);
    }
    assert_eq!(dec::<AnnotationTarget>(&[0x30]).unwrap_err(), Error::UnknownAnnotationTargetType(0x30));
}

#[test]
fn type_paths() {
    assert_eq!(enc(&TypePathEntry::Argument(3)), vec![3, 3]);
    assert_eq!(enc(&TypePathEntry::Wildcard), vec![2, 0]);
    assert_eq!(dec::<TypePathEntry>(&[1, 9]).unwrap().0, TypePathEntry::Nested);
    assert_eq!(dec::<TypePathEntry>(&[4, 0]).unwrap_err(), Error::UnknownTypePathKind(4));
    assert_eq!(dec::<TypePathEntry>(&[4]).unwrap_err(), Error::UnexpectedEOF);
}

#[test]
fn typed_annotation_round_trip() {
    let a = TypedAnnotation {
        target: AnnotationTarget::Empty(EmptyAnnotationKind::Field),
        type_path: vec![TypePathEntry::Array, TypePathEntry::Argument(1)],
        type_idx: nz(3),
        pairs: vec![],
    };
    let bytes = enc(&a);
    assert_eq!(bytes, vec![0x13, 2, 0, 0, 3, 1, 0, 3, 0, 0]);
    assert_eq!(dec::<TypedAnnotation>(&bytes).unwrap().0, a);
}

#[test]
fn parameter_annotations() {
    let p = ParamAnnotations(vec![Annotation { type_idx: nz(2), pairs: vec![] }]);
    let bytes = enc(&p);
    assert_eq!(bytes, vec![0, 1, 0, 2, 0, 0]);
    let (back, _) = dec::<ParamAnnotations>(&bytes).unwrap();
    assert_eq!(back.0, p.0);
}

#[test]
fn bootstrap_method() {
    let m = BootstrapMethod { method_ref: nz(1), args: vec![nz(2), nz(3)] };
    let bytes = enc(&m);
    assert_eq!(bytes, vec![0, 1, 0, 2, 0, 2, 0, 3]);
    assert_eq!(dec::<BootstrapMethod>(&bytes).unwrap().0, m);
}

#[test]
fn module_round_trip() {
    let m = Module {
        name_idx: nz(1),
        flags: ModuleFlags::from_bits_retain(ModuleFlags::OPEN),
        version_idx: None,
        requires: vec![ModuleRequired {
            index: nz(2),
            flags: ModuleRequiredFlags::from_bits_retain(ModuleRequiredFlags::MANDATED),
            version_idx: Some(nz(3)),
        }],
        exports: vec![PackageRelation {
            index: nz(4),
            flags: PackageFlags::empty(),
            dst_indices: vec![nz(5)],
        }],
        opens: vec![],
        uses: vec![nz(6)],
        provides: vec![ModuleProvided { index: nz(7), dst_indices: vec![nz(8), nz(9)] }],
    };
    let bytes = enc(&m);
    assert_eq!(
        bytes,
        vec![
            0, 1, 0, 0x20, 0, 0, // name, flags, version
            0, 1, 0, 2, 0x80, 0, 0, 3, // requires
            0, 1, 0, 4, 0, 0, 0, 1, 0, 5, // exports
            0, 0, // opens
            0, 1, 0, 6, // uses
            0, 1, 0, 7, 0, 2, 0, 8, 0, 9, // provides
        ]
    );
    let (back, n) = dec::<Module>(&bytes).unwrap();
    assert_eq!(back, m);
    assert_eq!(n, bytes.len());
}

#[test]
fn record_component() {
    let info = [1u8, 2];
    let c = ComponentInfo {
        name_idx: nz(1),
        desc_idx: nz(2),
        attributes: vec![Attribute { name_index: nz(3), info: &info }],
    };
    let bytes = enc(&c);
    assert_eq!(bytes, vec![0, 1, 0, 2, 0, 1, 0, 3, 0, 0, 0, 2, 1, 2]);
    assert_eq!(dec::<ComponentInfo>(&bytes).unwrap().0, c);
}

#[test]
fn stack_map_frames_read_are_written_back() {
    let frames: Vec<Vec<u8>> = vec![
        vec![17],
        vec![70, 7, 0, 9],
        vec![247, 1, 0, 8, 0, 3],
        vec![248, 0, 4],
        vec![251, 2, 0],
        vec![254, 0, 1, 1, 2, 7, 0, 5],
        vec![255, 0, 9, 0, 2, 4, 6, 0, 1, 5],
    ];
    for bytes in frames {
        let (f, n) = dec::<StackMapFrame>(&bytes).unwrap();
        assert_eq!(n, bytes.len());
        assert_eq!(enc(&f), bytes);
    }
}

#[test]
fn string_literal_cut_short_does_not_decode() {
    let bytes: Vec<u8> = vec![0, 3, b'a', b'b', b'c'];
    assert_eq!(dec::<classfile::ModifiedUtf8>(&bytes).unwrap().1, 5);
    for j in 0..bytes.len() {
        assert_eq!(dec::<classfile::ModifiedUtf8>(&bytes[..j]).unwrap_err(), Error::UnexpectedEOF);
    }
}

#[test]
fn annotation_targets_read_are_written_back() {
    let targets: Vec<Vec<u8>> = vec![
        vec![0x00, 3],
        vec![0x10, 0xFF, 0xFF],
        vec![0x10, 0, 1],
        vec![0x12, 4, 5],
        vec![0x14],
        vec![0x40, 0, 2, 0, 1, 0, 2, 0, 3, 0, 4, 0, 5, 0, 6],
        vec![0x43, 1, 2],
        vec![0x48, 0, 9, 2],
    ];
    for bytes in targets {
        let (t, n) = dec::<AnnotationTarget>(&bytes).unwrap();
        assert_eq!(n, bytes.len());
        assert_eq!(enc(&t), bytes);
    }
}

#[test]
fn module_read_is_written_back() {
    let bytes: Vec<u8> = vec![
        0, 1, 0x7F, 0xFF, 0, 2, // name, flags with undefined bits, version
        0, 2, 0, 3, 0xFF, 0xFF, 0, 0, 0, 4, 0, 0x20, 0, 5, // requires
        0, 1, 0, 6, 0x12, 0x34, 0, 0, // exports
        0, 1, 0, 7, 0, 0, 0, 2, 0, 8, 0, 9, // opens
        0, 0, // uses
        0, 1, 0, 10, 0, 1, 0, 11, // provides
    ];
    let (m, n) = dec::<Module>(&bytes).unwrap();
    assert_eq!(n, bytes.len());
    assert_eq!(m.flags.bits(), 0x7FFF);
    assert_eq!(m.requires.len(), 2);
    assert_eq!(enc(&m), bytes);
}

#[test]
fn element_values_read_are_written_back() {
    let values: Vec<Vec<u8>> = vec![
        vec![b's', 0, 1],
        vec![b'e', 0, 5, 0, 6],
        vec![b'[', 0, 2, b'I', 0, 1, b'@', 0, 2, 0, 1, 0, 3, b'c', 0, 4],
        vec![b'[', 0, 0],
    ];
    for bytes in values {
        let (v, n) = dec::<ElementValue>(&bytes).unwrap();
        assert_eq!(n, bytes.len());
        assert_eq!(enc(&v), bytes);
    }
    let bytes: Vec<u8> = vec![0, 9, 0, 2, 0, 1, b'Z', 0, 3, 0, 2, b'[', 0, 1, b'J', 0, 4];
    let (a, n) = dec::<Annotation>(&bytes).unwrap();
    assert_eq!(n, bytes.len());
    assert_eq!(enc(&a), bytes);
}

#[test]
fn local_variable_ranges_are_checked_before_reading() {
    assert!(range_fits(&[0, 1, 0, 2]));
    assert!(range_fits(&[0xFF, 0xFE, 0, 1]));
    assert!(!range_fits(&[0xFF, 0xFF, 0, 1]));
    assert!(range_fits(&[0xFF, 0xFF, 0]));
    assert!(target_fits(&[0x10, 0xFF, 0xFF]));
    assert!(target_fits(&[0x40, 0, 2, 0, 1, 0, 2, 0, 3, 0, 4, 0, 5, 0, 6]));
    assert!(!target_fits(&[0x40, 0, 2, 0, 1, 0, 2, 0, 3, 0xFF, 0xFF, 0, 5, 0, 6]));
    assert!(!target_fits(&[0x41, 0, 1, 0xFF, 0x00, 0x01, 0x00]));
    assert!(target_fits(&[0x40, 0, 2, 0, 1, 0, 2, 0, 3]));
    let bytes = [0u8, 1, 0xFF, 0xFF, 0, 1, 0, 2, 0, 3, 0, 4];
    let reader = LocalVariableTableReader::new(&bytes[..]).unwrap();
    assert_eq!(reader.remaining(), &bytes[2..]);
    assert!(!range_fits(reader.remaining()));
}
