//! The tag bytes that the classfile format fixes: for every kind of value that
//! starts with a tag, the byte that names each variant, how the variant is laid
//! out behind it, which variant reading that byte gives, and which bytes name
//! none.
use vstd::prelude::*;

use crate::attributes::{
    spec_encode_values, Annotation, AnnotationTarget, ElementConstValueType, ElementValue,
    EmptyAnnotationKind, LocalVarKind, LocalVarTableEntry, OffsetAnnotationKind,
    SpecAnnotationTarget, SpecElementValue, SpecStackMapFrame, StackMapFrame, TypeArgumentKind,
    TypeParameterKind, TypePathEntry, VerificationType,
};
use crate::list::{spec_decode_seq, spec_encode_list16, spec_encode_seq};
use crate::attributes::{
    InnerClassAccessFlags, MethodParamAccessFlags, ModuleFlags, ModuleRequiredFlags, PackageFlags,
};
use crate::header::MAGIC;
use crate::util::{u16_at, u32_at, Codec, Decode, Encode, NonZeroU16};
use crate::{
    ClassAccessFlags, FieldAccessFlags, MethodAccessFlags,
};
use crate::{ClassfileHeader, ConstantEntry, Error, ModifiedUtf8, ReferenceKind, SpecConstantEntry};

verus! {

// ---------------------------------------------------------------------------
// The header.

/// A header is written as the magic bytes `CA FE BA BE`, then the minor and the
/// major version, each as two bytes, the high one first.
pub proof fn lemma_header_layout(h: ClassfileHeader)
    ensures
        ClassfileHeader::spec_encode(h) == seq![0xCAu8, 0xFEu8, 0xBAu8, 0xBEu8] + seq![
            (h.version.minor / 0x100) as u8,
            (h.version.minor % 0x100) as u8,
        ] + seq![(h.version.major / 0x100) as u8, (h.version.major % 0x100) as u8],
{
    assert(u32::spec_encode(MAGIC) =~= seq![0xCAu8, 0xFEu8, 0xBAu8, 0xBEu8]);
    assert(ClassfileHeader::spec_encode(h) =~= seq![0xCAu8, 0xFEu8, 0xBAu8, 0xBEu8] + seq![
        (h.version.minor / 0x100) as u8,
        (h.version.minor % 0x100) as u8,
    ] + seq![(h.version.major / 0x100) as u8, (h.version.major % 0x100) as u8]);
}

/// Reading a header refuses four first bytes other than `CA FE BA BE`, with
/// the number that they make; after them it takes the minor version, then the
/// major one.
pub proof fn lemma_header_read(s: Seq<u8>)
    ensures
        s.len() >= 4 && !(s[0] == 0xCA && s[1] == 0xFE && s[2] == 0xBA && s[3] == 0xBE)
            ==> ClassfileHeader::spec_decode(s) == Err::<(ClassfileHeader, int), Error>(
            Error::MalformedMagic(u32_at(s, 0)),
        ),
        ClassfileHeader::spec_decode(s) matches Ok((h, n)) ==> n == 8 && s[0] == 0xCA && s[1]
            == 0xFE && s[2] == 0xBA && s[3] == 0xBE && h.version.minor == u16_at(s, 4)
            && h.version.major == u16_at(s, 6),
{
    if s.len() >= 4 {
        let x = u32_at(s, 0);
        let (a, b, c, d) = (s[0], s[1], s[2], s[3]);
        assert(x == MAGIC <==> (a == 0xCA && b == 0xFE && c == 0xBA && d == 0xBE)) by (bit_vector)
            requires
                x == ((a as int) * 0x1000000 + (b as int) * 0x10000 + (c as int) * 0x100
                    + (d as int)) as u32,
                MAGIC == 0xCAFEBABEu32,
        ;
        if s.len() >= 6 {
            assert(u16_at(s.skip(4), 0) == u16_at(s, 4));
        }
        if s.len() >= 8 {
            assert(u16_at(s.skip(4).skip(2), 0) == u16_at(s, 6));
        }
    }
}

// ---------------------------------------------------------------------------
// Optional indices.

/// An absent index is written as index zero, and index zero reads back as
/// absent; a present index is written as its number.
pub proof fn lemma_optional_index(v: Option<NonZeroU16>, s: Seq<u8>)
    ensures
        <Option<NonZeroU16>>::spec_encode(v) == match v {
            Some(i) => NonZeroU16::spec_encode(i),
            None => seq![0u8, 0u8],
        },
        s.len() >= 2 && s[0] == 0 && s[1] == 0 ==> <Option<NonZeroU16>>::spec_decode(s) == Ok::<
            (Option<NonZeroU16>, int),
            Error,
        >((None, 2)),
        <Option<NonZeroU16>>::spec_decode(s) matches Ok((Some(i), _)) ==> i.value() == u16_at(s, 0)
            && i.value() != 0,
{
    broadcast use crate::util::group_nonzero;

    assert(crate::util::be_u16(0) =~= seq![0u8, 0u8]);
}

// ---------------------------------------------------------------------------
// Constant pool entries.

/// The tag of a constant pool entry.
pub open spec fn constant_tag(v: SpecConstantEntry) -> u8 {
    match v {
        SpecConstantEntry::Utf8(_) => 1,
        SpecConstantEntry::Integer(_) => 3,
        SpecConstantEntry::Float(_) => 4,
        SpecConstantEntry::Long(_) => 5,
        SpecConstantEntry::Double(_) => 6,
        SpecConstantEntry::Class(_) => 7,
        SpecConstantEntry::String(_) => 8,
        SpecConstantEntry::FieldRef { .. } => 9,
        SpecConstantEntry::MethodRef { .. } => 10,
        SpecConstantEntry::InterfaceMethodRef { .. } => 11,
        SpecConstantEntry::NameAndType { .. } => 12,
        SpecConstantEntry::MethodHandle { .. } => 15,
        SpecConstantEntry::MethodType(_) => 16,
        SpecConstantEntry::Dynamic { .. } => 17,
        SpecConstantEntry::InvokeDynamic { .. } => 18,
        SpecConstantEntry::Module(_) => 19,
        SpecConstantEntry::Package(_) => 20,
    }
}

/// Whether `t` is the tag of some constant pool entry.
pub open spec fn is_constant_tag(t: u8) -> bool {
    t == 1 || 3 <= t <= 12 || 15 <= t <= 20
}

/// A constant pool entry is written as its tag, then its fields in the order of
/// the format.
pub proof fn lemma_constant_layout<'de>(v: SpecConstantEntry)
    ensures
        <ConstantEntry<'de> as Encode>::spec_encode(v) == seq![constant_tag(v)] + match v {
            SpecConstantEntry::Utf8(b) => <ModifiedUtf8<'de> as Encode>::spec_encode(b),
            SpecConstantEntry::Integer(x) => i32::spec_encode(x),
            SpecConstantEntry::Float(x) => u32::spec_encode(x),
            SpecConstantEntry::Long(x) => i64::spec_encode(x),
            SpecConstantEntry::Double(x) => u64::spec_encode(x),
            SpecConstantEntry::Class(i) => NonZeroU16::spec_encode(i),
            SpecConstantEntry::String(i) => NonZeroU16::spec_encode(i),
            SpecConstantEntry::FieldRef { class_index, name_and_type_index } => NonZeroU16::spec_encode(
                class_index,
            ) + NonZeroU16::spec_encode(name_and_type_index),
            SpecConstantEntry::MethodRef { class_index, name_and_type_index } => NonZeroU16::spec_encode(
                class_index,
            ) + NonZeroU16::spec_encode(name_and_type_index),
            SpecConstantEntry::InterfaceMethodRef { class_index, name_and_type_index } =>
                NonZeroU16::spec_encode(class_index) + NonZeroU16::spec_encode(name_and_type_index),
            SpecConstantEntry::NameAndType { name_index, descriptor_index } => NonZeroU16::spec_encode(
                name_index,
            ) + NonZeroU16::spec_encode(descriptor_index),
            SpecConstantEntry::MethodHandle { ref_kind, ref_index } => seq![
                reference_kind_number(ref_kind),
            ] + NonZeroU16::spec_encode(ref_index),
            SpecConstantEntry::MethodType(i) => NonZeroU16::spec_encode(i),
            SpecConstantEntry::Dynamic { bootstrap_method_attr_index, name_and_type_index } =>
                u16::spec_encode(bootstrap_method_attr_index) + NonZeroU16::spec_encode(
                name_and_type_index,
            ),
            SpecConstantEntry::InvokeDynamic { bootstrap_method_attr_index, name_and_type_index } =>
                u16::spec_encode(bootstrap_method_attr_index) + NonZeroU16::spec_encode(
                name_and_type_index,
            ),
            SpecConstantEntry::Module(i) => NonZeroU16::spec_encode(i),
            SpecConstantEntry::Package(i) => NonZeroU16::spec_encode(i),
        },
{
    match v {
        SpecConstantEntry::MethodHandle { ref_kind, .. } => {
            lemma_reference_kind_layout(ref_kind);
        },
        _ => {},
    }
}

/// The entry that reading gives is the one whose tag is the first byte read;
/// a first byte that is no tag is refused with that byte.
pub proof fn lemma_constant_read_tag<'de>(s: Seq<u8>)
    ensures
        <ConstantEntry<'de> as Decode<'de>>::spec_decode(s) matches Ok((v, _)) ==> s.len() >= 1
            && s[0] == constant_tag(v),
        s.len() >= 1 && !is_constant_tag(s[0]) ==> <ConstantEntry<'de> as Decode<'de>>::spec_decode(
            s,
        ) == Err::<(SpecConstantEntry, int), Error>(Error::UnknownConstantTag(s[0])),
{
}

// ---------------------------------------------------------------------------
// Kinds of method handles.

/// The number of a kind of method handle.
pub open spec fn reference_kind_number(k: ReferenceKind) -> u8 {
    match k {
        ReferenceKind::GetField => 1,
        ReferenceKind::GetStatic => 2,
        ReferenceKind::PutField => 3,
        ReferenceKind::PutStatic => 4,
        ReferenceKind::InvokeVirtual => 5,
        ReferenceKind::InvokeStatic => 6,
        ReferenceKind::InvokeSpecial => 7,
        ReferenceKind::NewInvokeSpecial => 8,
        ReferenceKind::InvokeInterface => 9,
    }
}

/// A kind of method handle is written as its number alone, and `number` gives
/// that number.
pub proof fn lemma_reference_kind_layout(k: ReferenceKind)
    ensures
        ReferenceKind::spec_encode(k) == seq![reference_kind_number(k)],
        k.spec_number() == reference_kind_number(k),
{
}

/// Reading a kind gives the one whose number is the byte read; the numbers one
/// to nine are all the kinds, and any other byte is refused with that byte.
pub proof fn lemma_reference_kind_read(s: Seq<u8>)
    ensures
        ReferenceKind::spec_decode(s) matches Ok((k, n)) ==> s.len() >= 1 && n == 1 && s[0]
            == reference_kind_number(k),
        s.len() >= 1 && 1 <= s[0] <= 9 ==> ReferenceKind::spec_decode(s) is Ok,
        s.len() >= 1 && !(1 <= s[0] <= 9) ==> ReferenceKind::spec_decode(s) == Err::<
            (ReferenceKind, int),
            Error,
        >(Error::UnknownReferenceKind(s[0])),
{
}

// ---------------------------------------------------------------------------
// Verification types.

/// The tag of a verification type.
pub open spec fn verification_tag(t: VerificationType) -> u8 {
    match t {
        VerificationType::Top => 0,
        VerificationType::Integer => 1,
        VerificationType::Float => 2,
        VerificationType::Double => 3,
        VerificationType::Long => 4,
        VerificationType::Null => 5,
        VerificationType::UninitializedThis => 6,
        VerificationType::Object(_) => 7,
        VerificationType::Uninitialized(_) => 8,
    }
}

/// A verification type is written as its tag, then for an object the index of
/// its class and for an uninitialized value the offset of its `new`.
pub proof fn lemma_verification_layout(t: VerificationType)
    ensures
        VerificationType::spec_encode(t) == seq![verification_tag(t)] + match t {
            VerificationType::Object(i) => NonZeroU16::spec_encode(i),
            VerificationType::Uninitialized(o) => u16::spec_encode(o),
            _ => Seq::<u8>::empty(),
        },
{
    assert(VerificationType::spec_encode(t) =~= seq![verification_tag(t)] + match t {
        VerificationType::Object(i) => NonZeroU16::spec_encode(i),
        VerificationType::Uninitialized(o) => u16::spec_encode(o),
        _ => Seq::<u8>::empty(),
    });
}

/// Reading a verification type gives the one whose tag is the first byte; each
/// of the tags zero to six alone is a whole type, and any byte past eight is
/// refused with that byte.
pub proof fn lemma_verification_read(s: Seq<u8>)
    ensures
        VerificationType::spec_decode(s) matches Ok((t, _)) ==> s.len() >= 1 && s[0]
            == verification_tag(t),
        s.len() >= 1 && s[0] <= 6 ==> (VerificationType::spec_decode(s) matches Ok((_, n)) && n
            == 1),
        s.len() >= 1 && s[0] > 8 ==> VerificationType::spec_decode(s) == Err::<
            (VerificationType, int),
            Error,
        >(Error::UnknownVerificationType(s[0])),
{
}

// ---------------------------------------------------------------------------
// Stack map frames.

/// The frame type of a stack map frame.
pub open spec fn frame_type(f: SpecStackMapFrame) -> int {
    match f {
        SpecStackMapFrame::SameFrame(d) => d as int,
        SpecStackMapFrame::SameLocals1StackItemFrame(d, _) => 64 + d,
        SpecStackMapFrame::SameLocals1StackItemFrameExtended(_, _) => 247,
        SpecStackMapFrame::ChopFrame { absent, .. } => 251 - absent.value() as int,
        SpecStackMapFrame::SameFrameExtended(_) => 251,
        SpecStackMapFrame::AppendFrame { locals, .. } => 251 + locals.len() as int,
        SpecStackMapFrame::FullFrame { .. } => 255,
    }
}

/// A frame that reading can give is written as its frame type, then its offset
/// delta where the frame type does not hold it, then its verification types.
pub proof fn lemma_frame_layout(f: SpecStackMapFrame)
    requires
        StackMapFrame::wf(f),
    ensures
        0 <= frame_type(f) <= 255,
        StackMapFrame::spec_encode(f) == seq![frame_type(f) as u8] + match f {
            SpecStackMapFrame::SameFrame(_) => Seq::<u8>::empty(),
            SpecStackMapFrame::SameLocals1StackItemFrame(_, t) => VerificationType::spec_encode(t),
            SpecStackMapFrame::SameLocals1StackItemFrameExtended(d, t) => u16::spec_encode(d)
                + VerificationType::spec_encode(t),
            SpecStackMapFrame::ChopFrame { offset_delta, .. } => u16::spec_encode(offset_delta),
            SpecStackMapFrame::SameFrameExtended(d) => u16::spec_encode(d),
            SpecStackMapFrame::AppendFrame { offset_delta, locals } => u16::spec_encode(
                offset_delta,
            ) + spec_encode_seq::<VerificationType>(locals),
            SpecStackMapFrame::FullFrame { offset_delta, locals, stack } => u16::spec_encode(
                offset_delta,
            ) + spec_encode_list16::<VerificationType>(locals) + spec_encode_list16::<
                VerificationType,
            >(stack),
        },
{
    broadcast use crate::util::group_nonzero;

    assert(StackMapFrame::spec_encode(f) =~= seq![frame_type(f) as u8] + match f {
        SpecStackMapFrame::SameFrame(_) => Seq::<u8>::empty(),
        SpecStackMapFrame::SameLocals1StackItemFrame(_, t) => VerificationType::spec_encode(t),
        SpecStackMapFrame::SameLocals1StackItemFrameExtended(d, t) => u16::spec_encode(d)
            + VerificationType::spec_encode(t),
        SpecStackMapFrame::ChopFrame { offset_delta, .. } => u16::spec_encode(offset_delta),
        SpecStackMapFrame::SameFrameExtended(d) => u16::spec_encode(d),
        SpecStackMapFrame::AppendFrame { offset_delta, locals } => u16::spec_encode(offset_delta)
            + spec_encode_seq::<VerificationType>(locals),
        SpecStackMapFrame::FullFrame { offset_delta, locals, stack } => u16::spec_encode(
            offset_delta,
        ) + spec_encode_list16::<VerificationType>(locals) + spec_encode_list16::<
            VerificationType,
        >(stack),
    });
}

/// Reading a frame gives one whose frame type is the first byte, with the
/// ranges of the format: a same frame up to 63, a same-locals frame with one
/// stack item from 64 to 127, a chop frame taking away one to three locals, an
/// append frame adding one to three; the frame types 128 to 246 are refused with
/// that byte.
pub proof fn lemma_frame_read(s: Seq<u8>)
    ensures
        StackMapFrame::spec_decode(s) matches Ok((f, _)) ==> s.len() >= 1 && s[0] == frame_type(f)
            && match f {
            SpecStackMapFrame::SameFrame(d) => d <= 63,
            SpecStackMapFrame::SameLocals1StackItemFrame(d, _) => d <= 63,
            SpecStackMapFrame::ChopFrame { absent, .. } => 1 <= absent.value() <= 3,
            SpecStackMapFrame::AppendFrame { locals, .. } => 1 <= locals.len() <= 3,
            _ => true,
        },
        s.len() >= 1 && 128 <= s[0] <= 246 ==> StackMapFrame::spec_decode(s) == Err::<
            (SpecStackMapFrame, int),
            Error,
        >(Error::UnknownFrameType(s[0])),
{
    broadcast use crate::util::group_nonzero;

    if s.len() >= 4 && 252 <= s[0] <= 254 {
        lemma_decode_seq_len::<VerificationType>(
            s.skip(1).skip(2),
            (s[0] - 251) as nat,
        );
    }
}

/// Reading `n` values gives `n` values.
proof fn lemma_decode_seq_len<'de, T: Decode<'de>>(s: Seq<u8>, n: nat)
    ensures
        spec_decode_seq::<T>(s, n) matches Ok((vs, _)) ==> vs.len() == n,
    decreases n,
{
    if n > 0 {
        if let Ok((_, m)) = T::spec_decode(s) {
            lemma_decode_seq_len::<T>(s.skip(m), (n - 1) as nat);
        }
    }
}

// ---------------------------------------------------------------------------
// Element values.

/// The tag of an element value: the character `B`, `C`, `D`, `F`, `I`, `J`,
/// `S`, `Z` or `s` for a constant of each type, `e` for an enum constant, `c`
/// for a class, `@` for an annotation and `[` for an array.
pub open spec fn element_tag(v: SpecElementValue) -> u8 {
    match v {
        SpecElementValue::Const { tag, .. } => match tag {
            ElementConstValueType::Byte => 66,
            ElementConstValueType::Char => 67,
            ElementConstValueType::Double => 68,
            ElementConstValueType::Float => 70,
            ElementConstValueType::Int => 73,
            ElementConstValueType::Long => 74,
            ElementConstValueType::Short => 83,
            ElementConstValueType::Boolean => 90,
            ElementConstValueType::String => 115,
        },
        SpecElementValue::Enum { .. } => 101,
        SpecElementValue::Class(_) => 99,
        SpecElementValue::Annotation(_) => 64,
        SpecElementValue::Array(_) => 91,
    }
}

/// Whether `t` is the tag of some element value.
pub open spec fn is_element_tag(t: u8) -> bool {
    t == 66 || t == 67 || t == 68 || t == 70 || t == 73 || t == 74 || t == 83 || t == 90 || t
        == 115 || t == 101 || t == 99 || t == 64 || t == 91
}

/// An element value is written as its tag, then its fields.
pub proof fn lemma_element_layout(v: SpecElementValue)
    ensures
        ElementValue::spec_encode(v) == seq![element_tag(v)] + match v {
            SpecElementValue::Const { index, .. } => NonZeroU16::spec_encode(index),
            SpecElementValue::Enum { type_name_idx, const_name_idx } => NonZeroU16::spec_encode(
                type_name_idx,
            ) + NonZeroU16::spec_encode(const_name_idx),
            SpecElementValue::Class(i) => NonZeroU16::spec_encode(i),
            SpecElementValue::Annotation(a) => Annotation::spec_encode(a),
            SpecElementValue::Array(vs) => u16::spec_encode(vs.len() as u16) + spec_encode_values(
                vs,
            ),
        },
{
    assert(ElementValue::spec_encode(v) =~= seq![element_tag(v)] + match v {
        SpecElementValue::Const { index, .. } => NonZeroU16::spec_encode(index),
        SpecElementValue::Enum { type_name_idx, const_name_idx } => NonZeroU16::spec_encode(
            type_name_idx,
        ) + NonZeroU16::spec_encode(const_name_idx),
        SpecElementValue::Class(i) => NonZeroU16::spec_encode(i),
        SpecElementValue::Annotation(a) => Annotation::spec_encode(a),
        SpecElementValue::Array(vs) => u16::spec_encode(vs.len() as u16) + spec_encode_values(vs),
    });
}

/// Reading an element value gives one whose tag is the first byte; a first byte
/// that is no tag is refused with that byte.
pub proof fn lemma_element_read(s: Seq<u8>)
    ensures
        ElementValue::spec_decode(s) matches Ok((v, _)) ==> s.len() >= 1 && s[0] == element_tag(v),
        s.len() >= 1 && !is_element_tag(s[0]) ==> ElementValue::spec_decode(s) == Err::<
            (SpecElementValue, int),
            Error,
        >(Error::UnknownElementValueType(s[0])),
{
}

// ---------------------------------------------------------------------------
// Targets of type annotations.

/// The target type of an annotation target.
pub open spec fn target_type(t: SpecAnnotationTarget) -> u8 {
    match t {
        SpecAnnotationTarget::TypeParameter(k, _) => match k {
            TypeParameterKind::Class => 0x00,
            TypeParameterKind::Method => 0x01,
        },
        SpecAnnotationTarget::SuperType(_) => 0x10,
        SpecAnnotationTarget::TypeParameterBound { kind, .. } => match kind {
            TypeParameterKind::Class => 0x11,
            TypeParameterKind::Method => 0x12,
        },
        SpecAnnotationTarget::Empty(k) => match k {
            EmptyAnnotationKind::Field => 0x13,
            EmptyAnnotationKind::Return => 0x14,
            EmptyAnnotationKind::Receiver => 0x15,
        },
        SpecAnnotationTarget::FormalParameter(_) => 0x16,
        SpecAnnotationTarget::Throws(_) => 0x17,
        SpecAnnotationTarget::LocalVar(k, _) => match k {
            LocalVarKind::Local => 0x40,
            LocalVarKind::Resource => 0x41,
        },
        SpecAnnotationTarget::Catch(_) => 0x42,
        SpecAnnotationTarget::Offset(k, _) => match k {
            OffsetAnnotationKind::InstanceOf => 0x43,
            OffsetAnnotationKind::New => 0x44,
            OffsetAnnotationKind::MethodRefNew => 0x45,
            OffsetAnnotationKind::MethodRefIdent => 0x46,
        },
        SpecAnnotationTarget::TypeArgument { kind, .. } => match kind {
            TypeArgumentKind::Cast => 0x47,
            TypeArgumentKind::New => 0x48,
            TypeArgumentKind::MethodInvocation => 0x49,
            TypeArgumentKind::MethodRefNew => 0x4A,
            TypeArgumentKind::MethodRefIdent => 0x4B,
        },
    }
}

/// Whether `t` is the target type of some annotation target.
pub open spec fn is_target_type(t: u8) -> bool {
    t <= 0x01 || 0x10 <= t <= 0x17 || 0x40 <= t <= 0x4B
}

/// An annotation target is written as its target type, then its fields; the
/// super class of an `extends` clause is written as index `0xFFFF`.
pub proof fn lemma_target_layout(t: SpecAnnotationTarget)
    ensures
        AnnotationTarget::spec_encode(t) == seq![target_type(t)] + match t {
            SpecAnnotationTarget::TypeParameter(_, i) => seq![i],
            SpecAnnotationTarget::SuperType(i) => u16::spec_encode(
                match i {
                    Some(x) => x,
                    None => 0xFFFFu16,
                },
            ),
            SpecAnnotationTarget::TypeParameterBound { type_param_idx, bound_idx, .. } => seq![
                type_param_idx,
                bound_idx,
            ],
            SpecAnnotationTarget::Empty(_) => Seq::<u8>::empty(),
            SpecAnnotationTarget::FormalParameter(i) => seq![i],
            SpecAnnotationTarget::Throws(i) => u16::spec_encode(i),
            SpecAnnotationTarget::LocalVar(_, table) => spec_encode_list16::<LocalVarTableEntry>(
                table,
            ),
            SpecAnnotationTarget::Catch(i) => u16::spec_encode(i),
            SpecAnnotationTarget::Offset(_, o) => u16::spec_encode(o),
            SpecAnnotationTarget::TypeArgument { offset, type_arg_idx, .. } => u16::spec_encode(
                offset,
            ) + seq![type_arg_idx],
        },
{
    assert(AnnotationTarget::spec_encode(t) =~= seq![target_type(t)] + match t {
        SpecAnnotationTarget::TypeParameter(_, i) => seq![i],
        SpecAnnotationTarget::SuperType(i) => u16::spec_encode(
            match i {
                Some(x) => x,
                None => 0xFFFFu16,
            },
        ),
        SpecAnnotationTarget::TypeParameterBound { type_param_idx, bound_idx, .. } => seq![
            type_param_idx,
            bound_idx,
        ],
        SpecAnnotationTarget::Empty(_) => Seq::<u8>::empty(),
        SpecAnnotationTarget::FormalParameter(i) => seq![i],
        SpecAnnotationTarget::Throws(i) => u16::spec_encode(i),
        SpecAnnotationTarget::LocalVar(_, table) => spec_encode_list16::<LocalVarTableEntry>(table),
        SpecAnnotationTarget::Catch(i) => u16::spec_encode(i),
        SpecAnnotationTarget::Offset(_, o) => u16::spec_encode(o),
        SpecAnnotationTarget::TypeArgument { offset, type_arg_idx, .. } => u16::spec_encode(offset)
            + seq![type_arg_idx],
    });
}

/// Reading an annotation target gives one whose target type is the first byte;
/// a first byte that is no target type is refused with that byte.
pub proof fn lemma_target_read(s: Seq<u8>)
    ensures
        AnnotationTarget::spec_decode(s) matches Ok((t, _)) ==> s.len() >= 1 && s[0]
            == target_type(t),
        s.len() >= 1 && !is_target_type(s[0]) ==> AnnotationTarget::spec_decode(s) == Err::<
            (SpecAnnotationTarget, int),
            Error,
        >(Error::UnknownAnnotationTargetType(s[0])),
{
}

// ---------------------------------------------------------------------------
// Entries of type paths.

/// The kind of an entry of a type path.
pub open spec fn path_kind(e: TypePathEntry) -> u8 {
    match e {
        TypePathEntry::Array => 0,
        TypePathEntry::Nested => 1,
        TypePathEntry::Wildcard => 2,
        TypePathEntry::Argument(_) => 3,
    }
}

/// An entry of a type path is written as its kind, then the index of the type
/// argument for an argument and zero for the others.
pub proof fn lemma_path_layout(e: TypePathEntry)
    ensures
        TypePathEntry::spec_encode(e) == seq![
            path_kind(e),
            match e {
                TypePathEntry::Argument(i) => i,
                _ => 0u8,
            },
        ],
{
    assert(TypePathEntry::spec_encode(e) =~= seq![
        path_kind(e),
        match e {
            TypePathEntry::Argument(i) => i,
            _ => 0u8,
        },
    ]);
}

/// Reading an entry of a type path takes two bytes and gives the entry whose
/// kind is the first, with the second as its index for an argument; a kind past
/// three is refused with that byte.
pub proof fn lemma_path_read(s: Seq<u8>)
    ensures
        TypePathEntry::spec_decode(s) matches Ok((e, n)) ==> s.len() >= 2 && n == 2 && s[0]
            == path_kind(e) && (e matches TypePathEntry::Argument(i) ==> i == s[1]),
        s.len() >= 2 && s[0] > 3 ==> TypePathEntry::spec_decode(s) == Err::<
            (TypePathEntry, int),
            Error,
        >(Error::UnknownTypePathKind(s[0])),
{
}

// ---------------------------------------------------------------------------
// Flags.

/// Each flag of the access flags of a class is its bit of the format, and a set of bits is known
/// exactly where every bit in it is one of these flags.
pub proof fn lemma_class_access_flags_bits(bits: u16)
    ensures
        ClassAccessFlags::PUBLIC == 0x0001,
        ClassAccessFlags::FINAL == 0x0010,
        ClassAccessFlags::SUPER == 0x0020,
        ClassAccessFlags::INTERFACE == 0x0200,
        ClassAccessFlags::ABSTRACT == 0x0400,
        ClassAccessFlags::SYNTHETIC == 0x1000,
        ClassAccessFlags::ANNOTATION == 0x2000,
        ClassAccessFlags::ENUM == 0x4000,
        ClassAccessFlags::MODULE == 0x8000,
        ClassAccessFlags::known(bits) <==> bits & !(0x0001u16 | 0x0010u16 | 0x0020u16 | 0x0200u16 | 0x0400u16 | 0x1000u16 | 0x2000u16 | 0x4000u16 | 0x8000u16) == 0,
{
    assert((0x0001u16 | 0x0010u16 | 0x0020u16 | 0x0200u16 | 0x0400u16 | 0x1000u16 | 0x2000u16 | 0x4000u16 | 0x8000u16) == ClassAccessFlags::ALL_BITS) by (bit_vector);
}

/// Each flag of the access flags of a field is its bit of the format, and a set of bits is known
/// exactly where every bit in it is one of these flags.
pub proof fn lemma_field_access_flags_bits(bits: u16)
    ensures
        FieldAccessFlags::PUBLIC == 0x0001,
        FieldAccessFlags::PRIVATE == 0x0002,
        FieldAccessFlags::PROTECTED == 0x0004,
        FieldAccessFlags::STATIC == 0x0008,
        FieldAccessFlags::FINAL == 0x0010,
        FieldAccessFlags::VIOLATE == 0x0040,
        FieldAccessFlags::TRANSIENT == 0x0080,
        FieldAccessFlags::SYNTHETIC == 0x1000,
        FieldAccessFlags::ENUM == 0x4000,
        FieldAccessFlags::known(bits) <==> bits & !(0x0001u16 | 0x0002u16 | 0x0004u16 | 0x0008u16 | 0x0010u16 | 0x0040u16 | 0x0080u16 | 0x1000u16 | 0x4000u16) == 0,
{
    assert((0x0001u16 | 0x0002u16 | 0x0004u16 | 0x0008u16 | 0x0010u16 | 0x0040u16 | 0x0080u16 | 0x1000u16 | 0x4000u16) == FieldAccessFlags::ALL_BITS) by (bit_vector);
}

/// Each flag of the access flags of a method is its bit of the format, and a set of bits is known
/// exactly where every bit in it is one of these flags.
pub proof fn lemma_method_access_flags_bits(bits: u16)
    ensures
        MethodAccessFlags::PUBLIC == 0x0001,
        MethodAccessFlags::PRIVATE == 0x0002,
        MethodAccessFlags::PROTECTED == 0x0004,
        MethodAccessFlags::STATIC == 0x0008,
        MethodAccessFlags::FINAL == 0x0010,
        MethodAccessFlags::SYNCHRONIZED == 0x0020,
        MethodAccessFlags::BRIDGE == 0x0040,
        MethodAccessFlags::VARARGS == 0x0080,
        MethodAccessFlags::NATIVE == 0x0100,
        MethodAccessFlags::ABSTRACT == 0x0400,
        MethodAccessFlags::STRICT == 0x0800,
        MethodAccessFlags::SYNTHETIC == 0x1000,
        MethodAccessFlags::known(bits) <==> bits & !(0x0001u16 | 0x0002u16 | 0x0004u16 | 0x0008u16 | 0x0010u16 | 0x0020u16 | 0x0040u16 | 0x0080u16 | 0x0100u16 | 0x0400u16 | 0x0800u16 | 0x1000u16) == 0,
{
    assert((0x0001u16 | 0x0002u16 | 0x0004u16 | 0x0008u16 | 0x0010u16 | 0x0020u16 | 0x0040u16 | 0x0080u16 | 0x0100u16 | 0x0400u16 | 0x0800u16 | 0x1000u16) == MethodAccessFlags::ALL_BITS) by (bit_vector);
}

/// Each flag of the access flags of an inner class is its bit of the format, and a set of bits is known
/// exactly where every bit in it is one of these flags.
pub proof fn lemma_inner_class_access_flags_bits(bits: u16)
    ensures
        InnerClassAccessFlags::PUBLIC == 0x0001,
        InnerClassAccessFlags::PRIVATE == 0x0002,
        InnerClassAccessFlags::PROTECTED == 0x0004,
        InnerClassAccessFlags::STATIC == 0x0008,
        InnerClassAccessFlags::FINAL == 0x0010,
        InnerClassAccessFlags::INTERFACE == 0x0200,
        InnerClassAccessFlags::ABSTRACT == 0x0400,
        InnerClassAccessFlags::SYNTHETIC == 0x1000,
        InnerClassAccessFlags::ANNOTATION == 0x2000,
        InnerClassAccessFlags::ENUM == 0x4000,
        InnerClassAccessFlags::known(bits) <==> bits & !(0x0001u16 | 0x0002u16 | 0x0004u16 | 0x0008u16 | 0x0010u16 | 0x0200u16 | 0x0400u16 | 0x1000u16 | 0x2000u16 | 0x4000u16) == 0,
{
    assert((0x0001u16 | 0x0002u16 | 0x0004u16 | 0x0008u16 | 0x0010u16 | 0x0200u16 | 0x0400u16 | 0x1000u16 | 0x2000u16 | 0x4000u16) == InnerClassAccessFlags::ALL_BITS) by (bit_vector);
}

/// Each flag of the flags of a method parameter is its bit of the format, and a set of bits is known
/// exactly where every bit in it is one of these flags.
pub proof fn lemma_method_param_access_flags_bits(bits: u16)
    ensures
        MethodParamAccessFlags::FINAL == 0x0010,
        MethodParamAccessFlags::SYNTHETIC == 0x1000,
        MethodParamAccessFlags::MANDATED == 0x8000,
        MethodParamAccessFlags::known(bits) <==> bits & !(0x0010u16 | 0x1000u16 | 0x8000u16) == 0,
{
    assert((0x0010u16 | 0x1000u16 | 0x8000u16) == MethodParamAccessFlags::ALL_BITS) by (bit_vector);
}

/// Each flag of the flags of a module is its bit of the format, and a set of bits is known
/// exactly where every bit in it is one of these flags.
pub proof fn lemma_module_flags_bits(bits: u16)
    ensures
        ModuleFlags::OPEN == 0x0020,
        ModuleFlags::SYNTHETIC == 0x1000,
        ModuleFlags::MANDATED == 0x8000,
        ModuleFlags::known(bits) <==> bits & !(0x0020u16 | 0x1000u16 | 0x8000u16) == 0,
{
    assert((0x0020u16 | 0x1000u16 | 0x8000u16) == ModuleFlags::ALL_BITS) by (bit_vector);
}

/// Each flag of the flags of a module dependency is its bit of the format, and a set of bits is known
/// exactly where every bit in it is one of these flags.
pub proof fn lemma_module_required_flags_bits(bits: u16)
    ensures
        ModuleRequiredFlags::TRANSITIVE == 0x0020,
        ModuleRequiredFlags::STATIC_PHASE == 0x0040,
        ModuleRequiredFlags::SYNTHETIC == 0x1000,
        ModuleRequiredFlags::MANDATED == 0x8000,
        ModuleRequiredFlags::known(bits) <==> bits & !(0x0020u16 | 0x0040u16 | 0x1000u16 | 0x8000u16) == 0,
{
    assert((0x0020u16 | 0x0040u16 | 0x1000u16 | 0x8000u16) == ModuleRequiredFlags::ALL_BITS) by (bit_vector);
}

/// Each flag of the flags of a package relation is its bit of the format, and a set of bits is known
/// exactly where every bit in it is one of these flags.
pub proof fn lemma_package_flags_bits(bits: u16)
    ensures
        PackageFlags::STATIC_PHASE == 0x0040,
        PackageFlags::MANDATED == 0x8000,
        PackageFlags::known(bits) <==> bits & !(0x0040u16 | 0x8000u16) == 0,
{
    assert((0x0040u16 | 0x8000u16) == PackageFlags::ALL_BITS) by (bit_vector);
}

} // verus!
