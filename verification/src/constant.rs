use vstd::prelude::*;

#[allow(unused_imports)]
use crate::util::{
    encode_post, lemma_progress_start, put, read_post, Buf, BufMut, Codec, Decode, Encode,
};
#[allow(unused_imports)]
use crate::{Error, ModifiedUtf8, NonZeroU16};

verus! {

/// An entry in the constant pool.
#[derive(Debug, Clone, Copy, PartialEq, PartialOrd)]
pub enum ConstantEntry<'a> {
    /// String literal.
    Utf8(ModifiedUtf8<'a>),
    /// Four-byte numeric constant for type `int`.
    Integer(i32),
    /// Four-byte numeric constant for type `float`, as its IEEE 754 bits.
    Float(u32),
    /// Eight-byte numeric constant for type `long`.
    Long(i64),
    /// Eight-byte numeric constant for type `double`, as its IEEE 754 bits.
    Double(u64),
    /// A class or an interface.
    /// The containing number is for index to the name (`Utf8`) in constant pool.
    Class(NonZeroU16),
    /// A string object.
    /// The containing number is for index to the `Utf8` value in constant pool.
    String(NonZeroU16),
    /// A field.
    FieldRef {
        /// The index of class or interface (`Class`) containing this field in constant pool.
        class_index: NonZeroU16,
        /// The index of name and descriptor (`NameAndType`) of this field in constant pool.
        name_and_type_index: NonZeroU16,
    },
    /// A method.
    MethodRef {
        /// The index of class or interface (`Class`) containing this method in constant pool.
        class_index: NonZeroU16,
        /// The index of name and descriptor (`NameAndType`) of this method in constant pool.
        name_and_type_index: NonZeroU16,
    },
    /// An interface method.
    InterfaceMethodRef {
        /// The index of interface (`Class`) containing this method in constant pool.
        class_index: NonZeroU16,
        /// The index of name and descriptor (`NameAndType`) of this method in constant pool.
        name_and_type_index: NonZeroU16,
    },
    /// Detailed information of a method or type.
    NameAndType {
        /// The index of name (`Utf8`) in constant pool.
        name_index: NonZeroU16,
        /// The index of field or method descriptor (`Utf8`) in constant pool.
        descriptor_index: NonZeroU16,
    },
    /// A method handle.
    MethodHandle {
        /// Denotes the kind of this method handle.
        ref_kind: ReferenceKind,
        /// The index of referenced item.
        ref_index: NonZeroU16,
    },
    /// A method type.
    /// The containing number is for index to the descriptor (`Utf8`) in constant pool.
    MethodType(NonZeroU16),
    /// A dynamically-computed constant at runtime.
    Dynamic {
        /// The index of the `bootstrap_methods` array in the bootstrap method table.
        bootstrap_method_attr_index: u16,
        /// The index of name and field descriptor (`NameAndType`) in constant pool.
        name_and_type_index: NonZeroU16,
    },
    /// A dynamically-computed call site at runtime.
    InvokeDynamic {
        /// The index of the `bootstrap_methods` array in the bootstrap method table.
        bootstrap_method_attr_index: u16,
        /// The index of name and method descriptor (`NameAndType`) in constant pool.
        name_and_type_index: NonZeroU16,
    },
    /// A module.
    /// The containing number is for index to the name (`Utf8`) in constant pool.
    Module(NonZeroU16),
    /// A package.
    /// The containing number is for index to the name (`Utf8`) in constant pool.
    Package(NonZeroU16),
}

/// The value of a [`ConstantEntry`], with byte slices as sequences.
pub enum SpecConstantEntry {
    Utf8(Seq<u8>),
    Integer(i32),
    Float(u32),
    Long(i64),
    Double(u64),
    Class(NonZeroU16),
    String(NonZeroU16),
    FieldRef { class_index: NonZeroU16, name_and_type_index: NonZeroU16 },
    MethodRef { class_index: NonZeroU16, name_and_type_index: NonZeroU16 },
    InterfaceMethodRef { class_index: NonZeroU16, name_and_type_index: NonZeroU16 },
    NameAndType { name_index: NonZeroU16, descriptor_index: NonZeroU16 },
    MethodHandle { ref_kind: ReferenceKind, ref_index: NonZeroU16 },
    MethodType(NonZeroU16),
    Dynamic { bootstrap_method_attr_index: u16, name_and_type_index: NonZeroU16 },
    InvokeDynamic { bootstrap_method_attr_index: u16, name_and_type_index: NonZeroU16 },
    Module(NonZeroU16),
    Package(NonZeroU16),
}

impl<'a> View for ConstantEntry<'a> {
    type V = SpecConstantEntry;

    open spec fn view(&self) -> SpecConstantEntry {
        match *self {
            ConstantEntry::Utf8(f0) => SpecConstantEntry::Utf8(f0@),
            ConstantEntry::Integer(f0) => SpecConstantEntry::Integer(f0@),
            ConstantEntry::Float(f0) => SpecConstantEntry::Float(f0@),
            ConstantEntry::Long(f0) => SpecConstantEntry::Long(f0@),
            ConstantEntry::Double(f0) => SpecConstantEntry::Double(f0@),
            ConstantEntry::Class(f0) => SpecConstantEntry::Class(f0@),
            ConstantEntry::String(f0) => SpecConstantEntry::String(f0@),
            ConstantEntry::FieldRef { class_index: f0, name_and_type_index: f1 } => SpecConstantEntry::FieldRef { class_index: f0@, name_and_type_index: f1@ },
            ConstantEntry::MethodRef { class_index: f0, name_and_type_index: f1 } => SpecConstantEntry::MethodRef { class_index: f0@, name_and_type_index: f1@ },
            ConstantEntry::InterfaceMethodRef { class_index: f0, name_and_type_index: f1 } => SpecConstantEntry::InterfaceMethodRef { class_index: f0@, name_and_type_index: f1@ },
            ConstantEntry::NameAndType { name_index: f0, descriptor_index: f1 } => SpecConstantEntry::NameAndType { name_index: f0@, descriptor_index: f1@ },
            ConstantEntry::MethodHandle { ref_kind: f0, ref_index: f1 } => SpecConstantEntry::MethodHandle { ref_kind: f0@, ref_index: f1@ },
            ConstantEntry::MethodType(f0) => SpecConstantEntry::MethodType(f0@),
            ConstantEntry::Dynamic { bootstrap_method_attr_index: f0, name_and_type_index: f1 } => SpecConstantEntry::Dynamic { bootstrap_method_attr_index: f0@, name_and_type_index: f1@ },
            ConstantEntry::InvokeDynamic { bootstrap_method_attr_index: f0, name_and_type_index: f1 } => SpecConstantEntry::InvokeDynamic { bootstrap_method_attr_index: f0@, name_and_type_index: f1@ },
            ConstantEntry::Module(f0) => SpecConstantEntry::Module(f0@),
            ConstantEntry::Package(f0) => SpecConstantEntry::Package(f0@),
        }
    }
}

impl<'de> Decode<'de> for ConstantEntry<'de> {
    /// A tag byte, then the fields of the variant that it stands for.
    open spec fn spec_decode(s: Seq<u8>) -> Result<(SpecConstantEntry, int), Error> {
        match u8::spec_decode(s) {
            Err(e) => Err(e),
            Ok((tag, n)) => {
                let r = s.skip(n);
                if tag == 1 {
                    match <ModifiedUtf8<'de>>::spec_decode(r) {
                        Err(e) => Err(e),
                        Ok((v0, n0)) =>
                        Ok((SpecConstantEntry::Utf8(v0), n + n0))
                    }
                } else if tag == 3 {
                    match i32::spec_decode(r) {
                        Err(e) => Err(e),
                        Ok((v0, n0)) =>
                        Ok((SpecConstantEntry::Integer(v0), n + n0))
                    }
                } else if tag == 4 {
                    match u32::spec_decode(r) {
                        Err(e) => Err(e),
                        Ok((v0, n0)) =>
                        Ok((SpecConstantEntry::Float(v0), n + n0))
                    }
                } else if tag == 5 {
                    match i64::spec_decode(r) {
                        Err(e) => Err(e),
                        Ok((v0, n0)) =>
                        Ok((SpecConstantEntry::Long(v0), n + n0))
                    }
                } else if tag == 6 {
                    match u64::spec_decode(r) {
                        Err(e) => Err(e),
                        Ok((v0, n0)) =>
                        Ok((SpecConstantEntry::Double(v0), n + n0))
                    }
                } else if tag == 7 {
                    match NonZeroU16::spec_decode(r) {
                        Err(e) => Err(e),
                        Ok((v0, n0)) =>
                        Ok((SpecConstantEntry::Class(v0), n + n0))
                    }
                } else if tag == 8 {
                    match NonZeroU16::spec_decode(r) {
                        Err(e) => Err(e),
                        Ok((v0, n0)) =>
                        Ok((SpecConstantEntry::String(v0), n + n0))
                    }
                } else if tag == 9 {
                    match NonZeroU16::spec_decode(r) {
                        Err(e) => Err(e),
                        Ok((v0, n0)) =>
                        match NonZeroU16::spec_decode(r.skip(n0)) {
                            Err(e) => Err(e),
                            Ok((v1, n1)) =>
                            Ok((SpecConstantEntry::FieldRef { class_index: v0, name_and_type_index: v1 }, n + n0 + n1))
                        }
                    }
                } else if tag == 10 {
                    match NonZeroU16::spec_decode(r) {
                        Err(e) => Err(e),
                        Ok((v0, n0)) =>
                        match NonZeroU16::spec_decode(r.skip(n0)) {
                            Err(e) => Err(e),
                            Ok((v1, n1)) =>
                            Ok((SpecConstantEntry::MethodRef { class_index: v0, name_and_type_index: v1 }, n + n0 + n1))
                        }
                    }
                } else if tag == 11 {
                    match NonZeroU16::spec_decode(r) {
                        Err(e) => Err(e),
                        Ok((v0, n0)) =>
                        match NonZeroU16::spec_decode(r.skip(n0)) {
                            Err(e) => Err(e),
                            Ok((v1, n1)) =>
                            Ok((SpecConstantEntry::InterfaceMethodRef { class_index: v0, name_and_type_index: v1 }, n + n0 + n1))
                        }
                    }
                } else if tag == 12 {
                    match NonZeroU16::spec_decode(r) {
                        Err(e) => Err(e),
                        Ok((v0, n0)) =>
                        match NonZeroU16::spec_decode(r.skip(n0)) {
                            Err(e) => Err(e),
                            Ok((v1, n1)) =>
                            Ok((SpecConstantEntry::NameAndType { name_index: v0, descriptor_index: v1 }, n + n0 + n1))
                        }
                    }
                } else if tag == 15 {
                    match ReferenceKind::spec_decode(r) {
                        Err(e) => Err(e),
                        Ok((v0, n0)) =>
                        match NonZeroU16::spec_decode(r.skip(n0)) {
                            Err(e) => Err(e),
                            Ok((v1, n1)) =>
                            Ok((SpecConstantEntry::MethodHandle { ref_kind: v0, ref_index: v1 }, n + n0 + n1))
                        }
                    }
                } else if tag == 16 {
                    match NonZeroU16::spec_decode(r) {
                        Err(e) => Err(e),
                        Ok((v0, n0)) =>
                        Ok((SpecConstantEntry::MethodType(v0), n + n0))
                    }
                } else if tag == 17 {
                    match u16::spec_decode(r) {
                        Err(e) => Err(e),
                        Ok((v0, n0)) =>
                        match NonZeroU16::spec_decode(r.skip(n0)) {
                            Err(e) => Err(e),
                            Ok((v1, n1)) =>
                            Ok((SpecConstantEntry::Dynamic { bootstrap_method_attr_index: v0, name_and_type_index: v1 }, n + n0 + n1))
                        }
                    }
                } else if tag == 18 {
                    match u16::spec_decode(r) {
                        Err(e) => Err(e),
                        Ok((v0, n0)) =>
                        match NonZeroU16::spec_decode(r.skip(n0)) {
                            Err(e) => Err(e),
                            Ok((v1, n1)) =>
                            Ok((SpecConstantEntry::InvokeDynamic { bootstrap_method_attr_index: v0, name_and_type_index: v1 }, n + n0 + n1))
                        }
                    }
                } else if tag == 19 {
                    match NonZeroU16::spec_decode(r) {
                        Err(e) => Err(e),
                        Ok((v0, n0)) =>
                        Ok((SpecConstantEntry::Module(v0), n + n0))
                    }
                } else if tag == 20 {
                    match NonZeroU16::spec_decode(r) {
                        Err(e) => Err(e),
                        Ok((v0, n0)) =>
                        Ok((SpecConstantEntry::Package(v0), n + n0))
                    }
                } else {
                    Err(Error::UnknownConstantTag(tag))
                }
            },
        }
    }

    open spec fn decode_requires(s: Seq<u8>) -> bool {
        match u8::spec_decode(s) {
            Err(_) => true,
            Ok((tag, n)) => {
                let r = s.skip(n);
                if tag == 1 {
                    <ModifiedUtf8<'de>>::decode_requires(r)
                } else if tag == 3 {
                    i32::decode_requires(r)
                } else if tag == 4 {
                    u32::decode_requires(r)
                } else if tag == 5 {
                    i64::decode_requires(r)
                } else if tag == 6 {
                    u64::decode_requires(r)
                } else if tag == 7 {
                    NonZeroU16::decode_requires(r)
                } else if tag == 8 {
                    NonZeroU16::decode_requires(r)
                } else if tag == 9 {
                    NonZeroU16::decode_requires(r) && match NonZeroU16::spec_decode(r) {
                        Err(_) => true,
                        Ok((_, n0)) =>
                        NonZeroU16::decode_requires(r.skip(n0))
                    }
                } else if tag == 10 {
                    NonZeroU16::decode_requires(r) && match NonZeroU16::spec_decode(r) {
                        Err(_) => true,
                        Ok((_, n0)) =>
                        NonZeroU16::decode_requires(r.skip(n0))
                    }
                } else if tag == 11 {
                    NonZeroU16::decode_requires(r) && match NonZeroU16::spec_decode(r) {
                        Err(_) => true,
                        Ok((_, n0)) =>
                        NonZeroU16::decode_requires(r.skip(n0))
                    }
                } else if tag == 12 {
                    NonZeroU16::decode_requires(r) && match NonZeroU16::spec_decode(r) {
                        Err(_) => true,
                        Ok((_, n0)) =>
                        NonZeroU16::decode_requires(r.skip(n0))
                    }
                } else if tag == 15 {
                    ReferenceKind::decode_requires(r) && match ReferenceKind::spec_decode(r) {
                        Err(_) => true,
                        Ok((_, n0)) =>
                        NonZeroU16::decode_requires(r.skip(n0))
                    }
                } else if tag == 16 {
                    NonZeroU16::decode_requires(r)
                } else if tag == 17 {
                    u16::decode_requires(r) && match u16::spec_decode(r) {
                        Err(_) => true,
                        Ok((_, n0)) =>
                        NonZeroU16::decode_requires(r.skip(n0))
                    }
                } else if tag == 18 {
                    u16::decode_requires(r) && match u16::spec_decode(r) {
                        Err(_) => true,
                        Ok((_, n0)) =>
                        NonZeroU16::decode_requires(r.skip(n0))
                    }
                } else if tag == 19 {
                    NonZeroU16::decode_requires(r)
                } else if tag == 20 {
                    NonZeroU16::decode_requires(r)
                } else {
                    true
                }
            },
        }
    }

    fn decode<B: Buf<'de>>(buf: &mut B) -> (r: Result<ConstantEntry<'de>, Error>) {
        let tag = u8::decode(buf)?;
        match tag {
            1 => {
                let f0 = <ModifiedUtf8<'de>>::decode(buf)?;
                Ok(ConstantEntry::Utf8(f0))
            },
            3 => {
                let f0 = i32::decode(buf)?;
                Ok(ConstantEntry::Integer(f0))
            },
            4 => {
                let f0 = u32::decode(buf)?;
                Ok(ConstantEntry::Float(f0))
            },
            5 => {
                let f0 = i64::decode(buf)?;
                Ok(ConstantEntry::Long(f0))
            },
            6 => {
                let f0 = u64::decode(buf)?;
                Ok(ConstantEntry::Double(f0))
            },
            7 => {
                let f0 = NonZeroU16::decode(buf)?;
                Ok(ConstantEntry::Class(f0))
            },
            8 => {
                let f0 = NonZeroU16::decode(buf)?;
                Ok(ConstantEntry::String(f0))
            },
            9 => {
                let f0 = NonZeroU16::decode(buf)?;
                let f1 = NonZeroU16::decode(buf)?;
                Ok(ConstantEntry::FieldRef { class_index: f0, name_and_type_index: f1 })
            },
            10 => {
                let f0 = NonZeroU16::decode(buf)?;
                let f1 = NonZeroU16::decode(buf)?;
                Ok(ConstantEntry::MethodRef { class_index: f0, name_and_type_index: f1 })
            },
            11 => {
                let f0 = NonZeroU16::decode(buf)?;
                let f1 = NonZeroU16::decode(buf)?;
                Ok(ConstantEntry::InterfaceMethodRef { class_index: f0, name_and_type_index: f1 })
            },
            12 => {
                let f0 = NonZeroU16::decode(buf)?;
                let f1 = NonZeroU16::decode(buf)?;
                Ok(ConstantEntry::NameAndType { name_index: f0, descriptor_index: f1 })
            },
            15 => {
                let f0 = ReferenceKind::decode(buf)?;
                let f1 = NonZeroU16::decode(buf)?;
                Ok(ConstantEntry::MethodHandle { ref_kind: f0, ref_index: f1 })
            },
            16 => {
                let f0 = NonZeroU16::decode(buf)?;
                Ok(ConstantEntry::MethodType(f0))
            },
            17 => {
                let f0 = u16::decode(buf)?;
                let f1 = NonZeroU16::decode(buf)?;
                Ok(ConstantEntry::Dynamic { bootstrap_method_attr_index: f0, name_and_type_index: f1 })
            },
            18 => {
                let f0 = u16::decode(buf)?;
                let f1 = NonZeroU16::decode(buf)?;
                Ok(ConstantEntry::InvokeDynamic { bootstrap_method_attr_index: f0, name_and_type_index: f1 })
            },
            19 => {
                let f0 = NonZeroU16::decode(buf)?;
                Ok(ConstantEntry::Module(f0))
            },
            20 => {
                let f0 = NonZeroU16::decode(buf)?;
                Ok(ConstantEntry::Package(f0))
            },
            _ => Err(Error::UnknownConstantTag(tag)),
        }
    }
}

impl<'a> Encode for ConstantEntry<'a> {
    open spec fn spec_encode(v: SpecConstantEntry) -> Seq<u8> {
        match v {
            SpecConstantEntry::Utf8(f0) => u8::spec_encode(1u8) + <ModifiedUtf8<'a>>::spec_encode(f0),
            SpecConstantEntry::Integer(f0) => u8::spec_encode(3u8) + i32::spec_encode(f0),
            SpecConstantEntry::Float(f0) => u8::spec_encode(4u8) + u32::spec_encode(f0),
            SpecConstantEntry::Long(f0) => u8::spec_encode(5u8) + i64::spec_encode(f0),
            SpecConstantEntry::Double(f0) => u8::spec_encode(6u8) + u64::spec_encode(f0),
            SpecConstantEntry::Class(f0) => u8::spec_encode(7u8) + NonZeroU16::spec_encode(f0),
            SpecConstantEntry::String(f0) => u8::spec_encode(8u8) + NonZeroU16::spec_encode(f0),
            SpecConstantEntry::FieldRef { class_index: f0, name_and_type_index: f1 } => u8::spec_encode(9u8) + NonZeroU16::spec_encode(f0) + NonZeroU16::spec_encode(f1),
            SpecConstantEntry::MethodRef { class_index: f0, name_and_type_index: f1 } => u8::spec_encode(10u8) + NonZeroU16::spec_encode(f0) + NonZeroU16::spec_encode(f1),
            SpecConstantEntry::InterfaceMethodRef { class_index: f0, name_and_type_index: f1 } => u8::spec_encode(11u8) + NonZeroU16::spec_encode(f0) + NonZeroU16::spec_encode(f1),
            SpecConstantEntry::NameAndType { name_index: f0, descriptor_index: f1 } => u8::spec_encode(12u8) + NonZeroU16::spec_encode(f0) + NonZeroU16::spec_encode(f1),
            SpecConstantEntry::MethodHandle { ref_kind: f0, ref_index: f1 } => u8::spec_encode(15u8) + ReferenceKind::spec_encode(f0) + NonZeroU16::spec_encode(f1),
            SpecConstantEntry::MethodType(f0) => u8::spec_encode(16u8) + NonZeroU16::spec_encode(f0),
            SpecConstantEntry::Dynamic { bootstrap_method_attr_index: f0, name_and_type_index: f1 } => u8::spec_encode(17u8) + u16::spec_encode(f0) + NonZeroU16::spec_encode(f1),
            SpecConstantEntry::InvokeDynamic { bootstrap_method_attr_index: f0, name_and_type_index: f1 } => u8::spec_encode(18u8) + u16::spec_encode(f0) + NonZeroU16::spec_encode(f1),
            SpecConstantEntry::Module(f0) => u8::spec_encode(19u8) + NonZeroU16::spec_encode(f0),
            SpecConstantEntry::Package(f0) => u8::spec_encode(20u8) + NonZeroU16::spec_encode(f0),
        }
    }

    open spec fn encodable(v: SpecConstantEntry) -> bool {
        true
    }

    open spec fn encode_requires(v: SpecConstantEntry) -> bool {
        match v {
            SpecConstantEntry::Utf8(f0) => <ModifiedUtf8<'a>>::encode_requires(f0),
            SpecConstantEntry::Integer(f0) => i32::encode_requires(f0),
            SpecConstantEntry::Float(f0) => u32::encode_requires(f0),
            SpecConstantEntry::Long(f0) => i64::encode_requires(f0),
            SpecConstantEntry::Double(f0) => u64::encode_requires(f0),
            SpecConstantEntry::Class(f0) => NonZeroU16::encode_requires(f0),
            SpecConstantEntry::String(f0) => NonZeroU16::encode_requires(f0),
            SpecConstantEntry::FieldRef { class_index: f0, name_and_type_index: f1 } => NonZeroU16::encode_requires(f0) && NonZeroU16::encode_requires(f1),
            SpecConstantEntry::MethodRef { class_index: f0, name_and_type_index: f1 } => NonZeroU16::encode_requires(f0) && NonZeroU16::encode_requires(f1),
            SpecConstantEntry::InterfaceMethodRef { class_index: f0, name_and_type_index: f1 } => NonZeroU16::encode_requires(f0) && NonZeroU16::encode_requires(f1),
            SpecConstantEntry::NameAndType { name_index: f0, descriptor_index: f1 } => NonZeroU16::encode_requires(f0) && NonZeroU16::encode_requires(f1),
            SpecConstantEntry::MethodHandle { ref_kind: f0, ref_index: f1 } => ReferenceKind::encode_requires(f0) && NonZeroU16::encode_requires(f1),
            SpecConstantEntry::MethodType(f0) => NonZeroU16::encode_requires(f0),
            SpecConstantEntry::Dynamic { bootstrap_method_attr_index: f0, name_and_type_index: f1 } => u16::encode_requires(f0) && NonZeroU16::encode_requires(f1),
            SpecConstantEntry::InvokeDynamic { bootstrap_method_attr_index: f0, name_and_type_index: f1 } => u16::encode_requires(f0) && NonZeroU16::encode_requires(f1),
            SpecConstantEntry::Module(f0) => NonZeroU16::encode_requires(f0),
            SpecConstantEntry::Package(f0) => NonZeroU16::encode_requires(f0),
        }
    }

    fn encode<B: BufMut>(&self, buf: &mut B) -> (r: Result<(), Error>) {
        let ghost b0 = *buf;
        let ghost total = Self::spec_encode(self@);
        proof {
            lemma_progress_start(b0);
        }
        match self {
            ConstantEntry::Utf8(f0) => {
                let tag: u8 = 1;
                put(buf, &tag, Ghost(b0), Ghost(Seq::empty()), Ghost(total))?;
                put(buf, f0, Ghost(b0), Ghost(Seq::empty() + u8::spec_encode(tag)), Ghost(total))?;
                assert(Seq::empty() + u8::spec_encode(tag) + <ModifiedUtf8<'a>>::spec_encode(f0@) =~= total);
                Ok(())
            },
            ConstantEntry::Integer(f0) => {
                let tag: u8 = 3;
                put(buf, &tag, Ghost(b0), Ghost(Seq::empty()), Ghost(total))?;
                put(buf, f0, Ghost(b0), Ghost(Seq::empty() + u8::spec_encode(tag)), Ghost(total))?;
                assert(Seq::empty() + u8::spec_encode(tag) + i32::spec_encode(f0@) =~= total);
                Ok(())
            },
            ConstantEntry::Float(f0) => {
                let tag: u8 = 4;
                put(buf, &tag, Ghost(b0), Ghost(Seq::empty()), Ghost(total))?;
                put(buf, f0, Ghost(b0), Ghost(Seq::empty() + u8::spec_encode(tag)), Ghost(total))?;
                assert(Seq::empty() + u8::spec_encode(tag) + u32::spec_encode(f0@) =~= total);
                Ok(())
            },
            ConstantEntry::Long(f0) => {
                let tag: u8 = 5;
                put(buf, &tag, Ghost(b0), Ghost(Seq::empty()), Ghost(total))?;
                put(buf, f0, Ghost(b0), Ghost(Seq::empty() + u8::spec_encode(tag)), Ghost(total))?;
                assert(Seq::empty() + u8::spec_encode(tag) + i64::spec_encode(f0@) =~= total);
                Ok(())
            },
            ConstantEntry::Double(f0) => {
                let tag: u8 = 6;
                put(buf, &tag, Ghost(b0), Ghost(Seq::empty()), Ghost(total))?;
                put(buf, f0, Ghost(b0), Ghost(Seq::empty() + u8::spec_encode(tag)), Ghost(total))?;
                assert(Seq::empty() + u8::spec_encode(tag) + u64::spec_encode(f0@) =~= total);
                Ok(())
            },
            ConstantEntry::Class(f0) => {
                let tag: u8 = 7;
                put(buf, &tag, Ghost(b0), Ghost(Seq::empty()), Ghost(total))?;
                put(buf, f0, Ghost(b0), Ghost(Seq::empty() + u8::spec_encode(tag)), Ghost(total))?;
                assert(Seq::empty() + u8::spec_encode(tag) + NonZeroU16::spec_encode(f0@) =~= total);
                Ok(())
            },
            ConstantEntry::String(f0) => {
                let tag: u8 = 8;
                put(buf, &tag, Ghost(b0), Ghost(Seq::empty()), Ghost(total))?;
                put(buf, f0, Ghost(b0), Ghost(Seq::empty() + u8::spec_encode(tag)), Ghost(total))?;
                assert(Seq::empty() + u8::spec_encode(tag) + NonZeroU16::spec_encode(f0@) =~= total);
                Ok(())
            },
            ConstantEntry::FieldRef { class_index: f0, name_and_type_index: f1 } => {
                let tag: u8 = 9;
                put(buf, &tag, Ghost(b0), Ghost(Seq::empty()), Ghost(total))?;
                put(buf, f0, Ghost(b0), Ghost(Seq::empty() + u8::spec_encode(tag)), Ghost(total))?;
                put(buf, f1, Ghost(b0), Ghost(Seq::empty() + u8::spec_encode(tag) + NonZeroU16::spec_encode(f0@)), Ghost(total))?;
                assert(Seq::empty() + u8::spec_encode(tag) + NonZeroU16::spec_encode(f0@) + NonZeroU16::spec_encode(f1@) =~= total);
                Ok(())
            },
            ConstantEntry::MethodRef { class_index: f0, name_and_type_index: f1 } => {
                let tag: u8 = 10;
                put(buf, &tag, Ghost(b0), Ghost(Seq::empty()), Ghost(total))?;
                put(buf, f0, Ghost(b0), Ghost(Seq::empty() + u8::spec_encode(tag)), Ghost(total))?;
                put(buf, f1, Ghost(b0), Ghost(Seq::empty() + u8::spec_encode(tag) + NonZeroU16::spec_encode(f0@)), Ghost(total))?;
                assert(Seq::empty() + u8::spec_encode(tag) + NonZeroU16::spec_encode(f0@) + NonZeroU16::spec_encode(f1@) =~= total);
                Ok(())
            },
            ConstantEntry::InterfaceMethodRef { class_index: f0, name_and_type_index: f1 } => {
                let tag: u8 = 11;
                put(buf, &tag, Ghost(b0), Ghost(Seq::empty()), Ghost(total))?;
                put(buf, f0, Ghost(b0), Ghost(Seq::empty() + u8::spec_encode(tag)), Ghost(total))?;
                put(buf, f1, Ghost(b0), Ghost(Seq::empty() + u8::spec_encode(tag) + NonZeroU16::spec_encode(f0@)), Ghost(total))?;
                assert(Seq::empty() + u8::spec_encode(tag) + NonZeroU16::spec_encode(f0@) + NonZeroU16::spec_encode(f1@) =~= total);
                Ok(())
            },
            ConstantEntry::NameAndType { name_index: f0, descriptor_index: f1 } => {
                let tag: u8 = 12;
                put(buf, &tag, Ghost(b0), Ghost(Seq::empty()), Ghost(total))?;
                put(buf, f0, Ghost(b0), Ghost(Seq::empty() + u8::spec_encode(tag)), Ghost(total))?;
                put(buf, f1, Ghost(b0), Ghost(Seq::empty() + u8::spec_encode(tag) + NonZeroU16::spec_encode(f0@)), Ghost(total))?;
                assert(Seq::empty() + u8::spec_encode(tag) + NonZeroU16::spec_encode(f0@) + NonZeroU16::spec_encode(f1@) =~= total);
                Ok(())
            },
            ConstantEntry::MethodHandle { ref_kind: f0, ref_index: f1 } => {
                let tag: u8 = 15;
                put(buf, &tag, Ghost(b0), Ghost(Seq::empty()), Ghost(total))?;
                put(buf, f0, Ghost(b0), Ghost(Seq::empty() + u8::spec_encode(tag)), Ghost(total))?;
                put(buf, f1, Ghost(b0), Ghost(Seq::empty() + u8::spec_encode(tag) + ReferenceKind::spec_encode(f0@)), Ghost(total))?;
                assert(Seq::empty() + u8::spec_encode(tag) + ReferenceKind::spec_encode(f0@) + NonZeroU16::spec_encode(f1@) =~= total);
                Ok(())
            },
            ConstantEntry::MethodType(f0) => {
                let tag: u8 = 16;
                put(buf, &tag, Ghost(b0), Ghost(Seq::empty()), Ghost(total))?;
                put(buf, f0, Ghost(b0), Ghost(Seq::empty() + u8::spec_encode(tag)), Ghost(total))?;
                assert(Seq::empty() + u8::spec_encode(tag) + NonZeroU16::spec_encode(f0@) =~= total);
                Ok(())
            },
            ConstantEntry::Dynamic { bootstrap_method_attr_index: f0, name_and_type_index: f1 } => {
                let tag: u8 = 17;
                put(buf, &tag, Ghost(b0), Ghost(Seq::empty()), Ghost(total))?;
                put(buf, f0, Ghost(b0), Ghost(Seq::empty() + u8::spec_encode(tag)), Ghost(total))?;
                put(buf, f1, Ghost(b0), Ghost(Seq::empty() + u8::spec_encode(tag) + u16::spec_encode(f0@)), Ghost(total))?;
                assert(Seq::empty() + u8::spec_encode(tag) + u16::spec_encode(f0@) + NonZeroU16::spec_encode(f1@) =~= total);
                Ok(())
            },
            ConstantEntry::InvokeDynamic { bootstrap_method_attr_index: f0, name_and_type_index: f1 } => {
                let tag: u8 = 18;
                put(buf, &tag, Ghost(b0), Ghost(Seq::empty()), Ghost(total))?;
                put(buf, f0, Ghost(b0), Ghost(Seq::empty() + u8::spec_encode(tag)), Ghost(total))?;
                put(buf, f1, Ghost(b0), Ghost(Seq::empty() + u8::spec_encode(tag) + u16::spec_encode(f0@)), Ghost(total))?;
                assert(Seq::empty() + u8::spec_encode(tag) + u16::spec_encode(f0@) + NonZeroU16::spec_encode(f1@) =~= total);
                Ok(())
            },
            ConstantEntry::Module(f0) => {
                let tag: u8 = 19;
                put(buf, &tag, Ghost(b0), Ghost(Seq::empty()), Ghost(total))?;
                put(buf, f0, Ghost(b0), Ghost(Seq::empty() + u8::spec_encode(tag)), Ghost(total))?;
                assert(Seq::empty() + u8::spec_encode(tag) + NonZeroU16::spec_encode(f0@) =~= total);
                Ok(())
            },
            ConstantEntry::Package(f0) => {
                let tag: u8 = 20;
                put(buf, &tag, Ghost(b0), Ghost(Seq::empty()), Ghost(total))?;
                put(buf, f0, Ghost(b0), Ghost(Seq::empty() + u8::spec_encode(tag)), Ghost(total))?;
                assert(Seq::empty() + u8::spec_encode(tag) + NonZeroU16::spec_encode(f0@) =~= total);
                Ok(())
            },
        }
    }
}

impl<'de> Codec<'de> for ConstantEntry<'de> {
    open spec fn wf(v: SpecConstantEntry) -> bool {
        match v {
            SpecConstantEntry::Utf8(f0) => <ModifiedUtf8<'de>>::wf(f0),
            SpecConstantEntry::Integer(f0) => i32::wf(f0),
            SpecConstantEntry::Float(f0) => u32::wf(f0),
            SpecConstantEntry::Long(f0) => i64::wf(f0),
            SpecConstantEntry::Double(f0) => u64::wf(f0),
            SpecConstantEntry::Class(f0) => NonZeroU16::wf(f0),
            SpecConstantEntry::String(f0) => NonZeroU16::wf(f0),
            SpecConstantEntry::FieldRef { class_index: f0, name_and_type_index: f1 } => NonZeroU16::wf(f0) && NonZeroU16::wf(f1),
            SpecConstantEntry::MethodRef { class_index: f0, name_and_type_index: f1 } => NonZeroU16::wf(f0) && NonZeroU16::wf(f1),
            SpecConstantEntry::InterfaceMethodRef { class_index: f0, name_and_type_index: f1 } => NonZeroU16::wf(f0) && NonZeroU16::wf(f1),
            SpecConstantEntry::NameAndType { name_index: f0, descriptor_index: f1 } => NonZeroU16::wf(f0) && NonZeroU16::wf(f1),
            SpecConstantEntry::MethodHandle { ref_kind: f0, ref_index: f1 } => ReferenceKind::wf(f0) && NonZeroU16::wf(f1),
            SpecConstantEntry::MethodType(f0) => NonZeroU16::wf(f0),
            SpecConstantEntry::Dynamic { bootstrap_method_attr_index: f0, name_and_type_index: f1 } => u16::wf(f0) && NonZeroU16::wf(f1),
            SpecConstantEntry::InvokeDynamic { bootstrap_method_attr_index: f0, name_and_type_index: f1 } => u16::wf(f0) && NonZeroU16::wf(f1),
            SpecConstantEntry::Module(f0) => NonZeroU16::wf(f0),
            SpecConstantEntry::Package(f0) => NonZeroU16::wf(f0),
        }
    }

    proof fn lemma_codec(v: SpecConstantEntry, rest: Seq<u8>) {
        match v {
            SpecConstantEntry::Utf8(f0) => lemma_constant_entry_codec_0(f0, rest),
            SpecConstantEntry::Integer(f0) => lemma_constant_entry_codec_1(f0, rest),
            SpecConstantEntry::Float(f0) => lemma_constant_entry_codec_2(f0, rest),
            SpecConstantEntry::Long(f0) => lemma_constant_entry_codec_3(f0, rest),
            SpecConstantEntry::Double(f0) => lemma_constant_entry_codec_4(f0, rest),
            SpecConstantEntry::Class(f0) => lemma_constant_entry_codec_5(f0, rest),
            SpecConstantEntry::String(f0) => lemma_constant_entry_codec_6(f0, rest),
            SpecConstantEntry::FieldRef { class_index: f0, name_and_type_index: f1 } => lemma_constant_entry_codec_7(f0, f1, rest),
            SpecConstantEntry::MethodRef { class_index: f0, name_and_type_index: f1 } => lemma_constant_entry_codec_8(f0, f1, rest),
            SpecConstantEntry::InterfaceMethodRef { class_index: f0, name_and_type_index: f1 } => lemma_constant_entry_codec_9(f0, f1, rest),
            SpecConstantEntry::NameAndType { name_index: f0, descriptor_index: f1 } => lemma_constant_entry_codec_10(f0, f1, rest),
            SpecConstantEntry::MethodHandle { ref_kind: f0, ref_index: f1 } => lemma_constant_entry_codec_11(f0, f1, rest),
            SpecConstantEntry::MethodType(f0) => lemma_constant_entry_codec_12(f0, rest),
            SpecConstantEntry::Dynamic { bootstrap_method_attr_index: f0, name_and_type_index: f1 } => lemma_constant_entry_codec_13(f0, f1, rest),
            SpecConstantEntry::InvokeDynamic { bootstrap_method_attr_index: f0, name_and_type_index: f1 } => lemma_constant_entry_codec_14(f0, f1, rest),
            SpecConstantEntry::Module(f0) => lemma_constant_entry_codec_15(f0, rest),
            SpecConstantEntry::Package(f0) => lemma_constant_entry_codec_16(f0, rest),
        }
    }
}

proof fn lemma_constant_entry_codec_0<'de>(f0: Seq<u8>, rest: Seq<u8>)
    requires
        <ModifiedUtf8<'de>>::wf(f0),
    ensures
        <ConstantEntry<'de> as Decode<'de>>::spec_decode(<ConstantEntry<'de> as Encode>::spec_encode(SpecConstantEntry::Utf8(f0)) + rest) == Ok::<(SpecConstantEntry, int), Error>((SpecConstantEntry::Utf8(f0), <ConstantEntry<'de> as Encode>::spec_encode(SpecConstantEntry::Utf8(f0)).len() as int)),
{
    let t = u8::spec_encode(1u8);
    let e0 = <ModifiedUtf8<'de>>::spec_encode(f0);
    assert(t + e0 + rest =~= t + (e0 + rest));
    u8::lemma_codec(1u8, (e0 + rest));
    assert((t + (e0 + rest)).skip(t.len() as int) =~= (e0 + rest));
    <ModifiedUtf8<'de>>::lemma_codec(f0, rest);
}

proof fn lemma_constant_entry_codec_1<'de>(f0: i32, rest: Seq<u8>)
    requires
        i32::wf(f0),
    ensures
        <ConstantEntry<'de> as Decode<'de>>::spec_decode(<ConstantEntry<'de> as Encode>::spec_encode(SpecConstantEntry::Integer(f0)) + rest) == Ok::<(SpecConstantEntry, int), Error>((SpecConstantEntry::Integer(f0), <ConstantEntry<'de> as Encode>::spec_encode(SpecConstantEntry::Integer(f0)).len() as int)),
{
    let t = u8::spec_encode(3u8);
    let e0 = i32::spec_encode(f0);
    assert(t + e0 + rest =~= t + (e0 + rest));
    u8::lemma_codec(3u8, (e0 + rest));
    assert((t + (e0 + rest)).skip(t.len() as int) =~= (e0 + rest));
    i32::lemma_codec(f0, rest);
}

proof fn lemma_constant_entry_codec_2<'de>(f0: u32, rest: Seq<u8>)
    requires
        u32::wf(f0),
    ensures
        <ConstantEntry<'de> as Decode<'de>>::spec_decode(<ConstantEntry<'de> as Encode>::spec_encode(SpecConstantEntry::Float(f0)) + rest) == Ok::<(SpecConstantEntry, int), Error>((SpecConstantEntry::Float(f0), <ConstantEntry<'de> as Encode>::spec_encode(SpecConstantEntry::Float(f0)).len() as int)),
{
    let t = u8::spec_encode(4u8);
    let e0 = u32::spec_encode(f0);
    assert(t + e0 + rest =~= t + (e0 + rest));
    u8::lemma_codec(4u8, (e0 + rest));
    assert((t + (e0 + rest)).skip(t.len() as int) =~= (e0 + rest));
    u32::lemma_codec(f0, rest);
}

proof fn lemma_constant_entry_codec_3<'de>(f0: i64, rest: Seq<u8>)
    requires
        i64::wf(f0),
    ensures
        <ConstantEntry<'de> as Decode<'de>>::spec_decode(<ConstantEntry<'de> as Encode>::spec_encode(SpecConstantEntry::Long(f0)) + rest) == Ok::<(SpecConstantEntry, int), Error>((SpecConstantEntry::Long(f0), <ConstantEntry<'de> as Encode>::spec_encode(SpecConstantEntry::Long(f0)).len() as int)),
{
    let t = u8::spec_encode(5u8);
    let e0 = i64::spec_encode(f0);
    assert(t + e0 + rest =~= t + (e0 + rest));
    u8::lemma_codec(5u8, (e0 + rest));
    assert((t + (e0 + rest)).skip(t.len() as int) =~= (e0 + rest));
    i64::lemma_codec(f0, rest);
}

proof fn lemma_constant_entry_codec_4<'de>(f0: u64, rest: Seq<u8>)
    requires
        u64::wf(f0),
    ensures
        <ConstantEntry<'de> as Decode<'de>>::spec_decode(<ConstantEntry<'de> as Encode>::spec_encode(SpecConstantEntry::Double(f0)) + rest) == Ok::<(SpecConstantEntry, int), Error>((SpecConstantEntry::Double(f0), <ConstantEntry<'de> as Encode>::spec_encode(SpecConstantEntry::Double(f0)).len() as int)),
{
    let t = u8::spec_encode(6u8);
    let e0 = u64::spec_encode(f0);
    assert(t + e0 + rest =~= t + (e0 + rest));
    u8::lemma_codec(6u8, (e0 + rest));
    assert((t + (e0 + rest)).skip(t.len() as int) =~= (e0 + rest));
    u64::lemma_codec(f0, rest);
}

proof fn lemma_constant_entry_codec_5<'de>(f0: NonZeroU16, rest: Seq<u8>)
    requires
        NonZeroU16::wf(f0),
    ensures
        <ConstantEntry<'de> as Decode<'de>>::spec_decode(<ConstantEntry<'de> as Encode>::spec_encode(SpecConstantEntry::Class(f0)) + rest) == Ok::<(SpecConstantEntry, int), Error>((SpecConstantEntry::Class(f0), <ConstantEntry<'de> as Encode>::spec_encode(SpecConstantEntry::Class(f0)).len() as int)),
{
    let t = u8::spec_encode(7u8);
    let e0 = NonZeroU16::spec_encode(f0);
    assert(t + e0 + rest =~= t + (e0 + rest));
    u8::lemma_codec(7u8, (e0 + rest));
    assert((t + (e0 + rest)).skip(t.len() as int) =~= (e0 + rest));
    NonZeroU16::lemma_codec(f0, rest);
}

proof fn lemma_constant_entry_codec_6<'de>(f0: NonZeroU16, rest: Seq<u8>)
    requires
        NonZeroU16::wf(f0),
    ensures
        <ConstantEntry<'de> as Decode<'de>>::spec_decode(<ConstantEntry<'de> as Encode>::spec_encode(SpecConstantEntry::String(f0)) + rest) == Ok::<(SpecConstantEntry, int), Error>((SpecConstantEntry::String(f0), <ConstantEntry<'de> as Encode>::spec_encode(SpecConstantEntry::String(f0)).len() as int)),
{
    let t = u8::spec_encode(8u8);
    let e0 = NonZeroU16::spec_encode(f0);
    assert(t + e0 + rest =~= t + (e0 + rest));
    u8::lemma_codec(8u8, (e0 + rest));
    assert((t + (e0 + rest)).skip(t.len() as int) =~= (e0 + rest));
    NonZeroU16::lemma_codec(f0, rest);
}

proof fn lemma_constant_entry_codec_7<'de>(f0: NonZeroU16, f1: NonZeroU16, rest: Seq<u8>)
    requires
        NonZeroU16::wf(f0) && NonZeroU16::wf(f1),
    ensures
        <ConstantEntry<'de> as Decode<'de>>::spec_decode(<ConstantEntry<'de> as Encode>::spec_encode(SpecConstantEntry::FieldRef { class_index: f0, name_and_type_index: f1 }) + rest) == Ok::<(SpecConstantEntry, int), Error>((SpecConstantEntry::FieldRef { class_index: f0, name_and_type_index: f1 }, <ConstantEntry<'de> as Encode>::spec_encode(SpecConstantEntry::FieldRef { class_index: f0, name_and_type_index: f1 }).len() as int)),
{
    let t = u8::spec_encode(9u8);
    let e0 = NonZeroU16::spec_encode(f0);
    let e1 = NonZeroU16::spec_encode(f1);
    assert(t + e0 + e1 + rest =~= t + (e0 + (e1 + rest)));
    u8::lemma_codec(9u8, (e0 + (e1 + rest)));
    assert((t + (e0 + (e1 + rest))).skip(t.len() as int) =~= (e0 + (e1 + rest)));
    NonZeroU16::lemma_codec(f0, (e1 + rest));
    assert((e0 + (e1 + rest)).skip(e0.len() as int) =~= (e1 + rest));
    NonZeroU16::lemma_codec(f1, rest);
}

proof fn lemma_constant_entry_codec_8<'de>(f0: NonZeroU16, f1: NonZeroU16, rest: Seq<u8>)
    requires
        NonZeroU16::wf(f0) && NonZeroU16::wf(f1),
    ensures
        <ConstantEntry<'de> as Decode<'de>>::spec_decode(<ConstantEntry<'de> as Encode>::spec_encode(SpecConstantEntry::MethodRef { class_index: f0, name_and_type_index: f1 }) + rest) == Ok::<(SpecConstantEntry, int), Error>((SpecConstantEntry::MethodRef { class_index: f0, name_and_type_index: f1 }, <ConstantEntry<'de> as Encode>::spec_encode(SpecConstantEntry::MethodRef { class_index: f0, name_and_type_index: f1 }).len() as int)),
{
    let t = u8::spec_encode(10u8);
    let e0 = NonZeroU16::spec_encode(f0);
    let e1 = NonZeroU16::spec_encode(f1);
    assert(t + e0 + e1 + rest =~= t + (e0 + (e1 + rest)));
    u8::lemma_codec(10u8, (e0 + (e1 + rest)));
    assert((t + (e0 + (e1 + rest))).skip(t.len() as int) =~= (e0 + (e1 + rest)));
    NonZeroU16::lemma_codec(f0, (e1 + rest));
    assert((e0 + (e1 + rest)).skip(e0.len() as int) =~= (e1 + rest));
    NonZeroU16::lemma_codec(f1, rest);
}

proof fn lemma_constant_entry_codec_9<'de>(f0: NonZeroU16, f1: NonZeroU16, rest: Seq<u8>)
    requires
        NonZeroU16::wf(f0) && NonZeroU16::wf(f1),
    ensures
        <ConstantEntry<'de> as Decode<'de>>::spec_decode(<ConstantEntry<'de> as Encode>::spec_encode(SpecConstantEntry::InterfaceMethodRef { class_index: f0, name_and_type_index: f1 }) + rest) == Ok::<(SpecConstantEntry, int), Error>((SpecConstantEntry::InterfaceMethodRef { class_index: f0, name_and_type_index: f1 }, <ConstantEntry<'de> as Encode>::spec_encode(SpecConstantEntry::InterfaceMethodRef { class_index: f0, name_and_type_index: f1 }).len() as int)),
{
    let t = u8::spec_encode(11u8);
    let e0 = NonZeroU16::spec_encode(f0);
    let e1 = NonZeroU16::spec_encode(f1);
    assert(t + e0 + e1 + rest =~= t + (e0 + (e1 + rest)));
    u8::lemma_codec(11u8, (e0 + (e1 + rest)));
    assert((t + (e0 + (e1 + rest))).skip(t.len() as int) =~= (e0 + (e1 + rest)));
    NonZeroU16::lemma_codec(f0, (e1 + rest));
    assert((e0 + (e1 + rest)).skip(e0.len() as int) =~= (e1 + rest));
    NonZeroU16::lemma_codec(f1, rest);
}

proof fn lemma_constant_entry_codec_10<'de>(f0: NonZeroU16, f1: NonZeroU16, rest: Seq<u8>)
    requires
        NonZeroU16::wf(f0) && NonZeroU16::wf(f1),
    ensures
        <ConstantEntry<'de> as Decode<'de>>::spec_decode(<ConstantEntry<'de> as Encode>::spec_encode(SpecConstantEntry::NameAndType { name_index: f0, descriptor_index: f1 }) + rest) == Ok::<(SpecConstantEntry, int), Error>((SpecConstantEntry::NameAndType { name_index: f0, descriptor_index: f1 }, <ConstantEntry<'de> as Encode>::spec_encode(SpecConstantEntry::NameAndType { name_index: f0, descriptor_index: f1 }).len() as int)),
{
    let t = u8::spec_encode(12u8);
    let e0 = NonZeroU16::spec_encode(f0);
    let e1 = NonZeroU16::spec_encode(f1);
    assert(t + e0 + e1 + rest =~= t + (e0 + (e1 + rest)));
    u8::lemma_codec(12u8, (e0 + (e1 + rest)));
    assert((t + (e0 + (e1 + rest))).skip(t.len() as int) =~= (e0 + (e1 + rest)));
    NonZeroU16::lemma_codec(f0, (e1 + rest));
    assert((e0 + (e1 + rest)).skip(e0.len() as int) =~= (e1 + rest));
    NonZeroU16::lemma_codec(f1, rest);
}

proof fn lemma_constant_entry_codec_11<'de>(f0: ReferenceKind, f1: NonZeroU16, rest: Seq<u8>)
    requires
        ReferenceKind::wf(f0) && NonZeroU16::wf(f1),
    ensures
        <ConstantEntry<'de> as Decode<'de>>::spec_decode(<ConstantEntry<'de> as Encode>::spec_encode(SpecConstantEntry::MethodHandle { ref_kind: f0, ref_index: f1 }) + rest) == Ok::<(SpecConstantEntry, int), Error>((SpecConstantEntry::MethodHandle { ref_kind: f0, ref_index: f1 }, <ConstantEntry<'de> as Encode>::spec_encode(SpecConstantEntry::MethodHandle { ref_kind: f0, ref_index: f1 }).len() as int)),
{
    let t = u8::spec_encode(15u8);
    let e0 = ReferenceKind::spec_encode(f0);
    let e1 = NonZeroU16::spec_encode(f1);
    assert(t + e0 + e1 + rest =~= t + (e0 + (e1 + rest)));
    u8::lemma_codec(15u8, (e0 + (e1 + rest)));
    assert((t + (e0 + (e1 + rest))).skip(t.len() as int) =~= (e0 + (e1 + rest)));
    ReferenceKind::lemma_codec(f0, (e1 + rest));
    assert((e0 + (e1 + rest)).skip(e0.len() as int) =~= (e1 + rest));
    NonZeroU16::lemma_codec(f1, rest);
}

proof fn lemma_constant_entry_codec_12<'de>(f0: NonZeroU16, rest: Seq<u8>)
    requires
        NonZeroU16::wf(f0),
    ensures
        <ConstantEntry<'de> as Decode<'de>>::spec_decode(<ConstantEntry<'de> as Encode>::spec_encode(SpecConstantEntry::MethodType(f0)) + rest) == Ok::<(SpecConstantEntry, int), Error>((SpecConstantEntry::MethodType(f0), <ConstantEntry<'de> as Encode>::spec_encode(SpecConstantEntry::MethodType(f0)).len() as int)),
{
    let t = u8::spec_encode(16u8);
    let e0 = NonZeroU16::spec_encode(f0);
    assert(t + e0 + rest =~= t + (e0 + rest));
    u8::lemma_codec(16u8, (e0 + rest));
    assert((t + (e0 + rest)).skip(t.len() as int) =~= (e0 + rest));
    NonZeroU16::lemma_codec(f0, rest);
}

proof fn lemma_constant_entry_codec_13<'de>(f0: u16, f1: NonZeroU16, rest: Seq<u8>)
    requires
        u16::wf(f0) && NonZeroU16::wf(f1),
    ensures
        <ConstantEntry<'de> as Decode<'de>>::spec_decode(<ConstantEntry<'de> as Encode>::spec_encode(SpecConstantEntry::Dynamic { bootstrap_method_attr_index: f0, name_and_type_index: f1 }) + rest) == Ok::<(SpecConstantEntry, int), Error>((SpecConstantEntry::Dynamic { bootstrap_method_attr_index: f0, name_and_type_index: f1 }, <ConstantEntry<'de> as Encode>::spec_encode(SpecConstantEntry::Dynamic { bootstrap_method_attr_index: f0, name_and_type_index: f1 }).len() as int)),
{
    let t = u8::spec_encode(17u8);
    let e0 = u16::spec_encode(f0);
    let e1 = NonZeroU16::spec_encode(f1);
    assert(t + e0 + e1 + rest =~= t + (e0 + (e1 + rest)));
    u8::lemma_codec(17u8, (e0 + (e1 + rest)));
    assert((t + (e0 + (e1 + rest))).skip(t.len() as int) =~= (e0 + (e1 + rest)));
    u16::lemma_codec(f0, (e1 + rest));
    assert((e0 + (e1 + rest)).skip(e0.len() as int) =~= (e1 + rest));
    NonZeroU16::lemma_codec(f1, rest);
}

proof fn lemma_constant_entry_codec_14<'de>(f0: u16, f1: NonZeroU16, rest: Seq<u8>)
    requires
        u16::wf(f0) && NonZeroU16::wf(f1),
    ensures
        <ConstantEntry<'de> as Decode<'de>>::spec_decode(<ConstantEntry<'de> as Encode>::spec_encode(SpecConstantEntry::InvokeDynamic { bootstrap_method_attr_index: f0, name_and_type_index: f1 }) + rest) == Ok::<(SpecConstantEntry, int), Error>((SpecConstantEntry::InvokeDynamic { bootstrap_method_attr_index: f0, name_and_type_index: f1 }, <ConstantEntry<'de> as Encode>::spec_encode(SpecConstantEntry::InvokeDynamic { bootstrap_method_attr_index: f0, name_and_type_index: f1 }).len() as int)),
{
    let t = u8::spec_encode(18u8);
    let e0 = u16::spec_encode(f0);
    let e1 = NonZeroU16::spec_encode(f1);
    assert(t + e0 + e1 + rest =~= t + (e0 + (e1 + rest)));
    u8::lemma_codec(18u8, (e0 + (e1 + rest)));
    assert((t + (e0 + (e1 + rest))).skip(t.len() as int) =~= (e0 + (e1 + rest)));
    u16::lemma_codec(f0, (e1 + rest));
    assert((e0 + (e1 + rest)).skip(e0.len() as int) =~= (e1 + rest));
    NonZeroU16::lemma_codec(f1, rest);
}

proof fn lemma_constant_entry_codec_15<'de>(f0: NonZeroU16, rest: Seq<u8>)
    requires
        NonZeroU16::wf(f0),
    ensures
        <ConstantEntry<'de> as Decode<'de>>::spec_decode(<ConstantEntry<'de> as Encode>::spec_encode(SpecConstantEntry::Module(f0)) + rest) == Ok::<(SpecConstantEntry, int), Error>((SpecConstantEntry::Module(f0), <ConstantEntry<'de> as Encode>::spec_encode(SpecConstantEntry::Module(f0)).len() as int)),
{
    let t = u8::spec_encode(19u8);
    let e0 = NonZeroU16::spec_encode(f0);
    assert(t + e0 + rest =~= t + (e0 + rest));
    u8::lemma_codec(19u8, (e0 + rest));
    assert((t + (e0 + rest)).skip(t.len() as int) =~= (e0 + rest));
    NonZeroU16::lemma_codec(f0, rest);
}

proof fn lemma_constant_entry_codec_16<'de>(f0: NonZeroU16, rest: Seq<u8>)
    requires
        NonZeroU16::wf(f0),
    ensures
        <ConstantEntry<'de> as Decode<'de>>::spec_decode(<ConstantEntry<'de> as Encode>::spec_encode(SpecConstantEntry::Package(f0)) + rest) == Ok::<(SpecConstantEntry, int), Error>((SpecConstantEntry::Package(f0), <ConstantEntry<'de> as Encode>::spec_encode(SpecConstantEntry::Package(f0)).len() as int)),
{
    let t = u8::spec_encode(20u8);
    let e0 = NonZeroU16::spec_encode(f0);
    assert(t + e0 + rest =~= t + (e0 + rest));
    u8::lemma_codec(20u8, (e0 + rest));
    assert((t + (e0 + rest)).skip(t.len() as int) =~= (e0 + rest));
    NonZeroU16::lemma_codec(f0, rest);
}

/// Kind of a method handle, characterizing its bytecode behavior.
#[derive(Debug, Clone, Copy, PartialEq, Eq, PartialOrd, Ord, Hash)]
pub enum ReferenceKind {
    /// Get an instance field (`REF_getField`).
    GetField,
    /// Get a static field (`REF_getStatic`).
    GetStatic,
    /// Set an instance field (`REF_putField`).
    PutField,
    /// Set a static field (`REF_putStatic`).
    PutStatic,
    /// Invoke a virtual method (`REF_invokeVirtual`).
    InvokeVirtual,
    /// Invoke a static method (`REF_invokeStatic`).
    InvokeStatic,
    /// Invoke a special/private method or constructor (`REF_invokeSpecial`).
    InvokeSpecial,
    /// Invoke a constructor via `new` + `<init>` dispatch (`REF_newInvokeSpecial`).
    NewInvokeSpecial,
    /// Invoke an interface method (`REF_invokeInterface`).
    InvokeInterface,
}

impl View for ReferenceKind {
    type V = ReferenceKind;

    open spec fn view(&self) -> ReferenceKind {
        *self
    }
}

impl<'de> Decode<'de> for ReferenceKind {
    /// A tag byte, then the fields of the variant that it stands for.
    open spec fn spec_decode(s: Seq<u8>) -> Result<(ReferenceKind, int), Error> {
        match u8::spec_decode(s) {
            Err(e) => Err(e),
            Ok((tag, n)) => {
                let r = s.skip(n);
                if tag == 1 {
                    Ok((ReferenceKind::GetField, n))
                } else if tag == 2 {
                    Ok((ReferenceKind::GetStatic, n))
                } else if tag == 3 {
                    Ok((ReferenceKind::PutField, n))
                } else if tag == 4 {
                    Ok((ReferenceKind::PutStatic, n))
                } else if tag == 5 {
                    Ok((ReferenceKind::InvokeVirtual, n))
                } else if tag == 6 {
                    Ok((ReferenceKind::InvokeStatic, n))
                } else if tag == 7 {
                    Ok((ReferenceKind::InvokeSpecial, n))
                } else if tag == 8 {
                    Ok((ReferenceKind::NewInvokeSpecial, n))
                } else if tag == 9 {
                    Ok((ReferenceKind::InvokeInterface, n))
                } else {
                    Err(Error::UnknownReferenceKind(tag))
                }
            },
        }
    }

    open spec fn decode_requires(s: Seq<u8>) -> bool {
        match u8::spec_decode(s) {
            Err(_) => true,
            Ok((tag, n)) => {
                let r = s.skip(n);
                if tag == 1 {
                    true
                } else if tag == 2 {
                    true
                } else if tag == 3 {
                    true
                } else if tag == 4 {
                    true
                } else if tag == 5 {
                    true
                } else if tag == 6 {
                    true
                } else if tag == 7 {
                    true
                } else if tag == 8 {
                    true
                } else if tag == 9 {
                    true
                } else {
                    true
                }
            },
        }
    }

    fn decode<B: Buf<'de>>(buf: &mut B) -> (r: Result<ReferenceKind, Error>) {
        let tag = u8::decode(buf)?;
        match tag {
            1 => {
                Ok(ReferenceKind::GetField)
            },
            2 => {
                Ok(ReferenceKind::GetStatic)
            },
            3 => {
                Ok(ReferenceKind::PutField)
            },
            4 => {
                Ok(ReferenceKind::PutStatic)
            },
            5 => {
                Ok(ReferenceKind::InvokeVirtual)
            },
            6 => {
                Ok(ReferenceKind::InvokeStatic)
            },
            7 => {
                Ok(ReferenceKind::InvokeSpecial)
            },
            8 => {
                Ok(ReferenceKind::NewInvokeSpecial)
            },
            9 => {
                Ok(ReferenceKind::InvokeInterface)
            },
            _ => Err(Error::UnknownReferenceKind(tag)),
        }
    }
}

impl Encode for ReferenceKind {
    open spec fn spec_encode(v: ReferenceKind) -> Seq<u8> {
        match v {
            ReferenceKind::GetField => u8::spec_encode(1u8),
            ReferenceKind::GetStatic => u8::spec_encode(2u8),
            ReferenceKind::PutField => u8::spec_encode(3u8),
            ReferenceKind::PutStatic => u8::spec_encode(4u8),
            ReferenceKind::InvokeVirtual => u8::spec_encode(5u8),
            ReferenceKind::InvokeStatic => u8::spec_encode(6u8),
            ReferenceKind::InvokeSpecial => u8::spec_encode(7u8),
            ReferenceKind::NewInvokeSpecial => u8::spec_encode(8u8),
            ReferenceKind::InvokeInterface => u8::spec_encode(9u8),
        }
    }

    open spec fn encodable(v: ReferenceKind) -> bool {
        true
    }

    open spec fn encode_requires(v: ReferenceKind) -> bool {
        match v {
            ReferenceKind::GetField => true,
            ReferenceKind::GetStatic => true,
            ReferenceKind::PutField => true,
            ReferenceKind::PutStatic => true,
            ReferenceKind::InvokeVirtual => true,
            ReferenceKind::InvokeStatic => true,
            ReferenceKind::InvokeSpecial => true,
            ReferenceKind::NewInvokeSpecial => true,
            ReferenceKind::InvokeInterface => true,
        }
    }

    fn encode<B: BufMut>(&self, buf: &mut B) -> (r: Result<(), Error>) {
        let ghost b0 = *buf;
        let ghost total = Self::spec_encode(self@);
        proof {
            lemma_progress_start(b0);
        }
        match self {
            ReferenceKind::GetField => {
                let tag: u8 = 1;
                put(buf, &tag, Ghost(b0), Ghost(Seq::empty()), Ghost(total))?;
                assert(Seq::empty() + u8::spec_encode(tag) =~= total);
                Ok(())
            },
            ReferenceKind::GetStatic => {
                let tag: u8 = 2;
                put(buf, &tag, Ghost(b0), Ghost(Seq::empty()), Ghost(total))?;
                assert(Seq::empty() + u8::spec_encode(tag) =~= total);
                Ok(())
            },
            ReferenceKind::PutField => {
                let tag: u8 = 3;
                put(buf, &tag, Ghost(b0), Ghost(Seq::empty()), Ghost(total))?;
                assert(Seq::empty() + u8::spec_encode(tag) =~= total);
                Ok(())
            },
            ReferenceKind::PutStatic => {
                let tag: u8 = 4;
                put(buf, &tag, Ghost(b0), Ghost(Seq::empty()), Ghost(total))?;
                assert(Seq::empty() + u8::spec_encode(tag) =~= total);
                Ok(())
            },
            ReferenceKind::InvokeVirtual => {
                let tag: u8 = 5;
                put(buf, &tag, Ghost(b0), Ghost(Seq::empty()), Ghost(total))?;
                assert(Seq::empty() + u8::spec_encode(tag) =~= total);
                Ok(())
            },
            ReferenceKind::InvokeStatic => {
                let tag: u8 = 6;
                put(buf, &tag, Ghost(b0), Ghost(Seq::empty()), Ghost(total))?;
                assert(Seq::empty() + u8::spec_encode(tag) =~= total);
                Ok(())
            },
            ReferenceKind::InvokeSpecial => {
                let tag: u8 = 7;
                put(buf, &tag, Ghost(b0), Ghost(Seq::empty()), Ghost(total))?;
                assert(Seq::empty() + u8::spec_encode(tag) =~= total);
                Ok(())
            },
            ReferenceKind::NewInvokeSpecial => {
                let tag: u8 = 8;
                put(buf, &tag, Ghost(b0), Ghost(Seq::empty()), Ghost(total))?;
                assert(Seq::empty() + u8::spec_encode(tag) =~= total);
                Ok(())
            },
            ReferenceKind::InvokeInterface => {
                let tag: u8 = 9;
                put(buf, &tag, Ghost(b0), Ghost(Seq::empty()), Ghost(total))?;
                assert(Seq::empty() + u8::spec_encode(tag) =~= total);
                Ok(())
            },
        }
    }
}

impl<'de> Codec<'de> for ReferenceKind {
    open spec fn wf(v: ReferenceKind) -> bool {
        match v {
            ReferenceKind::GetField => true,
            ReferenceKind::GetStatic => true,
            ReferenceKind::PutField => true,
            ReferenceKind::PutStatic => true,
            ReferenceKind::InvokeVirtual => true,
            ReferenceKind::InvokeStatic => true,
            ReferenceKind::InvokeSpecial => true,
            ReferenceKind::NewInvokeSpecial => true,
            ReferenceKind::InvokeInterface => true,
        }
    }

    proof fn lemma_codec(v: ReferenceKind, rest: Seq<u8>) {
        match v {
            ReferenceKind::GetField => lemma_reference_kind_codec_0(rest),
            ReferenceKind::GetStatic => lemma_reference_kind_codec_1(rest),
            ReferenceKind::PutField => lemma_reference_kind_codec_2(rest),
            ReferenceKind::PutStatic => lemma_reference_kind_codec_3(rest),
            ReferenceKind::InvokeVirtual => lemma_reference_kind_codec_4(rest),
            ReferenceKind::InvokeStatic => lemma_reference_kind_codec_5(rest),
            ReferenceKind::InvokeSpecial => lemma_reference_kind_codec_6(rest),
            ReferenceKind::NewInvokeSpecial => lemma_reference_kind_codec_7(rest),
            ReferenceKind::InvokeInterface => lemma_reference_kind_codec_8(rest),
        }
    }
}

proof fn lemma_reference_kind_codec_0<'de>(rest: Seq<u8>)
    requires
        true,
    ensures
        <ReferenceKind as Decode<'de>>::spec_decode(<ReferenceKind as Encode>::spec_encode(ReferenceKind::GetField) + rest) == Ok::<(ReferenceKind, int), Error>((ReferenceKind::GetField, <ReferenceKind as Encode>::spec_encode(ReferenceKind::GetField).len() as int)),
{
    let t = u8::spec_encode(1u8);
    assert(t + rest =~= t + rest);
    u8::lemma_codec(1u8, rest);
    assert((t + rest).skip(t.len() as int) =~= rest);
}

proof fn lemma_reference_kind_codec_1<'de>(rest: Seq<u8>)
    requires
        true,
    ensures
        <ReferenceKind as Decode<'de>>::spec_decode(<ReferenceKind as Encode>::spec_encode(ReferenceKind::GetStatic) + rest) == Ok::<(ReferenceKind, int), Error>((ReferenceKind::GetStatic, <ReferenceKind as Encode>::spec_encode(ReferenceKind::GetStatic).len() as int)),
{
    let t = u8::spec_encode(2u8);
    assert(t + rest =~= t + rest);
    u8::lemma_codec(2u8, rest);
    assert((t + rest).skip(t.len() as int) =~= rest);
}

proof fn lemma_reference_kind_codec_2<'de>(rest: Seq<u8>)
    requires
        true,
    ensures
        <ReferenceKind as Decode<'de>>::spec_decode(<ReferenceKind as Encode>::spec_encode(ReferenceKind::PutField) + rest) == Ok::<(ReferenceKind, int), Error>((ReferenceKind::PutField, <ReferenceKind as Encode>::spec_encode(ReferenceKind::PutField).len() as int)),
{
    let t = u8::spec_encode(3u8);
    assert(t + rest =~= t + rest);
    u8::lemma_codec(3u8, rest);
    assert((t + rest).skip(t.len() as int) =~= rest);
}

proof fn lemma_reference_kind_codec_3<'de>(rest: Seq<u8>)
    requires
        true,
    ensures
        <ReferenceKind as Decode<'de>>::spec_decode(<ReferenceKind as Encode>::spec_encode(ReferenceKind::PutStatic) + rest) == Ok::<(ReferenceKind, int), Error>((ReferenceKind::PutStatic, <ReferenceKind as Encode>::spec_encode(ReferenceKind::PutStatic).len() as int)),
{
    let t = u8::spec_encode(4u8);
    assert(t + rest =~= t + rest);
    u8::lemma_codec(4u8, rest);
    assert((t + rest).skip(t.len() as int) =~= rest);
}

proof fn lemma_reference_kind_codec_4<'de>(rest: Seq<u8>)
    requires
        true,
    ensures
        <ReferenceKind as Decode<'de>>::spec_decode(<ReferenceKind as Encode>::spec_encode(ReferenceKind::InvokeVirtual) + rest) == Ok::<(ReferenceKind, int), Error>((ReferenceKind::InvokeVirtual, <ReferenceKind as Encode>::spec_encode(ReferenceKind::InvokeVirtual).len() as int)),
{
    let t = u8::spec_encode(5u8);
    assert(t + rest =~= t + rest);
    u8::lemma_codec(5u8, rest);
    assert((t + rest).skip(t.len() as int) =~= rest);
}

proof fn lemma_reference_kind_codec_5<'de>(rest: Seq<u8>)
    requires
        true,
    ensures
        <ReferenceKind as Decode<'de>>::spec_decode(<ReferenceKind as Encode>::spec_encode(ReferenceKind::InvokeStatic) + rest) == Ok::<(ReferenceKind, int), Error>((ReferenceKind::InvokeStatic, <ReferenceKind as Encode>::spec_encode(ReferenceKind::InvokeStatic).len() as int)),
{
    let t = u8::spec_encode(6u8);
    assert(t + rest =~= t + rest);
    u8::lemma_codec(6u8, rest);
    assert((t + rest).skip(t.len() as int) =~= rest);
}

proof fn lemma_reference_kind_codec_6<'de>(rest: Seq<u8>)
    requires
        true,
    ensures
        <ReferenceKind as Decode<'de>>::spec_decode(<ReferenceKind as Encode>::spec_encode(ReferenceKind::InvokeSpecial) + rest) == Ok::<(ReferenceKind, int), Error>((ReferenceKind::InvokeSpecial, <ReferenceKind as Encode>::spec_encode(ReferenceKind::InvokeSpecial).len() as int)),
{
    let t = u8::spec_encode(7u8);
    assert(t + rest =~= t + rest);
    u8::lemma_codec(7u8, rest);
    assert((t + rest).skip(t.len() as int) =~= rest);
}

proof fn lemma_reference_kind_codec_7<'de>(rest: Seq<u8>)
    requires
        true,
    ensures
        <ReferenceKind as Decode<'de>>::spec_decode(<ReferenceKind as Encode>::spec_encode(ReferenceKind::NewInvokeSpecial) + rest) == Ok::<(ReferenceKind, int), Error>((ReferenceKind::NewInvokeSpecial, <ReferenceKind as Encode>::spec_encode(ReferenceKind::NewInvokeSpecial).len() as int)),
{
    let t = u8::spec_encode(8u8);
    assert(t + rest =~= t + rest);
    u8::lemma_codec(8u8, rest);
    assert((t + rest).skip(t.len() as int) =~= rest);
}

proof fn lemma_reference_kind_codec_8<'de>(rest: Seq<u8>)
    requires
        true,
    ensures
        <ReferenceKind as Decode<'de>>::spec_decode(<ReferenceKind as Encode>::spec_encode(ReferenceKind::InvokeInterface) + rest) == Ok::<(ReferenceKind, int), Error>((ReferenceKind::InvokeInterface, <ReferenceKind as Encode>::spec_encode(ReferenceKind::InvokeInterface).len() as int)),
{
    let t = u8::spec_encode(9u8);
    assert(t + rest =~= t + rest);
    u8::lemma_codec(9u8, rest);
    assert((t + rest).skip(t.len() as int) =~= rest);
}

/// Another name of [`ConstantEntry`].
pub type ConstantPoolEntry<'a> = ConstantEntry<'a>;

impl SpecConstantEntry {
    /// The amount of index space the entry takes.
    pub open spec fn spec_space(self) -> u16 {
        match self {
            SpecConstantEntry::Long(_) | SpecConstantEntry::Double(_) => 2,
            _ => 1,
        }
    }
}

impl<'a> ConstantEntry<'a> {
    /// The amount of index space this entry takes.
    ///
    /// If the index of this entry is `i` and it took `n` space then
    /// the next available index is `i + n`.
    ///
    /// All entries are `1` except for `Long` and `Double` that are `2`.
    pub fn space(&self) -> (r: u16)
        ensures
            r == self@.spec_space(),
    {
        match self {
            ConstantEntry::Long(_) | ConstantEntry::Double(_) => 2,
            _ => 1,
        }
    }
}

impl ReferenceKind {
    /// The number that stands for this kind in a classfile.
    pub open spec fn spec_number(self) -> u8 {
        match self {
            ReferenceKind::GetField => 1,
            ReferenceKind::GetStatic => 2,
            ReferenceKind::PutField => 3,
            ReferenceKind::PutStatic => 4,
            ReferenceKind::InvokeVirtual => 5,
            ReferenceKind::InvokeStatic => 6,
            ReferenceKind::InvokeSpecial => 7,
            ReferenceKind::NewInvokeSpecial => 8,
            ReferenceKind::InvokeInterface => 9,
        }
    }

    /// The number that stands for this kind in a classfile.
    pub fn number(&self) -> (r: u8)
        ensures
            r == self.spec_number(),
    {
        match self {
            ReferenceKind::GetField => 1,
            ReferenceKind::GetStatic => 2,
            ReferenceKind::PutField => 3,
            ReferenceKind::PutStatic => 4,
            ReferenceKind::InvokeVirtual => 5,
            ReferenceKind::InvokeStatic => 6,
            ReferenceKind::InvokeSpecial => 7,
            ReferenceKind::NewInvokeSpecial => 8,
            ReferenceKind::InvokeInterface => 9,
        }
    }

    /// The name of this kind as the specification writes it.
    pub fn name(&self) -> (r: &'static str)
        ensures
            r@ == (match *self {
                ReferenceKind::GetField => "REF_getField"@,
                ReferenceKind::GetStatic => "REF_getStatic"@,
                ReferenceKind::PutField => "REF_putField"@,
                ReferenceKind::PutStatic => "REF_putStatic"@,
                ReferenceKind::InvokeVirtual => "REF_invokeVirtual"@,
                ReferenceKind::InvokeStatic => "REF_invokeStatic"@,
                ReferenceKind::InvokeSpecial => "REF_invokeSpecial"@,
                ReferenceKind::NewInvokeSpecial => "REF_newInvokeSpecial"@,
                ReferenceKind::InvokeInterface => "REF_invokeInterface"@,
            }),
    {
        match self {
            ReferenceKind::GetField => "REF_getField",
            ReferenceKind::GetStatic => "REF_getStatic",
            ReferenceKind::PutField => "REF_putField",
            ReferenceKind::PutStatic => "REF_putStatic",
            ReferenceKind::InvokeVirtual => "REF_invokeVirtual",
            ReferenceKind::InvokeStatic => "REF_invokeStatic",
            ReferenceKind::InvokeSpecial => "REF_invokeSpecial",
            ReferenceKind::NewInvokeSpecial => "REF_newInvokeSpecial",
            ReferenceKind::InvokeInterface => "REF_invokeInterface",
        }
    }
}

} // verus!
