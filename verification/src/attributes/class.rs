use vstd::prelude::*;

#[allow(unused_imports)]
use crate::util::{
    encode_post, lemma_progress_start, put, put_slice, read_post, Buf, BufMut, Codec, Decode,
    Encode,
};
#[allow(unused_imports)]
use crate::{Error, NonZeroU16};
#[allow(unused_imports)]
use super::array::{ArrayReader, ArrayReaderU8, ArrayWriter, ArrayWriterU8};

verus! {

/// Name of `Exceptions` attribute. See [`ExceptionsReader`] and [`ExceptionsWriter`] for usage.
pub const NAME_EXCEPTIONS: &'static str = "Exceptions";

/// Reader of `Exceptions` attribute, where the entry is index to constant pool `Class` item.
pub type ExceptionsReader<'a, B> = ArrayReader<'a, B, NonZeroU16>;

/// Writer of `Exceptions` attribute, where the entry is index to constant pool `Class` item.
pub type ExceptionsWriter<B> = ArrayWriter<B, NonZeroU16>;

/// Name of `InnerClasses` attribute. See [`InnerClassesReader`] and [`InnerClassesWriter`] for usage.
pub const NAME_INNER_CLASSES: &'static str = "InnerClasses";

/// Reader of `InnerClasses` attribute.
pub type InnerClassesReader<'a, B> = ArrayReader<'a, B, InnerClass>;

/// Writer of `InnerClasses` attribute.
pub type InnerClassesWriter<B> = ArrayWriter<B, InnerClass>;

/// Represents an inner class in `InnerClasses` attribute.
#[derive(Debug, Clone, Copy, PartialEq, Eq, PartialOrd, Ord, Hash)]
pub struct InnerClass {
    /// Index to constant pool (`Class`) representing the nested class.
    pub inner_info_idx: NonZeroU16,
    /// Index to constant pool (`Class`) representing the parent class,
    /// if the inner class is nor a top-level class or interface or a local class
    /// or an anonymous class. Otherwise it should be `None`.
    pub outer_info_idx: Option<NonZeroU16>,
    /// Index to constant pool (`Utf8`) represents the original simple name of nested class,
    /// if it's not anonymous.
    pub inner_name_idx: Option<NonZeroU16>,
    /// Properties of the nested class.
    pub inner_access_flags: InnerClassAccessFlags,
}

impl View for InnerClass {
    type V = InnerClass;

    open spec fn view(&self) -> InnerClass {
        *self
    }
}

impl<'de> Decode<'de> for InnerClass {
    /// The fields in order: `inner_info_idx`, `outer_info_idx`, `inner_name_idx`, `inner_access_flags`.
    open spec fn spec_decode(s: Seq<u8>) -> Result<(InnerClass, int), Error> {
        match NonZeroU16::spec_decode(s) {
            Err(e) => Err(e),
            Ok((inner_info_idx_v, n0)) =>
            match <Option<NonZeroU16>>::spec_decode(s.skip(n0)) {
                Err(e) => Err(e),
                Ok((outer_info_idx_v, n1)) =>
                match <Option<NonZeroU16>>::spec_decode(s.skip(n0).skip(n1)) {
                    Err(e) => Err(e),
                    Ok((inner_name_idx_v, n2)) =>
                    match InnerClassAccessFlags::spec_decode(s.skip(n0).skip(n1).skip(n2)) {
                        Err(e) => Err(e),
                        Ok((inner_access_flags_v, n3)) =>
                        Ok((InnerClass { inner_info_idx: inner_info_idx_v, outer_info_idx: outer_info_idx_v, inner_name_idx: inner_name_idx_v, inner_access_flags: inner_access_flags_v }, n0 + n1 + n2 + n3))
                    }
                }
            }
        }
    }

    open spec fn decode_requires(s: Seq<u8>) -> bool {
        NonZeroU16::decode_requires(s) && match NonZeroU16::spec_decode(s) {
            Err(_) => true,
            Ok((_, n0)) =>
            <Option<NonZeroU16>>::decode_requires(s.skip(n0)) && match <Option<NonZeroU16>>::spec_decode(s.skip(n0)) {
                Err(_) => true,
                Ok((_, n1)) =>
                <Option<NonZeroU16>>::decode_requires(s.skip(n0).skip(n1)) && match <Option<NonZeroU16>>::spec_decode(s.skip(n0).skip(n1)) {
                    Err(_) => true,
                    Ok((_, n2)) =>
                    InnerClassAccessFlags::decode_requires(s.skip(n0).skip(n1).skip(n2))
                }
            }
        }
    }

    fn decode<B: Buf<'de>>(buf: &mut B) -> (r: Result<InnerClass, Error>) {
        let inner_info_idx_v = NonZeroU16::decode(buf)?;
        let outer_info_idx_v = <Option<NonZeroU16>>::decode(buf)?;
        let inner_name_idx_v = <Option<NonZeroU16>>::decode(buf)?;
        let inner_access_flags_v = InnerClassAccessFlags::decode(buf)?;
        Ok(InnerClass { inner_info_idx: inner_info_idx_v, outer_info_idx: outer_info_idx_v, inner_name_idx: inner_name_idx_v, inner_access_flags: inner_access_flags_v })
    }
}

impl Encode for InnerClass {
    open spec fn spec_encode(v: InnerClass) -> Seq<u8> {
        NonZeroU16::spec_encode(v.inner_info_idx) + <Option<NonZeroU16>>::spec_encode(v.outer_info_idx) + <Option<NonZeroU16>>::spec_encode(v.inner_name_idx) + InnerClassAccessFlags::spec_encode(v.inner_access_flags)
    }

    open spec fn encodable(v: InnerClass) -> bool {
        NonZeroU16::encodable(v.inner_info_idx) && <Option<NonZeroU16>>::encodable(v.outer_info_idx) && <Option<NonZeroU16>>::encodable(v.inner_name_idx) && InnerClassAccessFlags::encodable(v.inner_access_flags)
    }

    open spec fn encode_requires(v: InnerClass) -> bool {
        NonZeroU16::encode_requires(v.inner_info_idx) && <Option<NonZeroU16>>::encode_requires(v.outer_info_idx) && <Option<NonZeroU16>>::encode_requires(v.inner_name_idx) && InnerClassAccessFlags::encode_requires(v.inner_access_flags)
    }

    fn encode<B: BufMut>(&self, buf: &mut B) -> (r: Result<(), Error>) {
        let ghost b0 = *buf;
        let ghost total = Self::spec_encode(*self);
        proof {
            lemma_progress_start(b0);
        }
        put(buf, &self.inner_info_idx, Ghost(b0), Ghost(Seq::empty()), Ghost(total))?;
        put(buf, &self.outer_info_idx, Ghost(b0), Ghost(Seq::empty() + NonZeroU16::spec_encode(self.inner_info_idx)), Ghost(total))?;
        put(buf, &self.inner_name_idx, Ghost(b0), Ghost(Seq::empty() + NonZeroU16::spec_encode(self.inner_info_idx) + <Option<NonZeroU16>>::spec_encode(self.outer_info_idx)), Ghost(total))?;
        put(buf, &self.inner_access_flags, Ghost(b0), Ghost(Seq::empty() + NonZeroU16::spec_encode(self.inner_info_idx) + <Option<NonZeroU16>>::spec_encode(self.outer_info_idx) + <Option<NonZeroU16>>::spec_encode(self.inner_name_idx)), Ghost(total))?;
        assert(Seq::empty() + NonZeroU16::spec_encode(self.inner_info_idx) + <Option<NonZeroU16>>::spec_encode(self.outer_info_idx) + <Option<NonZeroU16>>::spec_encode(self.inner_name_idx) + InnerClassAccessFlags::spec_encode(self.inner_access_flags) =~= total);
        Ok(())
    }
}

impl<'de> Codec<'de> for InnerClass {
    open spec fn wf(v: InnerClass) -> bool {
        NonZeroU16::wf(v.inner_info_idx) && <Option<NonZeroU16>>::wf(v.outer_info_idx) && <Option<NonZeroU16>>::wf(v.inner_name_idx) && InnerClassAccessFlags::wf(v.inner_access_flags)
    }

    proof fn lemma_codec(v: InnerClass, rest: Seq<u8>) {
        let e0 = NonZeroU16::spec_encode(v.inner_info_idx);
        let e1 = <Option<NonZeroU16>>::spec_encode(v.outer_info_idx);
        let e2 = <Option<NonZeroU16>>::spec_encode(v.inner_name_idx);
        let e3 = InnerClassAccessFlags::spec_encode(v.inner_access_flags);
        assert(e0 + e1 + e2 + e3 + rest =~= (e0 + (e1 + (e2 + (e3 + rest)))));
        NonZeroU16::lemma_codec(v.inner_info_idx, (e1 + (e2 + (e3 + rest))));
        assert((e0 + (e1 + (e2 + (e3 + rest)))).skip(e0.len() as int) =~= (e1 + (e2 + (e3 + rest))));
        <Option<NonZeroU16>>::lemma_codec(v.outer_info_idx, (e2 + (e3 + rest)));
        assert((e1 + (e2 + (e3 + rest))).skip(e1.len() as int) =~= (e2 + (e3 + rest)));
        <Option<NonZeroU16>>::lemma_codec(v.inner_name_idx, (e3 + rest));
        assert((e2 + (e3 + rest)).skip(e2.len() as int) =~= (e3 + rest));
        InnerClassAccessFlags::lemma_codec(v.inner_access_flags, rest);
    }
}

/// Denote access permissions to and properties of a nested class or interface.
#[derive(Debug, Clone, Copy, PartialEq, Eq, PartialOrd, Ord, Hash)]
pub struct InnerClassAccessFlags {
    bits: u16,
}

impl InnerClassAccessFlags {
    /// Marked or implicitly `public` in source.
    pub const PUBLIC: u16 = 0x0001;

    /// Marked `private` in source.
    pub const PRIVATE: u16 = 0x0002;

    /// Marked `protected` in source.
    pub const PROTECTED: u16 = 0x0004;

    /// Marked or implicitly `static` in source.
    pub const STATIC: u16 = 0x0008;

    /// Marked or implicitly `final` in source.
    pub const FINAL: u16 = 0x0010;

    /// Was an `interface` in source.
    pub const INTERFACE: u16 = 0x0200;

    /// Marked or implicitly `abstract` in source.
    pub const ABSTRACT: u16 = 0x0400;

    /// Declared `synthetic`; not present in the source code.
    pub const SYNTHETIC: u16 = 0x1000;

    /// Declared as an annotation interface.
    pub const ANNOTATION: u16 = 0x2000;

    /// Declared as an enum class.
    pub const ENUM: u16 = 0x4000;

    /// The bits of all the flags defined.
    pub const ALL_BITS: u16 = 0x761f;

    /// The bits of this set.
    pub closed spec fn spec_bits(self) -> u16 {
        self.bits
    }

    /// The set with exactly the given bits, defined or not.
    pub closed spec fn spec_from_bits_retain(bits: u16) -> InnerClassAccessFlags {
        InnerClassAccessFlags { bits }
    }

    pub broadcast proof fn lemma_bits(bits: u16)
        ensures
            #[trigger] InnerClassAccessFlags::spec_from_bits_retain(bits).spec_bits() == bits,
    {
    }

    pub broadcast proof fn lemma_from_bits(f: InnerClassAccessFlags)
        ensures
            #[trigger] InnerClassAccessFlags::spec_from_bits_retain(f.spec_bits()) == f,
    {
    }

    /// Whether every bit of `bits` is a defined flag.
    pub open spec fn known(bits: u16) -> bool {
        bits & !InnerClassAccessFlags::ALL_BITS == 0
    }

    /// The bits of this set.
    pub fn bits(&self) -> (r: u16)
        ensures
            r == self.spec_bits(),
    {
        self.bits
    }

    /// The set with the given bits, if every one of them is a defined flag.
    pub fn from_bits(bits: u16) -> (r: Option<InnerClassAccessFlags>)
        ensures
            r == (if InnerClassAccessFlags::known(bits) {
                Some(InnerClassAccessFlags::spec_from_bits_retain(bits))
            } else {
                None
            }),
    {
        if bits & !InnerClassAccessFlags::ALL_BITS == 0 {
            Some(InnerClassAccessFlags { bits })
        } else {
            None
        }
    }

    /// The set with exactly the given bits, defined or not.
    pub fn from_bits_retain(bits: u16) -> (r: InnerClassAccessFlags)
        ensures
            r == InnerClassAccessFlags::spec_from_bits_retain(bits),
    {
        InnerClassAccessFlags { bits }
    }

    /// The set with the defined flags of `bits` and no other.
    pub fn from_bits_truncate(bits: u16) -> (r: InnerClassAccessFlags)
        ensures
            r.spec_bits() == bits & InnerClassAccessFlags::ALL_BITS,
    {
        InnerClassAccessFlags { bits: bits & InnerClassAccessFlags::ALL_BITS }
    }

    /// The empty set.
    pub fn empty() -> (r: InnerClassAccessFlags)
        ensures
            r.spec_bits() == 0,
    {
        InnerClassAccessFlags { bits: 0 }
    }

    /// The set of all defined flags.
    pub fn all() -> (r: InnerClassAccessFlags)
        ensures
            r.spec_bits() == InnerClassAccessFlags::ALL_BITS,
    {
        InnerClassAccessFlags { bits: InnerClassAccessFlags::ALL_BITS }
    }

    /// Whether no bit is set.
    pub fn is_empty(&self) -> (r: bool)
        ensures
            r == (self.spec_bits() == 0),
    {
        self.bits == 0
    }

    /// Whether every bit of `other` is set in `self`.
    pub fn contains(&self, other: InnerClassAccessFlags) -> (r: bool)
        ensures
            r == (self.spec_bits() & other.spec_bits() == other.spec_bits()),
    {
        self.bits & other.bits == other.bits
    }

    /// Whether some bit is set in both.
    pub fn intersects(&self, other: InnerClassAccessFlags) -> (r: bool)
        ensures
            r == (self.spec_bits() & other.spec_bits() != 0),
    {
        self.bits & other.bits != 0
    }

    /// The bits set in either.
    pub fn union(self, other: InnerClassAccessFlags) -> (r: InnerClassAccessFlags)
        ensures
            r.spec_bits() == self.spec_bits() | other.spec_bits(),
    {
        InnerClassAccessFlags { bits: self.bits | other.bits }
    }

    /// Sets the bits of `other`.
    pub fn insert(&mut self, other: InnerClassAccessFlags)
        ensures
            final(self).spec_bits() == old(self).spec_bits() | other.spec_bits(),
    {
        self.bits = self.bits | other.bits;
    }

    /// Clears the bits of `other`.
    pub fn remove(&mut self, other: InnerClassAccessFlags)
        ensures
            final(self).spec_bits() == old(self).spec_bits() & !other.spec_bits(),
    {
        self.bits = self.bits & !other.bits;
    }
}

impl View for InnerClassAccessFlags {
    type V = InnerClassAccessFlags;

    open spec fn view(&self) -> InnerClassAccessFlags {
        *self
    }
}

impl<'de> Decode<'de> for InnerClassAccessFlags {
    /// A `u16` of bits, kept as they are.
    open spec fn spec_decode(s: Seq<u8>) -> Result<(InnerClassAccessFlags, int), Error> {
        match u16::spec_decode(s) {
            Err(e) => Err(e),
            Ok((bits, n)) => Ok((InnerClassAccessFlags::spec_from_bits_retain(bits), n)),
        }
    }

    open spec fn decode_requires(s: Seq<u8>) -> bool {
        true
    }

    fn decode<B: Buf<'de>>(buf: &mut B) -> (r: Result<InnerClassAccessFlags, Error>) {
        let bits = u16::decode(buf)?;
        Ok(InnerClassAccessFlags::from_bits_retain(bits))
    }
}

impl Encode for InnerClassAccessFlags {
    open spec fn spec_encode(v: InnerClassAccessFlags) -> Seq<u8> {
        u16::spec_encode(v.spec_bits())
    }

    open spec fn encodable(v: InnerClassAccessFlags) -> bool {
        true
    }

    open spec fn encode_requires(v: InnerClassAccessFlags) -> bool {
        true
    }

    fn encode<B: BufMut>(&self, buf: &mut B) -> (r: Result<(), Error>) {
        self.bits().encode(buf)
    }
}

impl<'de> Codec<'de> for InnerClassAccessFlags {
    open spec fn wf(v: InnerClassAccessFlags) -> bool {
        true
    }

    proof fn lemma_codec(v: InnerClassAccessFlags, rest: Seq<u8>) {
        u16::lemma_codec(v.spec_bits(), rest);
    }
}

/// Name of [`EnclosingMethod`] attribute.
pub const NAME_ENCLOSING_METHOD: &'static str = "EnclosingMethod";

/// Properties of a local class or an anonymous class.
#[derive(Debug, Clone, Copy, PartialEq, Eq, PartialOrd, Ord, Hash)]
pub struct EnclosingMethod {
    /// The innermost class that encloses the declaration of the current class,
    /// as an index to constant pool (`Class`).
    pub class_idx: NonZeroU16,
    /// `NameAndType` of a method in the class referenced by the `class_idx` field in constant pool,
    /// only if it's immediately enclosed by a method or constructor.
    pub method_idx: Option<NonZeroU16>,
}

impl View for EnclosingMethod {
    type V = EnclosingMethod;

    open spec fn view(&self) -> EnclosingMethod {
        *self
    }
}

impl<'de> Decode<'de> for EnclosingMethod {
    /// The fields in order: `class_idx`, `method_idx`.
    open spec fn spec_decode(s: Seq<u8>) -> Result<(EnclosingMethod, int), Error> {
        match NonZeroU16::spec_decode(s) {
            Err(e) => Err(e),
            Ok((class_idx_v, n0)) =>
            match <Option<NonZeroU16>>::spec_decode(s.skip(n0)) {
                Err(e) => Err(e),
                Ok((method_idx_v, n1)) =>
                Ok((EnclosingMethod { class_idx: class_idx_v, method_idx: method_idx_v }, n0 + n1))
            }
        }
    }

    open spec fn decode_requires(s: Seq<u8>) -> bool {
        NonZeroU16::decode_requires(s) && match NonZeroU16::spec_decode(s) {
            Err(_) => true,
            Ok((_, n0)) =>
            <Option<NonZeroU16>>::decode_requires(s.skip(n0))
        }
    }

    fn decode<B: Buf<'de>>(buf: &mut B) -> (r: Result<EnclosingMethod, Error>) {
        let class_idx_v = NonZeroU16::decode(buf)?;
        let method_idx_v = <Option<NonZeroU16>>::decode(buf)?;
        Ok(EnclosingMethod { class_idx: class_idx_v, method_idx: method_idx_v })
    }
}

impl Encode for EnclosingMethod {
    open spec fn spec_encode(v: EnclosingMethod) -> Seq<u8> {
        NonZeroU16::spec_encode(v.class_idx) + <Option<NonZeroU16>>::spec_encode(v.method_idx)
    }

    open spec fn encodable(v: EnclosingMethod) -> bool {
        NonZeroU16::encodable(v.class_idx) && <Option<NonZeroU16>>::encodable(v.method_idx)
    }

    open spec fn encode_requires(v: EnclosingMethod) -> bool {
        NonZeroU16::encode_requires(v.class_idx) && <Option<NonZeroU16>>::encode_requires(v.method_idx)
    }

    fn encode<B: BufMut>(&self, buf: &mut B) -> (r: Result<(), Error>) {
        let ghost b0 = *buf;
        let ghost total = Self::spec_encode(*self);
        proof {
            lemma_progress_start(b0);
        }
        put(buf, &self.class_idx, Ghost(b0), Ghost(Seq::empty()), Ghost(total))?;
        put(buf, &self.method_idx, Ghost(b0), Ghost(Seq::empty() + NonZeroU16::spec_encode(self.class_idx)), Ghost(total))?;
        assert(Seq::empty() + NonZeroU16::spec_encode(self.class_idx) + <Option<NonZeroU16>>::spec_encode(self.method_idx) =~= total);
        Ok(())
    }
}

impl<'de> Codec<'de> for EnclosingMethod {
    open spec fn wf(v: EnclosingMethod) -> bool {
        NonZeroU16::wf(v.class_idx) && <Option<NonZeroU16>>::wf(v.method_idx)
    }

    proof fn lemma_codec(v: EnclosingMethod, rest: Seq<u8>) {
        let e0 = NonZeroU16::spec_encode(v.class_idx);
        let e1 = <Option<NonZeroU16>>::spec_encode(v.method_idx);
        assert(e0 + e1 + rest =~= (e0 + (e1 + rest)));
        NonZeroU16::lemma_codec(v.class_idx, (e1 + rest));
        assert((e0 + (e1 + rest)).skip(e0.len() as int) =~= (e1 + rest));
        <Option<NonZeroU16>>::lemma_codec(v.method_idx, rest);
    }
}

impl EnclosingMethod {
    /// Writes this value into the given buffer.
    pub fn write<B: BufMut>(&self, buf: &mut B) -> (r: Result<(), Error>)
        ensures
            encode_post(*old(buf), *final(buf), true, EnclosingMethod::spec_encode(*self), r),
    {
        self.encode(buf)
    }

    /// Reads a value from the given buffer.
    pub fn read<'a, B: Buf<'a>>(buf: &mut B) -> (r: Result<EnclosingMethod, Error>)
        requires
            EnclosingMethod::decode_requires(old(buf)@),
        ensures
            read_post(old(buf)@, final(buf)@, EnclosingMethod::spec_decode(old(buf)@), r),
    {
        EnclosingMethod::decode(buf)
    }
}

/// Name of `Synthetic` attribute. This attribute has no info.
pub const NAME_SYNTHETIC: &'static str = "Synthetic";

/// Index to an entry in constant pool.
#[derive(Debug, Clone, Copy, PartialEq, Eq, PartialOrd, Ord, Hash)]
pub struct ConstantPoolIndex(pub NonZeroU16);

impl View for ConstantPoolIndex {
    type V = ConstantPoolIndex;

    open spec fn view(&self) -> ConstantPoolIndex {
        *self
    }
}

impl<'de> Decode<'de> for ConstantPoolIndex {
    /// The index.
    open spec fn spec_decode(s: Seq<u8>) -> Result<(ConstantPoolIndex, int), Error> {
        match NonZeroU16::spec_decode(s) {
            Err(e) => Err(e),
            Ok((index_v, n0)) =>
            Ok((ConstantPoolIndex(index_v), n0))
        }
    }

    open spec fn decode_requires(s: Seq<u8>) -> bool {
        NonZeroU16::decode_requires(s)
    }

    fn decode<B: Buf<'de>>(buf: &mut B) -> (r: Result<ConstantPoolIndex, Error>) {
        let index_v = NonZeroU16::decode(buf)?;
        Ok(ConstantPoolIndex(index_v))
    }
}

impl Encode for ConstantPoolIndex {
    open spec fn spec_encode(v: ConstantPoolIndex) -> Seq<u8> {
        NonZeroU16::spec_encode(v.0)
    }

    open spec fn encodable(v: ConstantPoolIndex) -> bool {
        NonZeroU16::encodable(v.0)
    }

    open spec fn encode_requires(v: ConstantPoolIndex) -> bool {
        NonZeroU16::encode_requires(v.0)
    }

    fn encode<B: BufMut>(&self, buf: &mut B) -> (r: Result<(), Error>) {
        let ghost b0 = *buf;
        let ghost total = Self::spec_encode(*self);
        proof {
            lemma_progress_start(b0);
        }
        put(buf, &self.0, Ghost(b0), Ghost(Seq::empty()), Ghost(total))?;
        assert(Seq::empty() + NonZeroU16::spec_encode(self.0) =~= total);
        Ok(())
    }
}

impl<'de> Codec<'de> for ConstantPoolIndex {
    open spec fn wf(v: ConstantPoolIndex) -> bool {
        NonZeroU16::wf(v.0)
    }

    proof fn lemma_codec(v: ConstantPoolIndex, rest: Seq<u8>) {
        let e0 = NonZeroU16::spec_encode(v.0);
        assert(e0 + rest =~= (e0 + rest));
        NonZeroU16::lemma_codec(v.0, rest);
    }
}

impl ConstantPoolIndex {
    /// Writes this value into the given buffer.
    pub fn write<B: BufMut>(&self, buf: &mut B) -> (r: Result<(), Error>)
        ensures
            encode_post(*old(buf), *final(buf), true, ConstantPoolIndex::spec_encode(*self), r),
    {
        self.encode(buf)
    }

    /// Reads a value from the given buffer.
    pub fn read<'a, B: Buf<'a>>(buf: &mut B) -> (r: Result<ConstantPoolIndex, Error>)
        requires
            ConstantPoolIndex::decode_requires(old(buf)@),
        ensures
            read_post(old(buf)@, final(buf)@, ConstantPoolIndex::spec_decode(old(buf)@), r),
    {
        ConstantPoolIndex::decode(buf)
    }
}

/// Name of `Signature` attribute. Use [`ConstantPoolIndex`] for its index (`Utf8`).
pub const NAME_SIGNATURE: &'static str = "Signature";

/// Name of `SourceFile` attribute. Use [`ConstantPoolIndex`] for its index (`Utf8`).
pub const NAME_SOURCE_FILE: &'static str = "SourceFile";

/// Name of `SourceDebugExtension` attribute.
/// 
/// The `info` field itself in `Attribute` is the desired modified UTF-8 slice
/// of the extended debugging information.
pub const NAME_SOURCE_DEBUG_EXTENSION: &'static str = "SourceDebugExtension";

/// Name of `Deprecated` attribute. This attribute has no info.
pub const NAME_DEPRECATED: &'static str = "Deprecated";

/// Name of `ModulePackages` attribute.
/// See [`ModulePackagesReader`] and [`ModulePackagesWriter`] for usage.
pub const NAME_MODULE_PACKAGES: &'static str = "ModulePackages";

/// Reader of `ModulePackages` attribute.
pub type ModulePackagesReader<'a, B> = ArrayReader<'a, B, NonZeroU16>;

/// Writer of `ModulePackages` attribute.
pub type ModulePackagesWriter<B> = ArrayWriter<B, NonZeroU16>;

/// Name of `ModuleMainClass` attribute. Use [`ConstantPoolIndex`] for its index (`Class`).
pub const NAME_MODULE_MAIN_CLASS: &'static str = "ModuleMainClass";

/// Name of `NestHost` attribute. Use [`ConstantPoolIndex`] for its index (`Class`).
pub const NAME_NEST_HOST: &'static str = "NestHost";

/// Name of `NestMembers` attribute.
/// See [`NestMembersReader`] and [`NestMembersWriter`] for usage.
pub const NAME_NEST_MEMBERS: &'static str = "NestMembers";

/// Reader of `NestMembers` attribute.
pub type NestMembersReader<'a, B> = ArrayReader<'a, B, NonZeroU16>;

/// Writer of `NestMembers` attribute.
pub type NestMembersWriter<B> = ArrayWriter<B, NonZeroU16>;

/// Name of `PermittedSubclasses` attribute.
/// See [`PermittedSubclassesReader`] and [`PermittedSubclassesWriter`] for usage.
pub const NAME_PERMITTED_SUBCLASSES: &'static str = "PermittedSubclasses";

/// Reader of `PermittedSubclasses` attribute.
pub type PermittedSubclassesReader<'a, B> = ArrayReader<'a, B, NonZeroU16>;

/// Writer of `PermittedSubclasses` attribute.
pub type PermittedSubclassesWriter<B> = ArrayWriter<B, NonZeroU16>;

} // verus!
