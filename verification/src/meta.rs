use vstd::prelude::*;

#[allow(unused_imports)]
use crate::util::{
    encode_post, lemma_progress_start, put, read_post, Buf, BufMut, Codec, Decode, Encode,
};
#[allow(unused_imports)]
use crate::{Error, NonZeroU16};

verus! {

/// Metadata of the class.
#[derive(Debug, Clone, Copy, PartialEq, Eq, PartialOrd, Ord, Hash)]
pub struct ClassMetadata {
    /// Access permissions to and properties of this class or interface.
    pub access_flags: ClassAccessFlags,
    /// Index of the class or interface (`Class`) defined by this classfile in constant pool.
    pub this_class: NonZeroU16,
    /// Index of the direct superclass (`Class`) of this class in constant pool.
    pub super_class: Option<NonZeroU16>,
}

impl View for ClassMetadata {
    type V = ClassMetadata;

    open spec fn view(&self) -> ClassMetadata {
        *self
    }
}

impl<'de> Decode<'de> for ClassMetadata {
    /// The fields in order: `access_flags`, `this_class`, `super_class`.
    open spec fn spec_decode(s: Seq<u8>) -> Result<(ClassMetadata, int), Error> {
        match ClassAccessFlags::spec_decode(s) {
            Err(e) => Err(e),
            Ok((access_flags_v, n0)) =>
            match NonZeroU16::spec_decode(s.skip(n0)) {
                Err(e) => Err(e),
                Ok((this_class_v, n1)) =>
                match <Option<NonZeroU16>>::spec_decode(s.skip(n0).skip(n1)) {
                    Err(e) => Err(e),
                    Ok((super_class_v, n2)) =>
                    Ok((ClassMetadata { access_flags: access_flags_v, this_class: this_class_v, super_class: super_class_v }, n0 + n1 + n2))
                }
            }
        }
    }

    open spec fn decode_requires(s: Seq<u8>) -> bool {
        ClassAccessFlags::decode_requires(s) && match ClassAccessFlags::spec_decode(s) {
            Err(_) => true,
            Ok((_, n0)) =>
            NonZeroU16::decode_requires(s.skip(n0)) && match NonZeroU16::spec_decode(s.skip(n0)) {
                Err(_) => true,
                Ok((_, n1)) =>
                <Option<NonZeroU16>>::decode_requires(s.skip(n0).skip(n1))
            }
        }
    }

    fn decode<B: Buf<'de>>(buf: &mut B) -> (r: Result<ClassMetadata, Error>) {
        let access_flags_v = ClassAccessFlags::decode(buf)?;
        let this_class_v = NonZeroU16::decode(buf)?;
        let super_class_v = <Option<NonZeroU16>>::decode(buf)?;
        Ok(ClassMetadata { access_flags: access_flags_v, this_class: this_class_v, super_class: super_class_v })
    }
}

impl Encode for ClassMetadata {
    open spec fn spec_encode(v: ClassMetadata) -> Seq<u8> {
        ClassAccessFlags::spec_encode(v.access_flags) + NonZeroU16::spec_encode(v.this_class) + <Option<NonZeroU16>>::spec_encode(v.super_class)
    }

    open spec fn encodable(v: ClassMetadata) -> bool {
        ClassAccessFlags::encodable(v.access_flags) && NonZeroU16::encodable(v.this_class) && <Option<NonZeroU16>>::encodable(v.super_class)
    }

    open spec fn encode_requires(v: ClassMetadata) -> bool {
        ClassAccessFlags::encode_requires(v.access_flags) && NonZeroU16::encode_requires(v.this_class) && <Option<NonZeroU16>>::encode_requires(v.super_class)
    }

    fn encode<B: BufMut>(&self, buf: &mut B) -> (r: Result<(), Error>) {
        let ghost b0 = *buf;
        let ghost total = Self::spec_encode(*self);
        proof {
            lemma_progress_start(b0);
        }
        put(buf, &self.access_flags, Ghost(b0), Ghost(Seq::empty()), Ghost(total))?;
        put(buf, &self.this_class, Ghost(b0), Ghost(Seq::empty() + ClassAccessFlags::spec_encode(self.access_flags)), Ghost(total))?;
        put(buf, &self.super_class, Ghost(b0), Ghost(Seq::empty() + ClassAccessFlags::spec_encode(self.access_flags) + NonZeroU16::spec_encode(self.this_class)), Ghost(total))?;
        assert(Seq::empty() + ClassAccessFlags::spec_encode(self.access_flags) + NonZeroU16::spec_encode(self.this_class) + <Option<NonZeroU16>>::spec_encode(self.super_class) =~= total);
        Ok(())
    }
}

impl<'de> Codec<'de> for ClassMetadata {
    open spec fn wf(v: ClassMetadata) -> bool {
        ClassAccessFlags::wf(v.access_flags) && NonZeroU16::wf(v.this_class) && <Option<NonZeroU16>>::wf(v.super_class)
    }

    proof fn lemma_codec(v: ClassMetadata, rest: Seq<u8>) {
        let e0 = ClassAccessFlags::spec_encode(v.access_flags);
        let e1 = NonZeroU16::spec_encode(v.this_class);
        let e2 = <Option<NonZeroU16>>::spec_encode(v.super_class);
        assert(e0 + e1 + e2 + rest =~= (e0 + (e1 + (e2 + rest))));
        ClassAccessFlags::lemma_codec(v.access_flags, (e1 + (e2 + rest)));
        assert((e0 + (e1 + (e2 + rest))).skip(e0.len() as int) =~= (e1 + (e2 + rest)));
        NonZeroU16::lemma_codec(v.this_class, (e2 + rest));
        assert((e1 + (e2 + rest)).skip(e1.len() as int) =~= (e2 + rest));
        <Option<NonZeroU16>>::lemma_codec(v.super_class, rest);
    }
}

/// Access permissions to and properties of a class or interface.
#[derive(Debug, Clone, Copy, PartialEq, Eq, PartialOrd, Ord, Hash)]
pub struct ClassAccessFlags {
    bits: u16,
}

impl ClassAccessFlags {
    /// Declared `public`; may be accessed from outside its package.
    pub const PUBLIC: u16 = 0x0001;

    /// Declared `final`; no subclasses allowed.
    pub const FINAL: u16 = 0x0010;

    /// Treat superclass methods specially when invoked by the *invokespecial* instruction.
    pub const SUPER: u16 = 0x0020;

    /// Is an interface, not a class.
    pub const INTERFACE: u16 = 0x0200;

    /// Declared `abstract`; must not be instantiated.
    pub const ABSTRACT: u16 = 0x0400;

    /// Declared `synthetic`; not present in the source code.
    pub const SYNTHETIC: u16 = 0x1000;

    /// Declared as an annotation interface.
    pub const ANNOTATION: u16 = 0x2000;

    /// Declared as an enum class.
    pub const ENUM: u16 = 0x4000;

    /// Is a module, not a class or interface.
    pub const MODULE: u16 = 0x8000;

    /// The bits of all the flags defined.
    pub const ALL_BITS: u16 = 0xf631;

    /// The bits of this set.
    pub closed spec fn spec_bits(self) -> u16 {
        self.bits
    }

    /// The set with exactly the given bits, defined or not.
    pub closed spec fn spec_from_bits_retain(bits: u16) -> ClassAccessFlags {
        ClassAccessFlags { bits }
    }

    pub broadcast proof fn lemma_bits(bits: u16)
        ensures
            #[trigger] ClassAccessFlags::spec_from_bits_retain(bits).spec_bits() == bits,
    {
    }

    pub broadcast proof fn lemma_from_bits(f: ClassAccessFlags)
        ensures
            #[trigger] ClassAccessFlags::spec_from_bits_retain(f.spec_bits()) == f,
    {
    }

    /// Whether every bit of `bits` is a defined flag.
    pub open spec fn known(bits: u16) -> bool {
        bits & !ClassAccessFlags::ALL_BITS == 0
    }

    /// The bits of this set.
    pub fn bits(&self) -> (r: u16)
        ensures
            r == self.spec_bits(),
    {
        self.bits
    }

    /// The set with the given bits, if every one of them is a defined flag.
    pub fn from_bits(bits: u16) -> (r: Option<ClassAccessFlags>)
        ensures
            r == (if ClassAccessFlags::known(bits) {
                Some(ClassAccessFlags::spec_from_bits_retain(bits))
            } else {
                None
            }),
    {
        if bits & !ClassAccessFlags::ALL_BITS == 0 {
            Some(ClassAccessFlags { bits })
        } else {
            None
        }
    }

    /// The set with exactly the given bits, defined or not.
    pub fn from_bits_retain(bits: u16) -> (r: ClassAccessFlags)
        ensures
            r == ClassAccessFlags::spec_from_bits_retain(bits),
    {
        ClassAccessFlags { bits }
    }

    /// The set with the defined flags of `bits` and no other.
    pub fn from_bits_truncate(bits: u16) -> (r: ClassAccessFlags)
        ensures
            r.spec_bits() == bits & ClassAccessFlags::ALL_BITS,
    {
        ClassAccessFlags { bits: bits & ClassAccessFlags::ALL_BITS }
    }

    /// The empty set.
    pub fn empty() -> (r: ClassAccessFlags)
        ensures
            r.spec_bits() == 0,
    {
        ClassAccessFlags { bits: 0 }
    }

    /// The set of all defined flags.
    pub fn all() -> (r: ClassAccessFlags)
        ensures
            r.spec_bits() == ClassAccessFlags::ALL_BITS,
    {
        ClassAccessFlags { bits: ClassAccessFlags::ALL_BITS }
    }

    /// Whether no bit is set.
    pub fn is_empty(&self) -> (r: bool)
        ensures
            r == (self.spec_bits() == 0),
    {
        self.bits == 0
    }

    /// Whether every bit of `other` is set in `self`.
    pub fn contains(&self, other: ClassAccessFlags) -> (r: bool)
        ensures
            r == (self.spec_bits() & other.spec_bits() == other.spec_bits()),
    {
        self.bits & other.bits == other.bits
    }

    /// Whether some bit is set in both.
    pub fn intersects(&self, other: ClassAccessFlags) -> (r: bool)
        ensures
            r == (self.spec_bits() & other.spec_bits() != 0),
    {
        self.bits & other.bits != 0
    }

    /// The bits set in either.
    pub fn union(self, other: ClassAccessFlags) -> (r: ClassAccessFlags)
        ensures
            r.spec_bits() == self.spec_bits() | other.spec_bits(),
    {
        ClassAccessFlags { bits: self.bits | other.bits }
    }

    /// Sets the bits of `other`.
    pub fn insert(&mut self, other: ClassAccessFlags)
        ensures
            final(self).spec_bits() == old(self).spec_bits() | other.spec_bits(),
    {
        self.bits = self.bits | other.bits;
    }

    /// Clears the bits of `other`.
    pub fn remove(&mut self, other: ClassAccessFlags)
        ensures
            final(self).spec_bits() == old(self).spec_bits() & !other.spec_bits(),
    {
        self.bits = self.bits & !other.bits;
    }
}

impl View for ClassAccessFlags {
    type V = ClassAccessFlags;

    open spec fn view(&self) -> ClassAccessFlags {
        *self
    }
}

impl<'de> Decode<'de> for ClassAccessFlags {
    /// A `u16` of bits, all of which must be defined flags.
    open spec fn spec_decode(s: Seq<u8>) -> Result<(ClassAccessFlags, int), Error> {
        match u16::spec_decode(s) {
            Err(e) => Err(e),
            Ok((bits, n)) => if ClassAccessFlags::known(bits) {
                Ok((ClassAccessFlags::spec_from_bits_retain(bits), n))
            } else {
                Err(Error::UnknownAccessFlags(bits))
            },
        }
    }

    open spec fn decode_requires(s: Seq<u8>) -> bool {
        true
    }

    fn decode<B: Buf<'de>>(buf: &mut B) -> (r: Result<ClassAccessFlags, Error>) {
        let bits = u16::decode(buf)?;
        match ClassAccessFlags::from_bits(bits) {
            Some(f) => Ok(f),
            None => Err(Error::UnknownAccessFlags(bits)),
        }
    }
}

impl Encode for ClassAccessFlags {
    open spec fn spec_encode(v: ClassAccessFlags) -> Seq<u8> {
        u16::spec_encode(v.spec_bits())
    }

    open spec fn encodable(v: ClassAccessFlags) -> bool {
        true
    }

    open spec fn encode_requires(v: ClassAccessFlags) -> bool {
        true
    }

    fn encode<B: BufMut>(&self, buf: &mut B) -> (r: Result<(), Error>) {
        self.bits().encode(buf)
    }
}

impl<'de> Codec<'de> for ClassAccessFlags {
    open spec fn wf(v: ClassAccessFlags) -> bool {
        ClassAccessFlags::known(v.spec_bits())
    }

    proof fn lemma_codec(v: ClassAccessFlags, rest: Seq<u8>) {
        u16::lemma_codec(v.spec_bits(), rest);
    }
}

} // verus!
