use vstd::prelude::*;

#[allow(unused_imports)]
use crate::util::{
    encode_post, lemma_progress_start, put, read_post, Buf, BufMut, Codec, Decode, Encode,
};
#[allow(unused_imports)]
use crate::{Error, NonZeroU16};

verus! {

/// Header of a method; its attributes follow it.
#[derive(Debug, Clone, Copy, PartialEq, Eq, PartialOrd, Ord, Hash)]
pub struct MethodHeader {
    /// Access permission to and properties of this method.
    pub access_flags: MethodAccessFlags,
    /// Index of the name (`Utf8`) denoting this method in constant pool.
    pub name_index: NonZeroU16,
    /// Index of the descriptor (`Utf8`) denoting this method in constant pool.
    pub descriptor_index: NonZeroU16,
}

impl View for MethodHeader {
    type V = MethodHeader;

    open spec fn view(&self) -> MethodHeader {
        *self
    }
}

impl<'de> Decode<'de> for MethodHeader {
    /// The fields in order: `access_flags`, `name_index`, `descriptor_index`.
    open spec fn spec_decode(s: Seq<u8>) -> Result<(MethodHeader, int), Error> {
        match MethodAccessFlags::spec_decode(s) {
            Err(e) => Err(e),
            Ok((access_flags_v, n0)) =>
            match NonZeroU16::spec_decode(s.skip(n0)) {
                Err(e) => Err(e),
                Ok((name_index_v, n1)) =>
                match NonZeroU16::spec_decode(s.skip(n0).skip(n1)) {
                    Err(e) => Err(e),
                    Ok((descriptor_index_v, n2)) =>
                    Ok((MethodHeader { access_flags: access_flags_v, name_index: name_index_v, descriptor_index: descriptor_index_v }, n0 + n1 + n2))
                }
            }
        }
    }

    open spec fn decode_requires(s: Seq<u8>) -> bool {
        MethodAccessFlags::decode_requires(s) && match MethodAccessFlags::spec_decode(s) {
            Err(_) => true,
            Ok((_, n0)) =>
            NonZeroU16::decode_requires(s.skip(n0)) && match NonZeroU16::spec_decode(s.skip(n0)) {
                Err(_) => true,
                Ok((_, n1)) =>
                NonZeroU16::decode_requires(s.skip(n0).skip(n1))
            }
        }
    }

    fn decode<B: Buf<'de>>(buf: &mut B) -> (r: Result<MethodHeader, Error>) {
        let access_flags_v = MethodAccessFlags::decode(buf)?;
        let name_index_v = NonZeroU16::decode(buf)?;
        let descriptor_index_v = NonZeroU16::decode(buf)?;
        Ok(MethodHeader { access_flags: access_flags_v, name_index: name_index_v, descriptor_index: descriptor_index_v })
    }
}

impl Encode for MethodHeader {
    open spec fn spec_encode(v: MethodHeader) -> Seq<u8> {
        MethodAccessFlags::spec_encode(v.access_flags) + NonZeroU16::spec_encode(v.name_index) + NonZeroU16::spec_encode(v.descriptor_index)
    }

    open spec fn encodable(v: MethodHeader) -> bool {
        MethodAccessFlags::encodable(v.access_flags) && NonZeroU16::encodable(v.name_index) && NonZeroU16::encodable(v.descriptor_index)
    }

    open spec fn encode_requires(v: MethodHeader) -> bool {
        MethodAccessFlags::encode_requires(v.access_flags) && NonZeroU16::encode_requires(v.name_index) && NonZeroU16::encode_requires(v.descriptor_index)
    }

    fn encode<B: BufMut>(&self, buf: &mut B) -> (r: Result<(), Error>) {
        let ghost b0 = *buf;
        let ghost total = Self::spec_encode(*self);
        proof {
            lemma_progress_start(b0);
        }
        put(buf, &self.access_flags, Ghost(b0), Ghost(Seq::empty()), Ghost(total))?;
        put(buf, &self.name_index, Ghost(b0), Ghost(Seq::empty() + MethodAccessFlags::spec_encode(self.access_flags)), Ghost(total))?;
        put(buf, &self.descriptor_index, Ghost(b0), Ghost(Seq::empty() + MethodAccessFlags::spec_encode(self.access_flags) + NonZeroU16::spec_encode(self.name_index)), Ghost(total))?;
        assert(Seq::empty() + MethodAccessFlags::spec_encode(self.access_flags) + NonZeroU16::spec_encode(self.name_index) + NonZeroU16::spec_encode(self.descriptor_index) =~= total);
        Ok(())
    }
}

impl<'de> Codec<'de> for MethodHeader {
    open spec fn wf(v: MethodHeader) -> bool {
        MethodAccessFlags::wf(v.access_flags) && NonZeroU16::wf(v.name_index) && NonZeroU16::wf(v.descriptor_index)
    }

    proof fn lemma_codec(v: MethodHeader, rest: Seq<u8>) {
        let e0 = MethodAccessFlags::spec_encode(v.access_flags);
        let e1 = NonZeroU16::spec_encode(v.name_index);
        let e2 = NonZeroU16::spec_encode(v.descriptor_index);
        assert(e0 + e1 + e2 + rest =~= (e0 + (e1 + (e2 + rest))));
        MethodAccessFlags::lemma_codec(v.access_flags, (e1 + (e2 + rest)));
        assert((e0 + (e1 + (e2 + rest))).skip(e0.len() as int) =~= (e1 + (e2 + rest)));
        NonZeroU16::lemma_codec(v.name_index, (e2 + rest));
        assert((e1 + (e2 + rest)).skip(e1.len() as int) =~= (e2 + rest));
        NonZeroU16::lemma_codec(v.descriptor_index, rest);
    }
}

/// Access permissions to and properties of a method.
#[derive(Debug, Clone, Copy, PartialEq, Eq, PartialOrd, Ord, Hash)]
pub struct MethodAccessFlags {
    bits: u16,
}

impl MethodAccessFlags {
    /// Declared `public`; may be accessed from outside its package.
    pub const PUBLIC: u16 = 0x0001;

    /// Declared `private`; accessible only within the defining class and other classes of the same nest.
    pub const PRIVATE: u16 = 0x0002;

    /// Declared `protected`; may be accessed within subclasses.
    pub const PROTECTED: u16 = 0x0004;

    /// Declared `static`.
    pub const STATIC: u16 = 0x0008;

    /// Declared `final`; must not be overridden.
    pub const FINAL: u16 = 0x0010;

    /// Declared `synchronized`; invocation is wrapped by a monitor use.
    pub const SYNCHRONIZED: u16 = 0x0020;

    /// A bridge method, generated by the compiler.
    pub const BRIDGE: u16 = 0x0040;

    /// Declared with variable number of arguments.
    pub const VARARGS: u16 = 0x0080;

    /// Declared `native`; implemented in a language other than Java.
    pub const NATIVE: u16 = 0x0100;

    /// Declared `abstract`; no implementation is provided.
    pub const ABSTRACT: u16 = 0x0400;

    /// In a classfile whose major version is at least 46 and at most 60: declared `strictfp`.
    pub const STRICT: u16 = 0x0800;

    /// Declared `synthetic`; not present in the source code.
    pub const SYNTHETIC: u16 = 0x1000;

    /// The bits of all the flags defined.
    pub const ALL_BITS: u16 = 0x1dff;

    /// The bits of this set.
    pub closed spec fn spec_bits(self) -> u16 {
        self.bits
    }

    /// The set with exactly the given bits, defined or not.
    pub closed spec fn spec_from_bits_retain(bits: u16) -> MethodAccessFlags {
        MethodAccessFlags { bits }
    }

    pub broadcast proof fn lemma_bits(bits: u16)
        ensures
            #[trigger] MethodAccessFlags::spec_from_bits_retain(bits).spec_bits() == bits,
    {
    }

    pub broadcast proof fn lemma_from_bits(f: MethodAccessFlags)
        ensures
            #[trigger] MethodAccessFlags::spec_from_bits_retain(f.spec_bits()) == f,
    {
    }

    /// Whether every bit of `bits` is a defined flag.
    pub open spec fn known(bits: u16) -> bool {
        bits & !MethodAccessFlags::ALL_BITS == 0
    }

    /// The bits of this set.
    pub fn bits(&self) -> (r: u16)
        ensures
            r == self.spec_bits(),
    {
        self.bits
    }

    /// The set with the given bits, if every one of them is a defined flag.
    pub fn from_bits(bits: u16) -> (r: Option<MethodAccessFlags>)
        ensures
            r == (if MethodAccessFlags::known(bits) {
                Some(MethodAccessFlags::spec_from_bits_retain(bits))
            } else {
                None
            }),
    {
        if bits & !MethodAccessFlags::ALL_BITS == 0 {
            Some(MethodAccessFlags { bits })
        } else {
            None
        }
    }

    /// The set with exactly the given bits, defined or not.
    pub fn from_bits_retain(bits: u16) -> (r: MethodAccessFlags)
        ensures
            r == MethodAccessFlags::spec_from_bits_retain(bits),
    {
        MethodAccessFlags { bits }
    }

    /// The set with the defined flags of `bits` and no other.
    pub fn from_bits_truncate(bits: u16) -> (r: MethodAccessFlags)
        ensures
            r.spec_bits() == bits & MethodAccessFlags::ALL_BITS,
    {
        MethodAccessFlags { bits: bits & MethodAccessFlags::ALL_BITS }
    }

    /// The empty set.
    pub fn empty() -> (r: MethodAccessFlags)
        ensures
            r.spec_bits() == 0,
    {
        MethodAccessFlags { bits: 0 }
    }

    /// The set of all defined flags.
    pub fn all() -> (r: MethodAccessFlags)
        ensures
            r.spec_bits() == MethodAccessFlags::ALL_BITS,
    {
        MethodAccessFlags { bits: MethodAccessFlags::ALL_BITS }
    }

    /// Whether no bit is set.
    pub fn is_empty(&self) -> (r: bool)
        ensures
            r == (self.spec_bits() == 0),
    {
        self.bits == 0
    }

    /// Whether every bit of `other` is set in `self`.
    pub fn contains(&self, other: MethodAccessFlags) -> (r: bool)
        ensures
            r == (self.spec_bits() & other.spec_bits() == other.spec_bits()),
    {
        self.bits & other.bits == other.bits
    }

    /// Whether some bit is set in both.
    pub fn intersects(&self, other: MethodAccessFlags) -> (r: bool)
        ensures
            r == (self.spec_bits() & other.spec_bits() != 0),
    {
        self.bits & other.bits != 0
    }

    /// The bits set in either.
    pub fn union(self, other: MethodAccessFlags) -> (r: MethodAccessFlags)
        ensures
            r.spec_bits() == self.spec_bits() | other.spec_bits(),
    {
        MethodAccessFlags { bits: self.bits | other.bits }
    }

    /// Sets the bits of `other`.
    pub fn insert(&mut self, other: MethodAccessFlags)
        ensures
            final(self).spec_bits() == old(self).spec_bits() | other.spec_bits(),
    {
        self.bits = self.bits | other.bits;
    }

    /// Clears the bits of `other`.
    pub fn remove(&mut self, other: MethodAccessFlags)
        ensures
            final(self).spec_bits() == old(self).spec_bits() & !other.spec_bits(),
    {
        self.bits = self.bits & !other.bits;
    }
}

impl View for MethodAccessFlags {
    type V = MethodAccessFlags;

    open spec fn view(&self) -> MethodAccessFlags {
        *self
    }
}

impl<'de> Decode<'de> for MethodAccessFlags {
    /// A `u16` of bits, all of which must be defined flags.
    open spec fn spec_decode(s: Seq<u8>) -> Result<(MethodAccessFlags, int), Error> {
        match u16::spec_decode(s) {
            Err(e) => Err(e),
            Ok((bits, n)) => if MethodAccessFlags::known(bits) {
                Ok((MethodAccessFlags::spec_from_bits_retain(bits), n))
            } else {
                Err(Error::UnknownAccessFlags(bits))
            },
        }
    }

    open spec fn decode_requires(s: Seq<u8>) -> bool {
        true
    }

    fn decode<B: Buf<'de>>(buf: &mut B) -> (r: Result<MethodAccessFlags, Error>) {
        let bits = u16::decode(buf)?;
        match MethodAccessFlags::from_bits(bits) {
            Some(f) => Ok(f),
            None => Err(Error::UnknownAccessFlags(bits)),
        }
    }
}

impl Encode for MethodAccessFlags {
    open spec fn spec_encode(v: MethodAccessFlags) -> Seq<u8> {
        u16::spec_encode(v.spec_bits())
    }

    open spec fn encodable(v: MethodAccessFlags) -> bool {
        true
    }

    open spec fn encode_requires(v: MethodAccessFlags) -> bool {
        true
    }

    fn encode<B: BufMut>(&self, buf: &mut B) -> (r: Result<(), Error>) {
        self.bits().encode(buf)
    }
}

impl<'de> Codec<'de> for MethodAccessFlags {
    open spec fn wf(v: MethodAccessFlags) -> bool {
        MethodAccessFlags::known(v.spec_bits())
    }

    proof fn lemma_codec(v: MethodAccessFlags, rest: Seq<u8>) {
        u16::lemma_codec(v.spec_bits(), rest);
    }
}

} // verus!
