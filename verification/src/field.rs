use vstd::prelude::*;

#[allow(unused_imports)]
use crate::util::{
    encode_post, lemma_progress_start, put, read_post, Buf, BufMut, Codec, Decode, Encode,
};
#[allow(unused_imports)]
use crate::{Error, NonZeroU16};

verus! {

/// Header of a field; its attributes follow it.
#[derive(Debug, Clone, Copy, PartialEq, Eq, PartialOrd, Ord, Hash)]
pub struct FieldHeader {
    /// Access permission to and properties of this field.
    pub access_flags: FieldAccessFlags,
    /// Index of the name (`Utf8`) denoting this field in constant pool.
    pub name_index: NonZeroU16,
    /// Index of the descriptor (`Utf8`) denoting this field in constant pool.
    pub descriptor_index: NonZeroU16,
}

impl View for FieldHeader {
    type V = FieldHeader;

    open spec fn view(&self) -> FieldHeader {
        *self
    }
}

impl<'de> Decode<'de> for FieldHeader {
    /// The fields in order: `access_flags`, `name_index`, `descriptor_index`.
    open spec fn spec_decode(s: Seq<u8>) -> Result<(FieldHeader, int), Error> {
        match FieldAccessFlags::spec_decode(s) {
            Err(e) => Err(e),
            Ok((access_flags_v, n0)) =>
            match NonZeroU16::spec_decode(s.skip(n0)) {
                Err(e) => Err(e),
                Ok((name_index_v, n1)) =>
                match NonZeroU16::spec_decode(s.skip(n0).skip(n1)) {
                    Err(e) => Err(e),
                    Ok((descriptor_index_v, n2)) =>
                    Ok((FieldHeader { access_flags: access_flags_v, name_index: name_index_v, descriptor_index: descriptor_index_v }, n0 + n1 + n2))
                }
            }
        }
    }

    open spec fn decode_requires(s: Seq<u8>) -> bool {
        FieldAccessFlags::decode_requires(s) && match FieldAccessFlags::spec_decode(s) {
            Err(_) => true,
            Ok((_, n0)) =>
            NonZeroU16::decode_requires(s.skip(n0)) && match NonZeroU16::spec_decode(s.skip(n0)) {
                Err(_) => true,
                Ok((_, n1)) =>
                NonZeroU16::decode_requires(s.skip(n0).skip(n1))
            }
        }
    }

    fn decode<B: Buf<'de>>(buf: &mut B) -> (r: Result<FieldHeader, Error>) {
        let access_flags_v = FieldAccessFlags::decode(buf)?;
        let name_index_v = NonZeroU16::decode(buf)?;
        let descriptor_index_v = NonZeroU16::decode(buf)?;
        Ok(FieldHeader { access_flags: access_flags_v, name_index: name_index_v, descriptor_index: descriptor_index_v })
    }
}

impl Encode for FieldHeader {
    open spec fn spec_encode(v: FieldHeader) -> Seq<u8> {
        FieldAccessFlags::spec_encode(v.access_flags) + NonZeroU16::spec_encode(v.name_index) + NonZeroU16::spec_encode(v.descriptor_index)
    }

    open spec fn encodable(v: FieldHeader) -> bool {
        FieldAccessFlags::encodable(v.access_flags) && NonZeroU16::encodable(v.name_index) && NonZeroU16::encodable(v.descriptor_index)
    }

    open spec fn encode_requires(v: FieldHeader) -> bool {
        FieldAccessFlags::encode_requires(v.access_flags) && NonZeroU16::encode_requires(v.name_index) && NonZeroU16::encode_requires(v.descriptor_index)
    }

    fn encode<B: BufMut>(&self, buf: &mut B) -> (r: Result<(), Error>) {
        let ghost b0 = *buf;
        let ghost total = Self::spec_encode(*self);
        proof {
            lemma_progress_start(b0);
        }
        put(buf, &self.access_flags, Ghost(b0), Ghost(Seq::empty()), Ghost(total))?;
        put(buf, &self.name_index, Ghost(b0), Ghost(Seq::empty() + FieldAccessFlags::spec_encode(self.access_flags)), Ghost(total))?;
        put(buf, &self.descriptor_index, Ghost(b0), Ghost(Seq::empty() + FieldAccessFlags::spec_encode(self.access_flags) + NonZeroU16::spec_encode(self.name_index)), Ghost(total))?;
        assert(Seq::empty() + FieldAccessFlags::spec_encode(self.access_flags) + NonZeroU16::spec_encode(self.name_index) + NonZeroU16::spec_encode(self.descriptor_index) =~= total);
        Ok(())
    }
}

impl<'de> Codec<'de> for FieldHeader {
    open spec fn wf(v: FieldHeader) -> bool {
        FieldAccessFlags::wf(v.access_flags) && NonZeroU16::wf(v.name_index) && NonZeroU16::wf(v.descriptor_index)
    }

    proof fn lemma_codec(v: FieldHeader, rest: Seq<u8>) {
        let e0 = FieldAccessFlags::spec_encode(v.access_flags);
        let e1 = NonZeroU16::spec_encode(v.name_index);
        let e2 = NonZeroU16::spec_encode(v.descriptor_index);
        assert(e0 + e1 + e2 + rest =~= (e0 + (e1 + (e2 + rest))));
        FieldAccessFlags::lemma_codec(v.access_flags, (e1 + (e2 + rest)));
        assert((e0 + (e1 + (e2 + rest))).skip(e0.len() as int) =~= (e1 + (e2 + rest)));
        NonZeroU16::lemma_codec(v.name_index, (e2 + rest));
        assert((e1 + (e2 + rest)).skip(e1.len() as int) =~= (e2 + rest));
        NonZeroU16::lemma_codec(v.descriptor_index, rest);
    }
}

/// Access permissions to and properties of a field.
#[derive(Debug, Clone, Copy, PartialEq, Eq, PartialOrd, Ord, Hash)]
pub struct FieldAccessFlags {
    bits: u16,
}

impl FieldAccessFlags {
    /// Declared `public`; may be accessed from outside its package.
    pub const PUBLIC: u16 = 0x0001;

    /// Declared `private`; accessible only within the defining class and other classes of the same nest.
    pub const PRIVATE: u16 = 0x0002;

    /// Declared `protected`; may be accessed within subclasses.
    pub const PROTECTED: u16 = 0x0004;

    /// Declared `static`.
    pub const STATIC: u16 = 0x0008;

    /// Declared `final`; never directly assigned to after object construction.
    pub const FINAL: u16 = 0x0010;

    /// Declared `volatile`; cannot be cached.
    pub const VIOLATE: u16 = 0x0040;

    /// Declared `transient`; not written or read by a persistent object manager.
    pub const TRANSIENT: u16 = 0x0080;

    /// Declared `synthetic`; not present in the source code.
    pub const SYNTHETIC: u16 = 0x1000;

    /// Declared as an element of an enum class.
    pub const ENUM: u16 = 0x4000;

    /// The bits of all the flags defined.
    pub const ALL_BITS: u16 = 0x50df;

    /// The bits of this set.
    pub closed spec fn spec_bits(self) -> u16 {
        self.bits
    }

    /// The set with exactly the given bits, defined or not.
    pub closed spec fn spec_from_bits_retain(bits: u16) -> FieldAccessFlags {
        FieldAccessFlags { bits }
    }

    pub broadcast proof fn lemma_bits(bits: u16)
        ensures
            #[trigger] FieldAccessFlags::spec_from_bits_retain(bits).spec_bits() == bits,
    {
    }

    pub broadcast proof fn lemma_from_bits(f: FieldAccessFlags)
        ensures
            #[trigger] FieldAccessFlags::spec_from_bits_retain(f.spec_bits()) == f,
    {
    }

    /// Whether every bit of `bits` is a defined flag.
    pub open spec fn known(bits: u16) -> bool {
        bits & !FieldAccessFlags::ALL_BITS == 0
    }

    /// The bits of this set.
    pub fn bits(&self) -> (r: u16)
        ensures
            r == self.spec_bits(),
    {
        self.bits
    }

    /// The set with the given bits, if every one of them is a defined flag.
    pub fn from_bits(bits: u16) -> (r: Option<FieldAccessFlags>)
        ensures
            r == (if FieldAccessFlags::known(bits) {
                Some(FieldAccessFlags::spec_from_bits_retain(bits))
            } else {
                None
            }),
    {
        if bits & !FieldAccessFlags::ALL_BITS == 0 {
            Some(FieldAccessFlags { bits })
        } else {
            None
        }
    }

    /// The set with exactly the given bits, defined or not.
    pub fn from_bits_retain(bits: u16) -> (r: FieldAccessFlags)
        ensures
            r == FieldAccessFlags::spec_from_bits_retain(bits),
    {
        FieldAccessFlags { bits }
    }

    /// The set with the defined flags of `bits` and no other.
    pub fn from_bits_truncate(bits: u16) -> (r: FieldAccessFlags)
        ensures
            r.spec_bits() == bits & FieldAccessFlags::ALL_BITS,
    {
        FieldAccessFlags { bits: bits & FieldAccessFlags::ALL_BITS }
    }

    /// The empty set.
    pub fn empty() -> (r: FieldAccessFlags)
        ensures
            r.spec_bits() == 0,
    {
        FieldAccessFlags { bits: 0 }
    }

    /// The set of all defined flags.
    pub fn all() -> (r: FieldAccessFlags)
        ensures
            r.spec_bits() == FieldAccessFlags::ALL_BITS,
    {
        FieldAccessFlags { bits: FieldAccessFlags::ALL_BITS }
    }

    /// Whether no bit is set.
    pub fn is_empty(&self) -> (r: bool)
        ensures
            r == (self.spec_bits() == 0),
    {
        self.bits == 0
    }

    /// Whether every bit of `other` is set in `self`.
    pub fn contains(&self, other: FieldAccessFlags) -> (r: bool)
        ensures
            r == (self.spec_bits() & other.spec_bits() == other.spec_bits()),
    {
        self.bits & other.bits == other.bits
    }

    /// Whether some bit is set in both.
    pub fn intersects(&self, other: FieldAccessFlags) -> (r: bool)
        ensures
            r == (self.spec_bits() & other.spec_bits() != 0),
    {
        self.bits & other.bits != 0
    }

    /// The bits set in either.
    pub fn union(self, other: FieldAccessFlags) -> (r: FieldAccessFlags)
        ensures
            r.spec_bits() == self.spec_bits() | other.spec_bits(),
    {
        FieldAccessFlags { bits: self.bits | other.bits }
    }

    /// Sets the bits of `other`.
    pub fn insert(&mut self, other: FieldAccessFlags)
        ensures
            final(self).spec_bits() == old(self).spec_bits() | other.spec_bits(),
    {
        self.bits = self.bits | other.bits;
    }

    /// Clears the bits of `other`.
    pub fn remove(&mut self, other: FieldAccessFlags)
        ensures
            final(self).spec_bits() == old(self).spec_bits() & !other.spec_bits(),
    {
        self.bits = self.bits & !other.bits;
    }
}

impl View for FieldAccessFlags {
    type V = FieldAccessFlags;

    open spec fn view(&self) -> FieldAccessFlags {
        *self
    }
}

impl<'de> Decode<'de> for FieldAccessFlags {
    /// A `u16` of bits, all of which must be defined flags.
    open spec fn spec_decode(s: Seq<u8>) -> Result<(FieldAccessFlags, int), Error> {
        match u16::spec_decode(s) {
            Err(e) => Err(e),
            Ok((bits, n)) => if FieldAccessFlags::known(bits) {
                Ok((FieldAccessFlags::spec_from_bits_retain(bits), n))
            } else {
                Err(Error::UnknownAccessFlags(bits))
            },
        }
    }

    open spec fn decode_requires(s: Seq<u8>) -> bool {
        true
    }

    fn decode<B: Buf<'de>>(buf: &mut B) -> (r: Result<FieldAccessFlags, Error>) {
        let bits = u16::decode(buf)?;
        match FieldAccessFlags::from_bits(bits) {
            Some(f) => Ok(f),
            None => Err(Error::UnknownAccessFlags(bits)),
        }
    }
}

impl Encode for FieldAccessFlags {
    open spec fn spec_encode(v: FieldAccessFlags) -> Seq<u8> {
        u16::spec_encode(v.spec_bits())
    }

    open spec fn encodable(v: FieldAccessFlags) -> bool {
        true
    }

    open spec fn encode_requires(v: FieldAccessFlags) -> bool {
        true
    }

    fn encode<B: BufMut>(&self, buf: &mut B) -> (r: Result<(), Error>) {
        self.bits().encode(buf)
    }
}

impl<'de> Codec<'de> for FieldAccessFlags {
    open spec fn wf(v: FieldAccessFlags) -> bool {
        FieldAccessFlags::known(v.spec_bits())
    }

    proof fn lemma_codec(v: FieldAccessFlags, rest: Seq<u8>) {
        u16::lemma_codec(v.spec_bits(), rest);
    }
}

} // verus!
