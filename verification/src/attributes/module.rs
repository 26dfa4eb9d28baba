//! Bootstrap methods, modules and records.
use vstd::prelude::*;

use super::array::{ArrayReader, ArrayWriter};
use super::element::lemma_prefix_piece;
use crate::list::{
    all_encodable, all_wf, decode_list16, lemma_codec_list16, lemma_list16_requires, put_list16,
    spec_decode_list16, spec_encode_list16, views,
};
#[allow(unused_imports)]
use crate::reader::suffix;
#[allow(unused_imports)]
use crate::util::{
    encode_post, lemma_progress_start, progress, put, Buf, BufMut, Codec, Decode, Encode,
};
use crate::{Attribute, Error, NonZeroU16, SpecAttribute};

verus! {

/// A bootstrap method entry in `BootstrapMethods`.
#[derive(Debug, Clone, PartialEq, Eq, Hash)]
pub struct BootstrapMethod {
    /// Index to `MethodHandle` in constant pool.
    pub method_ref: NonZeroU16,
    /// Indexes to *static arguments* for the bootstrap method in the constant pool.
    pub args: Vec<NonZeroU16>,
}

/// The value of a [`BootstrapMethod`], with its lists as sequences.
pub struct SpecBootstrapMethod {
    pub method_ref: NonZeroU16,
    pub args: Seq<NonZeroU16>,
}

impl View for BootstrapMethod {
    type V = SpecBootstrapMethod;

    open spec fn view(&self) -> SpecBootstrapMethod {
        SpecBootstrapMethod { method_ref: self.method_ref, args: views(self.args@) }
    }
}

impl<'de> Decode<'de> for BootstrapMethod {
    /// The fields in order; each list is a `u16` count, then that many entries.
    open spec fn spec_decode(s: Seq<u8>) -> Result<(SpecBootstrapMethod, int), Error> {
        match NonZeroU16::spec_decode(s) {
            Err(e) => Err(e),
            Ok((method_ref_v, n0)) =>
            match spec_decode_list16::<NonZeroU16>(s.skip(n0)) {
                Err(e) => Err(e),
                Ok((args_v, n1)) =>
                Ok((SpecBootstrapMethod { method_ref: method_ref_v, args: args_v }, n0 + n1))
            }
        }
    }

    open spec fn decode_requires(s: Seq<u8>) -> bool {
        NonZeroU16::decode_requires(s) && match NonZeroU16::spec_decode(s) {
            Err(_) => true,
            Ok((_, n0)) =>
            true
        }
    }

    fn decode<B: Buf<'de>>(buf: &mut B) -> (r: Result<BootstrapMethod, Error>) {
        let method_ref_v = NonZeroU16::decode(buf)?;
        proof {
            assert forall|t: Seq<u8>| NonZeroU16::decode_requires(t) by {}
            lemma_list16_requires::<NonZeroU16>(buf@);
        }
        let args_v = decode_list16::<NonZeroU16, B>(buf)?;
        Ok(BootstrapMethod { method_ref: method_ref_v, args: args_v })
    }
}

impl Encode for BootstrapMethod {
    /// The fields in order; each list is its count cut to two bytes, then its entries.
    open spec fn spec_encode(v: SpecBootstrapMethod) -> Seq<u8> {
        NonZeroU16::spec_encode(v.method_ref) + spec_encode_list16::<NonZeroU16>(v.args)
    }

    open spec fn encodable(v: SpecBootstrapMethod) -> bool {
        NonZeroU16::encodable(v.method_ref)
    }

    open spec fn encode_requires(v: SpecBootstrapMethod) -> bool {
        NonZeroU16::encode_requires(v.method_ref) && all_encodable::<NonZeroU16>(v.args)
    }

    fn encode<B: BufMut>(&self, buf: &mut B) -> (r: Result<(), Error>) {
        let ghost b0 = *buf;
        let ghost total = Self::spec_encode(self@);
        proof {
            lemma_progress_start(b0);
        }
        put(buf, &self.method_ref, Ghost(b0), Ghost(Seq::empty()), Ghost(total))?;
        put_list16(buf, self.args.as_slice(), Ghost(b0), Ghost(Seq::empty() + NonZeroU16::spec_encode(self.method_ref)), Ghost(total))?;
        assert(Seq::empty() + NonZeroU16::spec_encode(self.method_ref) + spec_encode_list16::<NonZeroU16>(views(self.args@)) =~= total);
        Ok(())
    }
}

impl<'de> Codec<'de> for BootstrapMethod {
    open spec fn wf(v: SpecBootstrapMethod) -> bool {
        NonZeroU16::wf(v.method_ref) && v.args.len() <= u16::MAX && all_wf::<NonZeroU16>(v.args)
    }

    proof fn lemma_codec(v: SpecBootstrapMethod, rest: Seq<u8>) {
        let e0 = NonZeroU16::spec_encode(v.method_ref);
        let e1 = spec_encode_list16::<NonZeroU16>(v.args);
        let s = Self::spec_encode(v) + rest;
        assert(s =~= (e0 + (e1 + rest)));
        NonZeroU16::lemma_codec(v.method_ref, (e1 + rest));
        assert(s.skip(e0.len() as int) =~= (e1 + rest));
        lemma_codec_list16::<NonZeroU16>(v.args, rest);
    }
}

/// Name of `BootstrapMethods` attribute.
/// See [`BootstrapMethodsReader`] and [`BootstrapMethodsWriter`] for usage.
pub const NAME_BOOTSTRAP_METHODS: &'static str = "BootstrapMethods";

/// Reader of `BootstrapMethods` attribute.
pub type BootstrapMethodsReader<'a, B> = ArrayReader<'a, B, BootstrapMethod>;

/// Writer of `BootstrapMethods` attribute.
pub type BootstrapMethodsWriter<B> = ArrayWriter<B, BootstrapMethod>;

/// Name of [`Module`] attribute.
pub const NAME_MODULE: &'static str = "Module";

/// Denote properties of a module.
#[derive(Debug, Clone, Copy, PartialEq, Eq, PartialOrd, Ord, Hash)]
pub struct ModuleFlags {
    bits: u16,
}

impl ModuleFlags {
    /// Indicates that this module is open.
    pub const OPEN: u16 = 0x0020;

    /// Indicates that this module was not explicitly or implicitly declared.
    pub const SYNTHETIC: u16 = 0x1000;

    /// Indicates that this module was implicitly declared.
    pub const MANDATED: u16 = 0x8000;

    /// The bits of all the flags defined.
    pub const ALL_BITS: u16 = 0x9020;

    /// The bits of this set.
    pub closed spec fn spec_bits(self) -> u16 {
        self.bits
    }

    /// The set with exactly the given bits, defined or not.
    pub closed spec fn spec_from_bits_retain(bits: u16) -> ModuleFlags {
        ModuleFlags { bits }
    }

    pub broadcast proof fn lemma_bits(bits: u16)
        ensures
            #[trigger] ModuleFlags::spec_from_bits_retain(bits).spec_bits() == bits,
    {
    }

    pub broadcast proof fn lemma_from_bits(f: ModuleFlags)
        ensures
            #[trigger] ModuleFlags::spec_from_bits_retain(f.spec_bits()) == f,
    {
    }

    /// Whether every bit of `bits` is a defined flag.
    pub open spec fn known(bits: u16) -> bool {
        bits & !ModuleFlags::ALL_BITS == 0
    }

    /// The bits of this set.
    pub fn bits(&self) -> (r: u16)
        ensures
            r == self.spec_bits(),
    {
        self.bits
    }

    /// The set with the given bits, if every one of them is a defined flag.
    pub fn from_bits(bits: u16) -> (r: Option<ModuleFlags>)
        ensures
            r == (if ModuleFlags::known(bits) {
                Some(ModuleFlags::spec_from_bits_retain(bits))
            } else {
                None
            }),
    {
        if bits & !ModuleFlags::ALL_BITS == 0 {
            Some(ModuleFlags { bits })
        } else {
            None
        }
    }

    /// The set with exactly the given bits, defined or not.
    pub fn from_bits_retain(bits: u16) -> (r: ModuleFlags)
        ensures
            r == ModuleFlags::spec_from_bits_retain(bits),
    {
        ModuleFlags { bits }
    }

    /// The set with the defined flags of `bits` and no other.
    pub fn from_bits_truncate(bits: u16) -> (r: ModuleFlags)
        ensures
            r.spec_bits() == bits & ModuleFlags::ALL_BITS,
    {
        ModuleFlags { bits: bits & ModuleFlags::ALL_BITS }
    }

    /// The empty set.
    pub fn empty() -> (r: ModuleFlags)
        ensures
            r.spec_bits() == 0,
    {
        ModuleFlags { bits: 0 }
    }

    /// The set of all defined flags.
    pub fn all() -> (r: ModuleFlags)
        ensures
            r.spec_bits() == ModuleFlags::ALL_BITS,
    {
        ModuleFlags { bits: ModuleFlags::ALL_BITS }
    }

    /// Whether no bit is set.
    pub fn is_empty(&self) -> (r: bool)
        ensures
            r == (self.spec_bits() == 0),
    {
        self.bits == 0
    }

    /// Whether every bit of `other` is set in `self`.
    pub fn contains(&self, other: ModuleFlags) -> (r: bool)
        ensures
            r == (self.spec_bits() & other.spec_bits() == other.spec_bits()),
    {
        self.bits & other.bits == other.bits
    }

    /// Whether some bit is set in both.
    pub fn intersects(&self, other: ModuleFlags) -> (r: bool)
        ensures
            r == (self.spec_bits() & other.spec_bits() != 0),
    {
        self.bits & other.bits != 0
    }

    /// The bits set in either.
    pub fn union(self, other: ModuleFlags) -> (r: ModuleFlags)
        ensures
            r.spec_bits() == self.spec_bits() | other.spec_bits(),
    {
        ModuleFlags { bits: self.bits | other.bits }
    }

    /// Sets the bits of `other`.
    pub fn insert(&mut self, other: ModuleFlags)
        ensures
            final(self).spec_bits() == old(self).spec_bits() | other.spec_bits(),
    {
        self.bits = self.bits | other.bits;
    }

    /// Clears the bits of `other`.
    pub fn remove(&mut self, other: ModuleFlags)
        ensures
            final(self).spec_bits() == old(self).spec_bits() & !other.spec_bits(),
    {
        self.bits = self.bits & !other.bits;
    }
}

impl View for ModuleFlags {
    type V = ModuleFlags;

    open spec fn view(&self) -> ModuleFlags {
        *self
    }
}

impl<'de> Decode<'de> for ModuleFlags {
    /// A `u16` of bits, kept as they are.
    open spec fn spec_decode(s: Seq<u8>) -> Result<(ModuleFlags, int), Error> {
        match u16::spec_decode(s) {
            Err(e) => Err(e),
            Ok((bits, n)) => Ok((ModuleFlags::spec_from_bits_retain(bits), n)),
        }
    }

    open spec fn decode_requires(s: Seq<u8>) -> bool {
        true
    }

    fn decode<B: Buf<'de>>(buf: &mut B) -> (r: Result<ModuleFlags, Error>) {
        let bits = u16::decode(buf)?;
        Ok(ModuleFlags::from_bits_retain(bits))
    }
}

impl Encode for ModuleFlags {
    open spec fn spec_encode(v: ModuleFlags) -> Seq<u8> {
        u16::spec_encode(v.spec_bits())
    }

    open spec fn encodable(v: ModuleFlags) -> bool {
        true
    }

    open spec fn encode_requires(v: ModuleFlags) -> bool {
        true
    }

    fn encode<B: BufMut>(&self, buf: &mut B) -> (r: Result<(), Error>) {
        self.bits().encode(buf)
    }
}

impl<'de> Codec<'de> for ModuleFlags {
    open spec fn wf(v: ModuleFlags) -> bool {
        true
    }

    proof fn lemma_codec(v: ModuleFlags, rest: Seq<u8>) {
        u16::lemma_codec(v.spec_bits(), rest);
    }
}

/// A dependency of a module.
#[derive(Debug, PartialEq, Eq, Clone, Copy, Hash)]
pub struct ModuleRequired {
    /// The depended module, as an index in constant pool (`Module`).
    pub index: NonZeroU16,
    /// Properties of the dependency.
    pub flags: ModuleRequiredFlags,
    /// Version information about the module as index to constant table (`Utf8`), if present.
    pub version_idx: Option<NonZeroU16>,
}

impl View for ModuleRequired {
    type V = ModuleRequired;

    open spec fn view(&self) -> ModuleRequired {
        *self
    }
}

impl<'de> Decode<'de> for ModuleRequired {
    /// The fields in order: `index`, `flags`, `version_idx`.
    open spec fn spec_decode(s: Seq<u8>) -> Result<(ModuleRequired, int), Error> {
        match NonZeroU16::spec_decode(s) {
            Err(e) => Err(e),
            Ok((index_v, n0)) =>
            match ModuleRequiredFlags::spec_decode(s.skip(n0)) {
                Err(e) => Err(e),
                Ok((flags_v, n1)) =>
                match <Option<NonZeroU16>>::spec_decode(s.skip(n0).skip(n1)) {
                    Err(e) => Err(e),
                    Ok((version_idx_v, n2)) =>
                    Ok((ModuleRequired { index: index_v, flags: flags_v, version_idx: version_idx_v }, n0 + n1 + n2))
                }
            }
        }
    }

    open spec fn decode_requires(s: Seq<u8>) -> bool {
        NonZeroU16::decode_requires(s) && match NonZeroU16::spec_decode(s) {
            Err(_) => true,
            Ok((_, n0)) =>
            ModuleRequiredFlags::decode_requires(s.skip(n0)) && match ModuleRequiredFlags::spec_decode(s.skip(n0)) {
                Err(_) => true,
                Ok((_, n1)) =>
                <Option<NonZeroU16>>::decode_requires(s.skip(n0).skip(n1))
            }
        }
    }

    fn decode<B: Buf<'de>>(buf: &mut B) -> (r: Result<ModuleRequired, Error>) {
        let index_v = NonZeroU16::decode(buf)?;
        let flags_v = ModuleRequiredFlags::decode(buf)?;
        let version_idx_v = <Option<NonZeroU16>>::decode(buf)?;
        Ok(ModuleRequired { index: index_v, flags: flags_v, version_idx: version_idx_v })
    }
}

impl Encode for ModuleRequired {
    open spec fn spec_encode(v: ModuleRequired) -> Seq<u8> {
        NonZeroU16::spec_encode(v.index) + ModuleRequiredFlags::spec_encode(v.flags) + <Option<NonZeroU16>>::spec_encode(v.version_idx)
    }

    open spec fn encodable(v: ModuleRequired) -> bool {
        NonZeroU16::encodable(v.index) && ModuleRequiredFlags::encodable(v.flags) && <Option<NonZeroU16>>::encodable(v.version_idx)
    }

    open spec fn encode_requires(v: ModuleRequired) -> bool {
        NonZeroU16::encode_requires(v.index) && ModuleRequiredFlags::encode_requires(v.flags) && <Option<NonZeroU16>>::encode_requires(v.version_idx)
    }

    fn encode<B: BufMut>(&self, buf: &mut B) -> (r: Result<(), Error>) {
        let ghost b0 = *buf;
        let ghost total = Self::spec_encode(*self);
        proof {
            lemma_progress_start(b0);
        }
        put(buf, &self.index, Ghost(b0), Ghost(Seq::empty()), Ghost(total))?;
        put(buf, &self.flags, Ghost(b0), Ghost(Seq::empty() + NonZeroU16::spec_encode(self.index)), Ghost(total))?;
        put(buf, &self.version_idx, Ghost(b0), Ghost(Seq::empty() + NonZeroU16::spec_encode(self.index) + ModuleRequiredFlags::spec_encode(self.flags)), Ghost(total))?;
        assert(Seq::empty() + NonZeroU16::spec_encode(self.index) + ModuleRequiredFlags::spec_encode(self.flags) + <Option<NonZeroU16>>::spec_encode(self.version_idx) =~= total);
        Ok(())
    }
}

impl<'de> Codec<'de> for ModuleRequired {
    open spec fn wf(v: ModuleRequired) -> bool {
        NonZeroU16::wf(v.index) && ModuleRequiredFlags::wf(v.flags) && <Option<NonZeroU16>>::wf(v.version_idx)
    }

    proof fn lemma_codec(v: ModuleRequired, rest: Seq<u8>) {
        let e0 = NonZeroU16::spec_encode(v.index);
        let e1 = ModuleRequiredFlags::spec_encode(v.flags);
        let e2 = <Option<NonZeroU16>>::spec_encode(v.version_idx);
        assert(e0 + e1 + e2 + rest =~= (e0 + (e1 + (e2 + rest))));
        NonZeroU16::lemma_codec(v.index, (e1 + (e2 + rest)));
        assert((e0 + (e1 + (e2 + rest))).skip(e0.len() as int) =~= (e1 + (e2 + rest)));
        ModuleRequiredFlags::lemma_codec(v.flags, (e2 + rest));
        assert((e1 + (e2 + rest)).skip(e1.len() as int) =~= (e2 + rest));
        <Option<NonZeroU16>>::lemma_codec(v.version_idx, rest);
    }
}

/// Denote properties of a module dependency.
#[derive(Debug, Clone, Copy, PartialEq, Eq, PartialOrd, Ord, Hash)]
pub struct ModuleRequiredFlags {
    bits: u16,
}

impl ModuleRequiredFlags {
    /// Indicates that any module which depends on the current module,
    /// implicitly declares a dependence on the module indicated by this entry.
    pub const TRANSITIVE: u16 = 0x0020;

    /// Indicates that this dependence is mandatory in the static phase.
    pub const STATIC_PHASE: u16 = 0x0040;

    /// Indicates that this dependence was not explicitly or implicitly declared
    /// in the source of the module declaration.
    pub const SYNTHETIC: u16 = 0x1000;

    /// Indicates that this dependence was implicitly declared in the source of the module declaration.
    pub const MANDATED: u16 = 0x8000;

    /// The bits of all the flags defined.
    pub const ALL_BITS: u16 = 0x9060;

    /// The bits of this set.
    pub closed spec fn spec_bits(self) -> u16 {
        self.bits
    }

    /// The set with exactly the given bits, defined or not.
    pub closed spec fn spec_from_bits_retain(bits: u16) -> ModuleRequiredFlags {
        ModuleRequiredFlags { bits }
    }

    pub broadcast proof fn lemma_bits(bits: u16)
        ensures
            #[trigger] ModuleRequiredFlags::spec_from_bits_retain(bits).spec_bits() == bits,
    {
    }

    pub broadcast proof fn lemma_from_bits(f: ModuleRequiredFlags)
        ensures
            #[trigger] ModuleRequiredFlags::spec_from_bits_retain(f.spec_bits()) == f,
    {
    }

    /// Whether every bit of `bits` is a defined flag.
    pub open spec fn known(bits: u16) -> bool {
        bits & !ModuleRequiredFlags::ALL_BITS == 0
    }

    /// The bits of this set.
    pub fn bits(&self) -> (r: u16)
        ensures
            r == self.spec_bits(),
    {
        self.bits
    }

    /// The set with the given bits, if every one of them is a defined flag.
    pub fn from_bits(bits: u16) -> (r: Option<ModuleRequiredFlags>)
        ensures
            r == (if ModuleRequiredFlags::known(bits) {
                Some(ModuleRequiredFlags::spec_from_bits_retain(bits))
            } else {
                None
            }),
    {
        if bits & !ModuleRequiredFlags::ALL_BITS == 0 {
            Some(ModuleRequiredFlags { bits })
        } else {
            None
        }
    }

    /// The set with exactly the given bits, defined or not.
    pub fn from_bits_retain(bits: u16) -> (r: ModuleRequiredFlags)
        ensures
            r == ModuleRequiredFlags::spec_from_bits_retain(bits),
    {
        ModuleRequiredFlags { bits }
    }

    /// The set with the defined flags of `bits` and no other.
    pub fn from_bits_truncate(bits: u16) -> (r: ModuleRequiredFlags)
        ensures
            r.spec_bits() == bits & ModuleRequiredFlags::ALL_BITS,
    {
        ModuleRequiredFlags { bits: bits & ModuleRequiredFlags::ALL_BITS }
    }

    /// The empty set.
    pub fn empty() -> (r: ModuleRequiredFlags)
        ensures
            r.spec_bits() == 0,
    {
        ModuleRequiredFlags { bits: 0 }
    }

    /// The set of all defined flags.
    pub fn all() -> (r: ModuleRequiredFlags)
        ensures
            r.spec_bits() == ModuleRequiredFlags::ALL_BITS,
    {
        ModuleRequiredFlags { bits: ModuleRequiredFlags::ALL_BITS }
    }

    /// Whether no bit is set.
    pub fn is_empty(&self) -> (r: bool)
        ensures
            r == (self.spec_bits() == 0),
    {
        self.bits == 0
    }

    /// Whether every bit of `other` is set in `self`.
    pub fn contains(&self, other: ModuleRequiredFlags) -> (r: bool)
        ensures
            r == (self.spec_bits() & other.spec_bits() == other.spec_bits()),
    {
        self.bits & other.bits == other.bits
    }

    /// Whether some bit is set in both.
    pub fn intersects(&self, other: ModuleRequiredFlags) -> (r: bool)
        ensures
            r == (self.spec_bits() & other.spec_bits() != 0),
    {
        self.bits & other.bits != 0
    }

    /// The bits set in either.
    pub fn union(self, other: ModuleRequiredFlags) -> (r: ModuleRequiredFlags)
        ensures
            r.spec_bits() == self.spec_bits() | other.spec_bits(),
    {
        ModuleRequiredFlags { bits: self.bits | other.bits }
    }

    /// Sets the bits of `other`.
    pub fn insert(&mut self, other: ModuleRequiredFlags)
        ensures
            final(self).spec_bits() == old(self).spec_bits() | other.spec_bits(),
    {
        self.bits = self.bits | other.bits;
    }

    /// Clears the bits of `other`.
    pub fn remove(&mut self, other: ModuleRequiredFlags)
        ensures
            final(self).spec_bits() == old(self).spec_bits() & !other.spec_bits(),
    {
        self.bits = self.bits & !other.bits;
    }
}

impl View for ModuleRequiredFlags {
    type V = ModuleRequiredFlags;

    open spec fn view(&self) -> ModuleRequiredFlags {
        *self
    }
}

impl<'de> Decode<'de> for ModuleRequiredFlags {
    /// A `u16` of bits, kept as they are.
    open spec fn spec_decode(s: Seq<u8>) -> Result<(ModuleRequiredFlags, int), Error> {
        match u16::spec_decode(s) {
            Err(e) => Err(e),
            Ok((bits, n)) => Ok((ModuleRequiredFlags::spec_from_bits_retain(bits), n)),
        }
    }

    open spec fn decode_requires(s: Seq<u8>) -> bool {
        true
    }

    fn decode<B: Buf<'de>>(buf: &mut B) -> (r: Result<ModuleRequiredFlags, Error>) {
        let bits = u16::decode(buf)?;
        Ok(ModuleRequiredFlags::from_bits_retain(bits))
    }
}

impl Encode for ModuleRequiredFlags {
    open spec fn spec_encode(v: ModuleRequiredFlags) -> Seq<u8> {
        u16::spec_encode(v.spec_bits())
    }

    open spec fn encodable(v: ModuleRequiredFlags) -> bool {
        true
    }

    open spec fn encode_requires(v: ModuleRequiredFlags) -> bool {
        true
    }

    fn encode<B: BufMut>(&self, buf: &mut B) -> (r: Result<(), Error>) {
        self.bits().encode(buf)
    }
}

impl<'de> Codec<'de> for ModuleRequiredFlags {
    open spec fn wf(v: ModuleRequiredFlags) -> bool {
        true
    }

    proof fn lemma_codec(v: ModuleRequiredFlags, rest: Seq<u8>) {
        u16::lemma_codec(v.spec_bits(), rest);
    }
}

/// Package related to a module.
#[derive(Debug, Clone, PartialEq, Eq)]
pub struct PackageRelation {
    /// The package index to constant pool. (`Package`)
    pub index: NonZeroU16,
    /// Properties of the package relation.
    pub flags: PackageFlags,
    /// The destination module indices to constant pool. (`Module`)
    pub dst_indices: Vec<NonZeroU16>,
}

/// The value of a [`PackageRelation`], with its lists as sequences.
pub struct SpecPackageRelation {
    pub index: NonZeroU16,
    pub flags: PackageFlags,
    pub dst_indices: Seq<NonZeroU16>,
}

impl View for PackageRelation {
    type V = SpecPackageRelation;

    open spec fn view(&self) -> SpecPackageRelation {
        SpecPackageRelation { index: self.index, flags: self.flags, dst_indices: views(self.dst_indices@) }
    }
}

impl<'de> Decode<'de> for PackageRelation {
    /// The fields in order; each list is a `u16` count, then that many entries.
    open spec fn spec_decode(s: Seq<u8>) -> Result<(SpecPackageRelation, int), Error> {
        match NonZeroU16::spec_decode(s) {
            Err(e) => Err(e),
            Ok((index_v, n0)) =>
            match PackageFlags::spec_decode(s.skip(n0)) {
                Err(e) => Err(e),
                Ok((flags_v, n1)) =>
                match spec_decode_list16::<NonZeroU16>(s.skip(n0).skip(n1)) {
                    Err(e) => Err(e),
                    Ok((dst_indices_v, n2)) =>
                    Ok((SpecPackageRelation { index: index_v, flags: flags_v, dst_indices: dst_indices_v }, n0 + n1 + n2))
                }
            }
        }
    }

    open spec fn decode_requires(s: Seq<u8>) -> bool {
        NonZeroU16::decode_requires(s) && match NonZeroU16::spec_decode(s) {
            Err(_) => true,
            Ok((_, n0)) =>
            PackageFlags::decode_requires(s.skip(n0)) && match PackageFlags::spec_decode(s.skip(n0)) {
                Err(_) => true,
                Ok((_, n1)) =>
                true
            }
        }
    }

    fn decode<B: Buf<'de>>(buf: &mut B) -> (r: Result<PackageRelation, Error>) {
        let index_v = NonZeroU16::decode(buf)?;
        let flags_v = PackageFlags::decode(buf)?;
        proof {
            assert forall|t: Seq<u8>| NonZeroU16::decode_requires(t) by {}
            lemma_list16_requires::<NonZeroU16>(buf@);
        }
        let dst_indices_v = decode_list16::<NonZeroU16, B>(buf)?;
        Ok(PackageRelation { index: index_v, flags: flags_v, dst_indices: dst_indices_v })
    }
}

impl Encode for PackageRelation {
    /// The fields in order; each list is its count cut to two bytes, then its entries.
    open spec fn spec_encode(v: SpecPackageRelation) -> Seq<u8> {
        NonZeroU16::spec_encode(v.index) + PackageFlags::spec_encode(v.flags) + spec_encode_list16::<NonZeroU16>(v.dst_indices)
    }

    open spec fn encodable(v: SpecPackageRelation) -> bool {
        NonZeroU16::encodable(v.index) && PackageFlags::encodable(v.flags)
    }

    open spec fn encode_requires(v: SpecPackageRelation) -> bool {
        NonZeroU16::encode_requires(v.index) && PackageFlags::encode_requires(v.flags) && all_encodable::<NonZeroU16>(v.dst_indices)
    }

    fn encode<B: BufMut>(&self, buf: &mut B) -> (r: Result<(), Error>) {
        let ghost b0 = *buf;
        let ghost total = Self::spec_encode(self@);
        proof {
            lemma_progress_start(b0);
        }
        put(buf, &self.index, Ghost(b0), Ghost(Seq::empty()), Ghost(total))?;
        put(buf, &self.flags, Ghost(b0), Ghost(Seq::empty() + NonZeroU16::spec_encode(self.index)), Ghost(total))?;
        put_list16(buf, self.dst_indices.as_slice(), Ghost(b0), Ghost(Seq::empty() + NonZeroU16::spec_encode(self.index) + PackageFlags::spec_encode(self.flags)), Ghost(total))?;
        assert(Seq::empty() + NonZeroU16::spec_encode(self.index) + PackageFlags::spec_encode(self.flags) + spec_encode_list16::<NonZeroU16>(views(self.dst_indices@)) =~= total);
        Ok(())
    }
}

impl<'de> Codec<'de> for PackageRelation {
    open spec fn wf(v: SpecPackageRelation) -> bool {
        NonZeroU16::wf(v.index) && PackageFlags::wf(v.flags) && v.dst_indices.len() <= u16::MAX && all_wf::<NonZeroU16>(v.dst_indices)
    }

    proof fn lemma_codec(v: SpecPackageRelation, rest: Seq<u8>) {
        let e0 = NonZeroU16::spec_encode(v.index);
        let e1 = PackageFlags::spec_encode(v.flags);
        let e2 = spec_encode_list16::<NonZeroU16>(v.dst_indices);
        let s = Self::spec_encode(v) + rest;
        assert(s =~= (e0 + (e1 + (e2 + rest))));
        NonZeroU16::lemma_codec(v.index, (e1 + (e2 + rest)));
        assert(s.skip(e0.len() as int) =~= (e1 + (e2 + rest)));
        PackageFlags::lemma_codec(v.flags, (e2 + rest));
        assert(s.skip(e0.len() as int).skip(e1.len() as int) =~= (e2 + rest));
        lemma_codec_list16::<NonZeroU16>(v.dst_indices, rest);
    }
}

/// Denote properties of a module dependency.
#[derive(Debug, Clone, Copy, PartialEq, Eq, PartialOrd, Ord, Hash)]
pub struct PackageFlags {
    bits: u16,
}

impl PackageFlags {
    /// Indicates that this export was not explicitly or implicitly declared in the source of the module declaration.
    pub const STATIC_PHASE: u16 = 0x0040;

    /// Indicates that this package was implicitly declared in the source of the module declaration.
    pub const MANDATED: u16 = 0x8000;

    /// The bits of all the flags defined.
    pub const ALL_BITS: u16 = 0x8040;

    /// The bits of this set.
    pub closed spec fn spec_bits(self) -> u16 {
        self.bits
    }

    /// The set with exactly the given bits, defined or not.
    pub closed spec fn spec_from_bits_retain(bits: u16) -> PackageFlags {
        PackageFlags { bits }
    }

    pub broadcast proof fn lemma_bits(bits: u16)
        ensures
            #[trigger] PackageFlags::spec_from_bits_retain(bits).spec_bits() == bits,
    {
    }

    pub broadcast proof fn lemma_from_bits(f: PackageFlags)
        ensures
            #[trigger] PackageFlags::spec_from_bits_retain(f.spec_bits()) == f,
    {
    }

    /// Whether every bit of `bits` is a defined flag.
    pub open spec fn known(bits: u16) -> bool {
        bits & !PackageFlags::ALL_BITS == 0
    }

    /// The bits of this set.
    pub fn bits(&self) -> (r: u16)
        ensures
            r == self.spec_bits(),
    {
        self.bits
    }

    /// The set with the given bits, if every one of them is a defined flag.
    pub fn from_bits(bits: u16) -> (r: Option<PackageFlags>)
        ensures
            r == (if PackageFlags::known(bits) {
                Some(PackageFlags::spec_from_bits_retain(bits))
            } else {
                None
            }),
    {
        if bits & !PackageFlags::ALL_BITS == 0 {
            Some(PackageFlags { bits })
        } else {
            None
        }
    }

    /// The set with exactly the given bits, defined or not.
    pub fn from_bits_retain(bits: u16) -> (r: PackageFlags)
        ensures
            r == PackageFlags::spec_from_bits_retain(bits),
    {
        PackageFlags { bits }
    }

    /// The set with the defined flags of `bits` and no other.
    pub fn from_bits_truncate(bits: u16) -> (r: PackageFlags)
        ensures
            r.spec_bits() == bits & PackageFlags::ALL_BITS,
    {
        PackageFlags { bits: bits & PackageFlags::ALL_BITS }
    }

    /// The empty set.
    pub fn empty() -> (r: PackageFlags)
        ensures
            r.spec_bits() == 0,
    {
        PackageFlags { bits: 0 }
    }

    /// The set of all defined flags.
    pub fn all() -> (r: PackageFlags)
        ensures
            r.spec_bits() == PackageFlags::ALL_BITS,
    {
        PackageFlags { bits: PackageFlags::ALL_BITS }
    }

    /// Whether no bit is set.
    pub fn is_empty(&self) -> (r: bool)
        ensures
            r == (self.spec_bits() == 0),
    {
        self.bits == 0
    }

    /// Whether every bit of `other` is set in `self`.
    pub fn contains(&self, other: PackageFlags) -> (r: bool)
        ensures
            r == (self.spec_bits() & other.spec_bits() == other.spec_bits()),
    {
        self.bits & other.bits == other.bits
    }

    /// Whether some bit is set in both.
    pub fn intersects(&self, other: PackageFlags) -> (r: bool)
        ensures
            r == (self.spec_bits() & other.spec_bits() != 0),
    {
        self.bits & other.bits != 0
    }

    /// The bits set in either.
    pub fn union(self, other: PackageFlags) -> (r: PackageFlags)
        ensures
            r.spec_bits() == self.spec_bits() | other.spec_bits(),
    {
        PackageFlags { bits: self.bits | other.bits }
    }

    /// Sets the bits of `other`.
    pub fn insert(&mut self, other: PackageFlags)
        ensures
            final(self).spec_bits() == old(self).spec_bits() | other.spec_bits(),
    {
        self.bits = self.bits | other.bits;
    }

    /// Clears the bits of `other`.
    pub fn remove(&mut self, other: PackageFlags)
        ensures
            final(self).spec_bits() == old(self).spec_bits() & !other.spec_bits(),
    {
        self.bits = self.bits & !other.bits;
    }
}

impl View for PackageFlags {
    type V = PackageFlags;

    open spec fn view(&self) -> PackageFlags {
        *self
    }
}

impl<'de> Decode<'de> for PackageFlags {
    /// A `u16` of bits, kept as they are.
    open spec fn spec_decode(s: Seq<u8>) -> Result<(PackageFlags, int), Error> {
        match u16::spec_decode(s) {
            Err(e) => Err(e),
            Ok((bits, n)) => Ok((PackageFlags::spec_from_bits_retain(bits), n)),
        }
    }

    open spec fn decode_requires(s: Seq<u8>) -> bool {
        true
    }

    fn decode<B: Buf<'de>>(buf: &mut B) -> (r: Result<PackageFlags, Error>) {
        let bits = u16::decode(buf)?;
        Ok(PackageFlags::from_bits_retain(bits))
    }
}

impl Encode for PackageFlags {
    open spec fn spec_encode(v: PackageFlags) -> Seq<u8> {
        u16::spec_encode(v.spec_bits())
    }

    open spec fn encodable(v: PackageFlags) -> bool {
        true
    }

    open spec fn encode_requires(v: PackageFlags) -> bool {
        true
    }

    fn encode<B: BufMut>(&self, buf: &mut B) -> (r: Result<(), Error>) {
        self.bits().encode(buf)
    }
}

impl<'de> Codec<'de> for PackageFlags {
    open spec fn wf(v: PackageFlags) -> bool {
        true
    }

    proof fn lemma_codec(v: PackageFlags, rest: Seq<u8>) {
        u16::lemma_codec(v.spec_bits(), rest);
    }
}

/// A service implementation for a given service interface in a module.
#[derive(Debug, Clone, PartialEq, Eq)]
pub struct ModuleProvided {
    /// The service interface index to constant pool. (`Class`)
    pub index: NonZeroU16,
    /// The destination service implementation indices to constant pool. (`Class`)
    pub dst_indices: Vec<NonZeroU16>,
}

/// The value of a [`ModuleProvided`], with its lists as sequences.
pub struct SpecModuleProvided {
    pub index: NonZeroU16,
    pub dst_indices: Seq<NonZeroU16>,
}

impl View for ModuleProvided {
    type V = SpecModuleProvided;

    open spec fn view(&self) -> SpecModuleProvided {
        SpecModuleProvided { index: self.index, dst_indices: views(self.dst_indices@) }
    }
}

impl<'de> Decode<'de> for ModuleProvided {
    /// The fields in order; each list is a `u16` count, then that many entries.
    open spec fn spec_decode(s: Seq<u8>) -> Result<(SpecModuleProvided, int), Error> {
        match NonZeroU16::spec_decode(s) {
            Err(e) => Err(e),
            Ok((index_v, n0)) =>
            match spec_decode_list16::<NonZeroU16>(s.skip(n0)) {
                Err(e) => Err(e),
                Ok((dst_indices_v, n1)) =>
                Ok((SpecModuleProvided { index: index_v, dst_indices: dst_indices_v }, n0 + n1))
            }
        }
    }

    open spec fn decode_requires(s: Seq<u8>) -> bool {
        NonZeroU16::decode_requires(s) && match NonZeroU16::spec_decode(s) {
            Err(_) => true,
            Ok((_, n0)) =>
            true
        }
    }

    fn decode<B: Buf<'de>>(buf: &mut B) -> (r: Result<ModuleProvided, Error>) {
        let index_v = NonZeroU16::decode(buf)?;
        proof {
            assert forall|t: Seq<u8>| NonZeroU16::decode_requires(t) by {}
            lemma_list16_requires::<NonZeroU16>(buf@);
        }
        let dst_indices_v = decode_list16::<NonZeroU16, B>(buf)?;
        Ok(ModuleProvided { index: index_v, dst_indices: dst_indices_v })
    }
}

impl Encode for ModuleProvided {
    /// The fields in order; each list is its count cut to two bytes, then its entries.
    open spec fn spec_encode(v: SpecModuleProvided) -> Seq<u8> {
        NonZeroU16::spec_encode(v.index) + spec_encode_list16::<NonZeroU16>(v.dst_indices)
    }

    open spec fn encodable(v: SpecModuleProvided) -> bool {
        NonZeroU16::encodable(v.index)
    }

    open spec fn encode_requires(v: SpecModuleProvided) -> bool {
        NonZeroU16::encode_requires(v.index) && all_encodable::<NonZeroU16>(v.dst_indices)
    }

    fn encode<B: BufMut>(&self, buf: &mut B) -> (r: Result<(), Error>) {
        let ghost b0 = *buf;
        let ghost total = Self::spec_encode(self@);
        proof {
            lemma_progress_start(b0);
        }
        put(buf, &self.index, Ghost(b0), Ghost(Seq::empty()), Ghost(total))?;
        put_list16(buf, self.dst_indices.as_slice(), Ghost(b0), Ghost(Seq::empty() + NonZeroU16::spec_encode(self.index)), Ghost(total))?;
        assert(Seq::empty() + NonZeroU16::spec_encode(self.index) + spec_encode_list16::<NonZeroU16>(views(self.dst_indices@)) =~= total);
        Ok(())
    }
}

impl<'de> Codec<'de> for ModuleProvided {
    open spec fn wf(v: SpecModuleProvided) -> bool {
        NonZeroU16::wf(v.index) && v.dst_indices.len() <= u16::MAX && all_wf::<NonZeroU16>(v.dst_indices)
    }

    proof fn lemma_codec(v: SpecModuleProvided, rest: Seq<u8>) {
        let e0 = NonZeroU16::spec_encode(v.index);
        let e1 = spec_encode_list16::<NonZeroU16>(v.dst_indices);
        let s = Self::spec_encode(v) + rest;
        assert(s =~= (e0 + (e1 + rest)));
        NonZeroU16::lemma_codec(v.index, (e1 + rest));
        assert(s.skip(e0.len() as int) =~= (e1 + rest));
        lemma_codec_list16::<NonZeroU16>(v.dst_indices, rest);
    }
}

/// Information about a module, consists of following properties:
///
/// - The modules required by a module
/// - The packages exported and opened by a module
/// - The services used and provided by a module.
#[derive(Debug, Clone, PartialEq, Eq)]
pub struct Module {
    /// Name of this module, as index to constant table (`Utf8`).
    pub name_idx: NonZeroU16,
    /// Properties of this module.
    pub flags: ModuleFlags,
    /// Version information about the module as index to constant table (`Utf8`), if present.
    pub version_idx: Option<NonZeroU16>,
    /// Dependencies of this module.
    pub requires: Vec<ModuleRequired>,
    /// Packages exported by this module.
    pub exports: Vec<PackageRelation>,
    /// Packages opened by this module.
    pub opens: Vec<PackageRelation>,
    /// `ServiceLoader`s used by this module, by the form of constant pool indices. (`Class`)
    pub uses: Vec<NonZeroU16>,
    /// Serivce implementations of interfaces.
    pub provides: Vec<ModuleProvided>,
}

/// The value of a [`Module`], with its lists as sequences.
pub struct SpecModule {
    pub name_idx: NonZeroU16,
    pub flags: ModuleFlags,
    pub version_idx: Option<NonZeroU16>,
    pub requires: Seq<ModuleRequired>,
    pub exports: Seq<SpecPackageRelation>,
    pub opens: Seq<SpecPackageRelation>,
    pub uses: Seq<NonZeroU16>,
    pub provides: Seq<SpecModuleProvided>,
}

impl View for Module {
    type V = SpecModule;

    open spec fn view(&self) -> SpecModule {
        SpecModule { name_idx: self.name_idx, flags: self.flags, version_idx: self.version_idx, requires: views(self.requires@), exports: views(self.exports@), opens: views(self.opens@), uses: views(self.uses@), provides: views(self.provides@) }
    }
}

/// Decoding the three lists of a module that say what it requires, exports and opens.
pub open spec fn spec_decode_module_deps(s: Seq<u8>) -> Result<
    (Seq<ModuleRequired>, Seq<SpecPackageRelation>, Seq<SpecPackageRelation>, int),
    Error,
> {
    match spec_decode_list16::<ModuleRequired>(s) {
        Err(e) => Err(e),
        Ok((reqs, n1)) => match spec_decode_list16::<PackageRelation>(s.skip(n1)) {
            Err(e) => Err(e),
            Ok((exports, n2)) => match spec_decode_list16::<PackageRelation>(s.skip(n1).skip(n2)) {
                Err(e) => Err(e),
                Ok((opens, n3)) => Ok((reqs, exports, opens, n1 + n2 + n3)),
            },
        },
    }
}

/// Decoding the two lists of a module that say what services it uses and provides.
pub open spec fn spec_decode_module_services(s: Seq<u8>) -> Result<
    (Seq<NonZeroU16>, Seq<SpecModuleProvided>, int),
    Error,
> {
    match spec_decode_list16::<NonZeroU16>(s) {
        Err(e) => Err(e),
        Ok((uses, n1)) => match spec_decode_list16::<ModuleProvided>(s.skip(n1)) {
            Err(e) => Err(e),
            Ok((provides, n2)) => Ok((uses, provides, n1 + n2)),
        },
    }
}

/// The encoding of the three lists of a module that say what it requires, exports and opens.
pub open spec fn spec_encode_module_deps(v: SpecModule) -> Seq<u8> {
    spec_encode_list16::<ModuleRequired>(v.requires) + spec_encode_list16::<PackageRelation>(
        v.exports,
    ) + spec_encode_list16::<PackageRelation>(v.opens)
}

/// The encoding of the two lists of a module that say what services it uses and provides.
pub open spec fn spec_encode_module_services(v: SpecModule) -> Seq<u8> {
    spec_encode_list16::<NonZeroU16>(v.uses) + spec_encode_list16::<ModuleProvided>(v.provides)
}

fn decode_module_deps<'de, B: Buf<'de>>(buf: &mut B) -> (r: Result<
    (Vec<ModuleRequired>, Vec<PackageRelation>, Vec<PackageRelation>),
    Error,
>)
    ensures
        suffix(old(buf)@, final(buf)@),
        match r {
            Ok((a, b, c)) => spec_decode_module_deps(old(buf)@) == Ok::<
                (Seq<ModuleRequired>, Seq<SpecPackageRelation>, Seq<SpecPackageRelation>, int),
                Error,
            >((views(a@), views(b@), views(c@), old(buf)@.len() - final(buf)@.len())),
            Err(e) => spec_decode_module_deps(old(buf)@) == Err::<
                (Seq<ModuleRequired>, Seq<SpecPackageRelation>, Seq<SpecPackageRelation>, int),
                Error,
            >(e),
        },
{
    let ghost s0 = buf@;
    proof {
        assert forall|t: Seq<u8>| ModuleRequired::decode_requires(t) by {}
        lemma_list16_requires::<ModuleRequired>(buf@);
    }
    let reqs = decode_list16::<ModuleRequired, B>(buf)?;
    let ghost s1 = buf@;
    proof {
        assert forall|t: Seq<u8>| PackageRelation::decode_requires(t) by {}
        lemma_list16_requires::<PackageRelation>(buf@);
    }
    let exports = decode_list16::<PackageRelation, B>(buf)?;
    let ghost s2 = buf@;
    proof {
        lemma_list16_requires::<PackageRelation>(buf@);
    }
    let opens = decode_list16::<PackageRelation, B>(buf)?;
    proof {
        assert(s0.skip(s0.len() - s1.len()) == s1);
        assert(s1.skip(s1.len() - s2.len()) == s2);
        assert(s0.skip(s0.len() - buf@.len()) =~= buf@);
    }
    Ok((reqs, exports, opens))
}

fn decode_module_services<'de, B: Buf<'de>>(buf: &mut B) -> (r: Result<
    (Vec<NonZeroU16>, Vec<ModuleProvided>),
    Error,
>)
    ensures
        suffix(old(buf)@, final(buf)@),
        match r {
            Ok((a, b)) => spec_decode_module_services(old(buf)@) == Ok::<
                (Seq<NonZeroU16>, Seq<SpecModuleProvided>, int),
                Error,
            >((views(a@), views(b@), old(buf)@.len() - final(buf)@.len())),
            Err(e) => spec_decode_module_services(old(buf)@) == Err::<
                (Seq<NonZeroU16>, Seq<SpecModuleProvided>, int),
                Error,
            >(e),
        },
{
    let ghost s0 = buf@;
    proof {
        assert forall|t: Seq<u8>| NonZeroU16::decode_requires(t) by {}
        lemma_list16_requires::<NonZeroU16>(buf@);
    }
    let uses = decode_list16::<NonZeroU16, B>(buf)?;
    let ghost s1 = buf@;
    proof {
        assert forall|t: Seq<u8>| ModuleProvided::decode_requires(t) by {}
        lemma_list16_requires::<ModuleProvided>(buf@);
    }
    let provides = decode_list16::<ModuleProvided, B>(buf)?;
    proof {
        assert(s0.skip(s0.len() - s1.len()) == s1);
        assert(s0.skip(s0.len() - buf@.len()) =~= buf@);
    }
    Ok((uses, provides))
}

impl<'de> Decode<'de> for Module {
    /// The name index, the flags, the version index, then five lists, each a
    /// `u16` count and that many entries: the requires, the exports, the opens,
    /// the uses and the provides.
    open spec fn spec_decode(s: Seq<u8>) -> Result<(SpecModule, int), Error> {
        match NonZeroU16::spec_decode(s) {
            Err(e) => Err(e),
            Ok((name_idx, n1)) => match ModuleFlags::spec_decode(s.skip(n1)) {
                Err(e) => Err(e),
                Ok((flags, n2)) => match <Option<NonZeroU16>>::spec_decode(s.skip(n1).skip(n2)) {
                    Err(e) => Err(e),
                    Ok((version_idx, n3)) => match spec_decode_module_deps(
                        s.skip(n1).skip(n2).skip(n3),
                    ) {
                        Err(e) => Err(e),
                        Ok((reqs, exports, opens, n4)) => match spec_decode_module_services(
                            s.skip(n1).skip(n2).skip(n3).skip(n4),
                        ) {
                            Err(e) => Err(e),
                            Ok((uses, provides, n5)) => Ok((
                                SpecModule {
                                    name_idx,
                                    flags,
                                    version_idx,
                                    requires: reqs,
                                    exports,
                                    opens,
                                    uses,
                                    provides,
                                },
                                n1 + n2 + n3 + n4 + n5,
                            )),
                        },
                    },
                },
            },
        }
    }

    open spec fn decode_requires(s: Seq<u8>) -> bool {
        true
    }

    fn decode<B: Buf<'de>>(buf: &mut B) -> (r: Result<Module, Error>) {
        let ghost s0 = buf@;
        let name_idx = NonZeroU16::decode(buf)?;
        let flags = ModuleFlags::decode(buf)?;
        let version_idx = <Option<NonZeroU16>>::decode(buf)?;
        let ghost s3 = buf@;
        let (reqs, exports, opens) = decode_module_deps(buf)?;
        let ghost s4 = buf@;
        let (uses, provides) = decode_module_services(buf)?;
        proof {
            assert(s0.skip(2).skip(2).skip(2) =~= s3);
            assert(s3.skip(s3.len() - s4.len()) == s4);
            assert(s0.skip(s0.len() - buf@.len()) =~= buf@);
        }
        Ok(Module { name_idx, flags, version_idx, requires: reqs, exports, opens, uses, provides })
    }
}

fn put_module_deps<B: BufMut>(
    buf: &mut B,
    m: &Module,
    Ghost(b0): Ghost<B>,
    Ghost(acc): Ghost<Seq<u8>>,
    Ghost(total): Ghost<Seq<u8>>,
) -> (r: Result<(), Error>)
    requires
        progress(b0, *old(buf), acc),
        (acc + spec_encode_module_deps(m@)).is_prefix_of(total),
        Module::encode_requires(m@),
    ensures
        r is Ok ==> progress(b0, *final(buf), acc + spec_encode_module_deps(m@)),
        r is Err ==> encode_post(b0, *final(buf), true, total, r),
{
    let ghost e1 = spec_encode_list16::<ModuleRequired>(views(m.requires@));
    let ghost e2 = spec_encode_list16::<PackageRelation>(views(m.exports@));
    let ghost e3 = spec_encode_list16::<PackageRelation>(views(m.opens@));
    proof {
        assert(acc + spec_encode_module_deps(m@) =~= acc + e1 + e2 + e3);
        lemma_prefix_piece(acc + e1, e2, e3, total);
        lemma_prefix_piece(acc, e1, e2 + e3, total);
        assert(acc + e1 + (e2 + e3) =~= acc + e1 + e2 + e3);
    }
    put_list16(buf, m.requires.as_slice(), Ghost(b0), Ghost(acc), Ghost(total))?;
    put_list16(buf, m.exports.as_slice(), Ghost(b0), Ghost(acc + e1), Ghost(total))?;
    put_list16(buf, m.opens.as_slice(), Ghost(b0), Ghost(acc + e1 + e2), Ghost(total))?;
    Ok(())
}

fn put_module_services<B: BufMut>(
    buf: &mut B,
    m: &Module,
    Ghost(b0): Ghost<B>,
    Ghost(acc): Ghost<Seq<u8>>,
    Ghost(total): Ghost<Seq<u8>>,
) -> (r: Result<(), Error>)
    requires
        progress(b0, *old(buf), acc),
        (acc + spec_encode_module_services(m@)).is_prefix_of(total),
        Module::encode_requires(m@),
    ensures
        r is Ok ==> progress(b0, *final(buf), acc + spec_encode_module_services(m@)),
        r is Err ==> encode_post(b0, *final(buf), true, total, r),
{
    let ghost e1 = spec_encode_list16::<NonZeroU16>(views(m.uses@));
    let ghost e2 = spec_encode_list16::<ModuleProvided>(views(m.provides@));
    proof {
        assert(acc + spec_encode_module_services(m@) =~= acc + e1 + e2);
        lemma_prefix_piece(acc, e1, e2, total);
    }
    put_list16(buf, m.uses.as_slice(), Ghost(b0), Ghost(acc), Ghost(total))?;
    put_list16(buf, m.provides.as_slice(), Ghost(b0), Ghost(acc + e1), Ghost(total))?;
    Ok(())
}

impl Encode for Module {
    /// The fields in order; each list is its count cut to two bytes, then its entries.
    open spec fn spec_encode(v: SpecModule) -> Seq<u8> {
        NonZeroU16::spec_encode(v.name_idx) + ModuleFlags::spec_encode(v.flags) + <Option<
            NonZeroU16,
        >>::spec_encode(v.version_idx) + spec_encode_module_deps(v) + spec_encode_module_services(v)
    }

    open spec fn encodable(v: SpecModule) -> bool {
        true
    }

    /// What encoding the entries of the lists needs.
    open spec fn encode_requires(v: SpecModule) -> bool {
        &&& all_encodable::<ModuleRequired>(v.requires)
        &&& all_encodable::<PackageRelation>(v.exports)
        &&& all_encodable::<PackageRelation>(v.opens)
        &&& all_encodable::<NonZeroU16>(v.uses)
        &&& all_encodable::<ModuleProvided>(v.provides)
    }

    fn encode<B: BufMut>(&self, buf: &mut B) -> (r: Result<(), Error>) {
        let ghost b0 = *buf;
        let ghost total = Self::spec_encode(self@);
        let ghost e1 = NonZeroU16::spec_encode(self.name_idx);
        let ghost e2 = ModuleFlags::spec_encode(self.flags);
        let ghost e3 = <Option<NonZeroU16>>::spec_encode(self.version_idx);
        let ghost e4 = spec_encode_module_deps(self@);
        let ghost e5 = spec_encode_module_services(self@);
        proof {
            lemma_progress_start(b0);
            let z = Seq::<u8>::empty();
            assert(total =~= z + e1 + e2 + e3 + e4 + e5);
            lemma_prefix_piece(z + e1 + e2 + e3, e4, e5, total);
            lemma_prefix_piece(z + e1 + e2, e3, e4 + e5, total);
            assert(z + e1 + e2 + e3 + (e4 + e5) =~= total);
            lemma_prefix_piece(z + e1, e2, e3 + e4 + e5, total);
            assert(z + e1 + e2 + (e3 + e4 + e5) =~= total);
            lemma_prefix_piece(z, e1, e2 + e3 + e4 + e5, total);
            assert(z + e1 + (e2 + e3 + e4 + e5) =~= total);
        }
        put(buf, &self.name_idx, Ghost(b0), Ghost(Seq::empty()), Ghost(total))?;
        put(buf, &self.flags, Ghost(b0), Ghost(Seq::empty() + e1), Ghost(total))?;
        put(buf, &self.version_idx, Ghost(b0), Ghost(Seq::empty() + e1 + e2), Ghost(total))?;
        put_module_deps(buf, self, Ghost(b0), Ghost(Seq::empty() + e1 + e2 + e3), Ghost(total))?;
        put_module_services(
            buf,
            self,
            Ghost(b0),
            Ghost(Seq::empty() + e1 + e2 + e3 + e4),
            Ghost(total),
        )?;
        assert(Seq::empty() + e1 + e2 + e3 + e4 + e5 =~= total);
        Ok(())
    }
}

#[verifier::spinoff_prover]
proof fn lemma_module_deps(v: SpecModule, rest: Seq<u8>)
    requires
        v.requires.len() <= u16::MAX,
        all_wf::<ModuleRequired>(v.requires),
        all_encodable::<ModuleRequired>(v.requires),
        v.exports.len() <= u16::MAX,
        all_wf::<PackageRelation>(v.exports),
        all_encodable::<PackageRelation>(v.exports),
        v.opens.len() <= u16::MAX,
        all_wf::<PackageRelation>(v.opens),
        all_encodable::<PackageRelation>(v.opens),
    ensures
        spec_decode_module_deps(spec_encode_module_deps(v) + rest) == Ok::<
            (Seq<ModuleRequired>, Seq<SpecPackageRelation>, Seq<SpecPackageRelation>, int),
            Error,
        >((v.requires, v.exports, v.opens, spec_encode_module_deps(v).len() as int)),
{
    let e1 = spec_encode_list16::<ModuleRequired>(v.requires);
    let e2 = spec_encode_list16::<PackageRelation>(v.exports);
    let e3 = spec_encode_list16::<PackageRelation>(v.opens);
    let s = spec_encode_module_deps(v) + rest;
    assert(s =~= e1 + (e2 + (e3 + rest)));
    lemma_codec_list16::<ModuleRequired>(v.requires, e2 + (e3 + rest));
    assert(s.skip(e1.len() as int) =~= e2 + (e3 + rest));
    lemma_codec_list16::<PackageRelation>(v.exports, e3 + rest);
    assert(s.skip(e1.len() as int).skip(e2.len() as int) =~= e3 + rest);
    lemma_codec_list16::<PackageRelation>(v.opens, rest);
}

#[verifier::spinoff_prover]
proof fn lemma_module_services(v: SpecModule, rest: Seq<u8>)
    requires
        v.uses.len() <= u16::MAX,
        all_wf::<NonZeroU16>(v.uses),
        all_encodable::<NonZeroU16>(v.uses),
        v.provides.len() <= u16::MAX,
        all_wf::<ModuleProvided>(v.provides),
        all_encodable::<ModuleProvided>(v.provides),
    ensures
        spec_decode_module_services(spec_encode_module_services(v) + rest) == Ok::<
            (Seq<NonZeroU16>, Seq<SpecModuleProvided>, int),
            Error,
        >((v.uses, v.provides, spec_encode_module_services(v).len() as int)),
{
    let e1 = spec_encode_list16::<NonZeroU16>(v.uses);
    let e2 = spec_encode_list16::<ModuleProvided>(v.provides);
    let s = spec_encode_module_services(v) + rest;
    assert(s =~= e1 + (e2 + rest));
    lemma_codec_list16::<NonZeroU16>(v.uses, e2 + rest);
    assert(s.skip(e1.len() as int) =~= e2 + rest);
    lemma_codec_list16::<ModuleProvided>(v.provides, rest);
}

/// The entries of the lists of a module can all be encoded.
proof fn lemma_lists_encodable(v: SpecModule)
    ensures
        all_encodable::<ModuleRequired>(v.requires),
        all_encodable::<PackageRelation>(v.exports),
        all_encodable::<PackageRelation>(v.opens),
        all_encodable::<NonZeroU16>(v.uses),
        all_encodable::<ModuleProvided>(v.provides),
{
    lemma_relations_encodable(v.exports);
    lemma_relations_encodable(v.opens);
    assert forall|i: int| 0 <= i < v.provides.len() implies ModuleProvided::encodable(
        #[trigger] v.provides[i],
    ) && ModuleProvided::encode_requires(v.provides[i]) by {
        let d = v.provides[i].dst_indices;
        assert forall|j: int| 0 <= j < d.len() implies NonZeroU16::encodable(#[trigger] d[j])
            && NonZeroU16::encode_requires(d[j]) by {}
    }
}

proof fn lemma_relations_encodable(vs: Seq<SpecPackageRelation>)
    ensures
        all_encodable::<PackageRelation>(vs),
{
    assert forall|i: int| 0 <= i < vs.len() implies PackageRelation::encodable(#[trigger] vs[i])
        && PackageRelation::encode_requires(vs[i]) by {
        let d = vs[i].dst_indices;
        assert forall|j: int| 0 <= j < d.len() implies NonZeroU16::encodable(#[trigger] d[j])
            && NonZeroU16::encode_requires(d[j]) by {}
    }
}

impl<'de> Codec<'de> for Module {
    /// The indices are not zero, and the lists fit their counts and hold entries
    /// that decoding can give.
    open spec fn wf(v: SpecModule) -> bool {
        &&& NonZeroU16::wf(v.name_idx)
        &&& <Option<NonZeroU16>>::wf(v.version_idx)
        &&& v.requires.len() <= u16::MAX && all_wf::<ModuleRequired>(v.requires)
        &&& v.exports.len() <= u16::MAX && all_wf::<PackageRelation>(v.exports)
        &&& v.opens.len() <= u16::MAX && all_wf::<PackageRelation>(v.opens)
        &&& v.uses.len() <= u16::MAX && all_wf::<NonZeroU16>(v.uses)
        &&& v.provides.len() <= u16::MAX && all_wf::<ModuleProvided>(v.provides)
    }

    #[verifier::spinoff_prover]
    #[verifier::rlimit(80)]
    proof fn lemma_codec(v: SpecModule, rest: Seq<u8>) {
        lemma_lists_encodable(v);
        let e1 = NonZeroU16::spec_encode(v.name_idx);
        let e2 = ModuleFlags::spec_encode(v.flags);
        let e3 = <Option<NonZeroU16>>::spec_encode(v.version_idx);
        let e4 = spec_encode_module_deps(v);
        let e5 = spec_encode_module_services(v);
        let s = Self::spec_encode(v) + rest;
        let t1 = e2 + (e3 + (e4 + (e5 + rest)));
        let t2 = e3 + (e4 + (e5 + rest));
        let t3 = e4 + (e5 + rest);
        let t4 = e5 + rest;
        assert(s =~= e1 + t1);
        NonZeroU16::lemma_codec(v.name_idx, t1);
        assert(s.skip(2) =~= t1);
        ModuleFlags::lemma_codec(v.flags, t2);
        assert(t1.skip(2) =~= t2);
        <Option<NonZeroU16>>::lemma_codec(v.version_idx, t3);
        assert(t2.skip(2) =~= t3);
        lemma_module_deps(v, t4);
        assert(t3.skip(e4.len() as int) =~= t4);
        lemma_module_services(v, rest);
        assert(NonZeroU16::spec_decode(s) == Ok::<(NonZeroU16, int), Error>((v.name_idx, 2)));
        assert(ModuleFlags::spec_decode(s.skip(2)) == Ok::<(ModuleFlags, int), Error>((v.flags, 2)));
        assert(<Option<NonZeroU16>>::spec_decode(s.skip(2).skip(2)) == Ok::<
            (Option<NonZeroU16>, int),
            Error,
        >((v.version_idx, 2)));
        assert(s.skip(2).skip(2).skip(2) == t3);
        assert(s.skip(2).skip(2).skip(2).skip(e4.len() as int) == t4);
        assert(Self::spec_encode(v).len() == 6 + e4.len() + e5.len());
    }
}

/// A record component of a class.
#[derive(Debug, Clone, PartialEq, Eq)]
pub struct ComponentInfo<'a> {
    /// Index of name in constant pool. (`Utf8`)
    pub name_idx: NonZeroU16,
    /// Index of descriptor in constant pool. (`Utf8`)
    pub desc_idx: NonZeroU16,
    /// Additional attributes.
    pub attributes: Vec<Attribute<'a>>,
}

/// The value of a [`ComponentInfo`], with its lists as sequences.
pub struct SpecComponentInfo {
    pub name_idx: NonZeroU16,
    pub desc_idx: NonZeroU16,
    pub attributes: Seq<SpecAttribute>,
}

impl<'a> View for ComponentInfo<'a> {
    type V = SpecComponentInfo;

    open spec fn view(&self) -> SpecComponentInfo {
        SpecComponentInfo { name_idx: self.name_idx, desc_idx: self.desc_idx, attributes: views(self.attributes@) }
    }
}

impl<'de> Decode<'de> for ComponentInfo<'de> {
    /// The fields in order; each list is a `u16` count, then that many entries.
    open spec fn spec_decode(s: Seq<u8>) -> Result<(SpecComponentInfo, int), Error> {
        match NonZeroU16::spec_decode(s) {
            Err(e) => Err(e),
            Ok((name_idx_v, n0)) =>
            match NonZeroU16::spec_decode(s.skip(n0)) {
                Err(e) => Err(e),
                Ok((desc_idx_v, n1)) =>
                match spec_decode_list16::<Attribute<'de>>(s.skip(n0).skip(n1)) {
                    Err(e) => Err(e),
                    Ok((attributes_v, n2)) =>
                    Ok((SpecComponentInfo { name_idx: name_idx_v, desc_idx: desc_idx_v, attributes: attributes_v }, n0 + n1 + n2))
                }
            }
        }
    }

    open spec fn decode_requires(s: Seq<u8>) -> bool {
        NonZeroU16::decode_requires(s) && match NonZeroU16::spec_decode(s) {
            Err(_) => true,
            Ok((_, n0)) =>
            NonZeroU16::decode_requires(s.skip(n0)) && match NonZeroU16::spec_decode(s.skip(n0)) {
                Err(_) => true,
                Ok((_, n1)) =>
                true
            }
        }
    }

    fn decode<B: Buf<'de>>(buf: &mut B) -> (r: Result<ComponentInfo<'de>, Error>) {
        let name_idx_v = NonZeroU16::decode(buf)?;
        let desc_idx_v = NonZeroU16::decode(buf)?;
        proof {
            assert forall|t: Seq<u8>| <Attribute<'de>>::decode_requires(t) by {}
            lemma_list16_requires::<Attribute<'de>>(buf@);
        }
        let attributes_v = decode_list16::<Attribute<'de>, B>(buf)?;
        Ok(ComponentInfo { name_idx: name_idx_v, desc_idx: desc_idx_v, attributes: attributes_v })
    }
}

impl<'a> Encode for ComponentInfo<'a> {
    /// The fields in order; each list is its count cut to two bytes, then its entries.
    open spec fn spec_encode(v: SpecComponentInfo) -> Seq<u8> {
        NonZeroU16::spec_encode(v.name_idx) + NonZeroU16::spec_encode(v.desc_idx) + spec_encode_list16::<Attribute<'a>>(v.attributes)
    }

    open spec fn encodable(v: SpecComponentInfo) -> bool {
        NonZeroU16::encodable(v.name_idx) && NonZeroU16::encodable(v.desc_idx)
    }

    open spec fn encode_requires(v: SpecComponentInfo) -> bool {
        NonZeroU16::encode_requires(v.name_idx) && NonZeroU16::encode_requires(v.desc_idx) && all_encodable::<Attribute<'a>>(v.attributes)
    }

    fn encode<B: BufMut>(&self, buf: &mut B) -> (r: Result<(), Error>) {
        let ghost b0 = *buf;
        let ghost total = Self::spec_encode(self@);
        proof {
            lemma_progress_start(b0);
        }
        put(buf, &self.name_idx, Ghost(b0), Ghost(Seq::empty()), Ghost(total))?;
        put(buf, &self.desc_idx, Ghost(b0), Ghost(Seq::empty() + NonZeroU16::spec_encode(self.name_idx)), Ghost(total))?;
        put_list16(buf, self.attributes.as_slice(), Ghost(b0), Ghost(Seq::empty() + NonZeroU16::spec_encode(self.name_idx) + NonZeroU16::spec_encode(self.desc_idx)), Ghost(total))?;
        assert(Seq::empty() + NonZeroU16::spec_encode(self.name_idx) + NonZeroU16::spec_encode(self.desc_idx) + spec_encode_list16::<Attribute<'a>>(views(self.attributes@)) =~= total);
        Ok(())
    }
}

impl<'de> Codec<'de> for ComponentInfo<'de> {
    open spec fn wf(v: SpecComponentInfo) -> bool {
        NonZeroU16::wf(v.name_idx) && NonZeroU16::wf(v.desc_idx) && v.attributes.len() <= u16::MAX && all_wf::<Attribute<'de>>(v.attributes)
    }

    proof fn lemma_codec(v: SpecComponentInfo, rest: Seq<u8>) {
        let e0 = NonZeroU16::spec_encode(v.name_idx);
        let e1 = NonZeroU16::spec_encode(v.desc_idx);
        let e2 = spec_encode_list16::<Attribute<'de>>(v.attributes);
        let s = Self::spec_encode(v) + rest;
        assert(s =~= (e0 + (e1 + (e2 + rest))));
        NonZeroU16::lemma_codec(v.name_idx, (e1 + (e2 + rest)));
        assert(s.skip(e0.len() as int) =~= (e1 + (e2 + rest)));
        NonZeroU16::lemma_codec(v.desc_idx, (e2 + rest));
        assert(s.skip(e0.len() as int).skip(e1.len() as int) =~= (e2 + rest));
        lemma_codec_list16::<Attribute<'de>>(v.attributes, rest);
    }
}

/// Name of `Record` attribute.
/// See [`RecordReader`] and [`RecordWriter`] for usage.
pub const NAME_RECORD: &'static str = "Record";

/// Reader of `Record` attribute.
pub type RecordReader<'a, B> = ArrayReader<'a, B, ComponentInfo<'a>>;

/// Writer of `Record` attribute.
pub type RecordWriter<'a, B> = ArrayWriter<B, ComponentInfo<'a>>;

} // verus!
