use vstd::prelude::*;

#[allow(unused_imports)]
use crate::util::{
    encode_post, lemma_progress_start, put, put_slice, read_post, Buf, BufMut, Codec, Decode,
    Encode,
};
#[allow(unused_imports)]
use crate::{Error, NonZeroU16};
#[allow(unused_imports)]
use super::array::{ArrayReader, ArrayReaderU8, ArrayWriter, ArrayWriterU8};

verus! {

/// Name of `LineNumberTable` attribute. See [`LineNumberTableReader`] and [`LineNumberTableWriter`] for usage.
pub const NAME_LINE_NUMBER_TABLE: &'static str = "LineNumberTable";

/// Reader of `LineNumberTable` attribute.
pub type LineNumberTableReader<'a, B> = ArrayReader<'a, B, LineNumber>;

/// Writer of `LineNumberTable` attribute.
pub type LineNumberTableWriter<B> = ArrayWriter<B, LineNumber>;

/// The line number in the original source file changes at a given point in the `code` array.
#[derive(Debug, Clone, Copy, PartialEq, Eq, PartialOrd, Ord, Hash)]
pub struct LineNumber {
    /// Index into the `code` array of this `Code` attribute.
    /// 
    /// The item indicates the index into the `code` array at which the
    /// code for a new line in the original source file begins.
    pub start_pc: u16,
    /// The corresponding line number in the original source file.
    pub line_number: u16,
}

impl View for LineNumber {
    type V = LineNumber;

    open spec fn view(&self) -> LineNumber {
        *self
    }
}

impl<'de> Decode<'de> for LineNumber {
    /// The fields in order: `start_pc`, `line_number`.
    open spec fn spec_decode(s: Seq<u8>) -> Result<(LineNumber, int), Error> {
        match u16::spec_decode(s) {
            Err(e) => Err(e),
            Ok((start_pc_v, n0)) =>
            match u16::spec_decode(s.skip(n0)) {
                Err(e) => Err(e),
                Ok((line_number_v, n1)) =>
                Ok((LineNumber { start_pc: start_pc_v, line_number: line_number_v }, n0 + n1))
            }
        }
    }

    open spec fn decode_requires(s: Seq<u8>) -> bool {
        u16::decode_requires(s) && match u16::spec_decode(s) {
            Err(_) => true,
            Ok((_, n0)) =>
            u16::decode_requires(s.skip(n0))
        }
    }

    fn decode<B: Buf<'de>>(buf: &mut B) -> (r: Result<LineNumber, Error>) {
        let start_pc_v = u16::decode(buf)?;
        let line_number_v = u16::decode(buf)?;
        Ok(LineNumber { start_pc: start_pc_v, line_number: line_number_v })
    }
}

impl Encode for LineNumber {
    open spec fn spec_encode(v: LineNumber) -> Seq<u8> {
        u16::spec_encode(v.start_pc) + u16::spec_encode(v.line_number)
    }

    open spec fn encodable(v: LineNumber) -> bool {
        u16::encodable(v.start_pc) && u16::encodable(v.line_number)
    }

    open spec fn encode_requires(v: LineNumber) -> bool {
        u16::encode_requires(v.start_pc) && u16::encode_requires(v.line_number)
    }

    fn encode<B: BufMut>(&self, buf: &mut B) -> (r: Result<(), Error>) {
        let ghost b0 = *buf;
        let ghost total = Self::spec_encode(*self);
        proof {
            lemma_progress_start(b0);
        }
        put(buf, &self.start_pc, Ghost(b0), Ghost(Seq::empty()), Ghost(total))?;
        put(buf, &self.line_number, Ghost(b0), Ghost(Seq::empty() + u16::spec_encode(self.start_pc)), Ghost(total))?;
        assert(Seq::empty() + u16::spec_encode(self.start_pc) + u16::spec_encode(self.line_number) =~= total);
        Ok(())
    }
}

impl<'de> Codec<'de> for LineNumber {
    open spec fn wf(v: LineNumber) -> bool {
        u16::wf(v.start_pc) && u16::wf(v.line_number)
    }

    proof fn lemma_codec(v: LineNumber, rest: Seq<u8>) {
        let e0 = u16::spec_encode(v.start_pc);
        let e1 = u16::spec_encode(v.line_number);
        assert(e0 + e1 + rest =~= (e0 + (e1 + rest)));
        u16::lemma_codec(v.start_pc, (e1 + rest));
        assert((e0 + (e1 + rest)).skip(e0.len() as int) =~= (e1 + rest));
        u16::lemma_codec(v.line_number, rest);
    }
}

/// Name of `LocalVariableTable` attribute. See [`LocalVariableTableReader`] and [`LocalVariableTableWriter`] for usage.
pub const NAME_LOCAL_VARIABLE_TABLE: &'static str = "LocalVariableTable";

/// Reader of `LocalVariableTable` attribute.
pub type LocalVariableTableReader<'a, B> = ArrayReader<'a, B, LocalVariable>;

/// Writer of `LocalVariableTable` attribute.
pub type LocalVariableTableWriter<B> = ArrayWriter<B, LocalVariable>;

/// A range of `code` array offsets within which a local variable has a value,
/// and indicates the index into the local variable array of the current frame
/// at which that local variable can be found.
#[derive(Debug, PartialEq, Eq, Hash)]
pub struct LocalVariable {
    /// The interval where the given local variable has a value at indices in the `code` array.
    pub indices: core::ops::Range<u16>,
    /// The unqualified name denoting a local variable, as an index into constant pool (`Utf8`).
    pub name_idx: NonZeroU16,
    /// Field descriptor which encodes the type of a local variable in the source program,
    /// as an index into constant pool (`Utf8`).
    pub desc_idx: NonZeroU16,
    /// Index into the local variable array of the current frame.
    /// The given local variable is at `index` in the local variable array of the current frame.
    /// 
    /// If the given local variable is of type `double` or `long`, it occupies both `index` and `index + 1`.
    pub index: u16,
}

impl Clone for LocalVariable {
    fn clone(&self) -> (r: LocalVariable)
        ensures
            r == *self,
    {
        LocalVariable {
            indices: core::ops::Range { start: self.indices.start, end: self.indices.end },
            name_idx: self.name_idx, desc_idx: self.desc_idx, index: self.index,
        }
    }
}

impl View for LocalVariable {
    type V = LocalVariable;

    open spec fn view(&self) -> LocalVariable {
        *self
    }
}

impl<'de> Decode<'de> for LocalVariable {
    /// The start of the range, its length, then the other fields in order.
    open spec fn spec_decode(s: Seq<u8>) -> Result<(LocalVariable, int), Error> {
        match u16::spec_decode(s) {
            Err(e) => Err(e),
            Ok((start, n1)) => match u16::spec_decode(s.skip(n1)) {
                Err(e) => Err(e),
                Ok((len, n2)) =>
                    match NonZeroU16::spec_decode(s.skip(n1).skip(n2)) {
                        Err(e) => Err(e),
                        Ok((name_idx, n3)) =>
                        match NonZeroU16::spec_decode(s.skip(n1).skip(n2).skip(n3)) {
                            Err(e) => Err(e),
                            Ok((desc_idx, n4)) =>
                            match u16::spec_decode(s.skip(n1).skip(n2).skip(n3).skip(n4)) {
                                Err(e) => Err(e),
                                Ok((index, n5)) =>
                                Ok((LocalVariable { indices: core::ops::Range { start, end: (start + len) as u16 }, name_idx, desc_idx, index }, n1 + n2 + n3 + n4 + n5))
                            }
                        }
                    }
            },
        }
    }

    /// The end of the range, its start plus its length, must fit in a `u16`.
    open spec fn decode_requires(s: Seq<u8>) -> bool {
        match u16::spec_decode(s) {
            Err(_) => true,
            Ok((start, n1)) => match u16::spec_decode(s.skip(n1)) {
                Err(_) => true,
                Ok((len, _)) => start + len <= u16::MAX,
            },
        }
    }

    fn decode<B: Buf<'de>>(buf: &mut B) -> (r: Result<LocalVariable, Error>) {
        let start = u16::decode(buf)?;
        let len = u16::decode(buf)?;
        let name_idx = NonZeroU16::decode(buf)?;
        let desc_idx = NonZeroU16::decode(buf)?;
        let index = u16::decode(buf)?;
        Ok(LocalVariable { indices: core::ops::Range { start, end: start + len }, name_idx, desc_idx, index })
    }
}

impl Encode for LocalVariable {
    open spec fn spec_encode(v: LocalVariable) -> Seq<u8> {
        u16::spec_encode(v.indices.start) + u16::spec_encode((v.indices.end - v.indices.start) as u16) + NonZeroU16::spec_encode(v.name_idx) + NonZeroU16::spec_encode(v.desc_idx) + u16::spec_encode(v.index)
    }

    open spec fn encodable(v: LocalVariable) -> bool {
        true
    }

    /// The range must not end before it starts.
    open spec fn encode_requires(v: LocalVariable) -> bool {
        v.indices.start <= v.indices.end
    }

    fn encode<B: BufMut>(&self, buf: &mut B) -> (r: Result<(), Error>) {
        let ghost b0 = *buf;
        let ghost total = Self::spec_encode(*self);
        proof {
            lemma_progress_start(b0);
        }
        let len = self.indices.end - self.indices.start;
        put(buf, &self.indices.start, Ghost(b0), Ghost(Seq::empty()), Ghost(total))?;
        let ghost a1 = Seq::empty() + u16::spec_encode(self.indices.start);
        put(buf, &len, Ghost(b0), Ghost(a1), Ghost(total))?;
        let ghost a2 = a1 + u16::spec_encode(len);
        put(buf, &self.name_idx, Ghost(b0), Ghost(a2), Ghost(total))?;
        let ghost a2_name_idx = a2 + NonZeroU16::spec_encode(self.name_idx);
        put(buf, &self.desc_idx, Ghost(b0), Ghost(a2_name_idx), Ghost(total))?;
        let ghost a2_name_idx_desc_idx = a2_name_idx + NonZeroU16::spec_encode(self.desc_idx);
        put(buf, &self.index, Ghost(b0), Ghost(a2_name_idx_desc_idx), Ghost(total))?;
        let ghost a2_name_idx_desc_idx_index = a2_name_idx_desc_idx + u16::spec_encode(self.index);
        assert(a2_name_idx_desc_idx_index =~= total);
        Ok(())
    }
}

impl<'de> Codec<'de> for LocalVariable {
    open spec fn wf(v: LocalVariable) -> bool {
        v.indices.start <= v.indices.end && NonZeroU16::wf(v.name_idx) && NonZeroU16::wf(v.desc_idx) && u16::wf(v.index)
    }

    proof fn lemma_codec(v: LocalVariable, rest: Seq<u8>) {
        let e0 = u16::spec_encode(v.indices.start);
        let e1 = u16::spec_encode((v.indices.end - v.indices.start) as u16);
        let e2 = NonZeroU16::spec_encode(v.name_idx);
        let e3 = NonZeroU16::spec_encode(v.desc_idx);
        let e4 = u16::spec_encode(v.index);
        let s = Self::spec_encode(v) + rest;
        assert(s =~= (e0 + (e1 + (e2 + (e3 + (e4 + rest))))));
        u16::lemma_codec(v.indices.start, (e1 + (e2 + (e3 + (e4 + rest)))));
        assert((e0 + (e1 + (e2 + (e3 + (e4 + rest))))).skip(e0.len() as int) =~= (e1 + (e2 + (e3 + (e4 + rest)))));
        u16::lemma_codec((v.indices.end - v.indices.start) as u16, (e2 + (e3 + (e4 + rest))));
        assert((e1 + (e2 + (e3 + (e4 + rest)))).skip(e1.len() as int) =~= (e2 + (e3 + (e4 + rest))));
        NonZeroU16::lemma_codec(v.name_idx, (e3 + (e4 + rest)));
        assert((e2 + (e3 + (e4 + rest))).skip(e2.len() as int) =~= (e3 + (e4 + rest)));
        NonZeroU16::lemma_codec(v.desc_idx, (e4 + rest));
        assert((e3 + (e4 + rest)).skip(e3.len() as int) =~= (e4 + rest));
        u16::lemma_codec(v.index, rest);
    }
}

/// Name of `LocalVariableTypeTable` attribute. See [`LocalVariableTypeTableReader`] and [`LocalVariableTypeTableWriter`] for usage.
pub const NAME_LOCAL_VARIABLE_TYPE_TABLE: &'static str = "LocalVariableTypeTable";

/// Reader of `LocalVariableTypeTable` attribute.
pub type LocalVariableTypeTableReader<'a, B> = ArrayReader<'a, B, TypedLocalVariable>;

/// Writer of `LocalVariableTypeTable` attribute.
pub type LocalVariableTypeTableWriter<B> = ArrayWriter<B, TypedLocalVariable>;

/// [`LocalVariable`] but with signature instead of descriptor.
#[derive(Debug, PartialEq, Eq, Hash)]
pub struct TypedLocalVariable {
    /// The interval where the given local variable has a value at indices in the `code` array.
    pub indices: core::ops::Range<u16>,
    /// The unqualified name denoting a local variable, as an index into constant pool (`Utf8`).
    pub name_idx: NonZeroU16,
    /// Field signature which encodes the type of a local variable in the source program,
    /// as an index into constant pool (`Utf8`).
    pub signature_idx: NonZeroU16,
    /// Index into the local variable array of the current frame.
    /// The given local variable is at `index` in the local variable array of the current frame.
    /// 
    /// If the given local variable is of type `double` or `long`, it occupies both `index` and `index + 1`.
    pub index: u16,
}

impl Clone for TypedLocalVariable {
    fn clone(&self) -> (r: TypedLocalVariable)
        ensures
            r == *self,
    {
        TypedLocalVariable {
            indices: core::ops::Range { start: self.indices.start, end: self.indices.end },
            name_idx: self.name_idx, signature_idx: self.signature_idx, index: self.index,
        }
    }
}

impl View for TypedLocalVariable {
    type V = TypedLocalVariable;

    open spec fn view(&self) -> TypedLocalVariable {
        *self
    }
}

impl<'de> Decode<'de> for TypedLocalVariable {
    /// The start of the range, its length, then the other fields in order.
    open spec fn spec_decode(s: Seq<u8>) -> Result<(TypedLocalVariable, int), Error> {
        match u16::spec_decode(s) {
            Err(e) => Err(e),
            Ok((start, n1)) => match u16::spec_decode(s.skip(n1)) {
                Err(e) => Err(e),
                Ok((len, n2)) =>
                    match NonZeroU16::spec_decode(s.skip(n1).skip(n2)) {
                        Err(e) => Err(e),
                        Ok((name_idx, n3)) =>
                        match NonZeroU16::spec_decode(s.skip(n1).skip(n2).skip(n3)) {
                            Err(e) => Err(e),
                            Ok((signature_idx, n4)) =>
                            match u16::spec_decode(s.skip(n1).skip(n2).skip(n3).skip(n4)) {
                                Err(e) => Err(e),
                                Ok((index, n5)) =>
                                Ok((TypedLocalVariable { indices: core::ops::Range { start, end: (start + len) as u16 }, name_idx, signature_idx, index }, n1 + n2 + n3 + n4 + n5))
                            }
                        }
                    }
            },
        }
    }

    /// The end of the range, its start plus its length, must fit in a `u16`.
    open spec fn decode_requires(s: Seq<u8>) -> bool {
        match u16::spec_decode(s) {
            Err(_) => true,
            Ok((start, n1)) => match u16::spec_decode(s.skip(n1)) {
                Err(_) => true,
                Ok((len, _)) => start + len <= u16::MAX,
            },
        }
    }

    fn decode<B: Buf<'de>>(buf: &mut B) -> (r: Result<TypedLocalVariable, Error>) {
        let start = u16::decode(buf)?;
        let len = u16::decode(buf)?;
        let name_idx = NonZeroU16::decode(buf)?;
        let signature_idx = NonZeroU16::decode(buf)?;
        let index = u16::decode(buf)?;
        Ok(TypedLocalVariable { indices: core::ops::Range { start, end: start + len }, name_idx, signature_idx, index })
    }
}

impl Encode for TypedLocalVariable {
    open spec fn spec_encode(v: TypedLocalVariable) -> Seq<u8> {
        u16::spec_encode(v.indices.start) + u16::spec_encode((v.indices.end - v.indices.start) as u16) + NonZeroU16::spec_encode(v.name_idx) + NonZeroU16::spec_encode(v.signature_idx) + u16::spec_encode(v.index)
    }

    open spec fn encodable(v: TypedLocalVariable) -> bool {
        true
    }

    /// The range must not end before it starts.
    open spec fn encode_requires(v: TypedLocalVariable) -> bool {
        v.indices.start <= v.indices.end
    }

    fn encode<B: BufMut>(&self, buf: &mut B) -> (r: Result<(), Error>) {
        let ghost b0 = *buf;
        let ghost total = Self::spec_encode(*self);
        proof {
            lemma_progress_start(b0);
        }
        let len = self.indices.end - self.indices.start;
        put(buf, &self.indices.start, Ghost(b0), Ghost(Seq::empty()), Ghost(total))?;
        let ghost a1 = Seq::empty() + u16::spec_encode(self.indices.start);
        put(buf, &len, Ghost(b0), Ghost(a1), Ghost(total))?;
        let ghost a2 = a1 + u16::spec_encode(len);
        put(buf, &self.name_idx, Ghost(b0), Ghost(a2), Ghost(total))?;
        let ghost a2_name_idx = a2 + NonZeroU16::spec_encode(self.name_idx);
        put(buf, &self.signature_idx, Ghost(b0), Ghost(a2_name_idx), Ghost(total))?;
        let ghost a2_name_idx_signature_idx = a2_name_idx + NonZeroU16::spec_encode(self.signature_idx);
        put(buf, &self.index, Ghost(b0), Ghost(a2_name_idx_signature_idx), Ghost(total))?;
        let ghost a2_name_idx_signature_idx_index = a2_name_idx_signature_idx + u16::spec_encode(self.index);
        assert(a2_name_idx_signature_idx_index =~= total);
        Ok(())
    }
}

impl<'de> Codec<'de> for TypedLocalVariable {
    open spec fn wf(v: TypedLocalVariable) -> bool {
        v.indices.start <= v.indices.end && NonZeroU16::wf(v.name_idx) && NonZeroU16::wf(v.signature_idx) && u16::wf(v.index)
    }

    proof fn lemma_codec(v: TypedLocalVariable, rest: Seq<u8>) {
        let e0 = u16::spec_encode(v.indices.start);
        let e1 = u16::spec_encode((v.indices.end - v.indices.start) as u16);
        let e2 = NonZeroU16::spec_encode(v.name_idx);
        let e3 = NonZeroU16::spec_encode(v.signature_idx);
        let e4 = u16::spec_encode(v.index);
        let s = Self::spec_encode(v) + rest;
        assert(s =~= (e0 + (e1 + (e2 + (e3 + (e4 + rest))))));
        u16::lemma_codec(v.indices.start, (e1 + (e2 + (e3 + (e4 + rest)))));
        assert((e0 + (e1 + (e2 + (e3 + (e4 + rest))))).skip(e0.len() as int) =~= (e1 + (e2 + (e3 + (e4 + rest)))));
        u16::lemma_codec((v.indices.end - v.indices.start) as u16, (e2 + (e3 + (e4 + rest))));
        assert((e1 + (e2 + (e3 + (e4 + rest)))).skip(e1.len() as int) =~= (e2 + (e3 + (e4 + rest))));
        NonZeroU16::lemma_codec(v.name_idx, (e3 + (e4 + rest)));
        assert((e2 + (e3 + (e4 + rest))).skip(e2.len() as int) =~= (e3 + (e4 + rest)));
        NonZeroU16::lemma_codec(v.signature_idx, (e4 + rest));
        assert((e3 + (e4 + rest)).skip(e3.len() as int) =~= (e4 + rest));
        u16::lemma_codec(v.index, rest);
    }
}

/// Formal parameter of a method.
#[derive(Debug, Clone, Copy, PartialEq, Eq, Hash)]
pub struct MethodParam {
    /// Name of this parameter in constant pool (`Utf8`), if present.
    pub name_idx: Option<NonZeroU16>,
    /// Access properties of a method parameter.
    pub access_flags: MethodParamAccessFlags,
}

impl View for MethodParam {
    type V = MethodParam;

    open spec fn view(&self) -> MethodParam {
        *self
    }
}

impl<'de> Decode<'de> for MethodParam {
    /// The fields in order: `name_idx`, `access_flags`.
    open spec fn spec_decode(s: Seq<u8>) -> Result<(MethodParam, int), Error> {
        match <Option<NonZeroU16>>::spec_decode(s) {
            Err(e) => Err(e),
            Ok((name_idx_v, n0)) =>
            match MethodParamAccessFlags::spec_decode(s.skip(n0)) {
                Err(e) => Err(e),
                Ok((access_flags_v, n1)) =>
                Ok((MethodParam { name_idx: name_idx_v, access_flags: access_flags_v }, n0 + n1))
            }
        }
    }

    open spec fn decode_requires(s: Seq<u8>) -> bool {
        <Option<NonZeroU16>>::decode_requires(s) && match <Option<NonZeroU16>>::spec_decode(s) {
            Err(_) => true,
            Ok((_, n0)) =>
            MethodParamAccessFlags::decode_requires(s.skip(n0))
        }
    }

    fn decode<B: Buf<'de>>(buf: &mut B) -> (r: Result<MethodParam, Error>) {
        let name_idx_v = <Option<NonZeroU16>>::decode(buf)?;
        let access_flags_v = MethodParamAccessFlags::decode(buf)?;
        Ok(MethodParam { name_idx: name_idx_v, access_flags: access_flags_v })
    }
}

impl Encode for MethodParam {
    open spec fn spec_encode(v: MethodParam) -> Seq<u8> {
        <Option<NonZeroU16>>::spec_encode(v.name_idx) + MethodParamAccessFlags::spec_encode(v.access_flags)
    }

    open spec fn encodable(v: MethodParam) -> bool {
        <Option<NonZeroU16>>::encodable(v.name_idx) && MethodParamAccessFlags::encodable(v.access_flags)
    }

    open spec fn encode_requires(v: MethodParam) -> bool {
        <Option<NonZeroU16>>::encode_requires(v.name_idx) && MethodParamAccessFlags::encode_requires(v.access_flags)
    }

    fn encode<B: BufMut>(&self, buf: &mut B) -> (r: Result<(), Error>) {
        let ghost b0 = *buf;
        let ghost total = Self::spec_encode(*self);
        proof {
            lemma_progress_start(b0);
        }
        put(buf, &self.name_idx, Ghost(b0), Ghost(Seq::empty()), Ghost(total))?;
        put(buf, &self.access_flags, Ghost(b0), Ghost(Seq::empty() + <Option<NonZeroU16>>::spec_encode(self.name_idx)), Ghost(total))?;
        assert(Seq::empty() + <Option<NonZeroU16>>::spec_encode(self.name_idx) + MethodParamAccessFlags::spec_encode(self.access_flags) =~= total);
        Ok(())
    }
}

impl<'de> Codec<'de> for MethodParam {
    open spec fn wf(v: MethodParam) -> bool {
        <Option<NonZeroU16>>::wf(v.name_idx) && MethodParamAccessFlags::wf(v.access_flags)
    }

    proof fn lemma_codec(v: MethodParam, rest: Seq<u8>) {
        let e0 = <Option<NonZeroU16>>::spec_encode(v.name_idx);
        let e1 = MethodParamAccessFlags::spec_encode(v.access_flags);
        assert(e0 + e1 + rest =~= (e0 + (e1 + rest)));
        <Option<NonZeroU16>>::lemma_codec(v.name_idx, (e1 + rest));
        assert((e0 + (e1 + rest)).skip(e0.len() as int) =~= (e1 + rest));
        MethodParamAccessFlags::lemma_codec(v.access_flags, rest);
    }
}

/// Denote access properties of a method parameter.
#[derive(Debug, Clone, Copy, PartialEq, Eq, PartialOrd, Ord, Hash)]
pub struct MethodParamAccessFlags {
    bits: u16,
}

impl MethodParamAccessFlags {
    /// Indicates that the formal parameter was declared `final`.
    pub const FINAL: u16 = 0x0010;

    /// Indicates that the formal parameter was not explicitly or implicitly declared in source code,
    /// according to the specification of the language in which the source code was written.
    pub const SYNTHETIC: u16 = 0x1000;

    /// Indicates that the formal parameter was implicitly declared in source code,
    /// according to the specification of the language in which the source code was written.
    pub const MANDATED: u16 = 0x8000;

    /// The bits of all the flags defined.
    pub const ALL_BITS: u16 = 0x9010;

    /// The bits of this set.
    pub closed spec fn spec_bits(self) -> u16 {
        self.bits
    }

    /// The set with exactly the given bits, defined or not.
    pub closed spec fn spec_from_bits_retain(bits: u16) -> MethodParamAccessFlags {
        MethodParamAccessFlags { bits }
    }

    pub broadcast proof fn lemma_bits(bits: u16)
        ensures
            #[trigger] MethodParamAccessFlags::spec_from_bits_retain(bits).spec_bits() == bits,
    {
    }

    pub broadcast proof fn lemma_from_bits(f: MethodParamAccessFlags)
        ensures
            #[trigger] MethodParamAccessFlags::spec_from_bits_retain(f.spec_bits()) == f,
    {
    }

    /// Whether every bit of `bits` is a defined flag.
    pub open spec fn known(bits: u16) -> bool {
        bits & !MethodParamAccessFlags::ALL_BITS == 0
    }

    /// The bits of this set.
    pub fn bits(&self) -> (r: u16)
        ensures
            r == self.spec_bits(),
    {
        self.bits
    }

    /// The set with the given bits, if every one of them is a defined flag.
    pub fn from_bits(bits: u16) -> (r: Option<MethodParamAccessFlags>)
        ensures
            r == (if MethodParamAccessFlags::known(bits) {
                Some(MethodParamAccessFlags::spec_from_bits_retain(bits))
            } else {
                None
            }),
    {
        if bits & !MethodParamAccessFlags::ALL_BITS == 0 {
            Some(MethodParamAccessFlags { bits })
        } else {
            None
        }
    }

    /// The set with exactly the given bits, defined or not.
    pub fn from_bits_retain(bits: u16) -> (r: MethodParamAccessFlags)
        ensures
            r == MethodParamAccessFlags::spec_from_bits_retain(bits),
    {
        MethodParamAccessFlags { bits }
    }

    /// The set with the defined flags of `bits` and no other.
    pub fn from_bits_truncate(bits: u16) -> (r: MethodParamAccessFlags)
        ensures
            r.spec_bits() == bits & MethodParamAccessFlags::ALL_BITS,
    {
        MethodParamAccessFlags { bits: bits & MethodParamAccessFlags::ALL_BITS }
    }

    /// The empty set.
    pub fn empty() -> (r: MethodParamAccessFlags)
        ensures
            r.spec_bits() == 0,
    {
        MethodParamAccessFlags { bits: 0 }
    }

    /// The set of all defined flags.
    pub fn all() -> (r: MethodParamAccessFlags)
        ensures
            r.spec_bits() == MethodParamAccessFlags::ALL_BITS,
    {
        MethodParamAccessFlags { bits: MethodParamAccessFlags::ALL_BITS }
    }

    /// Whether no bit is set.
    pub fn is_empty(&self) -> (r: bool)
        ensures
            r == (self.spec_bits() == 0),
    {
        self.bits == 0
    }

    /// Whether every bit of `other` is set in `self`.
    pub fn contains(&self, other: MethodParamAccessFlags) -> (r: bool)
        ensures
            r == (self.spec_bits() & other.spec_bits() == other.spec_bits()),
    {
        self.bits & other.bits == other.bits
    }

    /// Whether some bit is set in both.
    pub fn intersects(&self, other: MethodParamAccessFlags) -> (r: bool)
        ensures
            r == (self.spec_bits() & other.spec_bits() != 0),
    {
        self.bits & other.bits != 0
    }

    /// The bits set in either.
    pub fn union(self, other: MethodParamAccessFlags) -> (r: MethodParamAccessFlags)
        ensures
            r.spec_bits() == self.spec_bits() | other.spec_bits(),
    {
        MethodParamAccessFlags { bits: self.bits | other.bits }
    }

    /// Sets the bits of `other`.
    pub fn insert(&mut self, other: MethodParamAccessFlags)
        ensures
            final(self).spec_bits() == old(self).spec_bits() | other.spec_bits(),
    {
        self.bits = self.bits | other.bits;
    }

    /// Clears the bits of `other`.
    pub fn remove(&mut self, other: MethodParamAccessFlags)
        ensures
            final(self).spec_bits() == old(self).spec_bits() & !other.spec_bits(),
    {
        self.bits = self.bits & !other.bits;
    }
}

impl View for MethodParamAccessFlags {
    type V = MethodParamAccessFlags;

    open spec fn view(&self) -> MethodParamAccessFlags {
        *self
    }
}

impl<'de> Decode<'de> for MethodParamAccessFlags {
    /// A `u16` of bits, kept as they are.
    open spec fn spec_decode(s: Seq<u8>) -> Result<(MethodParamAccessFlags, int), Error> {
        match u16::spec_decode(s) {
            Err(e) => Err(e),
            Ok((bits, n)) => Ok((MethodParamAccessFlags::spec_from_bits_retain(bits), n)),
        }
    }

    open spec fn decode_requires(s: Seq<u8>) -> bool {
        true
    }

    fn decode<B: Buf<'de>>(buf: &mut B) -> (r: Result<MethodParamAccessFlags, Error>) {
        let bits = u16::decode(buf)?;
        Ok(MethodParamAccessFlags::from_bits_retain(bits))
    }
}

impl Encode for MethodParamAccessFlags {
    open spec fn spec_encode(v: MethodParamAccessFlags) -> Seq<u8> {
        u16::spec_encode(v.spec_bits())
    }

    open spec fn encodable(v: MethodParamAccessFlags) -> bool {
        true
    }

    open spec fn encode_requires(v: MethodParamAccessFlags) -> bool {
        true
    }

    fn encode<B: BufMut>(&self, buf: &mut B) -> (r: Result<(), Error>) {
        self.bits().encode(buf)
    }
}

impl<'de> Codec<'de> for MethodParamAccessFlags {
    open spec fn wf(v: MethodParamAccessFlags) -> bool {
        true
    }

    proof fn lemma_codec(v: MethodParamAccessFlags, rest: Seq<u8>) {
        u16::lemma_codec(v.spec_bits(), rest);
    }
}

/// Name of `MethodParameters` attribute. See [`MethodParamsReader`] and [`MethodParamsWriter`] for usage.
pub const NAME_METHOD_PARAMS: &'static str = "MethodParameters";

/// Reader of `MethodParameters` attribute.
pub type MethodParamsReader<'a, B> = ArrayReaderU8<'a, B, MethodParam>;

/// Writer of `MethodParameters` attribute.
pub type MethodParamsWriter<B> = ArrayWriterU8<B, MethodParam>;

} // verus!
