use vstd::prelude::*;

#[allow(unused_imports)]
use crate::util::{
    encode_post, lemma_progress_start, put, put_slice, read_post, Buf, BufMut, Codec, Decode,
    Encode,
};
#[allow(unused_imports)]
use crate::{Error, NonZeroU16};
use crate::canonical::{
    decodes_back, lemma_attribute_back, lemma_back3, lemma_code_body_back,
    lemma_exception_entry_back, lemma_list16_back,
};
use crate::list::{
    all_encodable, all_wf, lemma_codec_list16, spec_decode_list16, spec_encode_list16,
};
use crate::{Attribute, SpecAttribute};

verus! {

/// Name of [`ConstantValue`] attribute.
pub const NAME_CONSTANT_VALUE: &'static str = "ConstantValue";

/// Value of a constant expression.
#[derive(Debug, Clone, Copy, PartialEq, Eq, PartialOrd, Ord, Hash)]
pub struct ConstantValue {
    /// Index to the constant pool entry that holds the constant value.
    pub constant_value_index: NonZeroU16,
}

impl View for ConstantValue {
    type V = ConstantValue;

    open spec fn view(&self) -> ConstantValue {
        *self
    }
}

impl<'de> Decode<'de> for ConstantValue {
    /// The fields in order: `constant_value_index`.
    open spec fn spec_decode(s: Seq<u8>) -> Result<(ConstantValue, int), Error> {
        match NonZeroU16::spec_decode(s) {
            Err(e) => Err(e),
            Ok((constant_value_index_v, n0)) =>
            Ok((ConstantValue { constant_value_index: constant_value_index_v }, n0))
        }
    }

    open spec fn decode_requires(s: Seq<u8>) -> bool {
        NonZeroU16::decode_requires(s)
    }

    fn decode<B: Buf<'de>>(buf: &mut B) -> (r: Result<ConstantValue, Error>) {
        let constant_value_index_v = NonZeroU16::decode(buf)?;
        Ok(ConstantValue { constant_value_index: constant_value_index_v })
    }
}

impl Encode for ConstantValue {
    open spec fn spec_encode(v: ConstantValue) -> Seq<u8> {
        NonZeroU16::spec_encode(v.constant_value_index)
    }

    open spec fn encodable(v: ConstantValue) -> bool {
        NonZeroU16::encodable(v.constant_value_index)
    }

    open spec fn encode_requires(v: ConstantValue) -> bool {
        NonZeroU16::encode_requires(v.constant_value_index)
    }

    fn encode<B: BufMut>(&self, buf: &mut B) -> (r: Result<(), Error>) {
        let ghost b0 = *buf;
        let ghost total = Self::spec_encode(*self);
        proof {
            lemma_progress_start(b0);
        }
        put(buf, &self.constant_value_index, Ghost(b0), Ghost(Seq::empty()), Ghost(total))?;
        assert(Seq::empty() + NonZeroU16::spec_encode(self.constant_value_index) =~= total);
        Ok(())
    }
}

impl<'de> Codec<'de> for ConstantValue {
    open spec fn wf(v: ConstantValue) -> bool {
        NonZeroU16::wf(v.constant_value_index)
    }

    proof fn lemma_codec(v: ConstantValue, rest: Seq<u8>) {
        let e0 = NonZeroU16::spec_encode(v.constant_value_index);
        assert(e0 + rest =~= (e0 + rest));
        NonZeroU16::lemma_codec(v.constant_value_index, rest);
    }
}

impl ConstantValue {
    /// Writes this value into the given buffer.
    pub fn write<B: BufMut>(&self, buf: &mut B) -> (r: Result<(), Error>)
        ensures
            encode_post(*old(buf), *final(buf), true, ConstantValue::spec_encode(*self), r),
    {
        self.encode(buf)
    }

    /// Reads a value from the given buffer.
    pub fn read<'a, B: Buf<'a>>(buf: &mut B) -> (r: Result<ConstantValue, Error>)
        requires
            ConstantValue::decode_requires(old(buf)@),
        ensures
            read_post(old(buf)@, final(buf)@, ConstantValue::spec_decode(old(buf)@), r),
    {
        ConstantValue::decode(buf)
    }
}

/// Name of `Code` attribute. See [`crate::attributes::CodeReader`] and
/// [`crate::attributes::CodeWriter`] for usage.
pub const NAME_CODE: &'static str = "Code";

/// Body part of `Code` attribute, which contains JVM instructions with
/// auxiliary information about the method.
#[derive(Debug)]
pub struct CodeBody<'a> {
    /// The maximum depth of the operand stack of this method.
    pub max_stack: u16,
    /// The number of local variables in the local variable array allocated
    /// upon invocation of this method.
    pub max_locals: u16,
    /// The code of this method; its length takes four bytes in the classfile.
    pub code: &'a [u8],
}

/// The value of a [`CodeBody`].
pub struct SpecCodeBody {
    pub max_stack: u16,
    pub max_locals: u16,
    pub code: Seq<u8>,
}

impl<'a> View for CodeBody<'a> {
    type V = SpecCodeBody;

    open spec fn view(&self) -> SpecCodeBody {
        SpecCodeBody { max_stack: self.max_stack, max_locals: self.max_locals, code: self.code@ }
    }
}

impl<'de> Decode<'de> for CodeBody<'de> {
    /// The maximum stack depth, the number of locals, then a `u32` length and that
    /// many bytes of code.
    open spec fn spec_decode(s: Seq<u8>) -> Result<(SpecCodeBody, int), Error> {
        match u16::spec_decode(s) {
            Err(e) => Err(e),
            Ok((max_stack, n1)) => match u16::spec_decode(s.skip(n1)) {
                Err(e) => Err(e),
                Ok((max_locals, n2)) => match crate::attribute::spec_decode_bytes32(
                    s.skip(n1).skip(n2),
                ) {
                    Err(e) => Err(e),
                    Ok((code, n3)) => Ok((SpecCodeBody { max_stack, max_locals, code }, n1 + n2 + n3)),
                },
            },
        }
    }

    open spec fn decode_requires(s: Seq<u8>) -> bool {
        true
    }

    fn decode<B: Buf<'de>>(buf: &mut B) -> (r: Result<CodeBody<'de>, Error>) {
        let max_stack = u16::decode(buf)?;
        let max_locals = u16::decode(buf)?;
        let code = crate::attribute::read_bytes32(buf)?;
        Ok(CodeBody { max_stack, max_locals, code })
    }
}

impl<'a> Encode for CodeBody<'a> {
    open spec fn spec_encode(v: SpecCodeBody) -> Seq<u8> {
        u16::spec_encode(v.max_stack) + u16::spec_encode(v.max_locals) + u32::spec_encode(
            v.code.len() as u32,
        ) + v.code
    }

    open spec fn encodable(v: SpecCodeBody) -> bool {
        true
    }

    open spec fn encode_requires(v: SpecCodeBody) -> bool {
        v.code.len() <= u32::MAX
    }

    fn encode<B: BufMut>(&self, buf: &mut B) -> (r: Result<(), Error>) {
        let ghost b0 = *buf;
        let ghost total = Self::spec_encode(self@);
        proof {
            lemma_progress_start(b0);
        }
        let len = self.code.len() as u32;
        put(buf, &self.max_stack, Ghost(b0), Ghost(Seq::empty()), Ghost(total))?;
        let ghost a1 = Seq::empty() + u16::spec_encode(self.max_stack);
        put(buf, &self.max_locals, Ghost(b0), Ghost(a1), Ghost(total))?;
        let ghost a2 = a1 + u16::spec_encode(self.max_locals);
        put(buf, &len, Ghost(b0), Ghost(a2), Ghost(total))?;
        let ghost a3 = a2 + u32::spec_encode(len);
        assert((a3 + self.code@).is_prefix_of(total)) by {
            assert(total =~= (a3 + self.code@).subrange(0, total.len() as int));
        }
        put_slice(buf, self.code, Ghost(b0), Ghost(a3), Ghost(total))?;
        assert(a3 + self.code@ =~= total);
        Ok(())
    }
}

impl<'de> Codec<'de> for CodeBody<'de> {
    open spec fn wf(v: SpecCodeBody) -> bool {
        v.code.len() <= u32::MAX
    }

    #[verifier::spinoff_prover]
    proof fn lemma_codec(v: SpecCodeBody, rest: Seq<u8>) {
        let e0 = u16::spec_encode(v.max_stack);
        let e1 = u16::spec_encode(v.max_locals);
        let e2 = u32::spec_encode(v.code.len() as u32) + v.code + rest;
        let s = Self::spec_encode(v) + rest;
        assert(s =~= e0 + (e1 + e2));
        u16::lemma_codec(v.max_stack, e1 + e2);
        assert(s.skip(2) =~= e1 + e2);
        u16::lemma_codec(v.max_locals, e2);
        assert(s.skip(2).skip(2) =~= e2);
        crate::attribute::lemma_bytes32(v.code, rest);
        assert(Self::spec_encode(v).len() == 2 + 2 + 4 + v.code.len());
    }
}

/// Entry of an exception table.
#[derive(Debug, PartialEq, Eq, Hash)]
pub struct ExceptionTableEntry {
    /// The ranges in the `code` array at which the exception handler is active.
    pub range_pc: core::ops::Range<u16>,
    /// The start of the exception handler.
    pub handler_pc: u16,
    /// The `Class` of exceptions that this exception handler is designated
    /// to catch, if present.
    pub catch_type: Option<NonZeroU16>,
}

impl Clone for ExceptionTableEntry {
    fn clone(&self) -> (r: ExceptionTableEntry)
        ensures
            r == *self,
    {
        ExceptionTableEntry {
            range_pc: core::ops::Range { start: self.range_pc.start, end: self.range_pc.end },
            handler_pc: self.handler_pc,
            catch_type: self.catch_type,
        }
    }
}

impl View for ExceptionTableEntry {
    type V = ExceptionTableEntry;

    open spec fn view(&self) -> ExceptionTableEntry {
        *self
    }
}

impl<'de> Decode<'de> for ExceptionTableEntry {
    /// The start and the end of the range, the handler, then the catch type.
    open spec fn spec_decode(s: Seq<u8>) -> Result<(ExceptionTableEntry, int), Error> {
        match u16::spec_decode(s) {
            Err(e) => Err(e),
            Ok((start, n1)) => match u16::spec_decode(s.skip(n1)) {
                Err(e) => Err(e),
                Ok((end, n2)) => match u16::spec_decode(s.skip(n1).skip(n2)) {
                    Err(e) => Err(e),
                    Ok((handler_pc, n3)) => match <Option<NonZeroU16>>::spec_decode(
                        s.skip(n1).skip(n2).skip(n3),
                    ) {
                        Err(e) => Err(e),
                        Ok((catch_type, n4)) => Ok((
                            ExceptionTableEntry {
                                range_pc: core::ops::Range { start, end },
                                handler_pc,
                                catch_type,
                            },
                            n1 + n2 + n3 + n4,
                        )),
                    },
                },
            },
        }
    }

    open spec fn decode_requires(s: Seq<u8>) -> bool {
        true
    }

    fn decode<B: Buf<'de>>(buf: &mut B) -> (r: Result<ExceptionTableEntry, Error>) {
        let start = u16::decode(buf)?;
        let end = u16::decode(buf)?;
        let handler_pc = u16::decode(buf)?;
        let catch_type = <Option<NonZeroU16>>::decode(buf)?;
        Ok(ExceptionTableEntry { range_pc: core::ops::Range { start, end }, handler_pc, catch_type })
    }
}

impl Encode for ExceptionTableEntry {
    open spec fn spec_encode(v: ExceptionTableEntry) -> Seq<u8> {
        u16::spec_encode(v.range_pc.start) + u16::spec_encode(v.range_pc.end) + u16::spec_encode(
            v.handler_pc,
        ) + <Option<NonZeroU16>>::spec_encode(v.catch_type)
    }

    open spec fn encodable(v: ExceptionTableEntry) -> bool {
        true
    }

    open spec fn encode_requires(v: ExceptionTableEntry) -> bool {
        true
    }

    fn encode<B: BufMut>(&self, buf: &mut B) -> (r: Result<(), Error>) {
        let ghost b0 = *buf;
        let ghost total = Self::spec_encode(*self);
        proof {
            lemma_progress_start(b0);
        }
        put(buf, &self.range_pc.start, Ghost(b0), Ghost(Seq::empty()), Ghost(total))?;
        let ghost a1 = Seq::empty() + u16::spec_encode(self.range_pc.start);
        put(buf, &self.range_pc.end, Ghost(b0), Ghost(a1), Ghost(total))?;
        let ghost a2 = a1 + u16::spec_encode(self.range_pc.end);
        put(buf, &self.handler_pc, Ghost(b0), Ghost(a2), Ghost(total))?;
        let ghost a3 = a2 + u16::spec_encode(self.handler_pc);
        put(buf, &self.catch_type, Ghost(b0), Ghost(a3), Ghost(total))?;
        assert(a3 + <Option<NonZeroU16>>::spec_encode(self.catch_type) =~= total);
        Ok(())
    }
}

impl<'de> Codec<'de> for ExceptionTableEntry {
    open spec fn wf(v: ExceptionTableEntry) -> bool {
        <Option<NonZeroU16>>::wf(v.catch_type)
    }

    proof fn lemma_codec(v: ExceptionTableEntry, rest: Seq<u8>) {
        let e0 = u16::spec_encode(v.range_pc.start);
        let e1 = u16::spec_encode(v.range_pc.end);
        let e2 = u16::spec_encode(v.handler_pc);
        let e3 = <Option<NonZeroU16>>::spec_encode(v.catch_type);
        let s = Self::spec_encode(v) + rest;
        assert(s =~= e0 + (e1 + (e2 + (e3 + rest))));
        u16::lemma_codec(v.range_pc.start, e1 + (e2 + (e3 + rest)));
        assert(s.skip(2) =~= e1 + (e2 + (e3 + rest)));
        u16::lemma_codec(v.range_pc.end, e2 + (e3 + rest));
        assert(s.skip(2).skip(2) =~= e2 + (e3 + rest));
        u16::lemma_codec(v.handler_pc, e3 + rest);
        assert(s.skip(2).skip(2).skip(2) =~= e3 + rest);
        <Option<NonZeroU16>>::lemma_codec(v.catch_type, rest);
    }
}

/// The contents of a `Code` attribute, as its reader gives them and its writer
/// lays them out: the body, the exception table, then the attributes.
pub struct SpecCode {
    pub body: SpecCodeBody,
    pub exception_table: Seq<ExceptionTableEntry>,
    pub attributes: Seq<SpecAttribute>,
}

/// Decoding a `Code` attribute: its body, then a `u16` count and that many
/// exception table entries, then a `u16` count and that many attributes.
#[verifier::opaque]
pub open spec fn spec_decode_code(s: Seq<u8>) -> Result<(SpecCode, int), Error> {
    match CodeBody::spec_decode(s) {
        Err(e) => Err(e),
        Ok((body, n1)) => match spec_decode_list16::<ExceptionTableEntry>(s.skip(n1)) {
            Err(e) => Err(e),
            Ok((exception_table, n2)) => match spec_decode_list16::<Attribute<'static>>(
                s.skip(n1).skip(n2),
            ) {
                Err(e) => Err(e),
                Ok((attributes, n3)) => Ok(
                    (SpecCode { body, exception_table, attributes }, n1 + n2 + n3),
                ),
            },
        },
    }
}

/// The layout of a `Code` attribute: its body, then each list with its count.
#[verifier::opaque]
pub open spec fn spec_encode_code(c: SpecCode) -> Seq<u8> {
    CodeBody::spec_encode(c.body) + spec_encode_list16::<ExceptionTableEntry>(c.exception_table)
        + spec_encode_list16::<Attribute<'static>>(c.attributes)
}

/// The contents of a `Code` attribute that its writer lays out and its reader
/// reads back: the code fits its length, each list fits its count, and every
/// value is well-formed.
pub open spec fn code_wf(c: SpecCode) -> bool {
    &&& c.body.code.len() <= u32::MAX
    &&& c.exception_table.len() <= u16::MAX
    &&& all_wf::<ExceptionTableEntry>(c.exception_table)
    &&& c.attributes.len() <= u16::MAX
    &&& all_wf::<Attribute<'static>>(c.attributes)
    &&& all_encodable::<Attribute<'static>>(c.attributes)
}

/// What the writer of a `Code` attribute lays out, its reader reads back:
/// decoding the layout of well-formed contents gives them back, and takes
/// exactly their bytes.
#[verifier::spinoff_prover]
pub proof fn lemma_code_codec(c: SpecCode, rest: Seq<u8>)
    requires
        code_wf(c),
    ensures
        spec_decode_code(spec_encode_code(c) + rest) == Ok::<(SpecCode, int), Error>(
            (c, spec_encode_code(c).len() as int),
        ),
{
    reveal(spec_encode_code);
    let e1 = CodeBody::spec_encode(c.body);
    let e2 = spec_encode_list16::<ExceptionTableEntry>(c.exception_table);
    let e3 = spec_encode_list16::<Attribute<'static>>(c.attributes);
    let s3 = e3 + rest;
    let s2 = e2 + s3;
    let s = e1 + s2;
    assert(spec_encode_code(c) + rest =~= s);
    assert(s.skip(e1.len() as int) =~= s2);
    assert(s2.skip(e2.len() as int) =~= s3);
    lemma_codec_list16::<Attribute<'static>>(c.attributes, rest);
    assert(all_encodable::<ExceptionTableEntry>(c.exception_table));
    lemma_codec_list16::<ExceptionTableEntry>(c.exception_table, s3);
    CodeBody::lemma_codec(c.body, s2);
    reveal(spec_decode_code);
}

/// What the reader of a `Code` attribute reads, its writer writes back byte for
/// byte: the layout of decoded contents is exactly the bytes that they were
/// decoded from.
#[verifier::spinoff_prover]
pub proof fn lemma_code_back(s: Seq<u8>)
    ensures
        spec_decode_code(s) matches Ok((c, n)) ==> 0 <= n <= s.len() && spec_encode_code(c)
            == s.take(n),
{
    reveal(spec_decode_code);
    reveal(spec_encode_code);
    lemma_code_body_back(s);
    if let Ok((_, n1)) = CodeBody::spec_decode(s) {
        assert forall|t: Seq<u8>| #[trigger] decodes_back::<ExceptionTableEntry>(t) by {
            lemma_exception_entry_back(t);
        }
        assert forall|t: Seq<u8>| #[trigger] decodes_back::<Attribute<'static>>(t) by {
            lemma_attribute_back(t);
        }
        lemma_list16_back::<ExceptionTableEntry>(s.skip(n1));
        if let Ok((_, n2)) = spec_decode_list16::<ExceptionTableEntry>(s.skip(n1)) {
            lemma_list16_back::<Attribute<'static>>(s.skip(n1).skip(n2));
            if let Ok((_, n3)) = spec_decode_list16::<Attribute<'static>>(s.skip(n1).skip(n2)) {
                lemma_back3(
                    s,
                    n1,
                    n2,
                    n3,
                    s.take(n1),
                    s.skip(n1).take(n2),
                    s.skip(n1).skip(n2).take(n3),
                );
            }
        }
    }
}

} // verus!
