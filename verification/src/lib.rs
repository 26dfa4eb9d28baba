//! Reader and writer for the JVM classfile format.

mod list;
mod util;

pub mod reader;
pub mod writer;
mod attribute;
pub mod attributes;
mod constant;
mod field;
mod header;
mod meta;
mod method;
pub mod pipe;
pub mod canonical;
pub mod tags;

pub use attribute::{Attribute, SpecAttribute};
pub use constant::{ConstantEntry, ConstantPoolEntry, ReferenceKind, SpecConstantEntry};
pub use field::{FieldAccessFlags, FieldHeader};
pub use header::{ClassfileHeader, Version};
pub use meta::{ClassAccessFlags, ClassMetadata};
pub use method::{MethodAccessFlags, MethodHeader};

pub use reader::{FieldReader, MethodReader, Reader};
pub use writer::Writer;
pub use util::{
    Buf, BufMut, Codec, Decode, Encode, FixedBuf, NonZeroU16, SealedBuf, SealedBufMut, VecChunk,
};

use util::{be_u16, put, put_slice};

use vstd::prelude::*;

verus! {

/// Errors that occur while reading or writing a classfile.
#[derive(Debug, Clone, PartialEq, Eq)]
#[non_exhaustive]
pub enum Error {
    /// Unexpected end of input while parsing, or not enough room while writing.
    UnexpectedEOF,
    /// The magic number at the start of the classfile is not `0xCAFEBABE`.
    MalformedMagic(u32),
    /// A zero where a non-zero value is required.
    UnexpectedZero,
    /// Unknown method handle reference kind.
    UnknownReferenceKind(u8),
    /// Unknown constant pool entry tag.
    UnknownConstantTag(u8),
    /// Unknown verification type tag.
    UnknownVerificationType(u8),
    /// Unknown stack map frame type.
    UnknownFrameType(u8),
    /// Unknown element value tag.
    UnknownElementValueType(u8),
    /// Access flags with bits that the format does not define.
    UnknownAccessFlags(u16),
    /// Unknown type path kind in a type annotation.
    UnknownTypePathKind(u8),
    /// Unknown target type in a type annotation.
    UnknownAnnotationTargetType(u8),
    /// Index out of bounds.
    IndexOfBounds,
    /// Offset out of bounds.
    OffsetOutOfBounds,
}

impl Error {
    /// What went wrong, in words; the value that an error carries is not part of it.
    pub fn message(&self) -> (r: &'static str)
        ensures
            r@ == (match *self {
                Error::UnexpectedEOF => "unexpected end of file"@,
                Error::MalformedMagic(_) => "malformed magic number"@,
                Error::UnexpectedZero => "unexpected zero value"@,
                Error::UnknownReferenceKind(_) => "unknown reference kind"@,
                Error::UnknownConstantTag(_) => "unknown constant pool entry tag"@,
                Error::UnknownVerificationType(_) => "unknown verification type tag"@,
                Error::UnknownFrameType(_) => "unknown frame type"@,
                Error::UnknownElementValueType(_) => "unknown element value type"@,
                Error::UnknownAccessFlags(_) => "unknown access flags"@,
                Error::UnknownTypePathKind(_) => "unknown type path kind"@,
                Error::UnknownAnnotationTargetType(_) => "unknown annotation target type"@,
                Error::IndexOfBounds => "index out of bounds"@,
                Error::OffsetOutOfBounds => "offset out of bounds"@,
            }),
    {
        match self {
            Error::UnexpectedEOF => "unexpected end of file",
            Error::MalformedMagic(_) => "malformed magic number",
            Error::UnexpectedZero => "unexpected zero value",
            Error::UnknownReferenceKind(_) => "unknown reference kind",
            Error::UnknownConstantTag(_) => "unknown constant pool entry tag",
            Error::UnknownVerificationType(_) => "unknown verification type tag",
            Error::UnknownFrameType(_) => "unknown frame type",
            Error::UnknownElementValueType(_) => "unknown element value type",
            Error::UnknownAccessFlags(_) => "unknown access flags",
            Error::UnknownTypePathKind(_) => "unknown type path kind",
            Error::UnknownAnnotationTargetType(_) => "unknown annotation target type",
            Error::IndexOfBounds => "index out of bounds",
            Error::OffsetOutOfBounds => "offset out of bounds",
        }
    }
}

/// String literal encoded in Modified UTF-8, as raw bytes.
///
/// The length of the byte slice should be no longer than `u16::MAX`.
#[derive(Clone, Copy, PartialEq, Eq, PartialOrd, Ord, Hash, Debug)]
pub struct ModifiedUtf8<'a>(pub &'a [u8]);

impl<'a> View for ModifiedUtf8<'a> {
    type V = Seq<u8>;

    open spec fn view(&self) -> Seq<u8> {
        self.0@
    }
}

impl<'de> Decode<'de> for ModifiedUtf8<'de> {
    /// A `u16` length, then that many bytes.
    open spec fn spec_decode(s: Seq<u8>) -> Result<(Seq<u8>, int), Error> {
        match u16::spec_decode(s) {
            Err(e) => Err(e),
            Ok((len, n)) => if s.skip(n).len() < len {
                Err(Error::UnexpectedEOF)
            } else {
                Ok((s.skip(n).take(len as int), n + len))
            },
        }
    }

    open spec fn decode_requires(s: Seq<u8>) -> bool {
        true
    }

    fn decode<B: Buf<'de>>(buf: &mut B) -> (r: Result<ModifiedUtf8<'de>, Error>) {
        let len = u16::decode(buf)?;
        let ghost s1 = buf@;
        match buf.read_slice(len as usize) {
            Some(bytes) => Ok(ModifiedUtf8(bytes)),
            None => {
                assert(s1.skip(0) =~= s1);
                Err(Error::UnexpectedEOF)
            },
        }
    }
}

impl<'a> Encode for ModifiedUtf8<'a> {
    open spec fn spec_encode(v: Seq<u8>) -> Seq<u8> {
        be_u16(v.len() as u16) + v
    }

    open spec fn encodable(v: Seq<u8>) -> bool {
        true
    }

    open spec fn encode_requires(v: Seq<u8>) -> bool {
        v.len() <= u16::MAX
    }

    fn encode<B: BufMut>(&self, buf: &mut B) -> (r: Result<(), Error>) {
        let ghost b0 = *buf;
        let ghost total = Self::spec_encode(self@);
        let len = self.0.len() as u16;
        proof {
            util::lemma_progress_start(b0);
        }
        put(buf, &len, Ghost(b0), Ghost(Seq::empty()), Ghost(total))?;
        assert(Seq::<u8>::empty() + be_u16(len) =~= be_u16(len));
        assert((be_u16(len) + self.0@).is_prefix_of(total)) by {
            assert(total =~= (be_u16(len) + self.0@).subrange(0, total.len() as int));
        }
        put_slice(buf, self.0, Ghost(b0), Ghost(be_u16(len)), Ghost(total))?;
        Ok(())
    }
}

impl<'de> Codec<'de> for ModifiedUtf8<'de> {
    open spec fn wf(v: Seq<u8>) -> bool {
        v.len() <= u16::MAX
    }

    proof fn lemma_codec(v: Seq<u8>, rest: Seq<u8>) {
        let s = Self::spec_encode(v) + rest;
        util::lemma_be_u16(v.len() as u16, v + rest);
        assert(s =~= be_u16(v.len() as u16) + (v + rest));
        assert((v + rest).take(v.len() as int) =~= v);
    }
}

} // verus!
