use vstd::prelude::*;

use crate::util::{lemma_progress_start, put, put_slice, Buf, BufMut, Codec, Decode, Encode};
use crate::{Error, NonZeroU16};

verus! {

/// Decoding a `u32` length, then that many bytes.
pub open spec fn spec_decode_bytes32(s: Seq<u8>) -> Result<(Seq<u8>, int), Error> {
    match u32::spec_decode(s) {
        Err(e) => Err(e),
        Ok((len, n)) => if s.skip(n).len() < len {
            Err(Error::UnexpectedEOF)
        } else {
            Ok((s.skip(n).take(len as int), n + len))
        },
    }
}

/// Reads a `u32` length, then that many bytes.
pub fn read_bytes32<'de, B: Buf<'de>>(buf: &mut B) -> (r: Result<&'de [u8], Error>)
    ensures
        final(buf)@.len() <= old(buf)@.len(),
        final(buf)@ =~= old(buf)@.skip(old(buf)@.len() - final(buf)@.len()),
        match r {
            Ok(b) => spec_decode_bytes32(old(buf)@) == Ok::<(Seq<u8>, int), Error>(
                (b@, old(buf)@.len() - final(buf)@.len()),
            ),
            Err(e) => spec_decode_bytes32(old(buf)@) == Err::<(Seq<u8>, int), Error>(e),
        },
{
    let len = u32::decode(buf)?;
    let ghost s1 = buf@;
    match buf.read_slice(len as usize) {
        Some(bytes) => Ok(bytes),
        None => {
            assert(s1.skip(0) =~= s1);
            Err(Error::UnexpectedEOF)
        },
    }
}

pub proof fn lemma_bytes32(v: Seq<u8>, rest: Seq<u8>)
    requires
        v.len() <= u32::MAX,
    ensures
        spec_decode_bytes32(u32::spec_encode(v.len() as u32) + v + rest) == Ok::<(Seq<u8>, int), Error>(
            (v, 4 + v.len() as int),
        ),
{
    let s = u32::spec_encode(v.len() as u32) + v + rest;
    assert(s =~= u32::spec_encode(v.len() as u32) + (v + rest));
    u32::lemma_codec(v.len() as u32, v + rest);
    assert(s.skip(4) =~= v + rest);
    assert((v + rest).take(v.len() as int) =~= v);
}

/// An attribute: a name and uninterpreted bytes.
#[derive(Debug, Clone, Copy, PartialEq, Eq, PartialOrd, Ord, Hash)]
pub struct Attribute<'a> {
    /// Index of the name (`Utf8`) denoting this attribute in constant pool.
    pub name_index: NonZeroU16,
    /// Information about the attribute.
    /// The length of the byte slice should be no longer than `u32::MAX`.
    pub info: &'a [u8],
}

/// The value of an [`Attribute`].
pub struct SpecAttribute {
    pub name_index: NonZeroU16,
    pub info: Seq<u8>,
}

impl<'a> View for Attribute<'a> {
    type V = SpecAttribute;

    open spec fn view(&self) -> SpecAttribute {
        SpecAttribute { name_index: self.name_index, info: self.info@ }
    }
}

impl<'de> Decode<'de> for Attribute<'de> {
    /// The name index, then a `u32` length and that many bytes of information.
    open spec fn spec_decode(s: Seq<u8>) -> Result<(SpecAttribute, int), Error> {
        match NonZeroU16::spec_decode(s) {
            Err(e) => Err(e),
            Ok((name_index, n1)) => match spec_decode_bytes32(s.skip(n1)) {
                Err(e) => Err(e),
                Ok((info, n2)) => Ok((SpecAttribute { name_index, info }, n1 + n2)),
            },
        }
    }

    open spec fn decode_requires(s: Seq<u8>) -> bool {
        true
    }

    fn decode<B: Buf<'de>>(buf: &mut B) -> (r: Result<Attribute<'de>, Error>) {
        let name_index = NonZeroU16::decode(buf)?;
        let info = read_bytes32(buf)?;
        Ok(Attribute { name_index, info })
    }
}

impl<'a> Encode for Attribute<'a> {
    open spec fn spec_encode(v: SpecAttribute) -> Seq<u8> {
        NonZeroU16::spec_encode(v.name_index) + u32::spec_encode(v.info.len() as u32) + v.info
    }

    open spec fn encodable(v: SpecAttribute) -> bool {
        true
    }

    open spec fn encode_requires(v: SpecAttribute) -> bool {
        v.info.len() <= u32::MAX
    }

    fn encode<B: BufMut>(&self, buf: &mut B) -> (r: Result<(), Error>) {
        let ghost b0 = *buf;
        let ghost total = Self::spec_encode(self@);
        proof {
            lemma_progress_start(b0);
        }
        let len = self.info.len() as u32;
        put(buf, &self.name_index, Ghost(b0), Ghost(Seq::empty()), Ghost(total))?;
        let ghost a1 = Seq::empty() + NonZeroU16::spec_encode(self.name_index);
        put(buf, &len, Ghost(b0), Ghost(a1), Ghost(total))?;
        let ghost a2 = a1 + u32::spec_encode(len);
        assert((a2 + self.info@).is_prefix_of(total)) by {
            assert(total =~= (a2 + self.info@).subrange(0, total.len() as int));
        }
        put_slice(buf, self.info, Ghost(b0), Ghost(a2), Ghost(total))?;
        assert(a2 + self.info@ =~= total);
        Ok(())
    }
}

impl<'de> Codec<'de> for Attribute<'de> {
    open spec fn wf(v: SpecAttribute) -> bool {
        NonZeroU16::wf(v.name_index) && v.info.len() <= u32::MAX
    }

    #[verifier::spinoff_prover]
    proof fn lemma_codec(v: SpecAttribute, rest: Seq<u8>) {
        let e0 = NonZeroU16::spec_encode(v.name_index);
        let e1 = u32::spec_encode(v.info.len() as u32) + v.info + rest;
        let s = Self::spec_encode(v) + rest;
        assert(s =~= e0 + e1);
        NonZeroU16::lemma_codec(v.name_index, e1);
        assert(e0.len() == 2);
        assert(s.skip(2) =~= e1);
        lemma_bytes32(v.info, rest);
        assert(spec_decode_bytes32(s.skip(2)) == Ok::<(Seq<u8>, int), Error>(
            (v.info, 4 + v.info.len() as int),
        ));
        assert(Self::spec_encode(v).len() == 2 + 4 + v.info.len());
    }
}

} // verus!
