//! The `StackMapTable` attribute.
use arrayvec::ArrayVec;
use vstd::prelude::*;

use super::array::{ArrayReader, ArrayWriter};
use crate::list::{
    all_encodable, all_wf, decode_list16, decode_seq_requires, lemma_codec_list16,
    lemma_codec_seq, lemma_seq_requires, put_all, put_list16, spec_decode_list16,
    spec_decode_seq, spec_encode_list16, spec_encode_seq, views,
};
#[allow(unused_imports)]
use crate::util::{lemma_progress_start, put, Buf, BufMut, Codec, Decode, Encode};
use crate::{Error, NonZeroU16};

verus! {

/// The type of either one or two locations, where a location is either a single local variable
/// or a single operand stack entry.
#[derive(Debug, Clone, Copy, PartialEq, Eq, PartialOrd, Ord, Hash)]
pub enum VerificationType {
    /// The local variable has the verification type `top`.
    Top,
    /// The local variable has the verification type `integer`.
    Integer,
    /// The local variable has the verification type `float`.
    Float,
    /// The local variable has the verification type `double`.
    Double,
    /// The local variable has the verification type `long`.
    Long,
    /// The local variable has the verification type `null`.
    Null,
    /// The local variable has the verification type `uninitializedThis`.
    UninitializedThis,
    /// The local variable has the verification type which is the class
    /// represented by the index of the class in constant pool.
    Object(NonZeroU16),
    /// The local variable has the verification type `uninitialized(Offset)`.
    /// 
    /// The `Offset` item indicates the offset, in the `code` array of the `Code` attribute
    /// that contains this `StackMapTable` attribute, of the new instruction that created
    /// the object being stored in the location.
    Uninitialized(u16),
}

impl View for VerificationType {
    type V = VerificationType;

    open spec fn view(&self) -> VerificationType {
        *self
    }
}

impl<'de> Decode<'de> for VerificationType {
    /// A tag byte, then the fields of the variant that it stands for.
    open spec fn spec_decode(s: Seq<u8>) -> Result<(VerificationType, int), Error> {
        match u8::spec_decode(s) {
            Err(e) => Err(e),
            Ok((tag, n)) => {
                let r = s.skip(n);
                if tag == 0 {
                    Ok((VerificationType::Top, n))
                } else if tag == 1 {
                    Ok((VerificationType::Integer, n))
                } else if tag == 2 {
                    Ok((VerificationType::Float, n))
                } else if tag == 3 {
                    Ok((VerificationType::Double, n))
                } else if tag == 4 {
                    Ok((VerificationType::Long, n))
                } else if tag == 5 {
                    Ok((VerificationType::Null, n))
                } else if tag == 6 {
                    Ok((VerificationType::UninitializedThis, n))
                } else if tag == 7 {
                    match NonZeroU16::spec_decode(r) {
                        Err(e) => Err(e),
                        Ok((v0, n0)) =>
                        Ok((VerificationType::Object(v0), n + n0))
                    }
                } else if tag == 8 {
                    match u16::spec_decode(r) {
                        Err(e) => Err(e),
                        Ok((v0, n0)) =>
                        Ok((VerificationType::Uninitialized(v0), n + n0))
                    }
                } else {
                    Err(Error::UnknownVerificationType(tag))
                }
            },
        }
    }

    open spec fn decode_requires(s: Seq<u8>) -> bool {
        match u8::spec_decode(s) {
            Err(_) => true,
            Ok((tag, n)) => {
                let r = s.skip(n);
                if tag == 0 {
                    true
                } else if tag == 1 {
                    true
                } else if tag == 2 {
                    true
                } else if tag == 3 {
                    true
                } else if tag == 4 {
                    true
                } else if tag == 5 {
                    true
                } else if tag == 6 {
                    true
                } else if tag == 7 {
                    NonZeroU16::decode_requires(r)
                } else if tag == 8 {
                    u16::decode_requires(r)
                } else {
                    true
                }
            },
        }
    }

    fn decode<B: Buf<'de>>(buf: &mut B) -> (r: Result<VerificationType, Error>) {
        let tag = u8::decode(buf)?;
        match tag {
            0 => {
                Ok(VerificationType::Top)
            },
            1 => {
                Ok(VerificationType::Integer)
            },
            2 => {
                Ok(VerificationType::Float)
            },
            3 => {
                Ok(VerificationType::Double)
            },
            4 => {
                Ok(VerificationType::Long)
            },
            5 => {
                Ok(VerificationType::Null)
            },
            6 => {
                Ok(VerificationType::UninitializedThis)
            },
            7 => {
                let f0 = NonZeroU16::decode(buf)?;
                Ok(VerificationType::Object(f0))
            },
            8 => {
                let f0 = u16::decode(buf)?;
                Ok(VerificationType::Uninitialized(f0))
            },
            _ => Err(Error::UnknownVerificationType(tag)),
        }
    }
}

impl Encode for VerificationType {
    open spec fn spec_encode(v: VerificationType) -> Seq<u8> {
        match v {
            VerificationType::Top => u8::spec_encode(0u8),
            VerificationType::Integer => u8::spec_encode(1u8),
            VerificationType::Float => u8::spec_encode(2u8),
            VerificationType::Double => u8::spec_encode(3u8),
            VerificationType::Long => u8::spec_encode(4u8),
            VerificationType::Null => u8::spec_encode(5u8),
            VerificationType::UninitializedThis => u8::spec_encode(6u8),
            VerificationType::Object(f0) => u8::spec_encode(7u8) + NonZeroU16::spec_encode(f0),
            VerificationType::Uninitialized(f0) => u8::spec_encode(8u8) + u16::spec_encode(f0),
        }
    }

    open spec fn encodable(v: VerificationType) -> bool {
        true
    }

    open spec fn encode_requires(v: VerificationType) -> bool {
        match v {
            VerificationType::Top => true,
            VerificationType::Integer => true,
            VerificationType::Float => true,
            VerificationType::Double => true,
            VerificationType::Long => true,
            VerificationType::Null => true,
            VerificationType::UninitializedThis => true,
            VerificationType::Object(f0) => NonZeroU16::encode_requires(f0),
            VerificationType::Uninitialized(f0) => u16::encode_requires(f0),
        }
    }

    fn encode<B: BufMut>(&self, buf: &mut B) -> (r: Result<(), Error>) {
        let ghost b0 = *buf;
        let ghost total = Self::spec_encode(self@);
        proof {
            lemma_progress_start(b0);
        }
        match self {
            VerificationType::Top => {
                let tag: u8 = 0;
                put(buf, &tag, Ghost(b0), Ghost(Seq::empty()), Ghost(total))?;
                assert(Seq::empty() + u8::spec_encode(tag) =~= total);
                Ok(())
            },
            VerificationType::Integer => {
                let tag: u8 = 1;
                put(buf, &tag, Ghost(b0), Ghost(Seq::empty()), Ghost(total))?;
                assert(Seq::empty() + u8::spec_encode(tag) =~= total);
                Ok(())
            },
            VerificationType::Float => {
                let tag: u8 = 2;
                put(buf, &tag, Ghost(b0), Ghost(Seq::empty()), Ghost(total))?;
                assert(Seq::empty() + u8::spec_encode(tag) =~= total);
                Ok(())
            },
            VerificationType::Double => {
                let tag: u8 = 3;
                put(buf, &tag, Ghost(b0), Ghost(Seq::empty()), Ghost(total))?;
                assert(Seq::empty() + u8::spec_encode(tag) =~= total);
                Ok(())
            },
            VerificationType::Long => {
                let tag: u8 = 4;
                put(buf, &tag, Ghost(b0), Ghost(Seq::empty()), Ghost(total))?;
                assert(Seq::empty() + u8::spec_encode(tag) =~= total);
                Ok(())
            },
            VerificationType::Null => {
                let tag: u8 = 5;
                put(buf, &tag, Ghost(b0), Ghost(Seq::empty()), Ghost(total))?;
                assert(Seq::empty() + u8::spec_encode(tag) =~= total);
                Ok(())
            },
            VerificationType::UninitializedThis => {
                let tag: u8 = 6;
                put(buf, &tag, Ghost(b0), Ghost(Seq::empty()), Ghost(total))?;
                assert(Seq::empty() + u8::spec_encode(tag) =~= total);
                Ok(())
            },
            VerificationType::Object(f0) => {
                let tag: u8 = 7;
                put(buf, &tag, Ghost(b0), Ghost(Seq::empty()), Ghost(total))?;
                put(buf, f0, Ghost(b0), Ghost(Seq::empty() + u8::spec_encode(tag)), Ghost(total))?;
                assert(Seq::empty() + u8::spec_encode(tag) + NonZeroU16::spec_encode(f0@) =~= total);
                Ok(())
            },
            VerificationType::Uninitialized(f0) => {
                let tag: u8 = 8;
                put(buf, &tag, Ghost(b0), Ghost(Seq::empty()), Ghost(total))?;
                put(buf, f0, Ghost(b0), Ghost(Seq::empty() + u8::spec_encode(tag)), Ghost(total))?;
                assert(Seq::empty() + u8::spec_encode(tag) + u16::spec_encode(f0@) =~= total);
                Ok(())
            },
        }
    }
}

impl<'de> Codec<'de> for VerificationType {
    open spec fn wf(v: VerificationType) -> bool {
        match v {
            VerificationType::Top => true,
            VerificationType::Integer => true,
            VerificationType::Float => true,
            VerificationType::Double => true,
            VerificationType::Long => true,
            VerificationType::Null => true,
            VerificationType::UninitializedThis => true,
            VerificationType::Object(f0) => NonZeroU16::wf(f0),
            VerificationType::Uninitialized(f0) => u16::wf(f0),
        }
    }

    proof fn lemma_codec(v: VerificationType, rest: Seq<u8>) {
        match v {
            VerificationType::Top => lemma_verification_type_codec_0(rest),
            VerificationType::Integer => lemma_verification_type_codec_1(rest),
            VerificationType::Float => lemma_verification_type_codec_2(rest),
            VerificationType::Double => lemma_verification_type_codec_3(rest),
            VerificationType::Long => lemma_verification_type_codec_4(rest),
            VerificationType::Null => lemma_verification_type_codec_5(rest),
            VerificationType::UninitializedThis => lemma_verification_type_codec_6(rest),
            VerificationType::Object(f0) => lemma_verification_type_codec_7(f0, rest),
            VerificationType::Uninitialized(f0) => lemma_verification_type_codec_8(f0, rest),
        }
    }
}

proof fn lemma_verification_type_codec_0<'de>(rest: Seq<u8>)
    requires
        true,
    ensures
        <VerificationType as Decode<'de>>::spec_decode(<VerificationType as Encode>::spec_encode(VerificationType::Top) + rest) == Ok::<(VerificationType, int), Error>((VerificationType::Top, <VerificationType as Encode>::spec_encode(VerificationType::Top).len() as int)),
{
    let t = u8::spec_encode(0u8);
    assert(t + rest =~= t + rest);
    u8::lemma_codec(0u8, rest);
    assert((t + rest).skip(t.len() as int) =~= rest);
}

proof fn lemma_verification_type_codec_1<'de>(rest: Seq<u8>)
    requires
        true,
    ensures
        <VerificationType as Decode<'de>>::spec_decode(<VerificationType as Encode>::spec_encode(VerificationType::Integer) + rest) == Ok::<(VerificationType, int), Error>((VerificationType::Integer, <VerificationType as Encode>::spec_encode(VerificationType::Integer).len() as int)),
{
    let t = u8::spec_encode(1u8);
    assert(t + rest =~= t + rest);
    u8::lemma_codec(1u8, rest);
    assert((t + rest).skip(t.len() as int) =~= rest);
}

proof fn lemma_verification_type_codec_2<'de>(rest: Seq<u8>)
    requires
        true,
    ensures
        <VerificationType as Decode<'de>>::spec_decode(<VerificationType as Encode>::spec_encode(VerificationType::Float) + rest) == Ok::<(VerificationType, int), Error>((VerificationType::Float, <VerificationType as Encode>::spec_encode(VerificationType::Float).len() as int)),
{
    let t = u8::spec_encode(2u8);
    assert(t + rest =~= t + rest);
    u8::lemma_codec(2u8, rest);
    assert((t + rest).skip(t.len() as int) =~= rest);
}

proof fn lemma_verification_type_codec_3<'de>(rest: Seq<u8>)
    requires
        true,
    ensures
        <VerificationType as Decode<'de>>::spec_decode(<VerificationType as Encode>::spec_encode(VerificationType::Double) + rest) == Ok::<(VerificationType, int), Error>((VerificationType::Double, <VerificationType as Encode>::spec_encode(VerificationType::Double).len() as int)),
{
    let t = u8::spec_encode(3u8);
    assert(t + rest =~= t + rest);
    u8::lemma_codec(3u8, rest);
    assert((t + rest).skip(t.len() as int) =~= rest);
}

proof fn lemma_verification_type_codec_4<'de>(rest: Seq<u8>)
    requires
        true,
    ensures
        <VerificationType as Decode<'de>>::spec_decode(<VerificationType as Encode>::spec_encode(VerificationType::Long) + rest) == Ok::<(VerificationType, int), Error>((VerificationType::Long, <VerificationType as Encode>::spec_encode(VerificationType::Long).len() as int)),
{
    let t = u8::spec_encode(4u8);
    assert(t + rest =~= t + rest);
    u8::lemma_codec(4u8, rest);
    assert((t + rest).skip(t.len() as int) =~= rest);
}

proof fn lemma_verification_type_codec_5<'de>(rest: Seq<u8>)
    requires
        true,
    ensures
        <VerificationType as Decode<'de>>::spec_decode(<VerificationType as Encode>::spec_encode(VerificationType::Null) + rest) == Ok::<(VerificationType, int), Error>((VerificationType::Null, <VerificationType as Encode>::spec_encode(VerificationType::Null).len() as int)),
{
    let t = u8::spec_encode(5u8);
    assert(t + rest =~= t + rest);
    u8::lemma_codec(5u8, rest);
    assert((t + rest).skip(t.len() as int) =~= rest);
}

proof fn lemma_verification_type_codec_6<'de>(rest: Seq<u8>)
    requires
        true,
    ensures
        <VerificationType as Decode<'de>>::spec_decode(<VerificationType as Encode>::spec_encode(VerificationType::UninitializedThis) + rest) == Ok::<(VerificationType, int), Error>((VerificationType::UninitializedThis, <VerificationType as Encode>::spec_encode(VerificationType::UninitializedThis).len() as int)),
{
    let t = u8::spec_encode(6u8);
    assert(t + rest =~= t + rest);
    u8::lemma_codec(6u8, rest);
    assert((t + rest).skip(t.len() as int) =~= rest);
}

proof fn lemma_verification_type_codec_7<'de>(f0: NonZeroU16, rest: Seq<u8>)
    requires
        NonZeroU16::wf(f0),
    ensures
        <VerificationType as Decode<'de>>::spec_decode(<VerificationType as Encode>::spec_encode(VerificationType::Object(f0)) + rest) == Ok::<(VerificationType, int), Error>((VerificationType::Object(f0), <VerificationType as Encode>::spec_encode(VerificationType::Object(f0)).len() as int)),
{
    let t = u8::spec_encode(7u8);
    let e0 = NonZeroU16::spec_encode(f0);
    assert(t + e0 + rest =~= t + (e0 + rest));
    u8::lemma_codec(7u8, (e0 + rest));
    assert((t + (e0 + rest)).skip(t.len() as int) =~= (e0 + rest));
    NonZeroU16::lemma_codec(f0, rest);
}

proof fn lemma_verification_type_codec_8<'de>(f0: u16, rest: Seq<u8>)
    requires
        u16::wf(f0),
    ensures
        <VerificationType as Decode<'de>>::spec_decode(<VerificationType as Encode>::spec_encode(VerificationType::Uninitialized(f0)) + rest) == Ok::<(VerificationType, int), Error>((VerificationType::Uninitialized(f0), <VerificationType as Encode>::spec_encode(VerificationType::Uninitialized(f0)).len() as int)),
{
    let t = u8::spec_encode(8u8);
    let e0 = u16::spec_encode(f0);
    assert(t + e0 + rest =~= t + (e0 + rest));
    u8::lemma_codec(8u8, (e0 + rest));
    assert((t + (e0 + rest)).skip(t.len() as int) =~= (e0 + rest));
    u16::lemma_codec(f0, rest);
}

/// Name of `StackMapTable` attribute. See [`StackMapTableReader`] and [`StackMapTableWriter`] for usage.
pub const NAME_STACK_MAP_TABLE: &'static str = "StackMapTable";

/// Reader of `StackMapTable` attribute.
pub type StackMapTableReader<'a, B> = ArrayReader<'a, B, StackMapFrame>;

/// Writer of `StackMapTable` attribute.
pub type StackMapTableWriter<B> = ArrayWriter<B, StackMapFrame>;

#[verifier::external_type_specification]
#[verifier::external_body]
#[verifier::reject_recursive_types(T)]
pub struct ExArrayVec<T, const CAP: usize>(ArrayVec<T, CAP>);

/// The verification types held by the locals of an append frame, in order.
pub uninterp spec fn frame_locals(v: ArrayVec<VerificationType, 3>) -> Seq<VerificationType>;

/// Calls `ArrayVec::new`, which makes an empty vector.
#[verifier::external_body]
fn locals_new() -> (r: ArrayVec<VerificationType, 3>)
    ensures
        frame_locals(r) == Seq::<VerificationType>::empty(),
{
    ArrayVec::new()
}

/// Calls `ArrayVec::push`, which appends an element to a vector that is not
/// full (and panics on a full one).
#[verifier::external_body]
fn locals_push(v: &mut ArrayVec<VerificationType, 3>, x: VerificationType)
    requires
        frame_locals(*old(v)).len() < 3,
    ensures
        frame_locals(*final(v)) == frame_locals(*old(v)).push(x),
{
    v.push(x)
}

/// Calls `ArrayVec::as_slice`, which gives the elements in order; a vector
/// of capacity three holds at most three of them.
#[verifier::external_body]
fn locals_as_slice(v: &ArrayVec<VerificationType, 3>) -> (r: &[VerificationType])
    ensures
        r@ == frame_locals(*v),
        r@.len() <= 3,
{
    v.as_slice()
}

/// A stack map frame of a method.
///
/// Tuple variants are used for `offset_delta` and `stack`.
#[derive(Debug, PartialEq, Eq, PartialOrd, Ord, Hash)]
pub enum StackMapFrame {
    /// The frame has exactly the same local variables as the previous frame
    /// and that the operand stack is empty.
    SameFrame(u16),
    /// The frame has exactly the same local variables as the previous frame
    /// and that the operand stack has one entry.
    SameLocals1StackItemFrame(u16, VerificationType),
    /// The frame has exactly the same local variables as the previous frame
    /// and that the operand stack has one entry.
    SameLocals1StackItemFrameExtended(u16, VerificationType),
    /// The frame has the same local variables as the previous frame except that
    /// the last k local variables are absent, and that the operand stack is empty.
    ChopFrame {
        /// The offset delta.
        offset_delta: u16,
        /// `k` value, indicating that last `k` local variables are absent.
        absent: NonZeroU16,
    },
    /// The frame has exactly the same local variables as the previous frame
    /// and that the operand stack is empty.
    SameFrameExtended(u16),
    /// The frame has the same locals as the previous frame except that k additional locals are defined,
    /// and that the operand stack is empty.
    AppendFrame {
        /// The offset delta.
        offset_delta: u16,
        /// The additional locals.
        locals: ArrayVec<VerificationType, 3>,
    },
    /// A full frame.
    FullFrame {
        /// The offset delta.
        offset_delta: u16,
        /// The locals.
        locals: Vec<VerificationType>,
        /// The stack.
        stack: Vec<VerificationType>,
    },
}

/// A copy of the verification types held by `v`.
fn copy_locals(v: &ArrayVec<VerificationType, 3>) -> (r: ArrayVec<VerificationType, 3>)
    ensures
        frame_locals(r) == frame_locals(*v),
{
    let sl = locals_as_slice(v);
    let mut out = locals_new();
    let mut i: usize = 0;
    while i < sl.len()
        invariant
            i <= sl@.len() <= 3,
            frame_locals(out) == sl@.take(i as int),
        decreases sl@.len() - i,
    {
        assert(sl@.take(i + 1) =~= sl@.take(i as int).push(sl@[i as int]));
        locals_push(&mut out, sl[i]);
        i = i + 1;
    }
    assert(sl@.take(sl@.len() as int) =~= sl@);
    out
}

/// A copy of a list of verification types.
fn copy_types(v: &Vec<VerificationType>) -> (r: Vec<VerificationType>)
    ensures
        r@ == v@,
{
    let mut out: Vec<VerificationType> = Vec::with_capacity(v.len());
    let mut i: usize = 0;
    while i < v.len()
        invariant
            i <= v@.len(),
            out@ == v@.take(i as int),
        decreases v@.len() - i,
    {
        assert(v@.take(i + 1) =~= v@.take(i as int).push(v@[i as int]));
        out.push(v[i]);
        i = i + 1;
    }
    assert(v@.take(v@.len() as int) =~= v@);
    out
}

impl Clone for StackMapFrame {
    fn clone(&self) -> (r: StackMapFrame)
        ensures
            r@ == self@,
    {
        match self {
            StackMapFrame::SameFrame(d) => StackMapFrame::SameFrame(*d),
            StackMapFrame::SameLocals1StackItemFrame(d, t) => StackMapFrame::SameLocals1StackItemFrame(*d, *t),
            StackMapFrame::SameLocals1StackItemFrameExtended(d, t) => StackMapFrame::SameLocals1StackItemFrameExtended(*d, *t),
            StackMapFrame::ChopFrame { offset_delta, absent } => StackMapFrame::ChopFrame {
                offset_delta: *offset_delta,
                absent: *absent,
            },
            StackMapFrame::SameFrameExtended(d) => StackMapFrame::SameFrameExtended(*d),
            StackMapFrame::AppendFrame { offset_delta, locals } => StackMapFrame::AppendFrame {
                offset_delta: *offset_delta,
                locals: copy_locals(locals),
            },
            StackMapFrame::FullFrame { offset_delta, locals, stack } => StackMapFrame::FullFrame {
                offset_delta: *offset_delta,
                locals: copy_types(locals),
                stack: copy_types(stack),
            },
        }
    }
}

/// The value of a [`StackMapFrame`], with its lists of verification types as sequences.
pub enum SpecStackMapFrame {
    SameFrame(u16),
    SameLocals1StackItemFrame(u16, VerificationType),
    SameLocals1StackItemFrameExtended(u16, VerificationType),
    ChopFrame { offset_delta: u16, absent: NonZeroU16 },
    SameFrameExtended(u16),
    AppendFrame { offset_delta: u16, locals: Seq<VerificationType> },
    FullFrame { offset_delta: u16, locals: Seq<VerificationType>, stack: Seq<VerificationType> },
}

impl View for StackMapFrame {
    type V = SpecStackMapFrame;

    open spec fn view(&self) -> SpecStackMapFrame {
        match *self {
            StackMapFrame::SameFrame(d) => SpecStackMapFrame::SameFrame(d),
            StackMapFrame::SameLocals1StackItemFrame(d, t) => SpecStackMapFrame::SameLocals1StackItemFrame(d, t),
            StackMapFrame::SameLocals1StackItemFrameExtended(d, t) => SpecStackMapFrame::SameLocals1StackItemFrameExtended(d, t),
            StackMapFrame::ChopFrame { offset_delta, absent } => SpecStackMapFrame::ChopFrame { offset_delta, absent },
            StackMapFrame::SameFrameExtended(d) => SpecStackMapFrame::SameFrameExtended(d),
            StackMapFrame::AppendFrame { offset_delta, locals } => SpecStackMapFrame::AppendFrame {
                offset_delta,
                locals: frame_locals(locals),
            },
            StackMapFrame::FullFrame { offset_delta, locals, stack } => SpecStackMapFrame::FullFrame {
                offset_delta,
                locals: views(locals@),
                stack: views(stack@),
            },
        }
    }
}

/// Fails with `Error::OffsetOutOfBounds` when `val` is above `max`.
fn validate_val(val: u16, max: u16) -> (r: Result<(), Error>)
    ensures
        r == (if val <= max { Ok::<(), Error>(()) } else { Err(Error::OffsetOutOfBounds) }),
{
    if val <= max {
        Ok(())
    } else {
        Err(Error::OffsetOutOfBounds)
    }
}

/// Reads `k` verification types into an array vector.
fn decode_locals<'de, B: Buf<'de>>(buf: &mut B, k: usize) -> (r: Result<ArrayVec<VerificationType, 3>, Error>)
    requires
        k <= 3,
    ensures
        final(buf)@.len() <= old(buf)@.len(),
        final(buf)@ =~= old(buf)@.skip(old(buf)@.len() - final(buf)@.len()),
        match r {
            Ok(v) => spec_decode_seq::<VerificationType>(old(buf)@, k as nat) == Ok::<
                (Seq<VerificationType>, int),
                Error,
            >((frame_locals(v), old(buf)@.len() - final(buf)@.len())),
            Err(e) => spec_decode_seq::<VerificationType>(old(buf)@, k as nat) == Err::<
                (Seq<VerificationType>, int),
                Error,
            >(e),
        },
{
    let ghost s0 = old(buf)@;
    let mut out = locals_new();
    let mut i: usize = 0;
    while i < k
        invariant
            i <= k <= 3,
            s0 == old(buf)@,
            buf@.len() <= s0.len(),
            buf@ =~= s0.skip(s0.len() - buf@.len()),
            frame_locals(out).len() == i,
            match spec_decode_seq::<VerificationType>(buf@, (k - i) as nat) {
                Ok((vs, m)) => spec_decode_seq::<VerificationType>(s0, k as nat) == Ok::<
                    (Seq<VerificationType>, int),
                    Error,
                >((frame_locals(out) + vs, s0.len() - buf@.len() + m)),
                Err(e) => spec_decode_seq::<VerificationType>(s0, k as nat) == Err::<
                    (Seq<VerificationType>, int),
                    Error,
                >(e),
            },
        decreases k - i,
    {
        let ghost s1 = buf@;
        let ghost o1 = frame_locals(out);
        let ghost m: nat = (k - i) as nat;
        let x = match VerificationType::decode(buf) {
            Ok(x) => x,
            Err(e) => {
                assert(spec_decode_seq::<VerificationType>(s1, m) == Err::<
                    (Seq<VerificationType>, int),
                    Error,
                >(e));
                return Err(e);
            },
        };
        proof {
            let k1 = s1.len() - buf@.len();
            assert(s1.skip(k1) == buf@);
            match spec_decode_seq::<VerificationType>(buf@, (m - 1) as nat) {
                Ok((vs, j)) => {
                    assert(spec_decode_seq::<VerificationType>(s1, m) == Ok::<
                        (Seq<VerificationType>, int),
                        Error,
                    >((seq![x] + vs, k1 + j)));
                    assert(o1 + (seq![x] + vs) =~= o1.push(x) + vs);
                },
                Err(e) => {
                    assert(spec_decode_seq::<VerificationType>(s1, m) == Err::<
                        (Seq<VerificationType>, int),
                        Error,
                    >(e));
                },
            }
        }
        locals_push(&mut out, x);
        i = i + 1;
    }
    proof {
        assert(spec_decode_seq::<VerificationType>(buf@, 0) == Ok::<
            (Seq<VerificationType>, int),
            Error,
        >((Seq::empty(), 0)));
        assert(frame_locals(out) + Seq::<VerificationType>::empty() =~= frame_locals(out));
    }
    Ok(out)
}

/// Decoding verification types needs nothing of the bytes.
proof fn lemma_types_requires(s: Seq<u8>, n: nat)
    ensures
        decode_seq_requires::<VerificationType>(s, n),
{
    assert forall|t: Seq<u8>| VerificationType::decode_requires(t) by {
        lemma_type_requires(t);
    }
    lemma_seq_requires::<VerificationType>(s, n);
}

proof fn lemma_type_requires(t: Seq<u8>)
    ensures
        VerificationType::decode_requires(t),
{
}

/// The verification types are their own values.
proof fn lemma_views_types(v: Seq<VerificationType>)
    ensures
        views(v) == v,
{
    assert(views(v) =~= v);
}

impl<'de> Decode<'de> for StackMapFrame {
    /// A frame type byte, which for some frames holds the offset delta or the
    /// number of locals, then the fields of the frame.
    open spec fn spec_decode(s: Seq<u8>) -> Result<(SpecStackMapFrame, int), Error> {
        match u8::spec_decode(s) {
            Err(e) => Err(e),
            Ok((tag, n)) => {
                let r = s.skip(n);
                if tag <= 63 {
                    Ok((SpecStackMapFrame::SameFrame(tag as u16), n))
                } else if tag <= 127 {
                    match VerificationType::spec_decode(r) {
                        Err(e) => Err(e),
                        Ok((t, m)) => Ok((
                            SpecStackMapFrame::SameLocals1StackItemFrame((tag - 64) as u16, t),
                            n + m,
                        )),
                    }
                } else if tag == 247 {
                    match u16::spec_decode(r) {
                        Err(e) => Err(e),
                        Ok((d, m1)) => match VerificationType::spec_decode(r.skip(m1)) {
                            Err(e) => Err(e),
                            Ok((t, m2)) => Ok((
                                SpecStackMapFrame::SameLocals1StackItemFrameExtended(d, t),
                                n + m1 + m2,
                            )),
                        },
                    }
                } else if 248 <= tag <= 250 {
                    match u16::spec_decode(r) {
                        Err(e) => Err(e),
                        Ok((d, m)) => Ok((
                            SpecStackMapFrame::ChopFrame {
                                offset_delta: d,
                                absent: NonZeroU16::from_raw((251 - tag) as u16),
                            },
                            n + m,
                        )),
                    }
                } else if tag == 251 {
                    match u16::spec_decode(r) {
                        Err(e) => Err(e),
                        Ok((d, m)) => Ok((SpecStackMapFrame::SameFrameExtended(d), n + m)),
                    }
                } else if 252 <= tag <= 254 {
                    match u16::spec_decode(r) {
                        Err(e) => Err(e),
                        Ok((d, m1)) => match spec_decode_seq::<VerificationType>(
                            r.skip(m1),
                            (tag - 251) as nat,
                        ) {
                            Err(e) => Err(e),
                            Ok((ls, m2)) => Ok((
                                SpecStackMapFrame::AppendFrame { offset_delta: d, locals: ls },
                                n + m1 + m2,
                            )),
                        },
                    }
                } else if tag == 255 {
                    match u16::spec_decode(r) {
                        Err(e) => Err(e),
                        Ok((d, m1)) => match spec_decode_list16::<VerificationType>(r.skip(m1)) {
                            Err(e) => Err(e),
                            Ok((ls, m2)) => match spec_decode_list16::<VerificationType>(
                                r.skip(m1).skip(m2),
                            ) {
                                Err(e) => Err(e),
                                Ok((st, m3)) => Ok((
                                    SpecStackMapFrame::FullFrame {
                                        offset_delta: d,
                                        locals: ls,
                                        stack: st,
                                    },
                                    n + m1 + m2 + m3,
                                )),
                            },
                        },
                    }
                } else {
                    Err(Error::UnknownFrameType(tag))
                }
            },
        }
    }

    open spec fn decode_requires(s: Seq<u8>) -> bool {
        true
    }

    #[verifier::rlimit(60)]
    #[verifier::spinoff_prover]
    fn decode<B: Buf<'de>>(buf: &mut B) -> (r: Result<StackMapFrame, Error>) {
        let tag = u8::decode(buf)?;
        if tag <= 63 {
            Ok(StackMapFrame::SameFrame(tag as u16))
        } else if tag <= 127 {
            let t = VerificationType::decode(buf)?;
            Ok(StackMapFrame::SameLocals1StackItemFrame(tag as u16 - 64, t))
        } else if tag == 247 {
            let d = u16::decode(buf)?;
            let t = VerificationType::decode(buf)?;
            Ok(StackMapFrame::SameLocals1StackItemFrameExtended(d, t))
        } else if 248 <= tag && tag <= 250 {
            let d = u16::decode(buf)?;
            let absent = NonZeroU16::new(251 - tag as u16).unwrap();
            Ok(StackMapFrame::ChopFrame { offset_delta: d, absent })
        } else if tag == 251 {
            let d = u16::decode(buf)?;
            Ok(StackMapFrame::SameFrameExtended(d))
        } else if 252 <= tag && tag <= 254 {
            let d = u16::decode(buf)?;
            let locals = decode_locals(buf, (tag - 251) as usize)?;
            Ok(StackMapFrame::AppendFrame { offset_delta: d, locals })
        } else if tag == 255 {
            let d = u16::decode(buf)?;
            proof {
                match u16::spec_decode(buf@) {
                    Ok((n, k)) => lemma_types_requires(buf@.skip(k), n as nat),
                    Err(_) => {},
                }
            }
            let locals = decode_list16::<VerificationType, B>(buf)?;
            proof {
                match u16::spec_decode(buf@) {
                    Ok((n, k)) => lemma_types_requires(buf@.skip(k), n as nat),
                    Err(_) => {},
                }
            }
            let stack = decode_list16::<VerificationType, B>(buf)?;
            Ok(StackMapFrame::FullFrame { offset_delta: d, locals, stack })
        } else {
            Err(Error::UnknownFrameType(tag))
        }
    }
}

impl Encode for StackMapFrame {
    open spec fn spec_encode(v: SpecStackMapFrame) -> Seq<u8> {
        match v {
            SpecStackMapFrame::SameFrame(d) => u8::spec_encode(d as u8),
            SpecStackMapFrame::SameLocals1StackItemFrame(d, t) => u8::spec_encode((d + 64) as u8)
                + VerificationType::spec_encode(t),
            SpecStackMapFrame::SameLocals1StackItemFrameExtended(d, t) => u8::spec_encode(247u8)
                + u16::spec_encode(d) + VerificationType::spec_encode(t),
            SpecStackMapFrame::ChopFrame { offset_delta, absent } => u8::spec_encode(
                (251 - absent.value()) as u8,
            ) + u16::spec_encode(offset_delta),
            SpecStackMapFrame::SameFrameExtended(d) => u8::spec_encode(251u8) + u16::spec_encode(d),
            SpecStackMapFrame::AppendFrame { offset_delta, locals } => u8::spec_encode(
                (251 + locals.len()) as u8,
            ) + u16::spec_encode(offset_delta) + spec_encode_seq::<VerificationType>(locals),
            SpecStackMapFrame::FullFrame { offset_delta, locals, stack } => u8::spec_encode(255u8)
                + u16::spec_encode(offset_delta) + spec_encode_list16::<VerificationType>(locals)
                + spec_encode_list16::<VerificationType>(stack),
        }
    }

    /// The offset delta of a same frame must fit in its frame type, and a chop
    /// frame can take away at most three locals.
    open spec fn encodable(v: SpecStackMapFrame) -> bool {
        match v {
            SpecStackMapFrame::SameFrame(d) => d <= 63,
            SpecStackMapFrame::SameLocals1StackItemFrame(d, _) => d + 64 <= 127,
            SpecStackMapFrame::ChopFrame { absent, .. } => absent.value() <= 3,
            _ => true,
        }
    }

    /// The frame type of a same-locals frame with one stack item is computed in
    /// a `u16`, and must not overflow it; an append frame has at most three locals.
    open spec fn encode_requires(v: SpecStackMapFrame) -> bool {
        match v {
            SpecStackMapFrame::SameLocals1StackItemFrame(d, _) => d + 64 <= u16::MAX,
            SpecStackMapFrame::AppendFrame { locals, .. } => locals.len() <= 3,
            _ => true,
        }
    }

    fn encode<B: BufMut>(&self, buf: &mut B) -> (r: Result<(), Error>) {
        let ghost b0 = *buf;
        let ghost total = Self::spec_encode(self@);
        proof {
            lemma_progress_start(b0);
        }
        match self {
            StackMapFrame::SameFrame(delta) => {
                validate_val(*delta, 63)?;
                let tag = *delta as u8;
                put(buf, &tag, Ghost(b0), Ghost(Seq::empty()), Ghost(total))?;
                assert(Seq::empty() + u8::spec_encode(tag) =~= total);
                Ok(())
            },
            StackMapFrame::SameLocals1StackItemFrame(delta, stack) => {
                let frame_ty = *delta + 64;
                validate_val(frame_ty, 127)?;
                let tag = frame_ty as u8;
                put(buf, &tag, Ghost(b0), Ghost(Seq::empty()), Ghost(total))?;
                let ghost a1 = Seq::empty() + u8::spec_encode(tag);
                put(buf, stack, Ghost(b0), Ghost(a1), Ghost(total))?;
                assert(a1 + VerificationType::spec_encode(*stack) =~= total);
                Ok(())
            },
            StackMapFrame::SameLocals1StackItemFrameExtended(delta, stack) => {
                let tag: u8 = 247;
                put(buf, &tag, Ghost(b0), Ghost(Seq::empty()), Ghost(total))?;
                let ghost a1 = Seq::empty() + u8::spec_encode(tag);
                put(buf, delta, Ghost(b0), Ghost(a1), Ghost(total))?;
                let ghost a2 = a1 + u16::spec_encode(*delta);
                put(buf, stack, Ghost(b0), Ghost(a2), Ghost(total))?;
                assert(a2 + VerificationType::spec_encode(*stack) =~= total);
                Ok(())
            },
            StackMapFrame::ChopFrame { offset_delta, absent } => {
                validate_val(absent.get(), 3)?;
                let tag: u8 = 251 - absent.get() as u8;
                put(buf, &tag, Ghost(b0), Ghost(Seq::empty()), Ghost(total))?;
                let ghost a1 = Seq::empty() + u8::spec_encode(tag);
                put(buf, offset_delta, Ghost(b0), Ghost(a1), Ghost(total))?;
                assert(a1 + u16::spec_encode(*offset_delta) =~= total);
                Ok(())
            },
            StackMapFrame::SameFrameExtended(delta) => {
                let tag: u8 = 251;
                put(buf, &tag, Ghost(b0), Ghost(Seq::empty()), Ghost(total))?;
                let ghost a1 = Seq::empty() + u8::spec_encode(tag);
                put(buf, delta, Ghost(b0), Ghost(a1), Ghost(total))?;
                assert(a1 + u16::spec_encode(*delta) =~= total);
                Ok(())
            },
            StackMapFrame::AppendFrame { offset_delta, locals } => {
                let sl = locals_as_slice(locals);
                let k = sl.len();
                let tag: u8 = 251 + k as u8;
                put(buf, &tag, Ghost(b0), Ghost(Seq::empty()), Ghost(total))?;
                let ghost a1 = Seq::empty() + u8::spec_encode(tag);
                put(buf, offset_delta, Ghost(b0), Ghost(a1), Ghost(total))?;
                let ghost a2 = a1 + u16::spec_encode(*offset_delta);
                proof {
                    lemma_views_types(sl@);
                }
                put_all(buf, sl, Ghost(b0), Ghost(a2), Ghost(total))?;
                assert(a2 + spec_encode_seq::<VerificationType>(sl@) =~= total);
                Ok(())
            },
            StackMapFrame::FullFrame { offset_delta, locals, stack } => {
                let tag: u8 = 255;
                put(buf, &tag, Ghost(b0), Ghost(Seq::empty()), Ghost(total))?;
                let ghost a1 = Seq::empty() + u8::spec_encode(tag);
                put(buf, offset_delta, Ghost(b0), Ghost(a1), Ghost(total))?;
                let ghost a2 = a1 + u16::spec_encode(*offset_delta);
                let ghost el = spec_encode_list16::<VerificationType>(views(locals@));
                proof {
                    assert((a2 + el).is_prefix_of(total)) by {
                        assert(total =~= (a2 + el) + spec_encode_list16::<VerificationType>(
                            views(stack@),
                        ));
                        assert(a2 + el =~= total.subrange(0, (a2 + el).len() as int));
                    }
                }
                put_list16(buf, locals.as_slice(), Ghost(b0), Ghost(a2), Ghost(total))?;
                let ghost a3 = a2 + el;
                put_list16(buf, stack.as_slice(), Ghost(b0), Ghost(a3), Ghost(total))?;
                assert(a3 + spec_encode_list16::<VerificationType>(views(stack@)) =~= total);
                Ok(())
            },
        }
    }
}

impl<'de> Codec<'de> for StackMapFrame {
    /// The frame is one that decoding gives: its delta or count fits its frame
    /// type, and its lists fit their counts.
    open spec fn wf(v: SpecStackMapFrame) -> bool {
        match v {
            SpecStackMapFrame::SameFrame(d) => d <= 63,
            SpecStackMapFrame::SameLocals1StackItemFrame(d, t) => d <= 63 && VerificationType::wf(t),
            SpecStackMapFrame::SameLocals1StackItemFrameExtended(_, t) => VerificationType::wf(t),
            SpecStackMapFrame::ChopFrame { absent, .. } => 1 <= absent.value() <= 3,
            SpecStackMapFrame::SameFrameExtended(_) => true,
            SpecStackMapFrame::AppendFrame { locals, .. } => 1 <= locals.len() <= 3 && all_wf::<
                VerificationType,
            >(locals),
            SpecStackMapFrame::FullFrame { locals, stack, .. } => locals.len() <= u16::MAX
                && stack.len() <= u16::MAX && all_wf::<VerificationType>(locals) && all_wf::<
                VerificationType,
            >(stack),
        }
    }

    proof fn lemma_codec(v: SpecStackMapFrame, rest: Seq<u8>) {
        match v {
            SpecStackMapFrame::SameFrame(d) => lemma_frame_codec_0(d, rest),
            SpecStackMapFrame::SameLocals1StackItemFrame(d, t) => lemma_frame_codec_1(d, t, rest),
            SpecStackMapFrame::SameLocals1StackItemFrameExtended(d, t) => lemma_frame_codec_2(d, t, rest),
            SpecStackMapFrame::ChopFrame { offset_delta, absent } => lemma_frame_codec_3(offset_delta, absent, rest),
            SpecStackMapFrame::SameFrameExtended(d) => lemma_frame_codec_4(d, rest),
            SpecStackMapFrame::AppendFrame { offset_delta, locals } => lemma_frame_codec_5(offset_delta, locals, rest),
            SpecStackMapFrame::FullFrame { offset_delta, locals, stack } => lemma_frame_codec_6(offset_delta, locals, stack, rest),
        }
    }
}

proof fn lemma_frame_codec_0(d: u16, rest: Seq<u8>)
    requires
        StackMapFrame::wf(SpecStackMapFrame::SameFrame(d)),
    ensures
        StackMapFrame::spec_decode(StackMapFrame::spec_encode(SpecStackMapFrame::SameFrame(d)) + rest) == Ok::<
            (SpecStackMapFrame, int),
            Error,
        >((SpecStackMapFrame::SameFrame(d), StackMapFrame::spec_encode(SpecStackMapFrame::SameFrame(d)).len() as int)),
{
    let v = SpecStackMapFrame::SameFrame(d);
    let e = StackMapFrame::spec_encode(v);
    let s = e + rest;
    u8::lemma_codec(d as u8, rest);
}

proof fn lemma_frame_codec_1(d: u16, t: VerificationType, rest: Seq<u8>)
    requires
        StackMapFrame::wf(SpecStackMapFrame::SameLocals1StackItemFrame(d, t)),
    ensures
        StackMapFrame::spec_decode(StackMapFrame::spec_encode(SpecStackMapFrame::SameLocals1StackItemFrame(d, t)) + rest) == Ok::<
            (SpecStackMapFrame, int),
            Error,
        >((SpecStackMapFrame::SameLocals1StackItemFrame(d, t), StackMapFrame::spec_encode(SpecStackMapFrame::SameLocals1StackItemFrame(d, t)).len() as int)),
{
    let v = SpecStackMapFrame::SameLocals1StackItemFrame(d, t);
    let e = StackMapFrame::spec_encode(v);
    let s = e + rest;
    let e1 = VerificationType::spec_encode(t);
    assert(s =~= u8::spec_encode((d + 64) as u8) + (e1 + rest));
    u8::lemma_codec((d + 64) as u8, e1 + rest);
    assert(s.skip(1) =~= e1 + rest);
    VerificationType::lemma_codec(t, rest);
}

proof fn lemma_frame_codec_2(d: u16, t: VerificationType, rest: Seq<u8>)
    requires
        StackMapFrame::wf(SpecStackMapFrame::SameLocals1StackItemFrameExtended(d, t)),
    ensures
        StackMapFrame::spec_decode(StackMapFrame::spec_encode(SpecStackMapFrame::SameLocals1StackItemFrameExtended(d, t)) + rest) == Ok::<
            (SpecStackMapFrame, int),
            Error,
        >((SpecStackMapFrame::SameLocals1StackItemFrameExtended(d, t), StackMapFrame::spec_encode(SpecStackMapFrame::SameLocals1StackItemFrameExtended(d, t)).len() as int)),
{
    let v = SpecStackMapFrame::SameLocals1StackItemFrameExtended(d, t);
    let e = StackMapFrame::spec_encode(v);
    let s = e + rest;
    let e1 = VerificationType::spec_encode(t);
    assert(s =~= u8::spec_encode(247u8) + (u16::spec_encode(d) + (e1 + rest)));
    u8::lemma_codec(247u8, u16::spec_encode(d) + (e1 + rest));
    assert(s.skip(1) =~= u16::spec_encode(d) + (e1 + rest));
    u16::lemma_codec(d, e1 + rest);
    assert(s.skip(1).skip(2) =~= e1 + rest);
    VerificationType::lemma_codec(t, rest);
}

proof fn lemma_frame_codec_3(offset_delta: u16, absent: NonZeroU16, rest: Seq<u8>)
    requires
        StackMapFrame::wf(SpecStackMapFrame::ChopFrame { offset_delta, absent }),
    ensures
        StackMapFrame::spec_decode(StackMapFrame::spec_encode(SpecStackMapFrame::ChopFrame { offset_delta, absent }) + rest) == Ok::<
            (SpecStackMapFrame, int),
            Error,
        >((SpecStackMapFrame::ChopFrame { offset_delta, absent }, StackMapFrame::spec_encode(SpecStackMapFrame::ChopFrame { offset_delta, absent }).len() as int)),
{
    let v = SpecStackMapFrame::ChopFrame { offset_delta, absent };
    let e = StackMapFrame::spec_encode(v);
    let s = e + rest;
    let tag = (251 - absent.value()) as u8;
    assert(s =~= u8::spec_encode(tag) + (u16::spec_encode(offset_delta) + rest));
    u8::lemma_codec(tag, u16::spec_encode(offset_delta) + rest);
    assert(s.skip(1) =~= u16::spec_encode(offset_delta) + rest);
    u16::lemma_codec(offset_delta, rest);
    assert(NonZeroU16::from_raw(absent.value()) == absent) by {
        broadcast use crate::util::group_nonzero;
    }
}

proof fn lemma_frame_codec_4(d: u16, rest: Seq<u8>)
    requires
        StackMapFrame::wf(SpecStackMapFrame::SameFrameExtended(d)),
    ensures
        StackMapFrame::spec_decode(StackMapFrame::spec_encode(SpecStackMapFrame::SameFrameExtended(d)) + rest) == Ok::<
            (SpecStackMapFrame, int),
            Error,
        >((SpecStackMapFrame::SameFrameExtended(d), StackMapFrame::spec_encode(SpecStackMapFrame::SameFrameExtended(d)).len() as int)),
{
    let v = SpecStackMapFrame::SameFrameExtended(d);
    let e = StackMapFrame::spec_encode(v);
    let s = e + rest;
    assert(s =~= u8::spec_encode(251u8) + (u16::spec_encode(d) + rest));
    u8::lemma_codec(251u8, u16::spec_encode(d) + rest);
    assert(s.skip(1) =~= u16::spec_encode(d) + rest);
    u16::lemma_codec(d, rest);
}

proof fn lemma_frame_codec_5(offset_delta: u16, locals: Seq<VerificationType>, rest: Seq<u8>)
    requires
        StackMapFrame::wf(SpecStackMapFrame::AppendFrame { offset_delta, locals }),
    ensures
        StackMapFrame::spec_decode(StackMapFrame::spec_encode(SpecStackMapFrame::AppendFrame { offset_delta, locals }) + rest) == Ok::<
            (SpecStackMapFrame, int),
            Error,
        >((SpecStackMapFrame::AppendFrame { offset_delta, locals }, StackMapFrame::spec_encode(SpecStackMapFrame::AppendFrame { offset_delta, locals }).len() as int)),
{
    let v = SpecStackMapFrame::AppendFrame { offset_delta, locals };
    let e = StackMapFrame::spec_encode(v);
    let s = e + rest;
    let tag = (251 + locals.len()) as u8;
    let el = spec_encode_seq::<VerificationType>(locals);
    assert(s =~= u8::spec_encode(tag) + (u16::spec_encode(offset_delta) + (el + rest)));
    u8::lemma_codec(tag, u16::spec_encode(offset_delta) + (el + rest));
    assert(s.skip(1) =~= u16::spec_encode(offset_delta) + (el + rest));
    u16::lemma_codec(offset_delta, el + rest);
    assert(s.skip(1).skip(2) =~= el + rest);
    assert(all_encodable::<VerificationType>(locals));
    lemma_codec_seq::<VerificationType>(locals, rest);
}

proof fn lemma_frame_codec_6(offset_delta: u16, locals: Seq<VerificationType>, stack: Seq<VerificationType>, rest: Seq<u8>)
    requires
        StackMapFrame::wf(SpecStackMapFrame::FullFrame { offset_delta, locals, stack }),
    ensures
        StackMapFrame::spec_decode(StackMapFrame::spec_encode(SpecStackMapFrame::FullFrame { offset_delta, locals, stack }) + rest) == Ok::<
            (SpecStackMapFrame, int),
            Error,
        >((SpecStackMapFrame::FullFrame { offset_delta, locals, stack }, StackMapFrame::spec_encode(SpecStackMapFrame::FullFrame { offset_delta, locals, stack }).len() as int)),
{
    let v = SpecStackMapFrame::FullFrame { offset_delta, locals, stack };
    let e = StackMapFrame::spec_encode(v);
    let s = e + rest;
    let el = spec_encode_list16::<VerificationType>(locals);
    let es = spec_encode_list16::<VerificationType>(stack);
    assert(s =~= u8::spec_encode(255u8) + (u16::spec_encode(offset_delta) + (el + (es
        + rest))));
    u8::lemma_codec(255u8, u16::spec_encode(offset_delta) + (el + (es + rest)));
    assert(s.skip(1) =~= u16::spec_encode(offset_delta) + (el + (es + rest)));
    u16::lemma_codec(offset_delta, el + (es + rest));
    assert(s.skip(1).skip(2) =~= el + (es + rest));
    assert(all_encodable::<VerificationType>(locals));
    assert(all_encodable::<VerificationType>(stack));
    lemma_codec_list16::<VerificationType>(locals, es + rest);
    assert(s.skip(1).skip(2).skip(el.len() as int) =~= es + rest);
    lemma_codec_list16::<VerificationType>(stack, rest);
}

} // verus!
