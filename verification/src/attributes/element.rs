//! Annotations and the values of their elements, which nest in one another.
use vstd::prelude::*;

use super::array::{ArrayReader, ArrayWriter};
use crate::canonical::{lemma_back2, lemma_back3, lemma_nonzero_back, lemma_u16_back};
use crate::reader::suffix;
#[allow(unused_imports)]
use crate::util::{
    encode_post, lemma_progress_start, progress, put, read_post, Buf, BufMut, Codec, Decode,
    Encode,
};
use crate::{Error, NonZeroU16};

verus! {

/// Type of a constant element value.
#[derive(Debug, Clone, Copy, PartialEq, Eq, PartialOrd, Ord, Hash)]
pub enum ElementConstValueType {
    /// Tag item `B` with type `Integer`.
    Byte,
    /// Tag item `C` with type `Integer`.
    Char,
    /// Tag item `D` with type `Double`.
    Double,
    /// Tag item `F` with type `Float`.
    Float,
    /// Tag item `I` with type `Integer`.
    Int,
    /// Tag item `J` with type `Long`.
    Long,
    /// Tag item `S` with type `Integer`.
    Short,
    /// Tag item `Z` with type `Integer`.
    Boolean,
    /// Tag item `s` with type `Utf8`.
    String,
}

/// The tag byte of a constant of type `t`.
pub open spec fn spec_const_tag(t: ElementConstValueType) -> u8 {
    match t {
        ElementConstValueType::Byte => 66,
        ElementConstValueType::Char => 67,
        ElementConstValueType::Double => 68,
        ElementConstValueType::Float => 70,
        ElementConstValueType::Int => 73,
        ElementConstValueType::Long => 74,
        ElementConstValueType::Short => 83,
        ElementConstValueType::Boolean => 90,
        ElementConstValueType::String => 115,
    }
}

/// The type of constant that the tag byte `tag` stands for, if any.
pub open spec fn spec_const_type(tag: u8) -> Option<ElementConstValueType> {
    if tag == 66 {
        Some(ElementConstValueType::Byte)
    } else if tag == 67 {
        Some(ElementConstValueType::Char)
    } else if tag == 68 {
        Some(ElementConstValueType::Double)
    } else if tag == 70 {
        Some(ElementConstValueType::Float)
    } else if tag == 73 {
        Some(ElementConstValueType::Int)
    } else if tag == 74 {
        Some(ElementConstValueType::Long)
    } else if tag == 83 {
        Some(ElementConstValueType::Short)
    } else if tag == 90 {
        Some(ElementConstValueType::Boolean)
    } else if tag == 115 {
        Some(ElementConstValueType::String)
    } else {
        None
    }
}

fn const_tag(t: ElementConstValueType) -> (r: u8)
    ensures
        r == spec_const_tag(t),
{
    match t {
        ElementConstValueType::Byte => 66,
        ElementConstValueType::Char => 67,
        ElementConstValueType::Double => 68,
        ElementConstValueType::Float => 70,
        ElementConstValueType::Int => 73,
        ElementConstValueType::Long => 74,
        ElementConstValueType::Short => 83,
        ElementConstValueType::Boolean => 90,
        ElementConstValueType::String => 115,
    }
}

fn const_type(tag: u8) -> (r: Option<ElementConstValueType>)
    ensures
        r == spec_const_type(tag),
{
    match tag {
        66 => Some(ElementConstValueType::Byte),
        67 => Some(ElementConstValueType::Char),
        68 => Some(ElementConstValueType::Double),
        70 => Some(ElementConstValueType::Float),
        73 => Some(ElementConstValueType::Int),
        74 => Some(ElementConstValueType::Long),
        83 => Some(ElementConstValueType::Short),
        90 => Some(ElementConstValueType::Boolean),
        115 => Some(ElementConstValueType::String),
        _ => None,
    }
}

/// A single runtime visible annotation on a declaration.
#[derive(Debug, PartialEq, Eq, Hash)]
pub struct Annotation {
    /// The field descriptor (`Utf8`) index in constant pool.
    pub type_idx: NonZeroU16,
    /// Element-value pairs in the annotation represented by this annotation structure.
    ///
    /// The index is for the name of element of that value (`Utf8`) in constant pool.
    pub pairs: Vec<(NonZeroU16, ElementValue)>,
}

/// Value of an element-value pair.
#[derive(Debug, PartialEq, Eq, Hash)]
pub enum ElementValue {
    /// A constant of either a primitive type or the type `String`.
    Const {
        /// Exact type of the value.
        tag: ElementConstValueType,
        /// Corresponding entry in constant pool.
        /// See documentation for each variant of [`ElementConstValueType`] for its desired type.
        index: NonZeroU16,
    },
    /// An enum constant.
    Enum {
        /// The field descriptor index (`Utf8`) in the constant pool.
        type_name_idx: NonZeroU16,
        /// The simple name index (`Utf8`) in the constant pool.
        const_name_idx: NonZeroU16,
    },
    /// A class literal, denoted by the `Class` index in constant pool.
    Class(NonZeroU16),
    /// A "nested" annotation.
    Annotation(Annotation),
    /// An array.
    Array(Vec<ElementValue>),
}

/// The value of an [`Annotation`], with its pairs as a sequence.
pub struct SpecAnnotation {
    pub type_idx: NonZeroU16,
    pub pairs: Seq<(NonZeroU16, SpecElementValue)>,
}

/// The value of an [`ElementValue`], with arrays as sequences.
pub enum SpecElementValue {
    Const { tag: ElementConstValueType, index: NonZeroU16 },
    Enum { type_name_idx: NonZeroU16, const_name_idx: NonZeroU16 },
    Class(NonZeroU16),
    Annotation(SpecAnnotation),
    Array(Seq<SpecElementValue>),
}

/// The value of an element value.
pub open spec fn value_view(v: ElementValue) -> SpecElementValue
    decreases v,
{
    match v {
        ElementValue::Const { tag, index } => SpecElementValue::Const { tag, index },
        ElementValue::Enum { type_name_idx, const_name_idx } => SpecElementValue::Enum {
            type_name_idx,
            const_name_idx,
        },
        ElementValue::Class(i) => SpecElementValue::Class(i),
        ElementValue::Annotation(a) => SpecElementValue::Annotation(annotation_view(a)),
        ElementValue::Array(vs) => SpecElementValue::Array(values_view(vs@)),
    }
}

/// The values of a sequence of element values.
pub open spec fn values_view(s: Seq<ElementValue>) -> Seq<SpecElementValue>
    decreases s,
{
    if s.len() == 0 {
        Seq::empty()
    } else {
        values_view(s.subrange(0, s.len() - 1)).push(value_view(s[s.len() - 1]))
    }
}

/// The value of an annotation.
pub open spec fn annotation_view(a: Annotation) -> SpecAnnotation
    decreases a,
{
    SpecAnnotation { type_idx: a.type_idx, pairs: pairs_view(a.pairs@) }
}

/// The values of a sequence of element-value pairs.
pub open spec fn pairs_view(s: Seq<(NonZeroU16, ElementValue)>) -> Seq<(NonZeroU16, SpecElementValue)>
    decreases s,
{
    if s.len() == 0 {
        Seq::empty()
    } else {
        pairs_view(s.subrange(0, s.len() - 1)).push(
            (s[s.len() - 1].0, value_view(s[s.len() - 1].1)),
        )
    }
}

impl View for ElementValue {
    type V = SpecElementValue;

    open spec fn view(&self) -> SpecElementValue {
        value_view(*self)
    }
}

impl View for Annotation {
    type V = SpecAnnotation;

    open spec fn view(&self) -> SpecAnnotation {
        annotation_view(*self)
    }
}

/// Decoding an element value: a tag byte, then the fields of the kind of value
/// that it stands for.
pub open spec fn spec_decode_value(s: Seq<u8>) -> Result<(SpecElementValue, int), Error>
    decreases s.len(), 0int,
{
    match u8::spec_decode(s) {
        Err(e) => Err(e),
        Ok((tag, n)) => {
            let r = s.skip(n);
            if spec_const_type(tag) is Some {
                match NonZeroU16::spec_decode(r) {
                    Err(e) => Err(e),
                    Ok((index, m)) => Ok((
                        SpecElementValue::Const { tag: spec_const_type(tag).unwrap(), index },
                        n + m,
                    )),
                }
            } else if tag == 101 {
                match NonZeroU16::spec_decode(r) {
                    Err(e) => Err(e),
                    Ok((type_name_idx, m1)) => match NonZeroU16::spec_decode(r.skip(m1)) {
                        Err(e) => Err(e),
                        Ok((const_name_idx, m2)) => Ok((
                            SpecElementValue::Enum { type_name_idx, const_name_idx },
                            n + m1 + m2,
                        )),
                    },
                }
            } else if tag == 99 {
                match NonZeroU16::spec_decode(r) {
                    Err(e) => Err(e),
                    Ok((index, m)) => Ok((SpecElementValue::Class(index), n + m)),
                }
            } else if tag == 64 {
                match spec_decode_annotation(r) {
                    Err(e) => Err(e),
                    Ok((a, m)) => Ok((SpecElementValue::Annotation(a), n + m)),
                }
            } else if tag == 91 {
                match u16::spec_decode(r) {
                    Err(e) => Err(e),
                    Ok((count, m1)) => match spec_decode_values(r.skip(m1), count as nat) {
                        Err(e) => Err(e),
                        Ok((vs, m2)) => Ok((SpecElementValue::Array(vs), n + m1 + m2)),
                    },
                }
            } else {
                Err(Error::UnknownElementValueType(tag))
            }
        },
    }
}

/// Decoding `count` element values, one after another.
pub open spec fn spec_decode_values(s: Seq<u8>, count: nat) -> Result<(Seq<SpecElementValue>, int), Error>
    decreases s.len(), count,
{
    if count == 0 {
        Ok((Seq::empty(), 0))
    } else {
        match spec_decode_value(s) {
            Err(e) => Err(e),
            Ok((v, m)) => if 0 <= m <= s.len() {
                match spec_decode_values(s.skip(m), (count - 1) as nat) {
                    Err(e) => Err(e),
                    Ok((vs, k)) => Ok((seq![v] + vs, m + k)),
                }
            } else {
                Err(Error::UnexpectedEOF)
            },
        }
    }
}

/// Decoding an annotation: its type index, a `u16` count, then that many
/// element-value pairs.
pub open spec fn spec_decode_annotation(s: Seq<u8>) -> Result<(SpecAnnotation, int), Error>
    decreases s.len(), 0int,
{
    match NonZeroU16::spec_decode(s) {
        Err(e) => Err(e),
        Ok((type_idx, n1)) => match u16::spec_decode(s.skip(n1)) {
            Err(e) => Err(e),
            Ok((count, n2)) => match spec_decode_pairs(s.skip(n1).skip(n2), count as nat) {
                Err(e) => Err(e),
                Ok((pairs, n3)) => Ok((SpecAnnotation { type_idx, pairs }, n1 + n2 + n3)),
            },
        },
    }
}

/// Decoding `count` element-value pairs, one after another: each a name index,
/// then an element value.
pub open spec fn spec_decode_pairs(s: Seq<u8>, count: nat) -> Result<(Seq<(NonZeroU16, SpecElementValue)>, int), Error>
    decreases s.len(), count,
{
    if count == 0 {
        Ok((Seq::empty(), 0))
    } else {
        match NonZeroU16::spec_decode(s) {
            Err(e) => Err(e),
            Ok((name, n1)) => match spec_decode_value(s.skip(n1)) {
                Err(e) => Err(e),
                Ok((v, m)) => if 0 <= m <= s.skip(n1).len() {
                    match spec_decode_pairs(s.skip(n1).skip(m), (count - 1) as nat) {
                        Err(e) => Err(e),
                        Ok((ps, k)) => Ok((seq![(name, v)] + ps, n1 + m + k)),
                    }
                } else {
                    Err(Error::UnexpectedEOF)
                },
            },
        }
    }
}

/// Reads an element value.
fn decode_value<'de, B: Buf<'de>>(buf: &mut B) -> (r: Result<ElementValue, Error>)
    ensures
        suffix(old(buf)@, final(buf)@),
        match r {
            Ok(v) => spec_decode_value(old(buf)@) == Ok::<(SpecElementValue, int), Error>(
                (v@, old(buf)@.len() - final(buf)@.len()),
            ),
            Err(e) => spec_decode_value(old(buf)@) == Err::<(SpecElementValue, int), Error>(e),
        },
    decreases old(buf)@.len(), 0int,
{
    let ghost s0 = buf@;
    let tag = u8::decode(buf)?;
    match const_type(tag) {
        Some(t) => {
            let index = NonZeroU16::decode(buf)?;
            Ok(ElementValue::Const { tag: t, index })
        },
        None => {
            if tag == 101 {
                let type_name_idx = NonZeroU16::decode(buf)?;
                let const_name_idx = NonZeroU16::decode(buf)?;
                Ok(ElementValue::Enum { type_name_idx, const_name_idx })
            } else if tag == 99 {
                let index = NonZeroU16::decode(buf)?;
                Ok(ElementValue::Class(index))
            } else if tag == 64 {
                let a = decode_annotation(buf)?;
                Ok(ElementValue::Annotation(a))
            } else if tag == 91 {
                let ghost s1 = buf@;
                let count = u16::decode(buf)?;
                let ghost s2 = buf@;
                let vals = decode_values(buf, count)?;
                proof {
                    assert(s0.skip(1) == s1);
                    assert(s1.skip(2) == s2);
                }
                Ok(ElementValue::Array(vals))
            } else {
                Err(Error::UnknownElementValueType(tag))
            }
        },
    }
}

/// Reads `count` element values, one after another.
fn decode_values<'de, B: Buf<'de>>(buf: &mut B, count: u16) -> (r: Result<Vec<ElementValue>, Error>)
    ensures
        suffix(old(buf)@, final(buf)@),
        match r {
            Ok(v) => spec_decode_values(old(buf)@, count as nat) == Ok::<
                (Seq<SpecElementValue>, int),
                Error,
            >((values_view(v@), old(buf)@.len() - final(buf)@.len())),
            Err(e) => spec_decode_values(old(buf)@, count as nat) == Err::<
                (Seq<SpecElementValue>, int),
                Error,
            >(e),
        },
    decreases old(buf)@.len(), count,
{
    let ghost s0 = old(buf)@;
    let mut out: Vec<ElementValue> = Vec::new();
    let mut i: u16 = 0;
    while i < count
        invariant
            i <= count,
            s0 == old(buf)@,
            suffix(s0, buf@),
            match spec_decode_values(buf@, (count - i) as nat) {
                Ok((vs, k)) => spec_decode_values(s0, count as nat) == Ok::<
                    (Seq<SpecElementValue>, int),
                    Error,
                >((values_view(out@) + vs, s0.len() - buf@.len() + k)),
                Err(e) => spec_decode_values(s0, count as nat) == Err::<
                    (Seq<SpecElementValue>, int),
                    Error,
                >(e),
            },
        decreases count - i,
    {
        let ghost s1 = buf@;
        let ghost o1 = out@;
        let ghost m: nat = (count - i) as nat;
        let x = match decode_value(buf) {
            Ok(x) => x,
            Err(e) => {
                assert(spec_decode_values(s1, m) == Err::<(Seq<SpecElementValue>, int), Error>(e));
                return Err(e);
            },
        };
        proof {
            let k1 = s1.len() - buf@.len();
            assert(s1.skip(k1) == buf@);
            assert(o1.push(x).subrange(0, o1.len() as int) =~= o1);
            assert(values_view(o1.push(x)) == values_view(o1).push(x@));
            match spec_decode_values(buf@, (m - 1) as nat) {
                Ok((vs, j)) => {
                    assert(spec_decode_values(s1, m) == Ok::<(Seq<SpecElementValue>, int), Error>(
                        (seq![x@] + vs, k1 + j),
                    ));
                    assert(values_view(o1) + (seq![x@] + vs) =~= values_view(o1).push(x@) + vs);
                },
                Err(e) => {
                    assert(spec_decode_values(s1, m) == Err::<(Seq<SpecElementValue>, int), Error>(e));
                },
            }
        }
        out.push(x);
        i = i + 1;
    }
    proof {
        assert(spec_decode_values(buf@, 0) == Ok::<(Seq<SpecElementValue>, int), Error>(
            (Seq::empty(), 0),
        ));
        assert(values_view(out@) + Seq::<SpecElementValue>::empty() =~= values_view(out@));
    }
    Ok(out)
}

/// Reads an annotation.
fn decode_annotation<'de, B: Buf<'de>>(buf: &mut B) -> (r: Result<Annotation, Error>)
    ensures
        suffix(old(buf)@, final(buf)@),
        match r {
            Ok(a) => spec_decode_annotation(old(buf)@) == Ok::<(SpecAnnotation, int), Error>(
                (a@, old(buf)@.len() - final(buf)@.len()),
            ),
            Err(e) => spec_decode_annotation(old(buf)@) == Err::<(SpecAnnotation, int), Error>(e),
        },
    decreases old(buf)@.len(), 0int,
{
    let ghost s0 = buf@;
    let type_idx = NonZeroU16::decode(buf)?;
    let ghost s1 = buf@;
    let count = u16::decode(buf)?;
    let ghost s2 = buf@;
    let pairs = decode_pairs(buf, count)?;
    proof {
        assert(s0.skip(2) == s1);
        assert(s1.skip(2) == s2);
        assert(s0.skip(s0.len() - buf@.len()) =~= buf@);
    }
    Ok(Annotation { type_idx, pairs })
}

/// Reads `count` element-value pairs, one after another.
pub(crate) fn decode_pairs<'de, B: Buf<'de>>(buf: &mut B, count: u16) -> (r: Result<Vec<(NonZeroU16, ElementValue)>, Error>)
    ensures
        suffix(old(buf)@, final(buf)@),
        match r {
            Ok(v) => spec_decode_pairs(old(buf)@, count as nat) == Ok::<
                (Seq<(NonZeroU16, SpecElementValue)>, int),
                Error,
            >((pairs_view(v@), old(buf)@.len() - final(buf)@.len())),
            Err(e) => spec_decode_pairs(old(buf)@, count as nat) == Err::<
                (Seq<(NonZeroU16, SpecElementValue)>, int),
                Error,
            >(e),
        },
    decreases old(buf)@.len(), count,
{
    let ghost s0 = old(buf)@;
    let mut out: Vec<(NonZeroU16, ElementValue)> = Vec::new();
    let mut i: u16 = 0;
    while i < count
        invariant
            i <= count,
            s0 == old(buf)@,
            suffix(s0, buf@),
            match spec_decode_pairs(buf@, (count - i) as nat) {
                Ok((ps, k)) => spec_decode_pairs(s0, count as nat) == Ok::<
                    (Seq<(NonZeroU16, SpecElementValue)>, int),
                    Error,
                >((pairs_view(out@) + ps, s0.len() - buf@.len() + k)),
                Err(e) => spec_decode_pairs(s0, count as nat) == Err::<
                    (Seq<(NonZeroU16, SpecElementValue)>, int),
                    Error,
                >(e),
            },
        decreases count - i,
    {
        let ghost s1 = buf@;
        let ghost o1 = out@;
        let ghost m: nat = (count - i) as nat;
        let name = match NonZeroU16::decode(buf) {
            Ok(x) => x,
            Err(e) => {
                assert(spec_decode_pairs(s1, m) == Err::<
                    (Seq<(NonZeroU16, SpecElementValue)>, int),
                    Error,
                >(e));
                return Err(e);
            },
        };
        let ghost s2 = buf@;
        let x = match decode_value(buf) {
            Ok(x) => x,
            Err(e) => {
                assert(s1.skip(2) == s2);
                assert(spec_decode_pairs(s1, m) == Err::<
                    (Seq<(NonZeroU16, SpecElementValue)>, int),
                    Error,
                >(e));
                return Err(e);
            },
        };
        proof {
            assert(s1.skip(2) == s2);
            let k2 = s2.len() - buf@.len();
            assert(s2.skip(k2) == buf@);
            assert(o1.push((name, x)).subrange(0, o1.len() as int) =~= o1);
            assert(pairs_view(o1.push((name, x))) == pairs_view(o1).push((name, x@)));
            match spec_decode_pairs(buf@, (m - 1) as nat) {
                Ok((ps, j)) => {
                    assert(spec_decode_pairs(s1, m) == Ok::<
                        (Seq<(NonZeroU16, SpecElementValue)>, int),
                        Error,
                    >((seq![(name, x@)] + ps, 2 + k2 + j)));
                    assert(pairs_view(o1) + (seq![(name, x@)] + ps) =~= pairs_view(o1).push(
                        (name, x@),
                    ) + ps);
                },
                Err(e) => {
                    assert(spec_decode_pairs(s1, m) == Err::<
                        (Seq<(NonZeroU16, SpecElementValue)>, int),
                        Error,
                    >(e));
                },
            }
        }
        out.push((name, x));
        i = i + 1;
    }
    proof {
        assert(spec_decode_pairs(buf@, 0) == Ok::<(Seq<(NonZeroU16, SpecElementValue)>, int), Error>(
            (Seq::empty(), 0),
        ));
        assert(pairs_view(out@) + Seq::<(NonZeroU16, SpecElementValue)>::empty() =~= pairs_view(
            out@,
        ));
    }
    Ok(out)
}

/// The encoding of an element value: its tag byte, then its fields.
pub open spec fn spec_encode_value(v: SpecElementValue) -> Seq<u8>
    decreases v,
{
    match v {
        SpecElementValue::Const { tag, index } => u8::spec_encode(spec_const_tag(tag))
            + NonZeroU16::spec_encode(index),
        SpecElementValue::Enum { type_name_idx, const_name_idx } => u8::spec_encode(101u8)
            + NonZeroU16::spec_encode(type_name_idx) + NonZeroU16::spec_encode(const_name_idx),
        SpecElementValue::Class(index) => u8::spec_encode(99u8) + NonZeroU16::spec_encode(index),
        SpecElementValue::Annotation(a) => u8::spec_encode(64u8) + spec_encode_annotation(a),
        SpecElementValue::Array(vs) => u8::spec_encode(91u8) + u16::spec_encode(vs.len() as u16)
            + spec_encode_values(vs),
    }
}

/// The encodings of element values, one after another.
pub open spec fn spec_encode_values(vs: Seq<SpecElementValue>) -> Seq<u8>
    decreases vs,
{
    if vs.len() == 0 {
        Seq::empty()
    } else {
        spec_encode_values(vs.subrange(0, vs.len() - 1)) + spec_encode_value(vs[vs.len() - 1])
    }
}

/// The encoding of an annotation: its type index, the count of its pairs cut to
/// two bytes, then the pairs.
pub open spec fn spec_encode_annotation(a: SpecAnnotation) -> Seq<u8>
    decreases a,
{
    NonZeroU16::spec_encode(a.type_idx) + u16::spec_encode(a.pairs.len() as u16)
        + spec_encode_pairs(a.pairs)
}

/// The encodings of element-value pairs, one after another.
pub open spec fn spec_encode_pairs(ps: Seq<(NonZeroU16, SpecElementValue)>) -> Seq<u8>
    decreases ps,
{
    if ps.len() == 0 {
        Seq::empty()
    } else {
        spec_encode_pairs(ps.subrange(0, ps.len() - 1)) + NonZeroU16::spec_encode(
            ps[ps.len() - 1].0,
        ) + spec_encode_value(ps[ps.len() - 1].1)
    }
}

/// An element value that decoding can give: non-zero indices, and arrays and
/// annotations whose counts fit in two bytes.
pub open spec fn value_wf(v: SpecElementValue) -> bool
    decreases v,
{
    match v {
        SpecElementValue::Const { index, .. } => index.value() != 0,
        SpecElementValue::Enum { type_name_idx, const_name_idx } => type_name_idx.value() != 0
            && const_name_idx.value() != 0,
        SpecElementValue::Class(index) => index.value() != 0,
        SpecElementValue::Annotation(a) => annotation_wf(a),
        SpecElementValue::Array(vs) => vs.len() <= u16::MAX && values_wf(vs),
    }
}

/// Every one of `vs` is an element value that decoding can give.
pub open spec fn values_wf(vs: Seq<SpecElementValue>) -> bool
    decreases vs,
{
    vs.len() == 0 || (values_wf(vs.subrange(0, vs.len() - 1)) && value_wf(vs[vs.len() - 1]))
}

/// An annotation that decoding can give.
pub open spec fn annotation_wf(a: SpecAnnotation) -> bool
    decreases a,
{
    a.type_idx.value() != 0 && a.pairs.len() <= u16::MAX && pairs_wf(a.pairs)
}

/// Every one of `ps` is a pair that decoding can give.
pub open spec fn pairs_wf(ps: Seq<(NonZeroU16, SpecElementValue)>) -> bool
    decreases ps,
{
    ps.len() == 0 || (pairs_wf(ps.subrange(0, ps.len() - 1)) && ps[ps.len() - 1].0.value() != 0
        && value_wf(ps[ps.len() - 1].1))
}

/// A prefix of what fits `total` fits `total` too.
pub(crate) proof fn lemma_prefix_piece(acc: Seq<u8>, piece: Seq<u8>, more: Seq<u8>, total: Seq<u8>)
    requires
        (acc + piece + more).is_prefix_of(total),
    ensures
        (acc + piece).is_prefix_of(total),
{
    let a = acc + piece;
    let t = acc + piece + more;
    assert forall|j: int| 0 <= j < a.len() implies #[trigger] a[j] == total[j] by {
        assert(t[j] == a[j]);
        assert(total.subrange(0, t.len() as int)[j] == total[j]);
    }
    assert(a =~= total.subrange(0, a.len() as int));
}

/// Writes an element value, as a piece of `total` that follows `acc`.
fn put_value<B: BufMut>(
    buf: &mut B,
    v: &ElementValue,
    Ghost(b0): Ghost<B>,
    Ghost(acc): Ghost<Seq<u8>>,
    Ghost(total): Ghost<Seq<u8>>,
) -> (r: Result<(), Error>)
    requires
        progress(b0, *old(buf), acc),
        (acc + spec_encode_value(v@)).is_prefix_of(total),
    ensures
        r is Ok ==> progress(b0, *final(buf), acc + spec_encode_value(v@)),
        r is Err ==> encode_post(b0, *final(buf), true, total, r),
    decreases v,
{
    match v {
        ElementValue::Const { tag, index } => {
            let t = const_tag(*tag);
            let ghost e1 = u8::spec_encode(t);
            let ghost e2 = NonZeroU16::spec_encode(*index);
            proof {
                assert(acc + spec_encode_value(v@) =~= acc + e1 + e2);
                lemma_prefix_piece(acc, e1, e2, total);
            }
            put(buf, &t, Ghost(b0), Ghost(acc), Ghost(total))?;
            put(buf, index, Ghost(b0), Ghost(acc + e1), Ghost(total))?;
            Ok(())
        },
        ElementValue::Enum { type_name_idx, const_name_idx } => {
            let t: u8 = 101;
            let ghost e1 = u8::spec_encode(t);
            let ghost e2 = NonZeroU16::spec_encode(*type_name_idx);
            let ghost e3 = NonZeroU16::spec_encode(*const_name_idx);
            proof {
                assert(acc + spec_encode_value(v@) =~= acc + e1 + e2 + e3);
                lemma_prefix_piece(acc + e1, e2, e3, total);
                lemma_prefix_piece(acc, e1, e2 + e3, total);
                assert(acc + e1 + (e2 + e3) =~= acc + e1 + e2 + e3);
            }
            put(buf, &t, Ghost(b0), Ghost(acc), Ghost(total))?;
            put(buf, type_name_idx, Ghost(b0), Ghost(acc + e1), Ghost(total))?;
            put(buf, const_name_idx, Ghost(b0), Ghost(acc + e1 + e2), Ghost(total))?;
            Ok(())
        },
        ElementValue::Class(index) => {
            let t: u8 = 99;
            let ghost e1 = u8::spec_encode(t);
            let ghost e2 = NonZeroU16::spec_encode(*index);
            proof {
                assert(acc + spec_encode_value(v@) =~= acc + e1 + e2);
                lemma_prefix_piece(acc, e1, e2, total);
            }
            put(buf, &t, Ghost(b0), Ghost(acc), Ghost(total))?;
            put(buf, index, Ghost(b0), Ghost(acc + e1), Ghost(total))?;
            Ok(())
        },
        ElementValue::Annotation(a) => {
            let t: u8 = 64;
            let ghost e1 = u8::spec_encode(t);
            let ghost e2 = spec_encode_annotation(a@);
            proof {
                assert(acc + spec_encode_value(v@) =~= acc + e1 + e2);
                lemma_prefix_piece(acc, e1, e2, total);
            }
            put(buf, &t, Ghost(b0), Ghost(acc), Ghost(total))?;
            put_annotation(buf, a, Ghost(b0), Ghost(acc + e1), Ghost(total))?;
            Ok(())
        },
        ElementValue::Array(vs) => {
            let t: u8 = 91;
            let n = vs.len() as u16;
            let ghost e1 = u8::spec_encode(t);
            let ghost e2 = u16::spec_encode(n);
            let ghost e3 = spec_encode_values(values_view(vs@));
            proof {
                assert(values_view(vs@).len() == vs@.len()) by {
                    lemma_values_view_len(vs@);
                }
                assert(acc + spec_encode_value(v@) =~= acc + e1 + e2 + e3);
                lemma_prefix_piece(acc + e1, e2, e3, total);
                lemma_prefix_piece(acc, e1, e2 + e3, total);
                assert(acc + e1 + (e2 + e3) =~= acc + e1 + e2 + e3);
            }
            put(buf, &t, Ghost(b0), Ghost(acc), Ghost(total))?;
            put(buf, &n, Ghost(b0), Ghost(acc + e1), Ghost(total))?;
            put_values(buf, vs, Ghost(b0), Ghost(acc + e1 + e2), Ghost(total))?;
            Ok(())
        },
    }
}

proof fn lemma_values_view_len(s: Seq<ElementValue>)
    ensures
        values_view(s).len() == s.len(),
    decreases s.len(),
{
    if s.len() > 0 {
        lemma_values_view_len(s.subrange(0, s.len() - 1));
    }
}

pub(crate) proof fn lemma_pairs_view_len(s: Seq<(NonZeroU16, ElementValue)>)
    ensures
        pairs_view(s).len() == s.len(),
    decreases s.len(),
{
    if s.len() > 0 {
        lemma_pairs_view_len(s.subrange(0, s.len() - 1));
    }
}

/// Writes element values one after another, as a piece of `total` that follows `acc`.
fn put_values<B: BufMut>(
    buf: &mut B,
    vs: &Vec<ElementValue>,
    Ghost(b0): Ghost<B>,
    Ghost(acc): Ghost<Seq<u8>>,
    Ghost(total): Ghost<Seq<u8>>,
) -> (r: Result<(), Error>)
    requires
        progress(b0, *old(buf), acc),
        (acc + spec_encode_values(values_view(vs@))).is_prefix_of(total),
    ensures
        r is Ok ==> progress(b0, *final(buf), acc + spec_encode_values(values_view(vs@))),
        r is Err ==> encode_post(b0, *final(buf), true, total, r),
    decreases vs,
{
    let ghost whole = values_view(vs@);
    let mut i: usize = 0;
    while i < vs.len()
        invariant
            i <= vs@.len(),
            whole == values_view(vs@),
            progress(b0, *buf, acc + spec_encode_values(values_view(vs@.subrange(0, i as int)))),
            (acc + spec_encode_values(whole)).is_prefix_of(total),
        decreases vs@.len() - i,
    {
        let ghost pre = vs@.subrange(0, i as int);
        let ghost next = vs@.subrange(0, i + 1);
        proof {
            assert(next.subrange(0, i as int) =~= pre);
            assert(next[i as int] == vs@[i as int]);
            assert(values_view(next) == values_view(pre).push(vs@[i as int]@));
            assert(spec_encode_values(values_view(next)) =~= spec_encode_values(values_view(pre))
                + spec_encode_value(vs@[i as int]@)) by {
                lemma_values_view_len(pre);
                assert(values_view(pre).push(vs@[i as int]@).subrange(0, i as int) =~= values_view(
                    pre,
                ));
            }
            lemma_encode_values_prefix(vs@, i + 1);
            let rest = spec_encode_values(whole).skip(
                spec_encode_values(values_view(next)).len() as int,
            );
            assert(acc + spec_encode_values(whole) =~= acc + spec_encode_values(values_view(pre))
                + spec_encode_value(vs@[i as int]@) + rest);
            lemma_prefix_piece(
                acc + spec_encode_values(values_view(pre)),
                spec_encode_value(vs@[i as int]@),
                rest,
                total,
            );
            assert(decreases_to!(vs => vs@[i as int]));
        }
        put_value(
            buf,
            &vs[i],
            Ghost(b0),
            Ghost(acc + spec_encode_values(values_view(pre))),
            Ghost(total),
        )?;
        proof {
            assert(acc + spec_encode_values(values_view(pre)) + spec_encode_value(vs@[i as int]@)
                =~= acc + spec_encode_values(values_view(next)));
        }
        i = i + 1;
    }
    proof {
        assert(vs@.subrange(0, vs@.len() as int) =~= vs@);
    }
    Ok(())
}

/// The encoding of the first `k` element values is a prefix of the encoding of all.
proof fn lemma_encode_values_prefix(s: Seq<ElementValue>, k: int)
    requires
        0 <= k <= s.len(),
    ensures
        spec_encode_values(values_view(s)) =~= spec_encode_values(values_view(s.subrange(0, k)))
            + spec_encode_values(values_view(s)).skip(
            spec_encode_values(values_view(s.subrange(0, k))).len() as int,
        ),
        spec_encode_values(values_view(s.subrange(0, k))).len() <= spec_encode_values(
            values_view(s),
        ).len(),
    decreases s.len() - k,
{
    if k == s.len() {
        assert(s.subrange(0, k) =~= s);
    } else {
        lemma_encode_values_prefix(s, k + 1);
        let a = s.subrange(0, k);
        let b = s.subrange(0, k + 1);
        assert(b.subrange(0, k) =~= a);
        lemma_values_view_len(a);
        lemma_values_view_len(b);
        assert(values_view(b).subrange(0, k) =~= values_view(a));
        let ea = spec_encode_values(values_view(a));
        let eb = spec_encode_values(values_view(b));
        assert(eb =~= ea + spec_encode_value(values_view(b)[k]));
        let es = spec_encode_values(values_view(s));
        assert(es =~= ea + es.skip(ea.len() as int)) by {
            assert(es =~= eb + es.skip(eb.len() as int));
            assert forall|j: int| 0 <= j < ea.len() implies #[trigger] es[j] == ea[j] by {
                assert(es[j] == eb[j]);
            }
        }
    }
}

/// Writes an annotation, as a piece of `total` that follows `acc`.
fn put_annotation<B: BufMut>(
    buf: &mut B,
    a: &Annotation,
    Ghost(b0): Ghost<B>,
    Ghost(acc): Ghost<Seq<u8>>,
    Ghost(total): Ghost<Seq<u8>>,
) -> (r: Result<(), Error>)
    requires
        progress(b0, *old(buf), acc),
        (acc + spec_encode_annotation(a@)).is_prefix_of(total),
    ensures
        r is Ok ==> progress(b0, *final(buf), acc + spec_encode_annotation(a@)),
        r is Err ==> encode_post(b0, *final(buf), true, total, r),
    decreases a,
{
    let n = a.pairs.len() as u16;
    let ghost e1 = NonZeroU16::spec_encode(a.type_idx);
    let ghost e2 = u16::spec_encode(n);
    let ghost e3 = spec_encode_pairs(pairs_view(a.pairs@));
    proof {
        lemma_pairs_view_len(a.pairs@);
        assert(acc + spec_encode_annotation(a@) =~= acc + e1 + e2 + e3);
        lemma_prefix_piece(acc + e1, e2, e3, total);
        lemma_prefix_piece(acc, e1, e2 + e3, total);
        assert(acc + e1 + (e2 + e3) =~= acc + e1 + e2 + e3);
    }
    put(buf, &a.type_idx, Ghost(b0), Ghost(acc), Ghost(total))?;
    put(buf, &n, Ghost(b0), Ghost(acc + e1), Ghost(total))?;
    put_pairs(buf, &a.pairs, Ghost(b0), Ghost(acc + e1 + e2), Ghost(total))?;
    Ok(())
}

/// Writes element-value pairs one after another, as a piece of `total` that follows `acc`.
pub(crate) fn put_pairs<B: BufMut>(
    buf: &mut B,
    ps: &Vec<(NonZeroU16, ElementValue)>,
    Ghost(b0): Ghost<B>,
    Ghost(acc): Ghost<Seq<u8>>,
    Ghost(total): Ghost<Seq<u8>>,
) -> (r: Result<(), Error>)
    requires
        progress(b0, *old(buf), acc),
        (acc + spec_encode_pairs(pairs_view(ps@))).is_prefix_of(total),
    ensures
        r is Ok ==> progress(b0, *final(buf), acc + spec_encode_pairs(pairs_view(ps@))),
        r is Err ==> encode_post(b0, *final(buf), true, total, r),
    decreases ps,
{
    let ghost whole = pairs_view(ps@);
    let mut i: usize = 0;
    while i < ps.len()
        invariant
            i <= ps@.len(),
            whole == pairs_view(ps@),
            progress(b0, *buf, acc + spec_encode_pairs(pairs_view(ps@.subrange(0, i as int)))),
            (acc + spec_encode_pairs(whole)).is_prefix_of(total),
        decreases ps@.len() - i,
    {
        let ghost pre = ps@.subrange(0, i as int);
        let ghost next = ps@.subrange(0, i + 1);
        let ghost p = ps@[i as int];
        let ghost en = NonZeroU16::spec_encode(p.0);
        let ghost ev = spec_encode_value(p.1@);
        proof {
            assert(next.subrange(0, i as int) =~= pre);
            assert(next[i as int] == p);
            assert(pairs_view(next) == pairs_view(pre).push((p.0, p.1@)));
            assert(spec_encode_pairs(pairs_view(next)) =~= spec_encode_pairs(pairs_view(pre)) + en
                + ev) by {
                lemma_pairs_view_len(pre);
                assert(pairs_view(pre).push((p.0, p.1@)).subrange(0, i as int) =~= pairs_view(pre));
            }
            lemma_encode_pairs_prefix(ps@, i + 1);
            let rest = spec_encode_pairs(whole).skip(spec_encode_pairs(pairs_view(next)).len() as int);
            let a0 = acc + spec_encode_pairs(pairs_view(pre));
            assert(acc + spec_encode_pairs(whole) =~= a0 + en + ev + rest);
            lemma_prefix_piece(a0 + en, ev, rest, total);
            lemma_prefix_piece(a0, en, ev + rest, total);
            assert(a0 + en + (ev + rest) =~= a0 + en + ev + rest);
            assert(decreases_to!(ps => ps@[i as int].1));
        }
        let (name, value) = &ps[i];
        put(buf, name, Ghost(b0), Ghost(acc + spec_encode_pairs(pairs_view(pre))), Ghost(total))?;
        put_value(
            buf,
            value,
            Ghost(b0),
            Ghost(acc + spec_encode_pairs(pairs_view(pre)) + en),
            Ghost(total),
        )?;
        proof {
            assert(acc + spec_encode_pairs(pairs_view(pre)) + en + ev =~= acc + spec_encode_pairs(
                pairs_view(next),
            ));
        }
        i = i + 1;
    }
    proof {
        assert(ps@.subrange(0, ps@.len() as int) =~= ps@);
    }
    Ok(())
}

/// The encoding of the first `k` pairs is a prefix of the encoding of all.
proof fn lemma_encode_pairs_prefix(s: Seq<(NonZeroU16, ElementValue)>, k: int)
    requires
        0 <= k <= s.len(),
    ensures
        spec_encode_pairs(pairs_view(s)) =~= spec_encode_pairs(pairs_view(s.subrange(0, k)))
            + spec_encode_pairs(pairs_view(s)).skip(
            spec_encode_pairs(pairs_view(s.subrange(0, k))).len() as int,
        ),
        spec_encode_pairs(pairs_view(s.subrange(0, k))).len() <= spec_encode_pairs(
            pairs_view(s),
        ).len(),
    decreases s.len() - k,
{
    if k == s.len() {
        assert(s.subrange(0, k) =~= s);
    } else {
        lemma_encode_pairs_prefix(s, k + 1);
        let a = s.subrange(0, k);
        let b = s.subrange(0, k + 1);
        assert(b.subrange(0, k) =~= a);
        lemma_pairs_view_len(a);
        lemma_pairs_view_len(b);
        assert(pairs_view(b).subrange(0, k) =~= pairs_view(a));
        let ea = spec_encode_pairs(pairs_view(a));
        let eb = spec_encode_pairs(pairs_view(b));
        assert(eb =~= ea + NonZeroU16::spec_encode(pairs_view(b)[k].0) + spec_encode_value(
            pairs_view(b)[k].1,
        ));
        let es = spec_encode_pairs(pairs_view(s));
        assert(es =~= ea + es.skip(ea.len() as int)) by {
            assert(es =~= eb + es.skip(eb.len() as int));
            assert forall|j: int| 0 <= j < ea.len() implies #[trigger] es[j] == ea[j] by {
                assert(es[j] == eb[j]);
            }
        }
    }
}

proof fn lemma_encode_values_concat(a: Seq<SpecElementValue>, b: Seq<SpecElementValue>)
    ensures
        spec_encode_values(a + b) == spec_encode_values(a) + spec_encode_values(b),
    decreases b.len(),
{
    if b.len() == 0 {
        assert(a + b =~= a);
        assert(spec_encode_values(a) + spec_encode_values(b) =~= spec_encode_values(a));
    } else {
        let b1 = b.subrange(0, b.len() - 1);
        lemma_encode_values_concat(a, b1);
        assert((a + b).subrange(0, (a + b).len() - 1) =~= a + b1);
        assert((a + b)[(a + b).len() - 1] == b[b.len() - 1]);
        assert(spec_encode_values(a) + spec_encode_values(b1) + spec_encode_value(b[b.len() - 1])
            =~= spec_encode_values(a) + (spec_encode_values(b1) + spec_encode_value(
            b[b.len() - 1],
        )));
    }
}

proof fn lemma_encode_pairs_concat(
    a: Seq<(NonZeroU16, SpecElementValue)>,
    b: Seq<(NonZeroU16, SpecElementValue)>,
)
    ensures
        spec_encode_pairs(a + b) == spec_encode_pairs(a) + spec_encode_pairs(b),
    decreases b.len(),
{
    if b.len() == 0 {
        assert(a + b =~= a);
        assert(spec_encode_pairs(a) + spec_encode_pairs(b) =~= spec_encode_pairs(a));
    } else {
        let b1 = b.subrange(0, b.len() - 1);
        lemma_encode_pairs_concat(a, b1);
        assert((a + b).subrange(0, (a + b).len() - 1) =~= a + b1);
        assert((a + b)[(a + b).len() - 1] == b[b.len() - 1]);
        let l = b[b.len() - 1];
        assert(spec_encode_pairs(a) + spec_encode_pairs(b1) + NonZeroU16::spec_encode(l.0)
            + spec_encode_value(l.1) =~= spec_encode_pairs(a) + (spec_encode_pairs(b1)
            + NonZeroU16::spec_encode(l.0) + spec_encode_value(l.1)));
    }
}

proof fn lemma_values_wf(vs: Seq<SpecElementValue>)
    ensures
        values_wf(vs) == (forall|i: int| 0 <= i < vs.len() ==> value_wf(#[trigger] vs[i])),
    decreases vs.len(),
{
    if vs.len() > 0 {
        let v1 = vs.subrange(0, vs.len() - 1);
        lemma_values_wf(v1);
        if forall|i: int| 0 <= i < vs.len() ==> value_wf(#[trigger] vs[i]) {
            assert forall|i: int| 0 <= i < v1.len() implies value_wf(#[trigger] v1[i]) by {
                assert(v1[i] == vs[i]);
            }
        }
        if values_wf(vs) {
            assert forall|i: int| 0 <= i < vs.len() implies value_wf(#[trigger] vs[i]) by {
                if i < vs.len() - 1 {
                    assert(v1[i] == vs[i]);
                }
            }
        }
    }
}

proof fn lemma_pairs_wf(ps: Seq<(NonZeroU16, SpecElementValue)>)
    ensures
        pairs_wf(ps) == (forall|i: int|
            0 <= i < ps.len() ==> (#[trigger] ps[i]).0.value() != 0 && value_wf(ps[i].1)),
    decreases ps.len(),
{
    if ps.len() > 0 {
        let p1 = ps.subrange(0, ps.len() - 1);
        lemma_pairs_wf(p1);
        if forall|i: int| 0 <= i < ps.len() ==> (#[trigger] ps[i]).0.value() != 0 && value_wf(
            ps[i].1,
        ) {
            assert forall|i: int| 0 <= i < p1.len() implies (#[trigger] p1[i]).0.value() != 0
                && value_wf(p1[i].1) by {
                assert(p1[i] == ps[i]);
            }
        }
        if pairs_wf(ps) {
            assert forall|i: int| 0 <= i < ps.len() implies (#[trigger] ps[i]).0.value() != 0
                && value_wf(ps[i].1) by {
                if i < ps.len() - 1 {
                    assert(p1[i] == ps[i]);
                }
            }
        }
    }
}

proof fn lemma_const_tag(t: ElementConstValueType)
    ensures
        spec_const_type(spec_const_tag(t)) == Some(t),
{
}

/// Decoding the encoding of a well-formed element value gives it back.
proof fn lemma_value_codec(v: SpecElementValue, rest: Seq<u8>)
    requires
        value_wf(v),
    ensures
        spec_decode_value(spec_encode_value(v) + rest) == Ok::<(SpecElementValue, int), Error>(
            (v, spec_encode_value(v).len() as int),
        ),
    decreases v,
{
    let s = spec_encode_value(v) + rest;
    match v {
        SpecElementValue::Const { tag, index } => {
            let t = spec_const_tag(tag);
            lemma_const_tag(tag);
            assert(s =~= u8::spec_encode(t) + (NonZeroU16::spec_encode(index) + rest));
            u8::lemma_codec(t, NonZeroU16::spec_encode(index) + rest);
            assert(s.skip(1) =~= NonZeroU16::spec_encode(index) + rest);
            NonZeroU16::lemma_codec(index, rest);
        },
        SpecElementValue::Enum { type_name_idx, const_name_idx } => {
            let e2 = NonZeroU16::spec_encode(type_name_idx);
            let e3 = NonZeroU16::spec_encode(const_name_idx);
            assert(s =~= u8::spec_encode(101u8) + (e2 + (e3 + rest)));
            u8::lemma_codec(101u8, e2 + (e3 + rest));
            assert(s.skip(1) =~= e2 + (e3 + rest));
            NonZeroU16::lemma_codec(type_name_idx, e3 + rest);
            assert(s.skip(1).skip(2) =~= e3 + rest);
            NonZeroU16::lemma_codec(const_name_idx, rest);
        },
        SpecElementValue::Class(index) => {
            assert(s =~= u8::spec_encode(99u8) + (NonZeroU16::spec_encode(index) + rest));
            u8::lemma_codec(99u8, NonZeroU16::spec_encode(index) + rest);
            assert(s.skip(1) =~= NonZeroU16::spec_encode(index) + rest);
            NonZeroU16::lemma_codec(index, rest);
        },
        SpecElementValue::Annotation(a) => {
            let e2 = spec_encode_annotation(a);
            assert(s =~= u8::spec_encode(64u8) + (e2 + rest));
            u8::lemma_codec(64u8, e2 + rest);
            assert(s.skip(1) =~= e2 + rest);
            lemma_annotation_codec(a, rest);
        },
        SpecElementValue::Array(vs) => {
            let e2 = u16::spec_encode(vs.len() as u16);
            let e3 = spec_encode_values(vs);
            assert(s =~= u8::spec_encode(91u8) + (e2 + (e3 + rest)));
            u8::lemma_codec(91u8, e2 + (e3 + rest));
            assert(s.skip(1) =~= e2 + (e3 + rest));
            u16::lemma_codec(vs.len() as u16, e3 + rest);
            assert(s.skip(1).skip(2) =~= e3 + rest);
            lemma_values_codec(vs, rest);
        },
    }
}

/// Decoding the encodings of well-formed element values gives them back.
proof fn lemma_values_codec(vs: Seq<SpecElementValue>, rest: Seq<u8>)
    requires
        values_wf(vs),
    ensures
        spec_decode_values(spec_encode_values(vs) + rest, vs.len()) == Ok::<
            (Seq<SpecElementValue>, int),
            Error,
        >((vs, spec_encode_values(vs).len() as int)),
    decreases vs,
{
    if vs.len() == 0 {
        assert(vs =~= Seq::<SpecElementValue>::empty());
    } else {
        let v0 = vs[0];
        let tail = vs.subrange(1, vs.len() as int);
        assert(vs =~= seq![v0] + tail);
        lemma_encode_values_concat(seq![v0], tail);
        assert(seq![v0].subrange(0, 0) =~= Seq::<SpecElementValue>::empty());
        assert(spec_encode_values(Seq::<SpecElementValue>::empty()) == Seq::<u8>::empty());
        assert(seq![v0][0] == v0);
        assert(spec_encode_values(seq![v0]) =~= Seq::<u8>::empty() + spec_encode_value(v0));
        assert(spec_encode_values(seq![v0]) =~= spec_encode_value(v0));
        lemma_values_wf(vs);
        lemma_values_wf(tail);
        assert forall|i: int| 0 <= i < tail.len() implies value_wf(#[trigger] tail[i]) by {
            assert(tail[i] == vs[i + 1]);
        }
        let e0 = spec_encode_value(v0);
        let et = spec_encode_values(tail);
        assert(spec_encode_values(vs) + rest =~= e0 + (et + rest));
        lemma_value_codec(v0, et + rest);
        assert((e0 + (et + rest)).skip(e0.len() as int) =~= et + rest);
        lemma_values_codec(tail, rest);
        assert(seq![v0] + tail =~= vs);
    }
}

/// Decoding the encoding of a well-formed annotation gives it back.
proof fn lemma_annotation_codec(a: SpecAnnotation, rest: Seq<u8>)
    requires
        annotation_wf(a),
    ensures
        spec_decode_annotation(spec_encode_annotation(a) + rest) == Ok::<(SpecAnnotation, int), Error>(
            (a, spec_encode_annotation(a).len() as int),
        ),
    decreases a,
{
    let s = spec_encode_annotation(a) + rest;
    let e1 = NonZeroU16::spec_encode(a.type_idx);
    let e2 = u16::spec_encode(a.pairs.len() as u16);
    let e3 = spec_encode_pairs(a.pairs);
    assert(s =~= e1 + (e2 + (e3 + rest)));
    NonZeroU16::lemma_codec(a.type_idx, e2 + (e3 + rest));
    assert(s.skip(2) =~= e2 + (e3 + rest));
    u16::lemma_codec(a.pairs.len() as u16, e3 + rest);
    assert(s.skip(2).skip(2) =~= e3 + rest);
    lemma_pairs_codec(a.pairs, rest);
}

/// Decoding the encodings of well-formed element-value pairs gives them back.
pub(crate) proof fn lemma_pairs_codec(ps: Seq<(NonZeroU16, SpecElementValue)>, rest: Seq<u8>)
    requires
        pairs_wf(ps),
    ensures
        spec_decode_pairs(spec_encode_pairs(ps) + rest, ps.len()) == Ok::<
            (Seq<(NonZeroU16, SpecElementValue)>, int),
            Error,
        >((ps, spec_encode_pairs(ps).len() as int)),
    decreases ps,
{
    if ps.len() == 0 {
        assert(ps =~= Seq::<(NonZeroU16, SpecElementValue)>::empty());
    } else {
        let p0 = ps[0];
        let tail = ps.subrange(1, ps.len() as int);
        assert(ps =~= seq![p0] + tail);
        lemma_encode_pairs_concat(seq![p0], tail);
        assert(seq![p0].subrange(0, 0) =~= Seq::<(NonZeroU16, SpecElementValue)>::empty());
        let en = NonZeroU16::spec_encode(p0.0);
        let ev = spec_encode_value(p0.1);
        assert(spec_encode_pairs(Seq::<(NonZeroU16, SpecElementValue)>::empty()) == Seq::<u8>::empty());
        assert(seq![p0][0] == p0);
        assert(spec_encode_pairs(seq![p0]) =~= Seq::<u8>::empty() + en + ev);
        assert(spec_encode_pairs(seq![p0]) =~= en + ev);
        lemma_pairs_wf(ps);
        lemma_pairs_wf(tail);
        assert forall|i: int| 0 <= i < tail.len() implies (#[trigger] tail[i]).0.value() != 0
            && value_wf(tail[i].1) by {
            assert(tail[i] == ps[i + 1]);
        }
        assert(p0.0.value() != 0 && value_wf(p0.1));
        let et = spec_encode_pairs(tail);
        let s = spec_encode_pairs(ps) + rest;
        assert(s =~= en + (ev + (et + rest)));
        NonZeroU16::lemma_codec(p0.0, ev + (et + rest));
        assert(s.skip(2) =~= ev + (et + rest));
        assert(decreases_to!(ps => ps[0]));
        lemma_value_codec(p0.1, et + rest);
        assert(s.skip(2).skip(ev.len() as int) =~= et + rest);
        lemma_pairs_codec(tail, rest);
        assert(seq![(p0.0, p0.1)] + tail =~= ps);
    }
}

/// The type that a tag byte names has that byte as its tag.
proof fn lemma_const_type_tag(tag: u8)
    requires
        spec_const_type(tag) is Some,
    ensures
        spec_const_tag(spec_const_type(tag).unwrap()) == tag,
{
}

/// Encoding the element value that decoding `s` gives yields the bytes that it took.
pub proof fn lemma_value_back(s: Seq<u8>)
    ensures
        spec_decode_value(s) matches Ok((v, k)) ==> 0 <= k <= s.len() && spec_encode_value(v)
            == s.take(k),
    decreases s.len(), 0int,
{
    if s.len() >= 1 {
        let tag = s[0];
        let r = s.skip(1);
        assert(u8::spec_encode(tag) =~= s.take(1));
        if spec_const_type(tag) is Some {
            lemma_const_type_tag(tag);
            lemma_nonzero_back(r);
            if let Ok((_, m)) = NonZeroU16::spec_decode(r) {
                lemma_back2(s, 1, m, s.take(1), r.take(m));
            }
        } else if tag == 101 {
            lemma_nonzero_back(r);
            if let Ok((_, m1)) = NonZeroU16::spec_decode(r) {
                lemma_nonzero_back(r.skip(m1));
                if let Ok((_, m2)) = NonZeroU16::spec_decode(r.skip(m1)) {
                    lemma_back3(s, 1, m1, m2, s.take(1), r.take(m1), r.skip(m1).take(m2));
                }
            }
        } else if tag == 99 {
            lemma_nonzero_back(r);
            if let Ok((_, m)) = NonZeroU16::spec_decode(r) {
                lemma_back2(s, 1, m, s.take(1), r.take(m));
            }
        } else if tag == 64 {
            lemma_annotation_back(r);
            if let Ok((_, m)) = spec_decode_annotation(r) {
                lemma_back2(s, 1, m, s.take(1), r.take(m));
            }
        } else if tag == 91 {
            lemma_u16_back(r);
            if let Ok((count, m1)) = u16::spec_decode(r) {
                lemma_values_back(r.skip(m1), count as nat);
                if let Ok((_, m2)) = spec_decode_values(r.skip(m1), count as nat) {
                    lemma_back3(s, 1, m1, m2, s.take(1), r.take(m1), r.skip(m1).take(m2));
                }
            }
        }
    }
}

/// Encoding the `count` element values that decoding `s` gives yields the bytes
/// that they took.
pub proof fn lemma_values_back(s: Seq<u8>, count: nat)
    ensures
        spec_decode_values(s, count) matches Ok((vs, k)) ==> 0 <= k <= s.len() && vs.len()
            == count && spec_encode_values(vs) == s.take(k),
    decreases s.len(), count,
{
    if count == 0 {
        assert(s.take(0) =~= Seq::<u8>::empty());
    } else {
        lemma_value_back(s);
        if let Ok((v, m)) = spec_decode_value(s) {
            if 0 <= m <= s.len() {
                lemma_values_back(s.skip(m), (count - 1) as nat);
                if let Ok((vs, j)) = spec_decode_values(s.skip(m), (count - 1) as nat) {
                    lemma_encode_values_concat(seq![v], vs);
                    assert(seq![v].subrange(0, 0) =~= Seq::<SpecElementValue>::empty());
                    assert(spec_encode_values(Seq::<SpecElementValue>::empty()) == Seq::<u8>::empty());
                    assert(seq![v][0] == v);
                    assert(spec_encode_values(seq![v]) =~= Seq::<u8>::empty() + spec_encode_value(v));
                    assert(spec_encode_values(seq![v]) =~= spec_encode_value(v));
                    lemma_back2(s, m, j, s.take(m), s.skip(m).take(j));
                }
            }
        }
    }
}

/// Encoding the annotation that decoding `s` gives yields the bytes that it took.
pub proof fn lemma_annotation_back(s: Seq<u8>)
    ensures
        spec_decode_annotation(s) matches Ok((a, k)) ==> 0 <= k <= s.len()
            && spec_encode_annotation(a) == s.take(k),
    decreases s.len(), 0int,
{
    lemma_nonzero_back(s);
    if let Ok((_, n1)) = NonZeroU16::spec_decode(s) {
        lemma_u16_back(s.skip(n1));
        if let Ok((count, n2)) = u16::spec_decode(s.skip(n1)) {
            lemma_pairs_back(s.skip(n1).skip(n2), count as nat);
            if let Ok((_, n3)) = spec_decode_pairs(s.skip(n1).skip(n2), count as nat) {
                lemma_back3(
                    s,
                    n1,
                    n2,
                    n3,
                    s.take(n1),
                    s.skip(n1).take(n2),
                    s.skip(n1).skip(n2).take(n3),
                );
            }
        }
    }
}

/// Encoding the `count` element-value pairs that decoding `s` gives yields the
/// bytes that they took.
pub proof fn lemma_pairs_back(s: Seq<u8>, count: nat)
    ensures
        spec_decode_pairs(s, count) matches Ok((ps, k)) ==> 0 <= k <= s.len() && ps.len()
            == count && spec_encode_pairs(ps) == s.take(k),
    decreases s.len(), count,
{
    if count == 0 {
        assert(s.take(0) =~= Seq::<u8>::empty());
    } else {
        lemma_nonzero_back(s);
        if let Ok((name, n1)) = NonZeroU16::spec_decode(s) {
            lemma_value_back(s.skip(n1));
            if let Ok((v, m)) = spec_decode_value(s.skip(n1)) {
                if 0 <= m <= s.skip(n1).len() {
                    lemma_pairs_back(s.skip(n1).skip(m), (count - 1) as nat);
                    if let Ok((ps, j)) = spec_decode_pairs(s.skip(n1).skip(m), (count - 1) as nat) {
                        let p = (name, v);
                        lemma_encode_pairs_concat(seq![p], ps);
                        assert(seq![p].subrange(0, 0) =~= Seq::<(NonZeroU16, SpecElementValue)>::empty());
                        assert(spec_encode_pairs(Seq::<(NonZeroU16, SpecElementValue)>::empty())
                            == Seq::<u8>::empty());
                        assert(seq![p][0] == p);
                        let en = NonZeroU16::spec_encode(name);
                        let ev = spec_encode_value(v);
                        assert(spec_encode_pairs(seq![p]) =~= Seq::<u8>::empty() + en + ev);
                        assert(spec_encode_pairs(seq![p]) =~= en + ev);
                        lemma_back3(
                            s,
                            n1,
                            m,
                            j,
                            s.take(n1),
                            s.skip(n1).take(m),
                            s.skip(n1).skip(m).take(j),
                        );
                    }
                }
            }
        }
    }
}

impl<'de> Decode<'de> for ElementValue {
    open spec fn spec_decode(s: Seq<u8>) -> Result<(SpecElementValue, int), Error> {
        spec_decode_value(s)
    }

    open spec fn decode_requires(s: Seq<u8>) -> bool {
        true
    }

    fn decode<B: Buf<'de>>(buf: &mut B) -> (r: Result<ElementValue, Error>) {
        decode_value(buf)
    }
}

impl Encode for ElementValue {
    open spec fn spec_encode(v: SpecElementValue) -> Seq<u8> {
        spec_encode_value(v)
    }

    open spec fn encodable(v: SpecElementValue) -> bool {
        true
    }

    open spec fn encode_requires(v: SpecElementValue) -> bool {
        true
    }

    fn encode<B: BufMut>(&self, buf: &mut B) -> (r: Result<(), Error>) {
        let ghost b0 = *buf;
        let ghost total = spec_encode_value(self@);
        proof {
            lemma_progress_start(b0);
            assert(Seq::<u8>::empty() + total =~= total);
        }
        put_value(buf, self, Ghost(b0), Ghost(Seq::empty()), Ghost(total))
    }
}

impl<'de> Codec<'de> for ElementValue {
    open spec fn wf(v: SpecElementValue) -> bool {
        value_wf(v)
    }

    proof fn lemma_codec(v: SpecElementValue, rest: Seq<u8>) {
        lemma_value_codec(v, rest);
    }
}

impl<'de> Decode<'de> for Annotation {
    open spec fn spec_decode(s: Seq<u8>) -> Result<(SpecAnnotation, int), Error> {
        spec_decode_annotation(s)
    }

    open spec fn decode_requires(s: Seq<u8>) -> bool {
        true
    }

    fn decode<B: Buf<'de>>(buf: &mut B) -> (r: Result<Annotation, Error>) {
        decode_annotation(buf)
    }
}

impl Encode for Annotation {
    open spec fn spec_encode(v: SpecAnnotation) -> Seq<u8> {
        spec_encode_annotation(v)
    }

    open spec fn encodable(v: SpecAnnotation) -> bool {
        true
    }

    open spec fn encode_requires(v: SpecAnnotation) -> bool {
        true
    }

    fn encode<B: BufMut>(&self, buf: &mut B) -> (r: Result<(), Error>) {
        let ghost b0 = *buf;
        let ghost total = spec_encode_annotation(self@);
        proof {
            lemma_progress_start(b0);
            assert(Seq::<u8>::empty() + total =~= total);
        }
        put_annotation(buf, self, Ghost(b0), Ghost(Seq::empty()), Ghost(total))
    }
}

impl<'de> Codec<'de> for Annotation {
    open spec fn wf(v: SpecAnnotation) -> bool {
        annotation_wf(v)
    }

    proof fn lemma_codec(v: SpecAnnotation, rest: Seq<u8>) {
        lemma_annotation_codec(v, rest);
    }
}

impl ElementValue {
    /// Writes this value into the given buffer.
    pub fn write<B: BufMut>(&self, buf: &mut B) -> (r: Result<(), Error>)
        ensures
            encode_post(*old(buf), *final(buf), true, spec_encode_value(self@), r),
    {
        self.encode(buf)
    }

    /// Reads a value from the given buffer.
    pub fn read<'a, B: Buf<'a>>(buf: &mut B) -> (r: Result<ElementValue, Error>)
        ensures
            suffix(old(buf)@, final(buf)@),
            match r {
                Ok(v) => spec_decode_value(old(buf)@) == Ok::<(SpecElementValue, int), Error>(
                    (v@, old(buf)@.len() - final(buf)@.len()),
                ),
                Err(e) => spec_decode_value(old(buf)@) == Err::<(SpecElementValue, int), Error>(e),
            },
    {
        decode_value(buf)
    }
}

/// Name of `RuntimeInvisibleAnnotations` attribute. See [`RuntimeInvisibleAnnotationsReader`] and [`RuntimeInvisibleAnnotationsWriter`] for usage.
pub const NAME_RUNTIME_INVISIBLE_ANNOTATIONS: &'static str = "RuntimeInvisibleAnnotations";

/// Reader of `RuntimeInvisibleAnnotations` attribute.
pub type RuntimeInvisibleAnnotationsReader<'a, B> = ArrayReader<'a, B, Annotation>;

/// Writer of `RuntimeInvisibleAnnotations` attribute.
pub type RuntimeInvisibleAnnotationsWriter<B> = ArrayWriter<B, Annotation>;

/// Name of `AnnotationDefault` attribute. It's represented by [`ElementValue`].
pub const NAME_ANNOTATION_DEFAULT: &'static str = "AnnotationDefault";

} // verus!
