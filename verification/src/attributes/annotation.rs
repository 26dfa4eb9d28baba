//! Type annotations: their targets, type paths, and the parameter annotations.
use vstd::prelude::*;

use super::array::{ArrayReader, ArrayReaderU8, ArrayWriter, ArrayWriterU8};
use super::element::{
    decode_pairs, lemma_pairs_codec, lemma_pairs_view_len, lemma_prefix_piece, pairs_view,
    pairs_wf, put_pairs, spec_decode_pairs, spec_encode_pairs, Annotation, ElementValue,
    SpecAnnotation, SpecElementValue,
};
use crate::list::{
    decode_seq_requires, all_encodable, all_wf, decode_list16, decode_list8, lemma_codec_list16, lemma_codec_list8,
    lemma_seq_requires, list16_requires, list8_requires, put_list16, put_list8,
    spec_decode_list16, spec_decode_list8, spec_encode_list16, spec_encode_list8, views,
};
use super::debug::{LocalVariable, TypedLocalVariable};
use crate::reader::suffix;
#[allow(unused_imports)]
use crate::util::{lemma_progress_start, put, u16_at, Buf, BufMut, Codec, Decode, Encode};
use crate::{Error, NonZeroU16};

verus! {

/// Kind of [`AnnotationTarget::TypeParameter`].
#[derive(Debug, Clone, Copy, PartialEq, Eq, PartialOrd, Ord, Hash)]
pub enum TypeParameterKind {
    /// Type parameter declaration of generic class or interface.
    Class,
    /// Type parameter declaration of generic method or constructor.
    Method,
}

/// The place of `k` among the kinds, counted from zero.
pub open spec fn spec_type_param_kind_index(k: TypeParameterKind) -> u8 {
    match k {
        TypeParameterKind::Class => 0,
        TypeParameterKind::Method => 1,
    }
}

/// The kind at place `i`; the last kind for a place past the end.
pub open spec fn spec_type_param_kind_at(i: u8) -> TypeParameterKind {
    if i == 0 {
        TypeParameterKind::Class
    } else {
        TypeParameterKind::Method
    }
}

fn type_param_kind_index(k: TypeParameterKind) -> (r: u8)
    ensures
        r == spec_type_param_kind_index(k),
        r < 2,
{
    match k {
        TypeParameterKind::Class => 0,
        TypeParameterKind::Method => 1,
    }
}

fn type_param_kind_at(i: u8) -> (r: TypeParameterKind)
    ensures
        r == spec_type_param_kind_at(i),
{
    if i == 0 {
        TypeParameterKind::Class
    } else {
        TypeParameterKind::Method
    }
}

proof fn lemma_type_param_kind(k: TypeParameterKind)
    ensures
        spec_type_param_kind_at(spec_type_param_kind_index(k)) == k,
        spec_type_param_kind_index(k) < 2,
{
}

/// Kind of [`AnnotationTarget::Empty`].
#[derive(Debug, Clone, Copy, PartialEq, Eq, PartialOrd, Ord, Hash)]
pub enum EmptyAnnotationKind {
    /// Type in field or record component declaration.
    Field,
    /// Return type of method, or type of newly constructed object.
    Return,
    /// Receiver type of method or constructor.
    Receiver,
}

/// The place of `k` among the kinds, counted from zero.
pub open spec fn spec_empty_kind_index(k: EmptyAnnotationKind) -> u8 {
    match k {
        EmptyAnnotationKind::Field => 0,
        EmptyAnnotationKind::Return => 1,
        EmptyAnnotationKind::Receiver => 2,
    }
}

/// The kind at place `i`; the last kind for a place past the end.
pub open spec fn spec_empty_kind_at(i: u8) -> EmptyAnnotationKind {
    if i == 0 {
        EmptyAnnotationKind::Field
    } else if i == 1 {
        EmptyAnnotationKind::Return
    } else {
        EmptyAnnotationKind::Receiver
    }
}

fn empty_kind_index(k: EmptyAnnotationKind) -> (r: u8)
    ensures
        r == spec_empty_kind_index(k),
        r < 3,
{
    match k {
        EmptyAnnotationKind::Field => 0,
        EmptyAnnotationKind::Return => 1,
        EmptyAnnotationKind::Receiver => 2,
    }
}

fn empty_kind_at(i: u8) -> (r: EmptyAnnotationKind)
    ensures
        r == spec_empty_kind_at(i),
{
    if i == 0 {
        EmptyAnnotationKind::Field
    } else if i == 1 {
        EmptyAnnotationKind::Return
    } else {
        EmptyAnnotationKind::Receiver
    }
}

proof fn lemma_empty_kind(k: EmptyAnnotationKind)
    ensures
        spec_empty_kind_at(spec_empty_kind_index(k)) == k,
        spec_empty_kind_index(k) < 3,
{
}

/// Kind of [`AnnotationTarget::LocalVar`].
#[derive(Debug, Clone, Copy, PartialEq, Eq, PartialOrd, Ord, Hash)]
pub enum LocalVarKind {
    /// Type in local variable declaration.
    Local,
    /// Type in resource variable declaration.
    Resource,
}

/// The place of `k` among the kinds, counted from zero.
pub open spec fn spec_local_var_kind_index(k: LocalVarKind) -> u8 {
    match k {
        LocalVarKind::Local => 0,
        LocalVarKind::Resource => 1,
    }
}

/// The kind at place `i`; the last kind for a place past the end.
pub open spec fn spec_local_var_kind_at(i: u8) -> LocalVarKind {
    if i == 0 {
        LocalVarKind::Local
    } else {
        LocalVarKind::Resource
    }
}

fn local_var_kind_index(k: LocalVarKind) -> (r: u8)
    ensures
        r == spec_local_var_kind_index(k),
        r < 2,
{
    match k {
        LocalVarKind::Local => 0,
        LocalVarKind::Resource => 1,
    }
}

fn local_var_kind_at(i: u8) -> (r: LocalVarKind)
    ensures
        r == spec_local_var_kind_at(i),
{
    if i == 0 {
        LocalVarKind::Local
    } else {
        LocalVarKind::Resource
    }
}

proof fn lemma_local_var_kind(k: LocalVarKind)
    ensures
        spec_local_var_kind_at(spec_local_var_kind_index(k)) == k,
        spec_local_var_kind_index(k) < 2,
{
}

/// Kind of [`AnnotationTarget::Offset`].
#[derive(Debug, Clone, Copy, PartialEq, Eq, PartialOrd, Ord, Hash)]
pub enum OffsetAnnotationKind {
    /// Type in `instanceof` expression.
    InstanceOf,
    /// Type in `new` expression.
    New,
    /// Type in method reference expression using `::new`.
    MethodRefNew,
    /// Type in method reference expression using `::Identifier`.
    MethodRefIdent,
}

/// The place of `k` among the kinds, counted from zero.
pub open spec fn spec_offset_kind_index(k: OffsetAnnotationKind) -> u8 {
    match k {
        OffsetAnnotationKind::InstanceOf => 0,
        OffsetAnnotationKind::New => 1,
        OffsetAnnotationKind::MethodRefNew => 2,
        OffsetAnnotationKind::MethodRefIdent => 3,
    }
}

/// The kind at place `i`; the last kind for a place past the end.
pub open spec fn spec_offset_kind_at(i: u8) -> OffsetAnnotationKind {
    if i == 0 {
        OffsetAnnotationKind::InstanceOf
    } else if i == 1 {
        OffsetAnnotationKind::New
    } else if i == 2 {
        OffsetAnnotationKind::MethodRefNew
    } else {
        OffsetAnnotationKind::MethodRefIdent
    }
}

fn offset_kind_index(k: OffsetAnnotationKind) -> (r: u8)
    ensures
        r == spec_offset_kind_index(k),
        r < 4,
{
    match k {
        OffsetAnnotationKind::InstanceOf => 0,
        OffsetAnnotationKind::New => 1,
        OffsetAnnotationKind::MethodRefNew => 2,
        OffsetAnnotationKind::MethodRefIdent => 3,
    }
}

fn offset_kind_at(i: u8) -> (r: OffsetAnnotationKind)
    ensures
        r == spec_offset_kind_at(i),
{
    if i == 0 {
        OffsetAnnotationKind::InstanceOf
    } else if i == 1 {
        OffsetAnnotationKind::New
    } else if i == 2 {
        OffsetAnnotationKind::MethodRefNew
    } else {
        OffsetAnnotationKind::MethodRefIdent
    }
}

proof fn lemma_offset_kind(k: OffsetAnnotationKind)
    ensures
        spec_offset_kind_at(spec_offset_kind_index(k)) == k,
        spec_offset_kind_index(k) < 4,
{
}

/// Kind of [`AnnotationTarget::TypeArgument`].
#[derive(Debug, Clone, Copy, PartialEq, Eq, PartialOrd, Ord, Hash)]
pub enum TypeArgumentKind {
    /// Type in *cast* expression.
    Cast,
    /// Type argument for generic constructor in `new` expression or
    /// explicit constructor invocation statement.
    New,
    /// Type argument for generic method in method invocation expression.
    MethodInvocation,
    /// Type argument for generic constructor in method reference expression using `::new`.
    MethodRefNew,
    /// Type argument for generic constructor in method reference expression using `::Identifier`.
    MethodRefIdent,
}

/// The place of `k` among the kinds, counted from zero.
pub open spec fn spec_type_arg_kind_index(k: TypeArgumentKind) -> u8 {
    match k {
        TypeArgumentKind::Cast => 0,
        TypeArgumentKind::New => 1,
        TypeArgumentKind::MethodInvocation => 2,
        TypeArgumentKind::MethodRefNew => 3,
        TypeArgumentKind::MethodRefIdent => 4,
    }
}

/// The kind at place `i`; the last kind for a place past the end.
pub open spec fn spec_type_arg_kind_at(i: u8) -> TypeArgumentKind {
    if i == 0 {
        TypeArgumentKind::Cast
    } else if i == 1 {
        TypeArgumentKind::New
    } else if i == 2 {
        TypeArgumentKind::MethodInvocation
    } else if i == 3 {
        TypeArgumentKind::MethodRefNew
    } else {
        TypeArgumentKind::MethodRefIdent
    }
}

fn type_arg_kind_index(k: TypeArgumentKind) -> (r: u8)
    ensures
        r == spec_type_arg_kind_index(k),
        r < 5,
{
    match k {
        TypeArgumentKind::Cast => 0,
        TypeArgumentKind::New => 1,
        TypeArgumentKind::MethodInvocation => 2,
        TypeArgumentKind::MethodRefNew => 3,
        TypeArgumentKind::MethodRefIdent => 4,
    }
}

fn type_arg_kind_at(i: u8) -> (r: TypeArgumentKind)
    ensures
        r == spec_type_arg_kind_at(i),
{
    if i == 0 {
        TypeArgumentKind::Cast
    } else if i == 1 {
        TypeArgumentKind::New
    } else if i == 2 {
        TypeArgumentKind::MethodInvocation
    } else if i == 3 {
        TypeArgumentKind::MethodRefNew
    } else {
        TypeArgumentKind::MethodRefIdent
    }
}

proof fn lemma_type_arg_kind(k: TypeArgumentKind)
    ensures
        spec_type_arg_kind_at(spec_type_arg_kind_index(k)) == k,
        spec_type_arg_kind_index(k) < 5,
{
}

/// Specifies a local variable whose type is annotated.
#[derive(Debug, PartialEq, Eq, Hash)]
pub struct LocalVarTableEntry {
    /// The interval where the given local variable has a value at indices in the `code` array.
    pub indices: core::ops::Range<u16>,
    /// Index into the local variable array of the current frame.
    /// The given local variable is at `index` in the local variable array of the current frame.
    /// 
    /// If the given local variable is of type `double` or `long`, it occupies both `index` and `index + 1`.
    pub index: u16,
}

impl Clone for LocalVarTableEntry {
    fn clone(&self) -> (r: LocalVarTableEntry)
        ensures
            r == *self,
    {
        LocalVarTableEntry {
            indices: core::ops::Range { start: self.indices.start, end: self.indices.end },
            index: self.index,
        }
    }
}

impl View for LocalVarTableEntry {
    type V = LocalVarTableEntry;

    open spec fn view(&self) -> LocalVarTableEntry {
        *self
    }
}

impl<'de> Decode<'de> for LocalVarTableEntry {
    /// The start of the range, its length, then the other fields in order.
    open spec fn spec_decode(s: Seq<u8>) -> Result<(LocalVarTableEntry, int), Error> {
        match u16::spec_decode(s) {
            Err(e) => Err(e),
            Ok((start, n1)) => match u16::spec_decode(s.skip(n1)) {
                Err(e) => Err(e),
                Ok((len, n2)) =>
                    match u16::spec_decode(s.skip(n1).skip(n2)) {
                        Err(e) => Err(e),
                        Ok((index, n3)) =>
                        Ok((LocalVarTableEntry { indices: core::ops::Range { start, end: (start + len) as u16 }, index }, n1 + n2 + n3))
                    }
            },
        }
    }

    /// The end of the range, its start plus its length, must fit in a `u16`.
    open spec fn decode_requires(s: Seq<u8>) -> bool {
        match u16::spec_decode(s) {
            Err(_) => true,
            Ok((start, n1)) => match u16::spec_decode(s.skip(n1)) {
                Err(_) => true,
                Ok((len, _)) => start + len <= u16::MAX,
            },
        }
    }

    fn decode<B: Buf<'de>>(buf: &mut B) -> (r: Result<LocalVarTableEntry, Error>) {
        let start = u16::decode(buf)?;
        let len = u16::decode(buf)?;
        let index = u16::decode(buf)?;
        Ok(LocalVarTableEntry { indices: core::ops::Range { start, end: start + len }, index })
    }
}

/// Whether the range at `bytes[pos..]`, a `u16` start then a `u16` length, ends
/// within a `u16`, as decoding an entry there asks.
fn range_fits_at(bytes: &[u8], pos: usize) -> (r: bool)
    requires
        pos <= bytes.len(),
    ensures
        r == LocalVarTableEntry::decode_requires(bytes@.skip(pos as int)),
{
    let ghost t = bytes@.skip(pos as int);
    if bytes.len() - pos < 4 {
        return true;
    }
    let start: u32 = (bytes[pos] as u32) * 0x100 + (bytes[pos + 1] as u32);
    let len: u32 = (bytes[pos + 2] as u32) * 0x100 + (bytes[pos + 3] as u32);
    proof {
        assert(t[0] == bytes@[pos as int] && t[1] == bytes@[pos + 1]);
        assert(t.skip(2)[0] == bytes@[pos + 2] && t.skip(2)[1] == bytes@[pos + 3]);
        assert(u16_at(t, 0) == start);
        assert(u16_at(t.skip(2), 0) == len);
    }
    start + len <= 0xFFFF
}

/// Whether the range at the front of `bytes`, a `u16` start then a `u16` length,
/// ends within a `u16`: what decoding an entry of a table of local variables, or
/// of the tables of the `LocalVariableTable` and `LocalVariableTypeTable`
/// attributes, asks of its bytes.
pub fn range_fits(bytes: &[u8]) -> (r: bool)
    ensures
        r == LocalVarTableEntry::decode_requires(bytes@),
        r == LocalVariable::decode_requires(bytes@),
        r == TypedLocalVariable::decode_requires(bytes@),
{
    proof {
        assert(bytes@.skip(0) =~= bytes@);
    }
    range_fits_at(bytes, 0)
}

impl Encode for LocalVarTableEntry {
    open spec fn spec_encode(v: LocalVarTableEntry) -> Seq<u8> {
        u16::spec_encode(v.indices.start) + u16::spec_encode((v.indices.end - v.indices.start) as u16) + u16::spec_encode(v.index)
    }

    open spec fn encodable(v: LocalVarTableEntry) -> bool {
        true
    }

    /// The range must not end before it starts.
    open spec fn encode_requires(v: LocalVarTableEntry) -> bool {
        v.indices.start <= v.indices.end
    }

    fn encode<B: BufMut>(&self, buf: &mut B) -> (r: Result<(), Error>) {
        let ghost b0 = *buf;
        let ghost total = Self::spec_encode(*self);
        proof {
            lemma_progress_start(b0);
        }
        let len = self.indices.end - self.indices.start;
        put(buf, &self.indices.start, Ghost(b0), Ghost(Seq::empty()), Ghost(total))?;
        let ghost a1 = Seq::empty() + u16::spec_encode(self.indices.start);
        put(buf, &len, Ghost(b0), Ghost(a1), Ghost(total))?;
        let ghost a2 = a1 + u16::spec_encode(len);
        put(buf, &self.index, Ghost(b0), Ghost(a2), Ghost(total))?;
        let ghost a2_index = a2 + u16::spec_encode(self.index);
        assert(a2_index =~= total);
        Ok(())
    }
}

impl<'de> Codec<'de> for LocalVarTableEntry {
    open spec fn wf(v: LocalVarTableEntry) -> bool {
        v.indices.start <= v.indices.end && u16::wf(v.index)
    }

    proof fn lemma_codec(v: LocalVarTableEntry, rest: Seq<u8>) {
        let e0 = u16::spec_encode(v.indices.start);
        let e1 = u16::spec_encode((v.indices.end - v.indices.start) as u16);
        let e2 = u16::spec_encode(v.index);
        let s = Self::spec_encode(v) + rest;
        assert(s =~= (e0 + (e1 + (e2 + rest))));
        u16::lemma_codec(v.indices.start, (e1 + (e2 + rest)));
        assert((e0 + (e1 + (e2 + rest))).skip(e0.len() as int) =~= (e1 + (e2 + rest)));
        u16::lemma_codec((v.indices.end - v.indices.start) as u16, (e2 + rest));
        assert((e1 + (e2 + rest)).skip(e1.len() as int) =~= (e2 + rest));
        u16::lemma_codec(v.index, rest);
    }
}

/// Specifies precisely which type in a declaration or expression is annotated.
#[derive(Debug, Clone, PartialEq, Eq, Hash)]
pub enum AnnotationTarget {
    /// An annotation appears on the declaration of the `i`'th type parameter of a generic class,
    /// generic interface, generic method, or generic constructor.
    TypeParameter(TypeParameterKind, u8),
    /// An annotation appears on a type in the `extends` or `implements` clause of
    /// a class or interface declaration.
    ///
    /// `None` specifies that the annotation appears on the superclass in an
    /// `extends` clause of a class declaration.
    SuperType(Option<u16>),
    /// An annotation appears on the `i`'th bound of the `j`'th type parameter declaration of
    /// a generic class, interface, method, or constructor.
    TypeParameterBound {
        /// Kind of target.
        kind: TypeParameterKind,
        /// Which type parameter declaration has an annotated bound.
        type_param_idx: u8,
        /// Which bound of the type parameter declaration indicated by `type_parameter_idx` is annotated.
        bound_idx: u8,
    },
    /// An annotation appears on either the type in a:
    ///
    /// - Field declaration
    /// - Type in a record component declaration
    /// - Return type of a method
    /// - Type of a newly constructed object
    /// - Receiver type of a method or constructor.
    Empty(EmptyAnnotationKind),
    /// An annotation appears on the type in a formal parameter declaration of a method,
    /// constructor, or lambda expression.
    FormalParameter(u8),
    /// An annotation appears on the `i`'th type in the throws clause of a method
    /// or constructor declaration.
    Throws(u16),
    /// An annotation appears on the type in a local variable declaration,
    /// including a variable declared as a resource in a `try`-with-resources statement.
    LocalVar(LocalVarKind, Vec<LocalVarTableEntry>),
    /// An annotation appears on the `i`'th type in an exception parameter declaration.
    Catch(u16),
    /// An annotation appears on either the type in an `instanceof` expression or a new expression,
    /// or the type before the `::` in a method reference expression.
    Offset(OffsetAnnotationKind, u16),
    /// An annotation appears either on the `i`'th type in a cast expression, or on the `i`'th type argument
    /// in the explicit type argument list for any of the following:
    ///
    /// - New expression
    /// - Explicit constructor invocation statement
    /// - Method invocation expression
    /// - Method reference expression.
    TypeArgument {
        /// Kind of target.
        kind: TypeArgumentKind,
        /// The `code` array offset.
        offset: u16,
        /// Which type argument is annotated.
        type_arg_idx: u8,
    },
}

/// The value of an [`AnnotationTarget`], with its table of local variables as a sequence.
pub enum SpecAnnotationTarget {
    TypeParameter(TypeParameterKind, u8),
    SuperType(Option<u16>),
    TypeParameterBound { kind: TypeParameterKind, type_param_idx: u8, bound_idx: u8 },
    Empty(EmptyAnnotationKind),
    FormalParameter(u8),
    Throws(u16),
    LocalVar(LocalVarKind, Seq<LocalVarTableEntry>),
    Catch(u16),
    Offset(OffsetAnnotationKind, u16),
    TypeArgument { kind: TypeArgumentKind, offset: u16, type_arg_idx: u8 },
}

impl View for AnnotationTarget {
    type V = SpecAnnotationTarget;

    open spec fn view(&self) -> SpecAnnotationTarget {
        match *self {
            AnnotationTarget::TypeParameter(k, i) => SpecAnnotationTarget::TypeParameter(k, i),
            AnnotationTarget::SuperType(i) => SpecAnnotationTarget::SuperType(i),
            AnnotationTarget::TypeParameterBound { kind, type_param_idx, bound_idx } =>
                SpecAnnotationTarget::TypeParameterBound { kind, type_param_idx, bound_idx },
            AnnotationTarget::Empty(k) => SpecAnnotationTarget::Empty(k),
            AnnotationTarget::FormalParameter(i) => SpecAnnotationTarget::FormalParameter(i),
            AnnotationTarget::Throws(i) => SpecAnnotationTarget::Throws(i),
            AnnotationTarget::LocalVar(k, t) => SpecAnnotationTarget::LocalVar(k, views(t@)),
            AnnotationTarget::Catch(i) => SpecAnnotationTarget::Catch(i),
            AnnotationTarget::Offset(k, o) => SpecAnnotationTarget::Offset(k, o),
            AnnotationTarget::TypeArgument { kind, offset, type_arg_idx } =>
                SpecAnnotationTarget::TypeArgument { kind, offset, type_arg_idx },
        }
    }
}

/// The target type byte of a target.
pub open spec fn spec_target_tag(t: SpecAnnotationTarget) -> u8 {
    match t {
        SpecAnnotationTarget::TypeParameter(k, _) => spec_type_param_kind_index(k),
        SpecAnnotationTarget::SuperType(_) => 0x10,
        SpecAnnotationTarget::TypeParameterBound { kind, .. } => (0x11 + spec_type_param_kind_index(
            kind,
        )) as u8,
        SpecAnnotationTarget::Empty(k) => (0x13 + spec_empty_kind_index(k)) as u8,
        SpecAnnotationTarget::FormalParameter(_) => 0x16,
        SpecAnnotationTarget::Throws(_) => 0x17,
        SpecAnnotationTarget::LocalVar(k, _) => (0x40 + spec_local_var_kind_index(k)) as u8,
        SpecAnnotationTarget::Catch(_) => 0x42,
        SpecAnnotationTarget::Offset(k, _) => (0x43 + spec_offset_kind_index(k)) as u8,
        SpecAnnotationTarget::TypeArgument { kind, .. } => (0x47 + spec_type_arg_kind_index(
            kind,
        )) as u8,
    }
}

/// The fields of a target after its target type byte.
pub open spec fn spec_target_fields(t: SpecAnnotationTarget) -> Seq<u8> {
    match t {
        SpecAnnotationTarget::TypeParameter(_, i) => u8::spec_encode(i),
        SpecAnnotationTarget::SuperType(i) => u16::spec_encode(
            match i {
                Some(x) => x,
                None => u16::MAX,
            },
        ),
        SpecAnnotationTarget::TypeParameterBound { type_param_idx, bound_idx, .. } =>
            u8::spec_encode(type_param_idx) + u8::spec_encode(bound_idx),
        SpecAnnotationTarget::Empty(_) => Seq::empty(),
        SpecAnnotationTarget::FormalParameter(i) => u8::spec_encode(i),
        SpecAnnotationTarget::Throws(i) => u16::spec_encode(i),
        SpecAnnotationTarget::LocalVar(_, t) => spec_encode_list16::<LocalVarTableEntry>(t),
        SpecAnnotationTarget::Catch(i) => u16::spec_encode(i),
        SpecAnnotationTarget::Offset(_, o) => u16::spec_encode(o),
        SpecAnnotationTarget::TypeArgument { offset, type_arg_idx, .. } => u16::spec_encode(offset)
            + u8::spec_encode(type_arg_idx),
    }
}

/// Decoding the fields of a target with target type byte `tag`.
pub open spec fn spec_decode_target_fields(tag: u8, r: Seq<u8>) -> Result<(SpecAnnotationTarget, int), Error> {
    if tag <= 0x01 {
        match u8::spec_decode(r) {
            Err(e) => Err(e),
            Ok((i, m)) => Ok((SpecAnnotationTarget::TypeParameter(spec_type_param_kind_at(tag), i), m)),
        }
    } else if tag == 0x10 {
        match u16::spec_decode(r) {
            Err(e) => Err(e),
            Ok((i, m)) => Ok((
                SpecAnnotationTarget::SuperType(if i == u16::MAX { None } else { Some(i) }),
                m,
            )),
        }
    } else if 0x11 <= tag <= 0x12 {
        match u8::spec_decode(r) {
            Err(e) => Err(e),
            Ok((a, m1)) => match u8::spec_decode(r.skip(m1)) {
                Err(e) => Err(e),
                Ok((b, m2)) => Ok((
                    SpecAnnotationTarget::TypeParameterBound {
                        kind: spec_type_param_kind_at((tag - 0x11) as u8),
                        type_param_idx: a,
                        bound_idx: b,
                    },
                    m1 + m2,
                )),
            },
        }
    } else if 0x13 <= tag <= 0x15 {
        Ok((SpecAnnotationTarget::Empty(spec_empty_kind_at((tag - 0x13) as u8)), 0))
    } else if tag == 0x16 {
        match u8::spec_decode(r) {
            Err(e) => Err(e),
            Ok((i, m)) => Ok((SpecAnnotationTarget::FormalParameter(i), m)),
        }
    } else if tag == 0x17 {
        match u16::spec_decode(r) {
            Err(e) => Err(e),
            Ok((i, m)) => Ok((SpecAnnotationTarget::Throws(i), m)),
        }
    } else if 0x40 <= tag <= 0x41 {
        match spec_decode_list16::<LocalVarTableEntry>(r) {
            Err(e) => Err(e),
            Ok((t, m)) => Ok((
                SpecAnnotationTarget::LocalVar(spec_local_var_kind_at((tag - 0x40) as u8), t),
                m,
            )),
        }
    } else if tag == 0x42 {
        match u16::spec_decode(r) {
            Err(e) => Err(e),
            Ok((i, m)) => Ok((SpecAnnotationTarget::Catch(i), m)),
        }
    } else if 0x43 <= tag <= 0x46 {
        match u16::spec_decode(r) {
            Err(e) => Err(e),
            Ok((o, m)) => Ok((
                SpecAnnotationTarget::Offset(spec_offset_kind_at((tag - 0x43) as u8), o),
                m,
            )),
        }
    } else if 0x47 <= tag <= 0x4B {
        match u16::spec_decode(r) {
            Err(e) => Err(e),
            Ok((o, m1)) => match u8::spec_decode(r.skip(m1)) {
                Err(e) => Err(e),
                Ok((i, m2)) => Ok((
                    SpecAnnotationTarget::TypeArgument {
                        kind: spec_type_arg_kind_at((tag - 0x47) as u8),
                        offset: o,
                        type_arg_idx: i,
                    },
                    m1 + m2,
                )),
            },
        }
    } else {
        Err(Error::UnknownAnnotationTargetType(tag))
    }
}

/// Reads the fields of a target with target type byte `tag`.
#[verifier::rlimit(40)]
fn decode_target_fields<'de, B: Buf<'de>>(tag: u8, buf: &mut B) -> (r: Result<AnnotationTarget, Error>)
    requires
        0x40 <= tag <= 0x41 ==> list16_requires::<LocalVarTableEntry>(old(buf)@),
    ensures
        suffix(old(buf)@, final(buf)@),
        match r {
            Ok(t) => spec_decode_target_fields(tag, old(buf)@) == Ok::<(SpecAnnotationTarget, int), Error>(
                (t@, old(buf)@.len() - final(buf)@.len()),
            ),
            Err(e) => spec_decode_target_fields(tag, old(buf)@) == Err::<
                (SpecAnnotationTarget, int),
                Error,
            >(e),
        },
{
    let ghost s0 = buf@;
    if tag <= 0x01 {
        let i = u8::decode(buf)?;
        Ok(AnnotationTarget::TypeParameter(type_param_kind_at(tag), i))
    } else if tag == 0x10 {
        let i = u16::decode(buf)?;
        Ok(AnnotationTarget::SuperType(if i == u16::MAX { None } else { Some(i) }))
    } else if 0x11 <= tag && tag <= 0x12 {
        let type_param_idx = u8::decode(buf)?;
        let bound_idx = u8::decode(buf)?;
        Ok(AnnotationTarget::TypeParameterBound {
            kind: type_param_kind_at(tag - 0x11),
            type_param_idx,
            bound_idx,
        })
    } else if 0x13 <= tag && tag <= 0x15 {
        proof {
            assert(s0.skip(0) =~= s0);
        }
        Ok(AnnotationTarget::Empty(empty_kind_at(tag - 0x13)))
    } else if tag == 0x16 {
        let i = u8::decode(buf)?;
        Ok(AnnotationTarget::FormalParameter(i))
    } else if tag == 0x17 {
        let i = u16::decode(buf)?;
        Ok(AnnotationTarget::Throws(i))
    } else if 0x40 <= tag && tag <= 0x41 {
        let t = decode_list16::<LocalVarTableEntry, B>(buf)?;
        Ok(AnnotationTarget::LocalVar(local_var_kind_at(tag - 0x40), t))
    } else if tag == 0x42 {
        let i = u16::decode(buf)?;
        Ok(AnnotationTarget::Catch(i))
    } else if 0x43 <= tag && tag <= 0x46 {
        let o = u16::decode(buf)?;
        Ok(AnnotationTarget::Offset(offset_kind_at(tag - 0x43), o))
    } else if 0x47 <= tag && tag <= 0x4B {
        let offset = u16::decode(buf)?;
        let type_arg_idx = u8::decode(buf)?;
        Ok(AnnotationTarget::TypeArgument { kind: type_arg_kind_at(tag - 0x47), offset, type_arg_idx })
    } else {
        proof {
            assert(s0.skip(0) =~= s0);
        }
        Err(Error::UnknownAnnotationTargetType(tag))
    }
}

impl<'de> Decode<'de> for AnnotationTarget {
    /// A target type byte, then the fields of the kind of target that it stands for.
    open spec fn spec_decode(s: Seq<u8>) -> Result<(SpecAnnotationTarget, int), Error> {
        match u8::spec_decode(s) {
            Err(e) => Err(e),
            Ok((tag, n)) => match spec_decode_target_fields(tag, s.skip(n)) {
                Err(e) => Err(e),
                Ok((t, m)) => Ok((t, n + m)),
            },
        }
    }

    /// The ranges of a table of local variables must not end past `u16::MAX`.
    open spec fn decode_requires(s: Seq<u8>) -> bool {
        match u8::spec_decode(s) {
            Err(_) => true,
            Ok((tag, n)) => 0x40 <= tag <= 0x41 ==> list16_requires::<LocalVarTableEntry>(
                s.skip(n),
            ),
        }
    }

    fn decode<B: Buf<'de>>(buf: &mut B) -> (r: Result<AnnotationTarget, Error>) {
        let ghost s0 = buf@;
        let tag = u8::decode(buf)?;
        let ghost s1 = buf@;
        let t = decode_target_fields(tag, buf)?;
        proof {
            assert(s0.skip(1) == s1);
            assert(s0.skip(s0.len() - buf@.len()) =~= buf@);
        }
        Ok(t)
    }
}

/// Whether `bytes` meet what decoding an annotation target asks of them: where
/// they hold a table of local variables, every range that the table gives ends
/// within a `u16`.
pub fn target_fits(bytes: &[u8]) -> (r: bool)
    ensures
        r == AnnotationTarget::decode_requires(bytes@),
{
    if bytes.len() < 1 || bytes[0] < 0x40 || bytes[0] > 0x41 {
        return true;
    }
    let ghost s = bytes@.skip(1);
    if bytes.len() < 3 {
        return true;
    }
    let n: usize = (bytes[1] as usize) * 0x100 + (bytes[2] as usize);
    proof {
        assert(s[0] == bytes@[1] && s[1] == bytes@[2]);
        assert(u16_at(s, 0) == n);
        assert(s.skip(2) =~= bytes@.skip(3));
    }
    let mut i: usize = 0;
    let mut pos: usize = 3;
    while i < n
        invariant
            s == bytes@.skip(1),
            0x40 <= bytes@[0] <= 0x41,
            s.len() >= 2,
            n == u16_at(s, 0),
            i <= n,
            3 <= pos <= bytes.len(),
            list16_requires::<LocalVarTableEntry>(s)
                == decode_seq_requires::<LocalVarTableEntry>(bytes@.skip(pos as int), (n - i) as nat),
        decreases n - i,
    {
        let ghost t = bytes@.skip(pos as int);
        let ghost k = (n - i) as nat;
        if !range_fits_at(bytes, pos) {
            assert(!decode_seq_requires::<LocalVarTableEntry>(t, k));
            return false;
        }
        if bytes.len() - pos < 6 {
            assert(LocalVarTableEntry::spec_decode(t) is Err);
            assert(decode_seq_requires::<LocalVarTableEntry>(t, k));
            return true;
        }
        proof {
            assert(t.skip(2).skip(2).skip(2) =~= bytes@.skip(pos + 6));
            assert(t.skip(2).skip(2).skip(2) =~= t.skip(6));
            assert(LocalVarTableEntry::spec_decode(t) matches Ok((_, m)) && m == 6);
            assert(decode_seq_requires::<LocalVarTableEntry>(t, k)
                == decode_seq_requires::<LocalVarTableEntry>(t.skip(6), (k - 1) as nat));
        }
        pos = pos + 6;
        i = i + 1;
    }
    true
}

impl Encode for AnnotationTarget {
    open spec fn spec_encode(v: SpecAnnotationTarget) -> Seq<u8> {
        u8::spec_encode(spec_target_tag(v)) + spec_target_fields(v)
    }

    open spec fn encodable(v: SpecAnnotationTarget) -> bool {
        true
    }

    /// The ranges of a table of local variables must not end before they start.
    open spec fn encode_requires(v: SpecAnnotationTarget) -> bool {
        match v {
            SpecAnnotationTarget::LocalVar(_, t) => all_encodable::<LocalVarTableEntry>(t),
            _ => true,
        }
    }

    #[verifier::rlimit(40)]
    fn encode<B: BufMut>(&self, buf: &mut B) -> (r: Result<(), Error>) {
        let ghost b0 = *buf;
        let ghost total = Self::spec_encode(self@);
        proof {
            lemma_progress_start(b0);
        }
        let tag: u8 = match self {
            AnnotationTarget::TypeParameter(k, _) => type_param_kind_index(*k),
            AnnotationTarget::SuperType(_) => 0x10,
            AnnotationTarget::TypeParameterBound { kind, .. } => 0x11 + type_param_kind_index(*kind),
            AnnotationTarget::Empty(k) => 0x13 + empty_kind_index(*k),
            AnnotationTarget::FormalParameter(_) => 0x16,
            AnnotationTarget::Throws(_) => 0x17,
            AnnotationTarget::LocalVar(k, _) => 0x40 + local_var_kind_index(*k),
            AnnotationTarget::Catch(_) => 0x42,
            AnnotationTarget::Offset(k, _) => 0x43 + offset_kind_index(*k),
            AnnotationTarget::TypeArgument { kind, .. } => 0x47 + type_arg_kind_index(*kind),
        };
        let ghost a1 = Seq::empty() + u8::spec_encode(tag);
        proof {
            assert(total =~= a1 + spec_target_fields(self@));
            assert(a1.is_prefix_of(total)) by {
                assert(a1 =~= total.subrange(0, a1.len() as int));
            }
        }
        put(buf, &tag, Ghost(b0), Ghost(Seq::empty()), Ghost(total))?;
        match self {
            AnnotationTarget::TypeParameter(_, i) => {
                put(buf, i, Ghost(b0), Ghost(a1), Ghost(total))?;
                assert(a1 + u8::spec_encode(*i) =~= total);
            },
            AnnotationTarget::SuperType(i) => {
                let x: u16 = match i {
                    Some(x) => *x,
                    None => u16::MAX,
                };
                put(buf, &x, Ghost(b0), Ghost(a1), Ghost(total))?;
                assert(a1 + u16::spec_encode(x) =~= total);
            },
            AnnotationTarget::TypeParameterBound { type_param_idx, bound_idx, .. } => {
                put(buf, type_param_idx, Ghost(b0), Ghost(a1), Ghost(total))?;
                put(buf, bound_idx, Ghost(b0), Ghost(a1 + u8::spec_encode(*type_param_idx)), Ghost(total))?;
                assert(a1 + u8::spec_encode(*type_param_idx) + u8::spec_encode(*bound_idx) =~= total);
            },
            AnnotationTarget::Empty(_) => {
                assert(a1 =~= total);
            },
            AnnotationTarget::FormalParameter(i) => {
                put(buf, i, Ghost(b0), Ghost(a1), Ghost(total))?;
                assert(a1 + u8::spec_encode(*i) =~= total);
            },
            AnnotationTarget::Throws(i) => {
                put(buf, i, Ghost(b0), Ghost(a1), Ghost(total))?;
                assert(a1 + u16::spec_encode(*i) =~= total);
            },
            AnnotationTarget::LocalVar(_, t) => {
                put_list16(buf, t.as_slice(), Ghost(b0), Ghost(a1), Ghost(total))?;
                assert(a1 + spec_encode_list16::<LocalVarTableEntry>(views(t@)) =~= total);
            },
            AnnotationTarget::Catch(i) => {
                put(buf, i, Ghost(b0), Ghost(a1), Ghost(total))?;
                assert(a1 + u16::spec_encode(*i) =~= total);
            },
            AnnotationTarget::Offset(_, o) => {
                put(buf, o, Ghost(b0), Ghost(a1), Ghost(total))?;
                assert(a1 + u16::spec_encode(*o) =~= total);
            },
            AnnotationTarget::TypeArgument { offset, type_arg_idx, .. } => {
                put(buf, offset, Ghost(b0), Ghost(a1), Ghost(total))?;
                put(buf, type_arg_idx, Ghost(b0), Ghost(a1 + u16::spec_encode(*offset)), Ghost(total))?;
                assert(a1 + u16::spec_encode(*offset) + u8::spec_encode(*type_arg_idx) =~= total);
            },
        }
        Ok(())
    }
}

impl<'de> Codec<'de> for AnnotationTarget {
    /// The target is one that decoding gives: a super type is not `u16::MAX`, and
    /// a table of local variables fits its count.
    open spec fn wf(v: SpecAnnotationTarget) -> bool {
        match v {
            SpecAnnotationTarget::SuperType(Some(i)) => i != u16::MAX,
            SpecAnnotationTarget::LocalVar(_, t) => t.len() <= u16::MAX && all_wf::<
                LocalVarTableEntry,
            >(t),
            _ => true,
        }
    }

    #[verifier::rlimit(40)]
    proof fn lemma_codec(v: SpecAnnotationTarget, rest: Seq<u8>) {
        let tag = spec_target_tag(v);
        let f = spec_target_fields(v);
        let s = Self::spec_encode(v) + rest;
        assert(s =~= u8::spec_encode(tag) + (f + rest));
        u8::lemma_codec(tag, f + rest);
        assert(s.skip(1) =~= f + rest);
        lemma_target_fields(v, rest);
    }
}

/// Decoding the fields of a well-formed target, after its target type byte,
/// gives it back.
#[verifier::rlimit(40)]
proof fn lemma_target_fields(v: SpecAnnotationTarget, rest: Seq<u8>)
    requires
        AnnotationTarget::wf(v),
        AnnotationTarget::encodable(v),
    ensures
        spec_decode_target_fields(spec_target_tag(v), spec_target_fields(v) + rest) == Ok::<
            (SpecAnnotationTarget, int),
            Error,
        >((v, spec_target_fields(v).len() as int)),
{
    let f = spec_target_fields(v);
    match v {
        SpecAnnotationTarget::TypeParameter(k, i) => {
            lemma_type_param_kind(k);
            u8::lemma_codec(i, rest);
        },
        SpecAnnotationTarget::SuperType(i) => {
            let x: u16 = match i {
                Some(x) => x,
                None => u16::MAX,
            };
            u16::lemma_codec(x, rest);
        },
        SpecAnnotationTarget::TypeParameterBound { kind, type_param_idx, bound_idx } => {
            lemma_type_param_kind(kind);
            assert(f + rest =~= u8::spec_encode(type_param_idx) + (u8::spec_encode(bound_idx) + rest));
            u8::lemma_codec(type_param_idx, u8::spec_encode(bound_idx) + rest);
            assert((f + rest).skip(1) =~= u8::spec_encode(bound_idx) + rest);
            u8::lemma_codec(bound_idx, rest);
        },
        SpecAnnotationTarget::Empty(k) => {
            lemma_empty_kind(k);
        },
        SpecAnnotationTarget::FormalParameter(i) => {
            u8::lemma_codec(i, rest);
        },
        SpecAnnotationTarget::Throws(i) => {
            u16::lemma_codec(i, rest);
        },
        SpecAnnotationTarget::LocalVar(k, t) => {
            lemma_local_var_kind(k);
            assert(all_encodable::<LocalVarTableEntry>(t));
            lemma_codec_list16::<LocalVarTableEntry>(t, rest);
        },
        SpecAnnotationTarget::Catch(i) => {
            u16::lemma_codec(i, rest);
        },
        SpecAnnotationTarget::Offset(k, o) => {
            lemma_offset_kind(k);
            u16::lemma_codec(o, rest);
        },
        SpecAnnotationTarget::TypeArgument { kind, offset, type_arg_idx } => {
            lemma_type_arg_kind(kind);
            assert(f + rest =~= u16::spec_encode(offset) + (u8::spec_encode(type_arg_idx) + rest));
            u16::lemma_codec(offset, u8::spec_encode(type_arg_idx) + rest);
            assert((f + rest).skip(2) =~= u8::spec_encode(type_arg_idx) + rest);
            u8::lemma_codec(type_arg_idx, rest);
        },
    }
}

/// Entry of `type_path` in a [`TypedAnnotation`].
#[derive(Debug, Clone, Copy, PartialEq, Eq, PartialOrd, Ord, Hash)]
pub enum TypePathEntry {
    /// Annotation is deeper in an array type.
    Array,
    /// Annotation is deeper in a nested type.
    Nested,
    /// Annotation is on the bound of a wildcard type argument of a parameterized type.
    Wildcard,
    /// Annotation is on a type argument of a parameterized type.
    Argument(u8),
}

impl View for TypePathEntry {
    type V = TypePathEntry;

    open spec fn view(&self) -> TypePathEntry {
        *self
    }
}

/// The kind byte of an entry of a type path.
pub open spec fn spec_path_kind(e: TypePathEntry) -> u8 {
    match e {
        TypePathEntry::Array => 0,
        TypePathEntry::Nested => 1,
        TypePathEntry::Wildcard => 2,
        TypePathEntry::Argument(_) => 3,
    }
}

/// The index byte of an entry of a type path: zero but for a type argument.
pub open spec fn spec_path_index(e: TypePathEntry) -> u8 {
    match e {
        TypePathEntry::Argument(i) => i,
        _ => 0,
    }
}

impl<'de> Decode<'de> for TypePathEntry {
    /// A kind byte and an index byte; the index counts only for a type argument.
    open spec fn spec_decode(s: Seq<u8>) -> Result<(TypePathEntry, int), Error> {
        match u8::spec_decode(s) {
            Err(e) => Err(e),
            Ok((tag, n1)) => match u8::spec_decode(s.skip(n1)) {
                Err(e) => Err(e),
                Ok((idx, n2)) => if tag == 0 {
                    Ok((TypePathEntry::Array, n1 + n2))
                } else if tag == 1 {
                    Ok((TypePathEntry::Nested, n1 + n2))
                } else if tag == 2 {
                    Ok((TypePathEntry::Wildcard, n1 + n2))
                } else if tag == 3 {
                    Ok((TypePathEntry::Argument(idx), n1 + n2))
                } else {
                    Err(Error::UnknownTypePathKind(tag))
                },
            },
        }
    }

    open spec fn decode_requires(s: Seq<u8>) -> bool {
        true
    }

    fn decode<B: Buf<'de>>(buf: &mut B) -> (r: Result<TypePathEntry, Error>) {
        let tag = u8::decode(buf)?;
        let idx = u8::decode(buf)?;
        match tag {
            0 => Ok(TypePathEntry::Array),
            1 => Ok(TypePathEntry::Nested),
            2 => Ok(TypePathEntry::Wildcard),
            3 => Ok(TypePathEntry::Argument(idx)),
            _ => Err(Error::UnknownTypePathKind(tag)),
        }
    }
}

impl Encode for TypePathEntry {
    open spec fn spec_encode(v: TypePathEntry) -> Seq<u8> {
        u8::spec_encode(spec_path_kind(v)) + u8::spec_encode(spec_path_index(v))
    }

    open spec fn encodable(v: TypePathEntry) -> bool {
        true
    }

    open spec fn encode_requires(v: TypePathEntry) -> bool {
        true
    }

    fn encode<B: BufMut>(&self, buf: &mut B) -> (r: Result<(), Error>) {
        let ghost b0 = *buf;
        let ghost total = Self::spec_encode(*self);
        proof {
            lemma_progress_start(b0);
        }
        let mut idx: u8 = 0;
        let tag: u8 = match self {
            TypePathEntry::Array => 0,
            TypePathEntry::Nested => 1,
            TypePathEntry::Wildcard => 2,
            TypePathEntry::Argument(i) => {
                idx = *i;
                3
            },
        };
        put(buf, &tag, Ghost(b0), Ghost(Seq::empty()), Ghost(total))?;
        let ghost a1 = Seq::empty() + u8::spec_encode(tag);
        put(buf, &idx, Ghost(b0), Ghost(a1), Ghost(total))?;
        assert(a1 + u8::spec_encode(idx) =~= total);
        Ok(())
    }
}

impl<'de> Codec<'de> for TypePathEntry {
    open spec fn wf(v: TypePathEntry) -> bool {
        true
    }

    proof fn lemma_codec(v: TypePathEntry, rest: Seq<u8>) {
        let e1 = u8::spec_encode(spec_path_kind(v));
        let e2 = u8::spec_encode(spec_path_index(v));
        let s = Self::spec_encode(v) + rest;
        assert(s =~= e1 + (e2 + rest));
        u8::lemma_codec(spec_path_kind(v), e2 + rest);
        assert(s.skip(1) =~= e2 + rest);
        u8::lemma_codec(spec_path_index(v), rest);
    }
}

/// A single runtime visible annotation on a type used in a declaration or expression.
#[derive(Debug, PartialEq, Eq, Hash)]
pub struct TypedAnnotation {
    /// Which type in a declaration or expression is annotated.
    pub target: AnnotationTarget,
    /// Which part of the type is annotated.
    pub type_path: Vec<TypePathEntry>,
    /// The field descriptor (`Utf8`) index in constant pool.
    pub type_idx: NonZeroU16,
    /// Element-value pairs in the annotation represented by this annotation structure.
    ///
    /// The index is for the name of element of that value (`Utf8`) in constant pool.
    pub pairs: Vec<(NonZeroU16, ElementValue)>,
}

/// The value of a [`TypedAnnotation`], with its lists as sequences.
pub struct SpecTypedAnnotation {
    pub target: SpecAnnotationTarget,
    pub type_path: Seq<TypePathEntry>,
    pub type_idx: NonZeroU16,
    pub pairs: Seq<(NonZeroU16, SpecElementValue)>,
}

impl View for TypedAnnotation {
    type V = SpecTypedAnnotation;

    open spec fn view(&self) -> SpecTypedAnnotation {
        SpecTypedAnnotation {
            target: self.target@,
            type_path: views(self.type_path@),
            type_idx: self.type_idx,
            pairs: pairs_view(self.pairs@),
        }
    }
}

/// Reading entries of a type path needs nothing of the bytes.
proof fn lemma_path_requires(s: Seq<u8>)
    ensures
        list8_requires::<TypePathEntry>(s),
{
    match u8::spec_decode(s) {
        Ok((n, k)) => {
            assert forall|t: Seq<u8>| TypePathEntry::decode_requires(t) by {}
            lemma_seq_requires::<TypePathEntry>(s.skip(k), n as nat);
        },
        Err(_) => {},
    }
}

impl<'de> Decode<'de> for TypedAnnotation {
    /// The target, a type path with a one-byte count, the type index, then a
    /// `u16` count and that many element-value pairs.
    open spec fn spec_decode(s: Seq<u8>) -> Result<(SpecTypedAnnotation, int), Error> {
        match AnnotationTarget::spec_decode(s) {
            Err(e) => Err(e),
            Ok((target, n1)) => match spec_decode_list8::<TypePathEntry>(s.skip(n1)) {
                Err(e) => Err(e),
                Ok((type_path, n2)) => match NonZeroU16::spec_decode(s.skip(n1).skip(n2)) {
                    Err(e) => Err(e),
                    Ok((type_idx, n3)) => match u16::spec_decode(s.skip(n1).skip(n2).skip(n3)) {
                        Err(e) => Err(e),
                        Ok((count, n4)) => match spec_decode_pairs(
                            s.skip(n1).skip(n2).skip(n3).skip(n4),
                            count as nat,
                        ) {
                            Err(e) => Err(e),
                            Ok((pairs, n5)) => Ok((
                                SpecTypedAnnotation { target, type_path, type_idx, pairs },
                                n1 + n2 + n3 + n4 + n5,
                            )),
                        },
                    },
                },
            },
        }
    }

    /// What decoding the target needs.
    open spec fn decode_requires(s: Seq<u8>) -> bool {
        AnnotationTarget::decode_requires(s)
    }

    #[verifier::spinoff_prover]
    fn decode<B: Buf<'de>>(buf: &mut B) -> (r: Result<TypedAnnotation, Error>) {
        let ghost s0 = buf@;
        let target = AnnotationTarget::decode(buf)?;
        let ghost s1 = buf@;
        proof {
            lemma_path_requires(s1);
        }
        let type_path = decode_list8::<TypePathEntry, B>(buf)?;
        let ghost s2 = buf@;
        let type_idx = NonZeroU16::decode(buf)?;
        let ghost s3 = buf@;
        let count = u16::decode(buf)?;
        let ghost s4 = buf@;
        let pairs = decode_pairs(buf, count)?;
        proof {
            assert(s0.skip(s0.len() - s1.len()) == s1);
            assert(s1.skip(s1.len() - s2.len()) == s2);
            assert(s2.skip(2) == s3);
            assert(s3.skip(2) == s4);
            assert(s0.skip(s0.len() - buf@.len()) =~= buf@);
        }
        Ok(TypedAnnotation { target, type_path, type_idx, pairs })
    }
}

impl Encode for TypedAnnotation {
    open spec fn spec_encode(v: SpecTypedAnnotation) -> Seq<u8> {
        AnnotationTarget::spec_encode(v.target) + spec_encode_list8::<TypePathEntry>(v.type_path)
            + NonZeroU16::spec_encode(v.type_idx) + u16::spec_encode(v.pairs.len() as u16)
            + spec_encode_pairs(v.pairs)
    }

    open spec fn encodable(v: SpecTypedAnnotation) -> bool {
        true
    }

    /// What encoding the target needs.
    open spec fn encode_requires(v: SpecTypedAnnotation) -> bool {
        AnnotationTarget::encode_requires(v.target)
    }

    fn encode<B: BufMut>(&self, buf: &mut B) -> (r: Result<(), Error>) {
        let ghost b0 = *buf;
        let ghost total = Self::spec_encode(self@);
        let ghost e1 = AnnotationTarget::spec_encode(self.target@);
        let ghost e2 = spec_encode_list8::<TypePathEntry>(views(self.type_path@));
        let ghost e3 = NonZeroU16::spec_encode(self.type_idx);
        let n = self.pairs.len() as u16;
        let ghost e4 = u16::spec_encode(n);
        let ghost e5 = spec_encode_pairs(pairs_view(self.pairs@));
        proof {
            lemma_progress_start(b0);
            lemma_pairs_view_len(self.pairs@);
            assert(total =~= Seq::empty() + e1 + e2 + e3 + e4 + e5);
            lemma_prefix_piece(Seq::empty() + e1 + e2 + e3, e4, e5, total);
            lemma_prefix_piece(Seq::empty() + e1 + e2, e3, e4 + e5, total);
            assert(Seq::empty() + e1 + e2 + e3 + (e4 + e5) =~= total);
            lemma_prefix_piece(Seq::empty() + e1, e2, e3 + e4 + e5, total);
            assert(Seq::empty() + e1 + e2 + (e3 + e4 + e5) =~= total);
            lemma_prefix_piece(Seq::empty(), e1, e2 + e3 + e4 + e5, total);
            assert(Seq::empty() + e1 + (e2 + e3 + e4 + e5) =~= total);
            assert(all_encodable::<TypePathEntry>(views(self.type_path@)));
        }
        put(buf, &self.target, Ghost(b0), Ghost(Seq::empty()), Ghost(total))?;
        put_list8(buf, self.type_path.as_slice(), Ghost(b0), Ghost(Seq::empty() + e1), Ghost(total))?;
        put(buf, &self.type_idx, Ghost(b0), Ghost(Seq::empty() + e1 + e2), Ghost(total))?;
        put(buf, &n, Ghost(b0), Ghost(Seq::empty() + e1 + e2 + e3), Ghost(total))?;
        put_pairs(buf, &self.pairs, Ghost(b0), Ghost(Seq::empty() + e1 + e2 + e3 + e4), Ghost(total))?;
        assert(Seq::empty() + e1 + e2 + e3 + e4 + e5 =~= total);
        Ok(())
    }
}

impl<'de> Codec<'de> for TypedAnnotation {
    /// The target is well-formed, the index is not zero, and the lists fit their counts.
    open spec fn wf(v: SpecTypedAnnotation) -> bool {
        &&& AnnotationTarget::wf(v.target)
        &&& v.type_path.len() <= u8::MAX
        &&& v.type_idx.value() != 0
        &&& v.pairs.len() <= u16::MAX
        &&& pairs_wf(v.pairs)
    }

    #[verifier::rlimit(60)]
    #[verifier::spinoff_prover]
    proof fn lemma_codec(v: SpecTypedAnnotation, rest: Seq<u8>) {
        let e1 = AnnotationTarget::spec_encode(v.target);
        let e2 = spec_encode_list8::<TypePathEntry>(v.type_path);
        let e3 = NonZeroU16::spec_encode(v.type_idx);
        let e4 = u16::spec_encode(v.pairs.len() as u16);
        let e5 = spec_encode_pairs(v.pairs);
        let s = Self::spec_encode(v) + rest;
        assert(s =~= e1 + (e2 + (e3 + (e4 + (e5 + rest)))));
        AnnotationTarget::lemma_codec(v.target, e2 + (e3 + (e4 + (e5 + rest))));
        assert(s.skip(e1.len() as int) =~= e2 + (e3 + (e4 + (e5 + rest))));
        assert(all_wf::<TypePathEntry>(v.type_path));
        assert(all_encodable::<TypePathEntry>(v.type_path));
        lemma_codec_list8::<TypePathEntry>(v.type_path, e3 + (e4 + (e5 + rest)));
        assert(s.skip(e1.len() as int).skip(e2.len() as int) =~= e3 + (e4 + (e5 + rest)));
        NonZeroU16::lemma_codec(v.type_idx, e4 + (e5 + rest));
        assert(s.skip(e1.len() as int).skip(e2.len() as int).skip(2) =~= e4 + (e5 + rest));
        u16::lemma_codec(v.pairs.len() as u16, e5 + rest);
        assert(s.skip(e1.len() as int).skip(e2.len() as int).skip(2).skip(2) =~= e5 + rest);
        lemma_pairs_codec(v.pairs, rest);
    }
}

/// All of the runtime visible annotations on the declaration of a single formal parameter.
#[derive(Debug)]
pub struct ParamAnnotations(pub Vec<Annotation>);

impl View for ParamAnnotations {
    type V = Seq<SpecAnnotation>;

    open spec fn view(&self) -> Seq<SpecAnnotation> {
        views(self.0@)
    }
}

impl<'de> Decode<'de> for ParamAnnotations {
    /// A `u16` count, then that many annotations.
    open spec fn spec_decode(s: Seq<u8>) -> Result<(Seq<SpecAnnotation>, int), Error> {
        spec_decode_list16::<Annotation>(s)
    }

    open spec fn decode_requires(s: Seq<u8>) -> bool {
        true
    }

    fn decode<B: Buf<'de>>(buf: &mut B) -> (r: Result<ParamAnnotations, Error>) {
        proof {
            match u16::spec_decode(buf@) {
                Ok((n, k)) => {
                    assert forall|t: Seq<u8>| Annotation::decode_requires(t) by {}
                    lemma_seq_requires::<Annotation>(buf@.skip(k), n as nat);
                },
                Err(_) => {},
            }
        }
        let v = decode_list16::<Annotation, B>(buf)?;
        Ok(ParamAnnotations(v))
    }
}

impl Encode for ParamAnnotations {
    open spec fn spec_encode(v: Seq<SpecAnnotation>) -> Seq<u8> {
        spec_encode_list16::<Annotation>(v)
    }

    open spec fn encodable(v: Seq<SpecAnnotation>) -> bool {
        true
    }

    open spec fn encode_requires(v: Seq<SpecAnnotation>) -> bool {
        true
    }

    fn encode<B: BufMut>(&self, buf: &mut B) -> (r: Result<(), Error>) {
        let ghost b0 = *buf;
        let ghost total = Self::spec_encode(self@);
        proof {
            lemma_progress_start(b0);
            assert(Seq::<u8>::empty() + total =~= total);
        }
        put_list16(buf, self.0.as_slice(), Ghost(b0), Ghost(Seq::empty()), Ghost(total))?;
        Ok(())
    }
}

impl<'de> Codec<'de> for ParamAnnotations {
    open spec fn wf(v: Seq<SpecAnnotation>) -> bool {
        v.len() <= u16::MAX && all_wf::<Annotation>(v)
    }

    proof fn lemma_codec(v: Seq<SpecAnnotation>, rest: Seq<u8>) {
        lemma_codec_list16::<Annotation>(v, rest);
    }
}

/// Name of `RuntimeVisibleParameterAnnotations` attribute.
/// See [`RuntimeVisibleParamAnnotationsReader`] and [`RuntimeVisibleParamAnnotationsWriter`] for usage.
pub const NAME_RUNTIME_VISIBLE_PARAM_ANNOTATIONS: &'static str = "RuntimeVisibleParameterAnnotations";

/// Reader of `RuntimeVisibleParameterAnnotations` attribute.
pub type RuntimeVisibleParamAnnotationsReader<'a, B> = ArrayReaderU8<'a, B, ParamAnnotations>;

/// Writer of `RuntimeVisibleParameterAnnotations` attribute.
pub type RuntimeVisibleParamAnnotationsWriter<B> = ArrayWriterU8<B, ParamAnnotations>;

/// Name of `RuntimeInvisibleParameterAnnotations` attribute.
/// See [`RuntimeInvisibleParamAnnotationsReader`] and [`RuntimeInvisibleParamAnnotationsWriter`] for usage.
pub const NAME_RUNTIME_INVISIBLE_PARAM_ANNOTATIONS: &'static str = "RuntimeInvisibleParameterAnnotations";

/// Reader of `RuntimeInvisibleParameterAnnotations` attribute.
pub type RuntimeInvisibleParamAnnotationsReader<'a, B> = ArrayReaderU8<'a, B, ParamAnnotations>;

/// Writer of `RuntimeInvisibleParameterAnnotations` attribute.
pub type RuntimeInvisibleParamAnnotationsWriter<B> = ArrayWriterU8<B, ParamAnnotations>;

/// Name of `RuntimeVisibleTypeAnnotations` attribute.
/// See [`RuntimeVisibleTypeAnnotationsReader`] and [`RuntimeVisibleTypeAnnotationsWriter`] for usage.
pub const NAME_RUNTIME_VISIBLE_TYPE_ANNOTATIONS: &'static str = "RuntimeVisibleTypeAnnotations";

/// Reader of `RuntimeVisibleTypeAnnotations` attribute.
pub type RuntimeVisibleTypeAnnotationsReader<'a, B> = ArrayReader<'a, B, TypedAnnotation>;

/// Writer of `RuntimeVisibleTypeAnnotations` attribute.
pub type RuntimeVisibleTypeAnnotationsWriter<B> = ArrayWriter<B, TypedAnnotation>;

/// Name of `RuntimeInvisibleTypeAnnotations` attribute.
/// See [`RuntimeInvisibleTypeAnnotationsReader`] and [`RuntimeInvisibleTypeAnnotationsWriter`] for usage.
pub const NAME_RUNTIME_INVISIBLE_TYPE_ANNOTATIONS: &'static str = "RuntimeInvisibleTypeAnnotations";

/// Reader of `RuntimeInvisibleTypeAnnotations` attribute.
pub type RuntimeInvisibleTypeAnnotationsReader<'a, B> = ArrayReader<'a, B, TypedAnnotation>;

/// Writer of `RuntimeInvisibleTypeAnnotations` attribute.
pub type RuntimeInvisibleTypeAnnotationsWriter<B> = ArrayWriter<B, TypedAnnotation>;

} // verus!
