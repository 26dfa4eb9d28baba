//! A whole classfile as the reader walks it and the writer lays it out, and a
//! pipe that reads a classfile and writes it again.
use vstd::prelude::*;

use crate::list::{
    all_encodable, all_wf, lemma_codec_list16, lemma_encode_seq_concat, lemma_encode_seq_one,
    spec_decode_list16,
    spec_decode_seq, spec_encode_list16, spec_encode_seq,
};
use crate::list::views;
use crate::canonical::{
    decodes_back, lemma_attribute_back, lemma_back2, lemma_back3, lemma_be_u16_at,
    lemma_class_metadata_back, lemma_classfile_header_back, lemma_constant_entry_back,
    lemma_field_header_back, lemma_list16_back, lemma_method_header_back, lemma_nonzero_back,
};
use crate::reader::phases::RawList;
use crate::reader::{phases as rphases, spec_member_head, suffix, FieldReader, MethodReader, Reader};
use crate::util::{be_u16, u16_at, Codec, Decode, Encode, VecChunk};
use crate::writer::{phases as wphases, Writer};
use crate::{
    ConstantPoolEntry,
    Attribute, ClassMetadata, ClassfileHeader, ConstantEntry, Error, FieldHeader, MethodHeader,
    NonZeroU16, SpecAttribute, SpecConstantEntry,
};

verus! {

broadcast use crate::reader::phases::RawList::lemma_fresh;

/// A classfile: what the reader reads of it, phase by phase.
pub struct SpecClassfile {
    pub header: ClassfileHeader,
    pub pool: Seq<SpecConstantEntry>,
    pub metadata: ClassMetadata,
    pub interfaces: Seq<NonZeroU16>,
    pub fields: Seq<(FieldHeader, Seq<SpecAttribute>)>,
    pub methods: Seq<(MethodHeader, Seq<SpecAttribute>)>,
    pub attributes: Seq<SpecAttribute>,
}

/// Decoding a member: its header, a `u16` count, then that many attributes.
pub open spec fn spec_decode_member<'a, H: Decode<'a>>(s: Seq<u8>) -> Result<((H::V, Seq<SpecAttribute>), int), Error> {
    match H::spec_decode(s) {
        Err(e) => Err(e),
        Ok((h, n1)) => match spec_decode_list16::<Attribute<'a>>(s.skip(n1)) {
            Err(e) => Err(e),
            Ok((attrs, n2)) => Ok(((h, attrs), n1 + n2)),
        },
    }
}

/// Decoding `n` members, one after another.
pub open spec fn spec_decode_members<'a, H: Decode<'a>>(s: Seq<u8>, n: nat) -> Result<(Seq<(H::V, Seq<SpecAttribute>)>, int), Error>
    decreases n,
{
    if n == 0 {
        Ok((Seq::empty(), 0))
    } else {
        match spec_decode_member::<H>(s) {
            Err(e) => Err(e),
            Ok((m, k)) => match spec_decode_members::<H>(s.skip(k), (n - 1) as nat) {
                Err(e) => Err(e),
                Ok((ms, j)) => Ok((seq![m] + ms, k + j)),
            },
        }
    }
}

/// Decoding a `u16` count, then that many members.
pub open spec fn spec_decode_member_list<'a, H: Decode<'a>>(s: Seq<u8>) -> Result<(Seq<(H::V, Seq<SpecAttribute>)>, int), Error> {
    match u16::spec_decode(s) {
        Err(e) => Err(e),
        Ok((n, k)) => match spec_decode_members::<H>(s.skip(k), n as nat) {
            Err(e) => Err(e),
            Ok((ms, j)) => Ok((ms, k + j)),
        },
    }
}

/// The encoding of a member: its header, the count of its attributes cut to two
/// bytes, then the attributes.
pub open spec fn spec_encode_member<H: Encode>(m: (H::V, Seq<SpecAttribute>)) -> Seq<u8> {
    H::spec_encode(m.0) + spec_encode_list16::<Attribute<'static>>(m.1)
}

/// The encodings of members, one after another.
pub open spec fn spec_encode_members<H: Encode>(ms: Seq<(H::V, Seq<SpecAttribute>)>) -> Seq<u8>
    decreases ms.len(),
{
    if ms.len() == 0 {
        Seq::empty()
    } else {
        spec_encode_members::<H>(ms.drop_last()) + spec_encode_member::<H>(ms.last())
    }
}

/// The count of `ms`, cut to two bytes, then their encodings.
pub open spec fn spec_encode_member_list<H: Encode>(ms: Seq<(H::V, Seq<SpecAttribute>)>) -> Seq<u8> {
    u16::spec_encode(ms.len() as u16) + spec_encode_members::<H>(ms)
}

/// The index space taken by constant pool entries.
pub open spec fn pool_space(pool: Seq<SpecConstantEntry>) -> int
    decreases pool.len(),
{
    if pool.len() == 0 {
        0
    } else {
        pool_space(pool.drop_last()) + pool.last().spec_space()
    }
}

/// Decoding the header, the constant pool count, then an entry at each index from
/// one up to the count.
#[verifier::opaque]
pub open spec fn spec_decode_head(s: Seq<u8>) -> Result<(ClassfileHeader, Seq<SpecConstantEntry>, int), Error> {
    match ClassfileHeader::spec_decode(s) {
        Err(e) => Err(e),
        Ok((header, n1)) => match NonZeroU16::spec_decode(s.skip(n1)) {
            Err(e) => Err(e),
            Ok((count, n2)) => match crate::reader::spec_decode_pool(
                s.skip(n1).skip(n2),
                1,
                count.value() as int,
            ) {
                Err(e) => Err(e),
                Ok((pool, n3)) => Ok((header, pool, n1 + n2 + n3)),
            },
        },
    }
}

/// Decoding the class metadata, then a `u16` count and that many interfaces.
#[verifier::opaque]
pub open spec fn spec_decode_class(s: Seq<u8>) -> Result<(ClassMetadata, Seq<NonZeroU16>, int), Error> {
    match ClassMetadata::spec_decode(s) {
        Err(e) => Err(e),
        Ok((metadata, n1)) => match spec_decode_list16::<NonZeroU16>(s.skip(n1)) {
            Err(e) => Err(e),
            Ok((interfaces, n2)) => Ok((metadata, interfaces, n1 + n2)),
        },
    }
}

/// Decoding the fields, the methods and the attributes of the class, each a
/// `u16` count, then that many of them.
#[verifier::opaque]
pub open spec fn spec_decode_tail(s: Seq<u8>) -> Result<
    (
        Seq<(FieldHeader, Seq<SpecAttribute>)>,
        Seq<(MethodHeader, Seq<SpecAttribute>)>,
        Seq<SpecAttribute>,
        int,
    ),
    Error,
> {
    match spec_decode_member_list::<FieldHeader>(s) {
        Err(e) => Err(e),
        Ok((fields, n1)) => match spec_decode_member_list::<MethodHeader>(s.skip(n1)) {
            Err(e) => Err(e),
            Ok((methods, n2)) => match spec_decode_list16::<Attribute<'static>>(
                s.skip(n1).skip(n2),
            ) {
                Err(e) => Err(e),
                Ok((attributes, n3)) => Ok((fields, methods, attributes, n1 + n2 + n3)),
            },
        },
    }
}

/// Decoding a whole classfile as the reader walks it: the header, the constant
/// pool, the class metadata, the interfaces, the fields, the methods and the
/// attributes of the class; and how many bytes it takes.
pub open spec fn spec_decode_classfile(s: Seq<u8>) -> Result<(SpecClassfile, int), Error> {
    match spec_decode_head(s) {
        Err(e) => Err(e),
        Ok((header, pool, n1)) => match spec_decode_class(s.skip(n1)) {
            Err(e) => Err(e),
            Ok((metadata, interfaces, n2)) => match spec_decode_tail(s.skip(n1).skip(n2)) {
                Err(e) => Err(e),
                Ok((fields, methods, attributes, n3)) => Ok((
                    SpecClassfile { header, pool, metadata, interfaces, fields, methods, attributes },
                    n1 + n2 + n3,
                )),
            },
        },
    }
}

/// The header, then the constant pool count (one more than the index space that
/// the entries take, cut to two bytes), then the entries.
#[verifier::opaque]
pub open spec fn spec_encode_head(header: ClassfileHeader, pool: Seq<SpecConstantEntry>) -> Seq<u8> {
    ClassfileHeader::spec_encode(header) + be_u16((pool_space(pool) + 1) as u16)
        + spec_encode_seq::<ConstantEntry<'static>>(pool)
}

/// The class metadata, then the interfaces with their count.
#[verifier::opaque]
pub open spec fn spec_encode_class(metadata: ClassMetadata, interfaces: Seq<NonZeroU16>) -> Seq<u8> {
    ClassMetadata::spec_encode(metadata) + spec_encode_list16::<NonZeroU16>(interfaces)
}

/// The fields, the methods and the attributes, each with its count.
#[verifier::opaque]
pub open spec fn spec_encode_tail(
    fields: Seq<(FieldHeader, Seq<SpecAttribute>)>,
    methods: Seq<(MethodHeader, Seq<SpecAttribute>)>,
    attributes: Seq<SpecAttribute>,
) -> Seq<u8> {
    spec_encode_member_list::<FieldHeader>(fields) + spec_encode_member_list::<MethodHeader>(
        methods,
    ) + spec_encode_list16::<Attribute<'static>>(attributes)
}

/// A whole classfile as the writer lays it out.
pub open spec fn spec_encode_classfile(c: SpecClassfile) -> Seq<u8> {
    spec_encode_head(c.header, c.pool) + spec_encode_class(c.metadata, c.interfaces)
        + spec_encode_tail(c.fields, c.methods, c.attributes)
}

/// The count that stands after the header of `s`, when both decode.
pub open spec fn spec_pool_count(s: Seq<u8>) -> int {
    match ClassfileHeader::spec_decode(s) {
        Ok((_, n1)) => match NonZeroU16::spec_decode(s.skip(n1)) {
            Ok((count, _)) => count.value() as int,
            Err(_) => 0,
        },
        Err(_) => 0,
    }
}

/// Every member has a well-formed header and at most `u16::MAX` well-formed attributes.
pub open spec fn members_wf<'a, H: Codec<'a>>(ms: Seq<(<H as View>::V, Seq<SpecAttribute>)>) -> bool {
    forall|i: int|
        0 <= i < ms.len() ==> {
            &&& H::wf((#[trigger] ms[i]).0)
            &&& <H as Encode>::encodable(ms[i].0)
            &&& <H as Encode>::encode_requires(ms[i].0)
            &&& ms[i].1.len() <= u16::MAX
            &&& all_wf::<Attribute<'a>>(ms[i].1)
            &&& all_encodable::<Attribute<'a>>(ms[i].1)
        }
}

/// A classfile that the writer lays out and the reader reads back: every part is
/// well-formed, and every list fits its count (the constant pool by the index
/// space that its entries take).
pub open spec fn classfile_wf(c: SpecClassfile) -> bool {
    &&& ClassfileHeader::wf(c.header)
    &&& pool_space(c.pool) < u16::MAX
    &&& all_wf::<ConstantEntry<'static>>(c.pool)
    &&& all_encodable::<ConstantEntry<'static>>(c.pool)
    &&& ClassMetadata::wf(c.metadata)
    &&& c.interfaces.len() <= u16::MAX
    &&& all_wf::<NonZeroU16>(c.interfaces)
    &&& c.fields.len() <= u16::MAX
    &&& members_wf::<FieldHeader>(c.fields)
    &&& c.methods.len() <= u16::MAX
    &&& members_wf::<MethodHeader>(c.methods)
    &&& c.attributes.len() <= u16::MAX
    &&& all_wf::<Attribute<'static>>(c.attributes)
    &&& all_encodable::<Attribute<'static>>(c.attributes)
}

proof fn lemma_pool_space_front(v: SpecConstantEntry, tail: Seq<SpecConstantEntry>)
    ensures
        pool_space(seq![v] + tail) == v.spec_space() + pool_space(tail),
    decreases tail.len(),
{
    if tail.len() == 0 {
        assert(seq![v] + tail =~= seq![v]);
        assert(seq![v].drop_last() =~= Seq::<SpecConstantEntry>::empty());
        assert(seq![v].last() == v);
        assert(pool_space(Seq::<SpecConstantEntry>::empty()) == 0);
        assert(tail =~= Seq::<SpecConstantEntry>::empty());
        assert(pool_space(seq![v]) == pool_space(seq![v].drop_last()) + seq![v].last().spec_space());
    } else {
        lemma_pool_space_front(v, tail.drop_last());
        assert((seq![v] + tail).drop_last() =~= seq![v] + tail.drop_last());
        assert((seq![v] + tail).last() == tail.last());
        assert(pool_space(seq![v] + tail) == pool_space((seq![v] + tail).drop_last()) + (seq![v]
            + tail).last().spec_space());
        assert(pool_space(tail) == pool_space(tail.drop_last()) + tail.last().spec_space());
    }
}

/// What the pool writer writes, the pool reader reads back: entries laid out one
/// after another read back, from any index, as exactly those entries, up to that
/// index plus their index space (the reader hands each out at the index where
/// the one before it ends).
pub proof fn lemma_pool_codec(pool: Seq<SpecConstantEntry>, rest: Seq<u8>, i: int)
    requires
        all_wf::<ConstantEntry<'static>>(pool),
    ensures
        crate::reader::spec_decode_pool(spec_encode_seq::<ConstantEntry<'static>>(pool) + rest, i, i
            + pool_space(pool)) == Ok::<(Seq<SpecConstantEntry>, int), Error>(
            (pool, spec_encode_seq::<ConstantEntry<'static>>(pool).len() as int),
        ),
    decreases pool.len(),
{
    if pool.len() == 0 {
        assert(pool =~= Seq::<SpecConstantEntry>::empty());
    } else {
        let v = pool[0];
        let tail = pool.drop_first();
        assert(pool =~= seq![v] + tail);
        lemma_pool_space_front(v, tail);
        lemma_pool_space_nonneg(tail);
        lemma_encode_seq_concat::<ConstantEntry<'static>>(seq![v], tail);
        lemma_encode_seq_one::<ConstantEntry<'static>>(v);
        let e = ConstantEntry::spec_encode(v);
        let et = spec_encode_seq::<ConstantEntry<'static>>(tail);
        assert(spec_encode_seq::<ConstantEntry<'static>>(pool) + rest =~= e + (et + rest));
        assert(ConstantEntry::wf(pool[0]));
        ConstantEntry::lemma_codec(v, et + rest);
        assert((e + (et + rest)).skip(e.len() as int) =~= et + rest);
        assert forall|j: int| 0 <= j < tail.len() implies ConstantEntry::wf(#[trigger] tail[j]) by {
            assert(tail[j] == pool[j + 1]);
        }
        lemma_pool_codec(tail, rest, i + v.spec_space());
    }
}

/// The entries that a pool decodes to, laid out again, are the bytes they took.
proof fn lemma_pool_back(s: Seq<u8>, i: int, len: int)
    ensures
        crate::reader::spec_decode_pool(s, i, len) matches Ok((pool, k)) ==> 0 <= k <= s.len()
            && spec_encode_seq::<ConstantEntry<'static>>(pool) == s.take(k),
    decreases (if i < len { len - i } else { 0 }),
{
    if i >= len {
        assert(s.take(0) =~= Seq::<u8>::empty());
    } else {
        lemma_constant_entry_back(s);
        if let Ok((v, m)) = ConstantEntry::spec_decode(s) {
            assert(v.spec_space() >= 1);
            lemma_pool_back(s.skip(m), i + v.spec_space(), len);
            if let Ok((vs, j)) = crate::reader::spec_decode_pool(s.skip(m), i + v.spec_space(), len) {
                lemma_encode_seq_concat::<ConstantEntry<'static>>(seq![v], vs);
                lemma_encode_seq_one::<ConstantEntry<'static>>(v);
                lemma_back2(s, m, j, s.take(m), s.skip(m).take(j));
            }
        }
    }
}

proof fn lemma_encode_members_concat<H: Encode>(
    a: Seq<(H::V, Seq<SpecAttribute>)>,
    b: Seq<(H::V, Seq<SpecAttribute>)>,
)
    ensures
        spec_encode_members::<H>(a + b) == spec_encode_members::<H>(a) + spec_encode_members::<H>(b),
    decreases b.len(),
{
    if b.len() == 0 {
        assert(a + b =~= a);
        assert(spec_encode_members::<H>(a) + spec_encode_members::<H>(b) =~= spec_encode_members::<
            H,
        >(a));
    } else {
        lemma_encode_members_concat::<H>(a, b.drop_last());
        assert((a + b).drop_last() =~= a + b.drop_last());
        assert((a + b).last() == b.last());
        assert(spec_encode_members::<H>(a) + spec_encode_members::<H>(b.drop_last())
            + spec_encode_member::<H>(b.last()) =~= spec_encode_members::<H>(a) + (
        spec_encode_members::<H>(b.drop_last()) + spec_encode_member::<H>(b.last())));
    }
}

proof fn lemma_member_codec<'a, H: Codec<'a>>(m: (<H as View>::V, Seq<SpecAttribute>), rest: Seq<u8>)
    requires
        H::wf(m.0),
        <H as Encode>::encodable(m.0),
        m.1.len() <= u16::MAX,
        all_wf::<Attribute<'a>>(m.1),
        all_encodable::<Attribute<'a>>(m.1),
    ensures
        spec_decode_member::<H>(spec_encode_member::<H>(m) + rest) == Ok::<
            ((<H as View>::V, Seq<SpecAttribute>), int),
            Error,
        >((m, spec_encode_member::<H>(m).len() as int)),
{
    let e1 = <H as Encode>::spec_encode(m.0);
    let e2 = spec_encode_list16::<Attribute<'a>>(m.1);
    let s = spec_encode_member::<H>(m) + rest;
    assert(s =~= e1 + (e2 + rest));
    H::lemma_codec(m.0, e2 + rest);
    assert(s.skip(e1.len() as int) =~= e2 + rest);
    lemma_codec_list16::<Attribute<'a>>(m.1, rest);
}

proof fn lemma_members_codec<'a, H: Codec<'a>>(ms: Seq<(<H as View>::V, Seq<SpecAttribute>)>, rest: Seq<u8>)
    requires
        members_wf::<H>(ms),
    ensures
        spec_decode_members::<H>(spec_encode_members::<H>(ms) + rest, ms.len()) == Ok::<
            (Seq<(<H as View>::V, Seq<SpecAttribute>)>, int),
            Error,
        >((ms, spec_encode_members::<H>(ms).len() as int)),
    decreases ms.len(),
{
    if ms.len() == 0 {
        assert(ms =~= Seq::<(<H as View>::V, Seq<SpecAttribute>)>::empty());
    } else {
        let m0 = ms[0];
        let tail = ms.drop_first();
        assert(ms =~= seq![m0] + tail);
        lemma_encode_members_concat::<H>(seq![m0], tail);
        assert(seq![m0].drop_last() =~= Seq::<(<H as View>::V, Seq<SpecAttribute>)>::empty());
        assert(spec_encode_members::<H>(Seq::<(<H as View>::V, Seq<SpecAttribute>)>::empty())
            == Seq::<u8>::empty());
        assert(seq![m0].last() == m0);
        assert(spec_encode_members::<H>(seq![m0]) =~= Seq::<u8>::empty() + spec_encode_member::<
            H,
        >(m0));
        assert(spec_encode_members::<H>(seq![m0]) =~= spec_encode_member::<H>(m0));
        assert forall|i: int| 0 <= i < tail.len() implies {
            &&& H::wf((#[trigger] tail[i]).0)
            &&& <H as Encode>::encodable(tail[i].0)
            &&& <H as Encode>::encode_requires(tail[i].0)
            &&& tail[i].1.len() <= u16::MAX
            &&& all_wf::<Attribute<'a>>(tail[i].1)
            &&& all_encodable::<Attribute<'a>>(tail[i].1)
        } by {
            assert(tail[i] == ms[i + 1]);
        }
        let e0 = spec_encode_member::<H>(m0);
        let et = spec_encode_members::<H>(tail);
        assert(spec_encode_members::<H>(ms) + rest =~= e0 + (et + rest));
        assert(H::wf(ms[0].0));
        lemma_member_codec::<H>(m0, et + rest);
        assert((e0 + (et + rest)).skip(e0.len() as int) =~= et + rest);
        lemma_members_codec::<H>(tail, rest);
    }
}

proof fn lemma_member_list_codec<'a, H: Codec<'a>>(ms: Seq<(<H as View>::V, Seq<SpecAttribute>)>, rest: Seq<u8>)
    requires
        ms.len() <= u16::MAX,
        members_wf::<H>(ms),
    ensures
        spec_decode_member_list::<H>(spec_encode_member_list::<H>(ms) + rest) == Ok::<
            (Seq<(<H as View>::V, Seq<SpecAttribute>)>, int),
            Error,
        >((ms, spec_encode_member_list::<H>(ms).len() as int)),
{
    let e = u16::spec_encode(ms.len() as u16);
    let body = spec_encode_members::<H>(ms) + rest;
    assert(spec_encode_member_list::<H>(ms) + rest =~= e + body);
    u16::lemma_codec(ms.len() as u16, body);
    assert((e + body).skip(2) =~= body);
    lemma_members_codec::<H>(ms, rest);
}

proof fn lemma_head_codec(c: SpecClassfile, rest: Seq<u8>)
    requires
        classfile_wf(c),
    ensures
        spec_decode_head(spec_encode_head(c.header, c.pool) + rest) == Ok::<
            (ClassfileHeader, Seq<SpecConstantEntry>, int),
            Error,
        >((c.header, c.pool, spec_encode_head(c.header, c.pool).len() as int)),
{
    broadcast use crate::util::group_nonzero;

    reveal(spec_decode_head);
    reveal(spec_encode_head);
    lemma_pool_space_nonneg(c.pool);
    let count = (pool_space(c.pool) + 1) as u16;
    let e1 = ClassfileHeader::spec_encode(c.header);
    let e2 = be_u16(count);
    let e3 = spec_encode_seq::<ConstantEntry<'static>>(c.pool);
    let s = spec_encode_head(c.header, c.pool) + rest;
    assert(s =~= e1 + (e2 + (e3 + rest)));
    ClassfileHeader::lemma_codec(c.header, e2 + (e3 + rest));
    assert(s.skip(e1.len() as int) =~= e2 + (e3 + rest));
    NonZeroU16::lemma_codec(NonZeroU16::from_raw(count), e3 + rest);
    assert(NonZeroU16::spec_encode(NonZeroU16::from_raw(count)) == e2);
    assert((e2 + (e3 + rest)).skip(2) =~= e3 + rest);
    lemma_pool_codec(c.pool, rest, 1);
}

proof fn lemma_class_codec(c: SpecClassfile, rest: Seq<u8>)
    requires
        classfile_wf(c),
    ensures
        spec_decode_class(spec_encode_class(c.metadata, c.interfaces) + rest) == Ok::<
            (ClassMetadata, Seq<NonZeroU16>, int),
            Error,
        >((c.metadata, c.interfaces, spec_encode_class(c.metadata, c.interfaces).len() as int)),
{
    reveal(spec_decode_class);
    reveal(spec_encode_class);
    let e1 = ClassMetadata::spec_encode(c.metadata);
    let e2 = spec_encode_list16::<NonZeroU16>(c.interfaces);
    let s = spec_encode_class(c.metadata, c.interfaces) + rest;
    assert(s =~= e1 + (e2 + rest));
    ClassMetadata::lemma_codec(c.metadata, e2 + rest);
    assert(s.skip(e1.len() as int) =~= e2 + rest);
    assert(all_encodable::<NonZeroU16>(c.interfaces));
    lemma_codec_list16::<NonZeroU16>(c.interfaces, rest);
}

#[verifier::spinoff_prover]
proof fn lemma_tail_codec(c: SpecClassfile, rest: Seq<u8>)
    requires
        c.fields.len() <= u16::MAX,
        members_wf::<FieldHeader>(c.fields),
        c.methods.len() <= u16::MAX,
        members_wf::<MethodHeader>(c.methods),
        c.attributes.len() <= u16::MAX,
        all_wf::<Attribute<'static>>(c.attributes),
        all_encodable::<Attribute<'static>>(c.attributes),
    ensures
        spec_decode_tail(spec_encode_tail(c.fields, c.methods, c.attributes) + rest) == Ok::<
            (
                Seq<(FieldHeader, Seq<SpecAttribute>)>,
                Seq<(MethodHeader, Seq<SpecAttribute>)>,
                Seq<SpecAttribute>,
                int,
            ),
            Error,
        >((c.fields, c.methods, c.attributes, spec_encode_tail(c.fields, c.methods, c.attributes).len() as int)),
{
    reveal(spec_decode_tail);
    reveal(spec_encode_tail);
    let e1 = spec_encode_member_list::<FieldHeader>(c.fields);
    let e2 = spec_encode_member_list::<MethodHeader>(c.methods);
    let e3 = spec_encode_list16::<Attribute<'static>>(c.attributes);
    let s = spec_encode_tail(c.fields, c.methods, c.attributes) + rest;
    let s2 = e2 + (e3 + rest);
    let s3 = e3 + rest;
    assert(s =~= e1 + s2);
    assert(s.skip(e1.len() as int) =~= s2);
    assert(s2.skip(e2.len() as int) =~= s3);
    assert(spec_decode_member_list::<FieldHeader>(s) == Ok::<
        (Seq<(FieldHeader, Seq<SpecAttribute>)>, int),
        Error,
    >((c.fields, e1.len() as int))) by {
        lemma_member_list_codec::<FieldHeader>(c.fields, s2);
    }
    assert(spec_decode_member_list::<MethodHeader>(s2) == Ok::<
        (Seq<(MethodHeader, Seq<SpecAttribute>)>, int),
        Error,
    >((c.methods, e2.len() as int))) by {
        lemma_member_list_codec::<MethodHeader>(c.methods, s3);
    }
    assert(spec_decode_list16::<Attribute<'static>>(s3) == Ok::<
        (Seq<SpecAttribute>, int),
        Error,
    >((c.attributes, e3.len() as int))) by {
        lemma_codec_list16::<Attribute<'static>>(c.attributes, rest);
    }
}

/// What the writer lays out, the reader reads back: decoding the encoding of a
/// well-formed classfile gives it back, and takes exactly its bytes.
#[verifier::spinoff_prover]
pub proof fn lemma_classfile_codec(c: SpecClassfile, rest: Seq<u8>)
    requires
        classfile_wf(c),
    ensures
        spec_decode_classfile(spec_encode_classfile(c) + rest) == Ok::<(SpecClassfile, int), Error>(
            (c, spec_encode_classfile(c).len() as int),
        ),
{
    let e1 = spec_encode_head(c.header, c.pool);
    let e2 = spec_encode_class(c.metadata, c.interfaces);
    let e3 = spec_encode_tail(c.fields, c.methods, c.attributes);
    let s = spec_encode_classfile(c) + rest;
    let s2 = e2 + (e3 + rest);
    let s3 = e3 + rest;
    assert(s =~= e1 + s2);
    assert(s.skip(e1.len() as int) =~= s2);
    assert(s2.skip(e2.len() as int) =~= s3);
    assert(spec_decode_head(s) == Ok::<(ClassfileHeader, Seq<SpecConstantEntry>, int), Error>(
        (c.header, c.pool, e1.len() as int),
    )) by {
        lemma_head_codec(c, s2);
    }
    assert(spec_decode_class(s2) == Ok::<(ClassMetadata, Seq<NonZeroU16>, int), Error>(
        (c.metadata, c.interfaces, e2.len() as int),
    )) by {
        lemma_class_codec(c, s3);
    }
    assert(spec_decode_tail(s3) == Ok::<
        (
            Seq<(FieldHeader, Seq<SpecAttribute>)>,
            Seq<(MethodHeader, Seq<SpecAttribute>)>,
            Seq<SpecAttribute>,
            int,
        ),
        Error,
    >((c.fields, c.methods, c.attributes, e3.len() as int))) by {
        lemma_tail_codec(c, rest);
    }
}

proof fn lemma_member_back<'a, H: Codec<'a>>(s: Seq<u8>)
    requires
        forall|t: Seq<u8>| #[trigger] decodes_back::<H>(t),
        forall|t: Seq<u8>| #[trigger] decodes_back::<Attribute<'a>>(t),
    ensures
        spec_decode_member::<H>(s) matches Ok((m, k)) ==> 0 <= k <= s.len()
            && spec_encode_member::<H>(m) == s.take(k),
{
    assert(decodes_back::<H>(s));
    if let Ok((_, n1)) = H::spec_decode(s) {
        lemma_list16_back::<Attribute<'a>>(s.skip(n1));
        if let Ok((_, n2)) = spec_decode_list16::<Attribute<'a>>(s.skip(n1)) {
            lemma_back2(s, n1, n2, s.take(n1), s.skip(n1).take(n2));
        }
    }
}

proof fn lemma_members_back<'a, H: Codec<'a>>(s: Seq<u8>, n: nat)
    requires
        forall|t: Seq<u8>| #[trigger] decodes_back::<H>(t),
        forall|t: Seq<u8>| #[trigger] decodes_back::<Attribute<'a>>(t),
    ensures
        spec_decode_members::<H>(s, n) matches Ok((ms, k)) ==> 0 <= k <= s.len() && ms.len() == n
            && spec_encode_members::<H>(ms) == s.take(k),
    decreases n,
{
    if n == 0 {
        assert(s.take(0) =~= Seq::<u8>::empty());
    } else {
        lemma_member_back::<H>(s);
        if let Ok((m, k)) = spec_decode_member::<H>(s) {
            lemma_members_back::<H>(s.skip(k), (n - 1) as nat);
            if let Ok((ms, j)) = spec_decode_members::<H>(s.skip(k), (n - 1) as nat) {
                lemma_encode_members_concat::<H>(seq![m], ms);
                lemma_encode_members_push::<H>(Seq::empty(), m);
                assert(Seq::<(<H as View>::V, Seq<SpecAttribute>)>::empty().push(m) =~= seq![m]);
                assert(spec_encode_members::<H>(Seq::<(<H as View>::V, Seq<SpecAttribute>)>::empty())
                    == Seq::<u8>::empty());
                assert(Seq::<u8>::empty() + spec_encode_member::<H>(m) =~= spec_encode_member::<H>(m));
                lemma_back2(s, k, j, s.take(k), s.skip(k).take(j));
            }
        }
    }
}

proof fn lemma_member_list_back<'a, H: Codec<'a>>(s: Seq<u8>)
    requires
        forall|t: Seq<u8>| #[trigger] decodes_back::<H>(t),
        forall|t: Seq<u8>| #[trigger] decodes_back::<Attribute<'a>>(t),
    ensures
        spec_decode_member_list::<H>(s) matches Ok((ms, k)) ==> 0 <= k <= s.len()
            && spec_encode_member_list::<H>(ms) == s.take(k),
{
    if s.len() >= 2 {
        lemma_be_u16_at(s);
        let n = u16_at(s, 0);
        lemma_members_back::<H>(s.skip(2), n as nat);
        if let Ok((ms, m)) = spec_decode_members::<H>(s.skip(2), n as nat) {
            lemma_back2(s, 2, m, s.take(2), s.skip(2).take(m));
        }
    }
}

proof fn lemma_head_back(s: Seq<u8>)
    requires
        spec_decode_head(s) matches Ok((_, pool, _)) && pool_space(pool) + 1 == spec_pool_count(s),
    ensures
        spec_decode_head(s) matches Ok((header, pool, n)) && 0 <= n <= s.len() && spec_encode_head(
            header,
            pool,
        ) == s.take(n),
{
    reveal(spec_decode_head);
    reveal(spec_encode_head);
    lemma_classfile_header_back(s);
    let n1 = ClassfileHeader::spec_decode(s)->Ok_0.1;
    let r1 = s.skip(n1);
    lemma_nonzero_back(r1);
    let count = NonZeroU16::spec_decode(r1)->Ok_0.0;
    lemma_pool_back(r1.skip(2), 1, count.value() as int);
    let n3 = crate::reader::spec_decode_pool(r1.skip(2), 1, count.value() as int)->Ok_0.1;
    lemma_back3(s, n1, 2, n3, s.take(n1), r1.take(2), r1.skip(2).take(n3));
}

proof fn lemma_class_back(s: Seq<u8>)
    ensures
        spec_decode_class(s) matches Ok((metadata, interfaces, n)) ==> 0 <= n <= s.len()
            && spec_encode_class(metadata, interfaces) == s.take(n),
{
    reveal(spec_decode_class);
    reveal(spec_encode_class);
    lemma_class_metadata_back(s);
    if let Ok((_, n1)) = ClassMetadata::spec_decode(s) {
        assert forall|t: Seq<u8>| #[trigger] decodes_back::<NonZeroU16>(t) by {
            lemma_nonzero_back(t);
        }
        lemma_list16_back::<NonZeroU16>(s.skip(n1));
        if let Ok((_, n2)) = spec_decode_list16::<NonZeroU16>(s.skip(n1)) {
            lemma_back2(s, n1, n2, s.take(n1), s.skip(n1).take(n2));
        }
    }
}

proof fn lemma_tail_back(s: Seq<u8>)
    ensures
        spec_decode_tail(s) matches Ok((fields, methods, attributes, n)) ==> 0 <= n <= s.len()
            && spec_encode_tail(fields, methods, attributes) == s.take(n),
{
    reveal(spec_decode_tail);
    reveal(spec_encode_tail);
    assert forall|t: Seq<u8>| #[trigger] decodes_back::<Attribute<'static>>(t) by {
        lemma_attribute_back(t);
    }
    assert forall|t: Seq<u8>| #[trigger] decodes_back::<FieldHeader>(t) by {
        lemma_field_header_back(t);
    }
    assert forall|t: Seq<u8>| #[trigger] decodes_back::<MethodHeader>(t) by {
        lemma_method_header_back(t);
    }
    lemma_member_list_back::<FieldHeader>(s);
    if let Ok((_, n1)) = spec_decode_member_list::<FieldHeader>(s) {
        lemma_member_list_back::<MethodHeader>(s.skip(n1));
        if let Ok((_, n2)) = spec_decode_member_list::<MethodHeader>(s.skip(n1)) {
            lemma_list16_back::<Attribute<'static>>(s.skip(n1).skip(n2));
            if let Ok((_, n3)) = spec_decode_list16::<Attribute<'static>>(s.skip(n1).skip(n2)) {
                lemma_back3(
                    s,
                    n1,
                    n2,
                    n3,
                    s.take(n1),
                    s.skip(n1).take(n2),
                    s.skip(n1).skip(n2).take(n3),
                );
            }
        }
    }
}

/// What the reader reads, the writer writes back byte for byte: when a classfile
/// decodes and the index space of its constant pool entries fills the pool's
/// count exactly, its layout is exactly the bytes that it was decoded from.
#[verifier::spinoff_prover]
pub proof fn lemma_classfile_back(s: Seq<u8>)
    requires
        spec_decode_classfile(s) matches Ok((c, _)) && pool_space(c.pool) + 1 == spec_pool_count(s),
    ensures
        spec_decode_classfile(s) matches Ok((c, n)) && 0 <= n <= s.len() && spec_encode_classfile(c)
            == s.take(n),
{
    lemma_head_back(s);
    let n1 = spec_decode_head(s)->Ok_0.2;
    lemma_class_back(s.skip(n1));
    let n2 = spec_decode_class(s.skip(n1))->Ok_0.2;
    lemma_tail_back(s.skip(n1).skip(n2));
    let n3 = spec_decode_tail(s.skip(n1).skip(n2))->Ok_0.3;
    lemma_back3(
        s,
        n1,
        n2,
        n3,
        s.take(n1),
        s.skip(n1).take(n2),
        s.skip(n1).skip(n2).take(n3),
    );
}

/// A constant pool entry that decoding gives can be encoded.
proof fn lemma_entry_requires(s: Seq<u8>)
    requires
        ConstantEntry::spec_decode(s) is Ok,
    ensures
        ConstantEntry::encode_requires(ConstantEntry::spec_decode(s)->Ok_0.0),
{
}

/// The index space of the first `j` entries is at most that of all.
proof fn lemma_pool_space_prefix(pool: Seq<SpecConstantEntry>, j: int)
    requires
        0 <= j <= pool.len(),
    ensures
        0 <= pool_space(pool.take(j)) <= pool_space(pool),
    decreases pool.len() - j,
{
    if j < pool.len() {
        lemma_pool_space_prefix(pool, j + 1);
        assert(pool.take(j + 1).drop_last() =~= pool.take(j));
    } else {
        assert(pool.take(j) =~= pool);
    }
    lemma_pool_space_nonneg(pool.take(j));
}

proof fn lemma_pool_space_nonneg(pool: Seq<SpecConstantEntry>)
    ensures
        pool_space(pool) >= 0,
    decreases pool.len(),
{
    if pool.len() > 0 {
        lemma_pool_space_nonneg(pool.drop_last());
    }
}

/// What a pipe needs of its input: the index space that the entries of the
/// constant pool take, when they decode, fits in a count.
pub open spec fn pipe_requires(s: Seq<u8>) -> bool {
    spec_decode_head(s) matches Ok((_, pool, _)) ==> pool_space(pool) < u16::MAX
}

/// Whether a pipe can be run on `input`: the index space that the entries of its
/// constant pool take, when they decode, fits in a count.
pub fn pool_fits(input: &[u8]) -> (r: bool)
    ensures
        r == pipe_requires(input@),
{
    reveal(spec_decode_head);
    let ghost s0 = input@;
    let reader = Reader::new(input);
    let (header, mut reader) = match reader.header() {
        Ok(x) => x,
        Err(_) => {
            return true;
        },
    };
    let ghost s1 = reader.bytes();
    let ghost r0 = reader.spec_rest();
    let ghost mut done: Seq<SpecConstantEntry> = Seq::empty();
    let mut space: u32 = 0;
    proof {
        broadcast use crate::reader::phases::ConstantPool::lemma_fresh;
        broadcast use crate::util::group_nonzero;

        assert(s0.skip(s0.len() - s1.len()) == s1);
        if let Ok((_, n1)) = ClassfileHeader::spec_decode(s0) {
            assert(s0.skip(n1).skip(s0.len() - s1.len() - n1) =~= s1);
        }
        if let Ok((vs, _)) = r0 {
            assert(done + vs =~= vs);
        }
    }
    assert(spec_decode_head(s0) == head_result(header, s0.len() - s1.len(), r0));
    loop
        invariant
            s0 == input@,
            spec_decode_head(s0) == head_result(header, s0.len() - s1.len(), r0),
            reader.wf(),
            space == pool_space(done),
            space + 2 * reader.left() <= 0x20000,
            match reader.spec_rest() {
                Ok((vs, _)) => r0 matches Ok((all, _)) && all == done + vs,
                Err(_) => r0 is Err,
            },
        decreases reader.left(),
    {
        let ghost e1 = done;
        match reader.next() {
            None => {
                proof {
                    assert(done + Seq::<SpecConstantEntry>::empty() =~= done);
                }
                return space < 0xffff;
            },
            Some(Err(_)) => {
                return true;
            },
            Some(Ok((_, entry))) => {
                proof {
                    assert(entry@.spec_space() <= 2);
                    assert(e1.push(entry@).drop_last() =~= e1);
                    if let Ok((vs, _)) = reader.spec_rest() {
                        assert(e1 + (seq![entry@] + vs) =~= e1.push(entry@) + vs);
                    }
                    done = e1.push(entry@);
                }
                space = space + entry.space() as u32;
            },
        }
    }
}

/// `w` holds `before`, then two bytes reserved at `c`, then `after`.
pub open spec fn holds_slot(w: Seq<u8>, before: Seq<u8>, c: VecChunk, after: Seq<u8>) -> bool {
    &&& c.start() == before.len()
    &&& c.size() == 2
    &&& w.len() == before.len() + 2 + after.len()
    &&& w.take(before.len() as int) == before
    &&& w.skip(before.len() as int + 2) == after
}

proof fn lemma_fill_slot(w: Seq<u8>, before: Seq<u8>, c: VecChunk, after: Seq<u8>, n: u16)
    requires
        holds_slot(w, before, c, after),
    ensures
        w.take(c.start()) + be_u16(n) + w.skip(c.start() + 2) == before + be_u16(n) + after,
{
}

/// The decoding of the head, given the header, the bytes it and the count took,
/// and the decoding of the entries.
pub open spec fn head_result(
    header: ClassfileHeader,
    k: int,
    pool_result: Result<(Seq<SpecConstantEntry>, int), Error>,
) -> Result<(ClassfileHeader, Seq<SpecConstantEntry>, int), Error> {
    match pool_result {
        Ok((pool, n)) => Ok((header, pool, k + n)),
        Err(e) => Err(e),
    }
}

/// Reads the header and the constant pool, and writes them again.
fn pipe_head<'a>(
    reader: Reader<'a, &'a [u8], rphases::Header>,
    writer: Writer<Vec<u8>, wphases::Header>,
) -> (r: Result<(Reader<'a, &'a [u8], rphases::Metadata>, Writer<Vec<u8>, wphases::Metadata>), Error>)
    requires
        pipe_requires(reader.bytes()),
    ensures
        match spec_decode_head(reader.bytes()) {
            Ok((header, pool, n)) => r matches Ok((r2, w2)) && r2.bytes() == reader.bytes().skip(n)
                && w2.buffer()@ == writer.buffer()@ + spec_encode_head(header, pool),
            Err(e) => r == Err::<(Reader<'a, &'a [u8], rphases::Metadata>, Writer<Vec<u8>, wphases::Metadata>), Error>(e),
        },
{
    reveal(spec_decode_head);
    reveal(spec_encode_head);
    let ghost s0 = reader.bytes();
    let ghost w0 = writer.buffer()@;
    let (header, reader) = reader.header()?;
    let ghost s1 = reader.bytes();
    let ghost len = reader.state().spec_len();
    let ghost r0 = reader.spec_rest();
    let mut reader = reader;
    let mut entries: Vec<ConstantPoolEntry<'a>> = Vec::new();
    let mut failure: Option<Error> = None;
    proof {
        broadcast use crate::reader::phases::ConstantPool::lemma_fresh;
        broadcast use crate::util::group_nonzero;

        assert(s0.skip(s0.len() - s1.len()) == s1);
        match ClassfileHeader::spec_decode(s0) {
            Ok((h, n1)) => {
                assert(s0.skip(n1).skip(s0.len() - s1.len() - n1) =~= s1);
                match NonZeroU16::spec_decode(s0.skip(n1)) {
                    Ok((cnt, n2)) => {
                        assert(reader.state() == rphases::ConstantPool::fresh(cnt));
                    },
                    Err(_) => {},
                }
            },
            Err(_) => {},
        }
        assert(views(entries@) =~= Seq::<SpecConstantEntry>::empty());
        if let Ok((vs, k)) = r0 {
            assert(views(entries@) + vs =~= vs);
        }
    }
    assert(spec_decode_head(s0) == head_result(header, s0.len() - s1.len(), r0));
    loop
        invariant_except_break
            failure is None,
            match reader.spec_rest() {
                Ok((vs, k)) => r0 == Ok::<(Seq<SpecConstantEntry>, int), Error>(
                    (views(entries@) + vs, s1.len() - reader.bytes().len() + k),
                ),
                Err(e) => r0 == Err::<(Seq<SpecConstantEntry>, int), Error>(e),
            },
        invariant
            spec_decode_head(s0) == head_result(header, s0.len() - s1.len(), r0),
            reader.wf(),
            reader.state().spec_len() == len,
            suffix(s1, reader.bytes()),
            forall|i: int| 0 <= i < entries@.len() ==> ConstantEntry::encode_requires(
                #[trigger] views(entries@)[i],
            ),
        ensures
            spec_decode_head(s0) == head_result(header, s0.len() - s1.len(), r0),
            failure matches Some(e) ==> r0 == Err::<(Seq<SpecConstantEntry>, int), Error>(e),
            failure is None ==> {
                &&& reader.wf()
                &&& reader.spec_rest() == Ok::<(Seq<SpecConstantEntry>, int), Error>((Seq::empty(), 0))
                &&& suffix(s1, reader.bytes())
                &&& forall|i: int| 0 <= i < entries@.len() ==> ConstantEntry::encode_requires(
                    #[trigger] views(entries@)[i],
                )
                &&& r0 == Ok::<(Seq<SpecConstantEntry>, int), Error>(
                    (views(entries@), s1.len() - reader.bytes().len()),
                )
            },
        decreases reader.left(),
    {
        let ghost b1 = reader.bytes();
        let ghost e1 = entries@;
        match reader.next() {
            None => {
                proof {
                    assert(views(e1) + Seq::<SpecConstantEntry>::empty() =~= views(e1));
                }
                break ;
            },
            Some(Err(e)) => {
                failure = Some(e);
                break ;
            },
            Some(Ok((_, entry))) => {
                proof {
                    let k1 = b1.len() - reader.bytes().len();
                    assert(b1.skip(k1) == reader.bytes());
                    lemma_entry_requires(b1);
                    assert(views(e1.push(entry)) =~= views(e1).push(entry@));
                    if let Ok((vs, j)) = reader.spec_rest() {
                        assert(views(e1) + (seq![entry@] + vs) =~= views(e1).push(entry@) + vs);
                    }
                }
                entries.push(entry);
            },
        }
    }
    if let Some(e) = failure {
        return Err(e);
    }
    let ghost pool = views(entries@);
    let ghost s2 = reader.bytes();
    let reader = match reader.finish() {
        Ok(next) => next,
        Err(e) => {
            return Err(e);
        },
    };
    proof {
        assert(s2.skip(0) =~= s2);
        assert(spec_decode_head(s0) == Ok::<(ClassfileHeader, Seq<SpecConstantEntry>, int), Error>(
            (header, pool, s0.len() - s2.len()),
        ));
        lemma_pool_space_prefix(pool, pool.len() as int);
    }
    let mut writer = match writer.set_header(&header) {
        Ok(w) => w,
        Err(e) => {
            return Err(e);
        },
    };
    let ghost c = writer.state().chunk();
    let ghost before = w0 + ClassfileHeader::spec_encode(header);
    proof {
        assert(pool.take(0) =~= Seq::<SpecConstantEntry>::empty());
        assert(spec_encode_seq::<ConstantEntry<'static>>(Seq::<SpecConstantEntry>::empty()) == Seq::<u8>::empty());
        assert(pool_space(Seq::<SpecConstantEntry>::empty()) == 0);
        assert(writer.buffer()@.skip(before.len() as int + 2) =~= Seq::<u8>::empty());
    }
    let mut j: usize = 0;
    while j < entries.len()
        invariant
            j <= entries@.len(),
            pool == views(entries@),
            pool_space(pool) < u16::MAX,
            forall|i: int| 0 <= i < entries@.len() ==> ConstantEntry::encode_requires(
                #[trigger] views(entries@)[i],
            ),
            writer.wf(),
            writer.state().chunk() == c,
            writer.state().count() == pool_space(pool.take(j as int)),
            holds_slot(writer.buffer()@, before, c, spec_encode_seq::<ConstantEntry<'static>>(pool.take(j as int))),
        decreases entries@.len() - j,
    {
        proof {
            lemma_pool_space_prefix(pool, j + 1);
            assert(pool.take(j + 1).drop_last() =~= pool.take(j as int));
            assert(pool.take(j + 1).last() == pool[j as int]);
            assert(pool[j as int] == entries@[j as int]@);
            assert(ConstantEntry::encode_requires(views(entries@)[j as int]));
        }
        let ghost wb = writer.buffer()@;
        match writer.push(&entries[j]) {
            Ok(()) => {},
            Err(e) => {
                return Err(e);
            },
        }
        proof {
            let a = spec_encode_seq::<ConstantEntry<'static>>(pool.take(j as int));
            let e = ConstantEntry::spec_encode(pool[j as int]);
            assert(writer.buffer()@ =~= wb + e);
            assert(spec_encode_seq::<ConstantEntry<'static>>(pool.take(j + 1)) == a + e);
            assert(writer.buffer()@.take(before.len() as int) =~= wb.take(before.len() as int));
            assert(writer.buffer()@.skip(before.len() as int + 2) =~= a + e);
        }
        j = j + 1;
    }
    proof {
        assert(pool.take(pool.len() as int) =~= pool);
    }
    let ghost wl = writer.buffer()@;
    let writer = match writer.finish() {
        Ok(w) => w,
        Err(e) => {
            return Err(e);
        },
    };
    proof {
        lemma_fill_slot(wl, before, c, spec_encode_seq::<ConstantEntry<'static>>(pool), (pool_space(pool) + 1) as u16);
        assert(writer.buffer()@ =~= w0 + spec_encode_head(header, pool));
    }
    Ok((reader, writer))
}

/// Reads the class metadata and the interfaces, and writes them again; then
/// reads the field count, and reserves its place.
fn pipe_class<'a>(
    reader: Reader<'a, &'a [u8], rphases::Metadata>,
    writer: Writer<Vec<u8>, wphases::Metadata>,
) -> (r: Result<(Reader<'a, &'a [u8], rphases::Fields>, Writer<Vec<u8>, wphases::Fields<wphases::Header>>), Error>)
    ensures
        match spec_decode_class(reader.bytes()) {
            Ok((metadata, interfaces, n)) => match u16::spec_decode(reader.bytes().skip(n)) {
                Ok((count, m)) => r matches Ok((r2, w2)) && {
                    &&& 0 <= n && n + m <= reader.bytes().len()
                    &&& r2.bytes() == reader.bytes().skip(n + m)
                    &&& r2.state().list() == RawList::fresh(count)
                    &&& r2.state().failed() is None
                    &&& w2.wf()
                    &&& w2.state().count() == 0
                    &&& holds_slot(
                        w2.buffer()@,
                        writer.buffer()@ + spec_encode_class(metadata, interfaces),
                        w2.state().chunk(),
                        Seq::empty(),
                    )
                },
                Err(e) => r == Err::<(Reader<'a, &'a [u8], rphases::Fields>, Writer<Vec<u8>, wphases::Fields<wphases::Header>>), Error>(e),
            },
            Err(e) => r == Err::<(Reader<'a, &'a [u8], rphases::Fields>, Writer<Vec<u8>, wphases::Fields<wphases::Header>>), Error>(e),
        },
{
    reveal(spec_decode_class);
    reveal(spec_encode_class);
    broadcast use RawList::lemma_fresh;

    let ghost s0 = reader.bytes();
    let ghost w0 = writer.buffer()@;
    let (metadata, mut reader) = reader.metadata()?;
    let ghost s1 = reader.bytes();
    let ghost total: nat = reader.state().list().spec_len() as nat;
    let mut writer = match writer.set_metadata(&metadata) {
        Ok(w) => w,
        Err(e) => {
            return Err(e);
        },
    };
    let ghost c = writer.state().chunk();
    let ghost before = w0 + ClassMetadata::spec_encode(metadata);
    let ghost mut done: Seq<NonZeroU16> = Seq::empty();
    let mut failure: Option<Error> = None;
    proof {
        assert(s0.skip(s0.len() - s1.len()) == s1);
        match ClassMetadata::spec_decode(s0) {
            Ok((m, n1)) => {
                assert(s0.skip(n1).skip(s0.len() - s1.len() - n1) =~= s1);
            },
            Err(_) => {},
        }
        assert(done + Seq::<NonZeroU16>::empty() =~= done);
        assert(spec_encode_seq::<NonZeroU16>(Seq::<NonZeroU16>::empty()) == Seq::<u8>::empty());
        assert(writer.buffer()@.skip(before.len() as int + 2) =~= Seq::<u8>::empty());
    }
    loop
        invariant_except_break
            failure is None,
            match spec_decode_seq::<NonZeroU16>(reader.bytes(), reader.left()) {
                Ok((vs, k)) => spec_decode_seq::<NonZeroU16>(s1, total) == Ok::<
                    (Seq<NonZeroU16>, int),
                    Error,
                >((done + vs, s1.len() - reader.bytes().len() + k)),
                Err(e) => spec_decode_seq::<NonZeroU16>(s1, total) == Err::<
                    (Seq<NonZeroU16>, int),
                    Error,
                >(e),
            },
            reader.left() + done.len() == total,
        invariant
            reader.wf(),
            reader.state().list().spec_len() == total,
            suffix(s1, reader.bytes()),
            writer.wf(),
            writer.state().chunk() == c,
            writer.state().count() == done.len(),
            holds_slot(writer.buffer()@, before, c, spec_encode_seq::<NonZeroU16>(done)),
        ensures
            failure matches Some(e) ==> spec_decode_seq::<NonZeroU16>(s1, total) == Err::<
                (Seq<NonZeroU16>, int),
                Error,
            >(e),
            failure is None ==> {
                &&& reader.left() == 0
                &&& done.len() == total
                &&& spec_decode_seq::<NonZeroU16>(s1, total) == Ok::<(Seq<NonZeroU16>, int), Error>(
                    (done, s1.len() - reader.bytes().len()),
                )
            },
        decreases reader.left(),
    {
        let ghost b1 = reader.bytes();
        let ghost m = reader.left();
        match reader.next() {
            None => {
                proof {
                    assert(spec_decode_seq::<NonZeroU16>(b1, 0) == Ok::<(Seq<NonZeroU16>, int), Error>(
                        (Seq::empty(), 0),
                    ));
                    assert(done + Seq::<NonZeroU16>::empty() =~= done);
                }
                break ;
            },
            Some(Err(e)) => {
                assert(spec_decode_seq::<NonZeroU16>(b1, m) == Err::<(Seq<NonZeroU16>, int), Error>(e));
                failure = Some(e);
                break ;
            },
            Some(Ok(index)) => {
                proof {
                    let k1 = b1.len() - reader.bytes().len();
                    assert(b1.skip(k1) == reader.bytes());
                    match spec_decode_seq::<NonZeroU16>(reader.bytes(), (m - 1) as nat) {
                        Ok((vs, j)) => {
                            assert(spec_decode_seq::<NonZeroU16>(b1, m) == Ok::<
                                (Seq<NonZeroU16>, int),
                                Error,
                            >((seq![index] + vs, k1 + j)));
                            assert(done + (seq![index] + vs) =~= done.push(index) + vs);
                        },
                        Err(e) => {
                            assert(spec_decode_seq::<NonZeroU16>(b1, m) == Err::<
                                (Seq<NonZeroU16>, int),
                                Error,
                            >(e));
                        },
                    }
                }
                let ghost wb = writer.buffer()@;
                match writer.push(index) {
                    Ok(()) => {},
                    Err(e) => {
                        failure = Some(e);
                        break ;
                    },
                }
                proof {
                    let a = spec_encode_seq::<NonZeroU16>(done);
                    let e = NonZeroU16::spec_encode(index);
                    assert(done.push(index).drop_last() =~= done);
                    assert(spec_encode_seq::<NonZeroU16>(done.push(index)) == a + e);
                    assert(writer.buffer()@ =~= wb + e);
                    assert(writer.buffer()@.take(before.len() as int) =~= wb.take(before.len() as int));
                    assert(writer.buffer()@.skip(before.len() as int + 2) =~= a + e);
                    done = done.push(index);
                }
            },
        }
    }
    if let Some(e) = failure {
        return Err(e);
    }
    let ghost s2 = reader.bytes();
    let ghost wl = writer.buffer()@;
    let writer = match writer.finish() {
        Ok(w) => w,
        Err(e) => {
            return Err(e);
        },
    };
    let reader = reader.finish()?;
    proof {
        let enc = spec_encode_seq::<NonZeroU16>(done);
        assert(spec_decode_seq::<NonZeroU16>(s2, 0) == Ok::<(Seq<NonZeroU16>, int), Error>(
            (Seq::empty(), 0),
        ));
        assert(s2.skip(0) =~= s2);
        assert(s1.skip(s1.len() - s2.len()) == s2);
        assert(done.len() == total);
        assert(spec_encode_list16::<NonZeroU16>(done) == be_u16(total as u16) + enc);
        assert(writer.buffer()@.take(wl.len() as int) =~= before + be_u16(total as u16) + enc);
        assert(writer.buffer()@.take(wl.len() as int) =~= w0 + spec_encode_class(metadata, done));
        assert(writer.buffer()@.skip(wl.len() as int + 2) =~= Seq::<u8>::empty());
    }
    Ok((reader, writer))
}


/// An attribute that decoding gives can be encoded.
proof fn lemma_attribute_requires(s: Seq<u8>)
    requires
        Attribute::spec_decode(s) is Ok,
    ensures
        Attribute::encode_requires(Attribute::spec_decode(s)->Ok_0.0),
{
}

/// Reads the attributes of a field, and writes the field again.
fn pipe_field<'a>(
    field: FieldReader<'a, &'a [u8]>,
    writer: Writer<Vec<u8>, wphases::Fields<wphases::Header>>,
) -> (r: Result<(Writer<Vec<u8>, wphases::Fields<wphases::Header>>, Ghost<Seq<SpecAttribute>>), Error>)
    requires
        field.wf(),
        field.list().spec_read() == 0,
        writer.wf(),
        writer.state().count() < u16::MAX,
    ensures
        match spec_decode_seq::<Attribute<'a>>(field.bytes(), field.left()) {
            Ok((vs, k)) => r matches Ok((w2, attrs)) && {
                &&& attrs@ == vs
                &&& 0 <= k <= field.bytes().len()
                &&& w2.wf()
                &&& w2.state().chunk() == writer.state().chunk()
                &&& w2.state().count() == writer.state().count() + 1
                &&& w2.buffer()@ == writer.buffer()@ + spec_encode_member::<FieldHeader>(
                    (field.spec_header(), attrs@),
                )
            },
            Err(e) => r == Err::<(Writer<Vec<u8>, wphases::Fields<wphases::Header>>, Ghost<Seq<SpecAttribute>>), Error>(e),
        },
{
    let ghost fb = field.bytes();
    let ghost total = field.left();
    let ghost w0 = writer.buffer()@;
    let ghost header = field.spec_header();
    let mut field = field;
    let mut w = match writer.set_header(field.header()) {
        Ok(w) => w,
        Err(e) => {
            return Err(e);
        },
    };
    let ghost c = w.state().inner().chunk();
    let ghost before = w0 + FieldHeader::spec_encode(header);
    let ghost mut done: Seq<SpecAttribute> = Seq::empty();
    let mut failure: Option<Error> = None;
    proof {
        assert(done + Seq::<SpecAttribute>::empty() =~= done);
        assert(spec_encode_seq::<Attribute<'static>>(Seq::<SpecAttribute>::empty()) == Seq::<u8>::empty());
        assert(w.buffer()@.skip(before.len() as int + 2) =~= Seq::<u8>::empty());
        assert(fb.skip(0) =~= fb);
    }
    loop
        invariant_except_break
            failure is None,
            match spec_decode_seq::<Attribute<'a>>(field.bytes(), field.left()) {
                Ok((vs, k)) => spec_decode_seq::<Attribute<'a>>(fb, total) == Ok::<
                    (Seq<SpecAttribute>, int),
                    Error,
                >((done + vs, fb.len() - field.bytes().len() + k)),
                Err(e) => spec_decode_seq::<Attribute<'a>>(fb, total) == Err::<
                    (Seq<SpecAttribute>, int),
                    Error,
                >(e),
            },
            field.left() + done.len() == total,
        invariant
            field.wf(),
            field.list().spec_len() == total,
            suffix(fb, field.bytes()),
            total <= u16::MAX,
            w.wf(),
            w.state().inner().chunk() == c,
            w.state().chunk() == writer.state().chunk(),
            w.state().count() == writer.state().count(),
            w.state().inner().count() == done.len(),
            holds_slot(w.buffer()@, before, c, spec_encode_seq::<Attribute<'static>>(done)),
        ensures
            failure matches Some(e) ==> spec_decode_seq::<Attribute<'a>>(fb, total) == Err::<
                (Seq<SpecAttribute>, int),
                Error,
            >(e),
            failure is None ==> done.len() == total && suffix(fb, field.bytes())
                && spec_decode_seq::<Attribute<'a>>(fb, total) == Ok::<(Seq<SpecAttribute>, int), Error>(
                (done, fb.len() - field.bytes().len()),
            ),
        decreases field.left(),
    {
        let ghost b1 = field.bytes();
        let ghost m = field.left();
        match field.next() {
            Some(Ok(attr)) => {
                proof {
                    let k1 = b1.len() - field.bytes().len();
                    assert(b1.skip(k1) == field.bytes());
                    lemma_attribute_requires(b1);
                    match spec_decode_seq::<Attribute<'a>>(field.bytes(), (m - 1) as nat) {
                        Ok((vs, j)) => {
                            assert(spec_decode_seq::<Attribute<'a>>(b1, m) == Ok::<
                                (Seq<SpecAttribute>, int),
                                Error,
                            >((seq![attr@] + vs, k1 + j)));
                            assert(done + (seq![attr@] + vs) =~= done.push(attr@) + vs);
                        },
                        Err(e) => {
                            assert(spec_decode_seq::<Attribute<'a>>(b1, m) == Err::<
                                (Seq<SpecAttribute>, int),
                                Error,
                            >(e));
                        },
                    }
                }
                let ghost wb = w.buffer()@;
                match w.push(&attr) {
                    Ok(()) => {},
                    Err(e) => {
                        return Err(e);
                    },
                }
                proof {
                    let a = spec_encode_seq::<Attribute<'static>>(done);
                    let e = Attribute::spec_encode(attr@);
                    assert(done.push(attr@).drop_last() =~= done);
                    assert(spec_encode_seq::<Attribute<'static>>(done.push(attr@)) == a + e);
                    lemma_slot_step(wb, w.buffer()@, before, c, a, e);
                    done = done.push(attr@);
                }
            },
            Some(Err(e)) => {
                proof {
                    assert(spec_decode_seq::<Attribute<'a>>(b1, m) == Err::<
                        (Seq<SpecAttribute>, int),
                        Error,
                    >(e));
                }
                failure = Some(e);
                break ;
            },
            None => {
                proof {
                    assert(spec_decode_seq::<Attribute<'a>>(b1, 0) == Ok::<(Seq<SpecAttribute>, int), Error>(
                        (Seq::empty(), 0),
                    ));
                    assert(done + Seq::<SpecAttribute>::empty() =~= done);
                }
                break ;
            },
        }
    }
    if let Some(e) = failure {
        return Err(e);
    }
    let ghost wl = w.buffer()@;
    let writer = match w.finish() {
        Ok(w) => w,
        Err(e) => {
            return Err(e);
        },
    };
    proof {
        lemma_fill_slot(wl, before, c, spec_encode_seq::<Attribute<'static>>(done), done.len() as u16);
        assert(spec_encode_list16::<Attribute<'static>>(done) == be_u16(done.len() as u16)
            + spec_encode_seq::<Attribute<'static>>(done));
        assert(writer.buffer()@ =~= w0 + spec_encode_member::<FieldHeader>((header, done)));
    }
    Ok((writer, Ghost(done)))
}


/// Decoding a member is decoding its header and count, then its attributes.
proof fn lemma_member_split<'a, H: Decode<'a>>(c: Seq<u8>)
    requires
        spec_member_head::<H>(c) is Ok ==> (H::spec_decode(c) matches Ok((_, n1)) && 0 <= n1
            && c.skip(n1).skip(2) == c.skip(n1 + 2)),
    ensures
        spec_decode_member::<H>(c) == match spec_member_head::<H>(c) {
            Ok((h, count, start)) => match spec_decode_seq::<Attribute<'a>>(c.skip(start), count as nat) {
                Ok((attrs, n3)) => Ok::<((H::V, Seq<SpecAttribute>), int), Error>(((h, attrs), start + n3)),
                Err(e) => Err::<((H::V, Seq<SpecAttribute>), int), Error>(e),
            },
            Err(e) => Err::<((H::V, Seq<SpecAttribute>), int), Error>(e),
        },
{
}

/// A member whose attributes do not decode stops the decoding of the members.
proof fn lemma_member_err<'a, H: Decode<'a>>(b1: Seq<u8>, m: nat, e: Error)
    requires
        m > 0,
        spec_member_head::<H>(b1) matches Ok((_, count, start)) && spec_decode_seq::<Attribute<'a>>(
            b1.skip(start),
            count as nat,
        ) == Err::<(Seq<SpecAttribute>, int), Error>(e),
        H::spec_decode(b1) matches Ok((_, n1)) && 0 <= n1 && b1.skip(n1).skip(2) == b1.skip(n1 + 2),
    ensures
        spec_decode_members::<H>(b1, m) == Err::<(Seq<(H::V, Seq<SpecAttribute>)>, int), Error>(e),
{
    lemma_member_split::<H>(b1);
}

/// A member whose header does not decode stops the decoding of the members.
proof fn lemma_member_head_err<'a, H: Decode<'a>>(b1: Seq<u8>, m: nat, e: Error)
    requires
        m > 0,
        spec_member_head::<H>(b1) == Err::<(H::V, u16, int), Error>(e),
    ensures
        spec_decode_members::<H>(b1, m) == Err::<(Seq<(H::V, Seq<SpecAttribute>)>, int), Error>(e),
{
    lemma_member_split::<H>(b1);
}

/// A member read whole keeps the decoding of the members in step.
proof fn lemma_member_ok<'a, H: Decode<'a>>(
    b0: Seq<u8>,
    n0: nat,
    b1: Seq<u8>,
    m: nat,
    done: Seq<(H::V, Seq<SpecAttribute>)>,
    attrs: Seq<SpecAttribute>,
    n3: int,
)
    requires
        m > 0,
        spec_member_head::<H>(b1) matches Ok((_, count, start)) && 0 <= start <= b1.len()
            && spec_decode_seq::<Attribute<'a>>(b1.skip(start), count as nat) == Ok::<
            (Seq<SpecAttribute>, int),
            Error,
        >((attrs, n3)) && 0 <= n3 <= b1.skip(start).len(),
        H::spec_decode(b1) matches Ok((_, n1)) && 0 <= n1 && b1.skip(n1).skip(2) == b1.skip(n1 + 2),
        match spec_decode_members::<H>(b1, m) {
            Ok((ms, k)) => spec_decode_members::<H>(b0, n0) == Ok::<
                (Seq<(H::V, Seq<SpecAttribute>)>, int),
                Error,
            >((done + ms, b0.len() - b1.len() + k)),
            Err(e) => spec_decode_members::<H>(b0, n0) == Err::<
                (Seq<(H::V, Seq<SpecAttribute>)>, int),
                Error,
            >(e),
        },
    ensures
        spec_member_head::<H>(b1) matches Ok((h, _, start)) && {
            let next = b1.skip(start).skip(n3);
            &&& next == b1.skip(start + n3)
            &&& match spec_decode_members::<H>(next, (m - 1) as nat) {
                Ok((ms, k)) => spec_decode_members::<H>(b0, n0) == Ok::<
                    (Seq<(H::V, Seq<SpecAttribute>)>, int),
                    Error,
                >((done.push((h, attrs)) + ms, b0.len() - next.len() + k)),
                Err(e) => spec_decode_members::<H>(b0, n0) == Err::<
                    (Seq<(H::V, Seq<SpecAttribute>)>, int),
                    Error,
                >(e),
            }
        },
{
    lemma_member_split::<H>(b1);
    let (h, count, start) = spec_member_head::<H>(b1)->Ok_0;
    assert(b1.skip(start).skip(n3) =~= b1.skip(start + n3));
    lemma_members_step::<H>(b0, n0, b1, m, done, (h, attrs), start + n3);
}

/// One more member read keeps the decoding of all of them in step.
proof fn lemma_members_step<'a, H: Decode<'a>>(
    b0: Seq<u8>,
    n0: nat,
    b1: Seq<u8>,
    m: nat,
    done: Seq<(H::V, Seq<SpecAttribute>)>,
    x: (H::V, Seq<SpecAttribute>),
    k1: int,
)
    requires
        m > 0,
        0 <= k1 <= b1.len(),
        spec_decode_member::<H>(b1) == Ok::<((H::V, Seq<SpecAttribute>), int), Error>((x, k1)),
        match spec_decode_members::<H>(b1, m) {
            Ok((ms, k)) => spec_decode_members::<H>(b0, n0) == Ok::<
                (Seq<(H::V, Seq<SpecAttribute>)>, int),
                Error,
            >((done + ms, b0.len() - b1.len() + k)),
            Err(e) => spec_decode_members::<H>(b0, n0) == Err::<
                (Seq<(H::V, Seq<SpecAttribute>)>, int),
                Error,
            >(e),
        },
    ensures
        match spec_decode_members::<H>(b1.skip(k1), (m - 1) as nat) {
            Ok((ms, k)) => spec_decode_members::<H>(b0, n0) == Ok::<
                (Seq<(H::V, Seq<SpecAttribute>)>, int),
                Error,
            >((done.push(x) + ms, b0.len() - b1.skip(k1).len() + k)),
            Err(e) => spec_decode_members::<H>(b0, n0) == Err::<
                (Seq<(H::V, Seq<SpecAttribute>)>, int),
                Error,
            >(e),
        },
{
    match spec_decode_members::<H>(b1.skip(k1), (m - 1) as nat) {
        Ok((ms, j)) => {
            assert(done + (seq![x] + ms) =~= done.push(x) + ms);
        },
        Err(e) => {},
    }
}

/// Appending to what follows a slot keeps it a slot.
proof fn lemma_slot_step(wb: Seq<u8>, w: Seq<u8>, before: Seq<u8>, c: VecChunk, a: Seq<u8>, e: Seq<u8>)
    requires
        holds_slot(wb, before, c, a),
        w == wb + e,
    ensures
        holds_slot(w, before, c, a + e),
{
    assert(w.take(before.len() as int) =~= wb.take(before.len() as int));
    assert(w.skip(before.len() as int + 2) =~= a + e);
}

proof fn lemma_encode_members_push<H: Encode>(ms: Seq<(H::V, Seq<SpecAttribute>)>, x: (H::V, Seq<SpecAttribute>))
    ensures
        spec_encode_members::<H>(ms.push(x)) == spec_encode_members::<H>(ms) + spec_encode_member::<H>(x),
{
    assert(ms.push(x).drop_last() =~= ms);
}

/// Reads the fields and writes them again; then reads the method count, and
/// reserves its place.
#[verifier::spinoff_prover]
#[verifier::rlimit(100)]
fn pipe_fields<'a>(
    reader: Reader<'a, &'a [u8], rphases::Fields>,
    writer: Writer<Vec<u8>, wphases::Fields<wphases::Header>>,
    Ghost(before): Ghost<Seq<u8>>,
) -> (r: Result<(Reader<'a, &'a [u8], rphases::Methods>, Writer<Vec<u8>, wphases::Methods<wphases::Header>>), Error>)
    requires
        reader.wf(),
        reader.state().failed() is None,
        writer.wf(),
        writer.state().count() == 0,
        holds_slot(writer.buffer()@, before, writer.state().chunk(), Seq::empty()),
    ensures
        spec_decode_members::<FieldHeader>(reader.bytes(), reader.left()) matches Ok((_, k)) ==> 0 <= k
            <= reader.bytes().len(),
        match spec_decode_members::<FieldHeader>(reader.bytes(), reader.left()) {
            Ok((fields, k)) => match u16::spec_decode(reader.bytes().skip(k)) {
                Ok((count, m)) => r matches Ok((r2, w2)) && {
                    &&& 0 <= k && k + m <= reader.bytes().len()
                    &&& r2.bytes() == reader.bytes().skip(k + m)
                    &&& r2.state().list() == RawList::fresh(count)
                    &&& r2.state().failed() is None
                    &&& w2.wf()
                    &&& w2.state().count() == 0
                    &&& fields.len() == reader.left()
                    &&& holds_slot(
                        w2.buffer()@,
                        before + be_u16(reader.left() as u16) + spec_encode_members::<FieldHeader>(fields),
                        w2.state().chunk(),
                        Seq::empty(),
                    )
                },
                Err(e) => r == Err::<(Reader<'a, &'a [u8], rphases::Methods>, Writer<Vec<u8>, wphases::Methods<wphases::Header>>), Error>(e),
            },
            Err(e) => r == Err::<(Reader<'a, &'a [u8], rphases::Methods>, Writer<Vec<u8>, wphases::Methods<wphases::Header>>), Error>(e),
        },
{
    broadcast use RawList::lemma_fresh;

    let ghost b0 = reader.bytes();
    let ghost n0 = reader.left();
    let ghost l0 = reader.state().list().spec_len();
    let ghost c = writer.state().chunk();
    let ghost mut done: Seq<(FieldHeader, Seq<SpecAttribute>)> = Seq::empty();
    let ghost mut cur: Seq<u8> = b0;
    let mut failure: Option<Error> = None;
    let mut rdr = reader;
    let mut writer = writer;
    proof {
        assert(done + Seq::<(FieldHeader, Seq<SpecAttribute>)>::empty() =~= done);
        assert(b0.skip(0) =~= b0);
        assert(spec_encode_members::<FieldHeader>(done) == Seq::<u8>::empty());
        assert(spec_decode_seq::<Attribute<'a>>(b0, 0) == Ok::<(Seq<SpecAttribute>, int), Error>(
            (Seq::empty(), 0),
        ));
    }
    loop
        invariant_except_break
            failure is None,
            rdr.spec_cursor() == Ok::<Seq<u8>, Error>(cur),
            match spec_decode_members::<FieldHeader>(cur, rdr.left()) {
                Ok((ms, k)) => spec_decode_members::<FieldHeader>(b0, n0) == Ok::<
                    (Seq<(FieldHeader, Seq<SpecAttribute>)>, int),
                    Error,
                >((done + ms, b0.len() - cur.len() + k)),
                Err(e) => spec_decode_members::<FieldHeader>(b0, n0) == Err::<
                    (Seq<(FieldHeader, Seq<SpecAttribute>)>, int),
                    Error,
                >(e),
            },
            rdr.left() + done.len() == n0,
            suffix(b0, cur),
        invariant
            b0 == reader.bytes(),
            n0 == reader.left(),
            rdr.wf(),
            rdr.state().list().spec_len() == l0,
            n0 <= u16::MAX,
            suffix(b0, rdr.bytes()),
            writer.wf(),
            writer.state().chunk() == c,
            writer.state().count() == done.len(),
            holds_slot(writer.buffer()@, before, c, spec_encode_members::<FieldHeader>(done)),
        ensures
            failure matches Some(e) ==> spec_decode_members::<FieldHeader>(b0, n0) == Err::<
                (Seq<(FieldHeader, Seq<SpecAttribute>)>, int),
                Error,
            >(e),
            failure is None ==> {
                &&& rdr.left() == 0
                &&& done.len() == n0
                &&& rdr.spec_cursor() == Ok::<Seq<u8>, Error>(cur)
                &&& suffix(b0, cur)
                &&& spec_decode_members::<FieldHeader>(b0, n0) == Ok::<
                    (Seq<(FieldHeader, Seq<SpecAttribute>)>, int),
                    Error,
                >((done, b0.len() - cur.len()))
            },
        decreases rdr.left(),
    {
        let ghost m = rdr.left();
        let ghost b1 = cur;
        match rdr.next() {
            None => {
                proof {
                    assert(spec_decode_members::<FieldHeader>(b1, 0) == Ok::<
                        (Seq<(FieldHeader, Seq<SpecAttribute>)>, int),
                        Error,
                    >((Seq::empty(), 0)));
                    assert(done + Seq::<(FieldHeader, Seq<SpecAttribute>)>::empty() =~= done);
                }
                break ;
            },
            Some(Err(e)) => {
                proof {
                    lemma_member_head_err::<FieldHeader>(b1, m, e);
                }
                failure = Some(e);
                break ;
            },
            Some(Ok(field)) => {
                let ghost h = field.spec_header();
                let ghost fb = field.bytes();
                let ghost start = spec_member_head::<FieldHeader>(b1)->Ok_0.2;
                proof {
                    lemma_member_split::<FieldHeader>(b1);
                    RawList::lemma_fresh(spec_member_head::<FieldHeader>(b1)->Ok_0.1);
                }
                let ghost wb = writer.buffer()@;
                let (w2, Ghost(attrs)) = match pipe_field(field, writer) {
                    Ok(x) => x,
                    Err(e) => {
                        proof {
                            lemma_member_err::<FieldHeader>(b1, m, e);
                            assert(spec_decode_members::<FieldHeader>(b1, m) == Err::<
                                (Seq<(FieldHeader, Seq<SpecAttribute>)>, int),
                                Error,
                            >(e));
                            assert(spec_decode_members::<FieldHeader>(b0, n0) == Err::<
                                (Seq<(FieldHeader, Seq<SpecAttribute>)>, int),
                                Error,
                            >(e));
                        }
                        return Err(e);
                    },
                };
                writer = w2;
                proof {
                    let n3 = spec_decode_seq::<Attribute<'a>>(fb, spec_member_head::<FieldHeader>(b1)->Ok_0.1 as nat)->Ok_0.1;
                    lemma_member_ok::<FieldHeader>(b0, n0, b1, m, done, attrs, n3);
                    lemma_slot_step(wb, writer.buffer()@, before, c, spec_encode_members::<FieldHeader>(done), spec_encode_member::<FieldHeader>((h, attrs)));
                    lemma_encode_members_push::<FieldHeader>(done, (h, attrs));
                    done = done.push((h, attrs));
                    cur = b1.skip(start + n3);
                    assert(b0.skip(b0.len() - cur.len()) =~= cur);
                }
            },
        }
    }
    if let Some(e) = failure {
        return Err(e);
    }
    let ghost wl = writer.buffer()@;
    let writer = match writer.finish() {
        Ok(w) => w,
        Err(e) => {
            return Err(e);
        },
    };
    let rdr = rdr.finish()?;
    proof {
        assert(crate::reader::spec_members::<FieldHeader>(cur, 0) == Ok::<int, Error>(0));
        assert(cur.skip(0) =~= cur);
        assert(b0.skip(b0.len() - cur.len()) == cur);
        let enc = spec_encode_members::<FieldHeader>(done);
        assert(writer.buffer()@.take(wl.len() as int) =~= before + be_u16(n0 as u16) + enc);
        assert(writer.buffer()@.skip(wl.len() as int + 2) =~= Seq::<u8>::empty());
    }
    Ok((rdr, writer))
}


/// Reads the attributes of a method, and writes the method again.
fn pipe_method<'a>(
    method: MethodReader<'a, &'a [u8]>,
    writer: Writer<Vec<u8>, wphases::Methods<wphases::Header>>,
) -> (r: Result<(Writer<Vec<u8>, wphases::Methods<wphases::Header>>, Ghost<Seq<SpecAttribute>>), Error>)
    requires
        method.wf(),
        method.list().spec_read() == 0,
        writer.wf(),
        writer.state().count() < u16::MAX,
    ensures
        match spec_decode_seq::<Attribute<'a>>(method.bytes(), method.left()) {
            Ok((vs, k)) => r matches Ok((w2, attrs)) && {
                &&& attrs@ == vs
                &&& 0 <= k <= method.bytes().len()
                &&& w2.wf()
                &&& w2.state().chunk() == writer.state().chunk()
                &&& w2.state().count() == writer.state().count() + 1
                &&& w2.buffer()@ == writer.buffer()@ + spec_encode_member::<MethodHeader>(
                    (method.spec_header(), attrs@),
                )
            },
            Err(e) => r == Err::<(Writer<Vec<u8>, wphases::Methods<wphases::Header>>, Ghost<Seq<SpecAttribute>>), Error>(e),
        },
{
    let ghost fb = method.bytes();
    let ghost total = method.left();
    let ghost w0 = writer.buffer()@;
    let ghost header = method.spec_header();
    let mut method = method;
    let mut w = match writer.set_header(method.header()) {
        Ok(w) => w,
        Err(e) => {
            return Err(e);
        },
    };
    let ghost c = w.state().inner().chunk();
    let ghost before = w0 + MethodHeader::spec_encode(header);
    let ghost mut done: Seq<SpecAttribute> = Seq::empty();
    let mut failure: Option<Error> = None;
    proof {
        assert(done + Seq::<SpecAttribute>::empty() =~= done);
        assert(spec_encode_seq::<Attribute<'static>>(Seq::<SpecAttribute>::empty()) == Seq::<u8>::empty());
        assert(w.buffer()@.skip(before.len() as int + 2) =~= Seq::<u8>::empty());
        assert(fb.skip(0) =~= fb);
    }
    loop
        invariant_except_break
            failure is None,
            match spec_decode_seq::<Attribute<'a>>(method.bytes(), method.left()) {
                Ok((vs, k)) => spec_decode_seq::<Attribute<'a>>(fb, total) == Ok::<
                    (Seq<SpecAttribute>, int),
                    Error,
                >((done + vs, fb.len() - method.bytes().len() + k)),
                Err(e) => spec_decode_seq::<Attribute<'a>>(fb, total) == Err::<
                    (Seq<SpecAttribute>, int),
                    Error,
                >(e),
            },
            method.left() + done.len() == total,
        invariant
            method.wf(),
            method.list().spec_len() == total,
            suffix(fb, method.bytes()),
            total <= u16::MAX,
            w.wf(),
            w.state().inner().chunk() == c,
            w.state().chunk() == writer.state().chunk(),
            w.state().count() == writer.state().count(),
            w.state().inner().count() == done.len(),
            holds_slot(w.buffer()@, before, c, spec_encode_seq::<Attribute<'static>>(done)),
        ensures
            failure matches Some(e) ==> spec_decode_seq::<Attribute<'a>>(fb, total) == Err::<
                (Seq<SpecAttribute>, int),
                Error,
            >(e),
            failure is None ==> done.len() == total && suffix(fb, method.bytes())
                && spec_decode_seq::<Attribute<'a>>(fb, total) == Ok::<(Seq<SpecAttribute>, int), Error>(
                (done, fb.len() - method.bytes().len()),
            ),
        decreases method.left(),
    {
        let ghost b1 = method.bytes();
        let ghost m = method.left();
        match method.next() {
            Some(Ok(attr)) => {
                proof {
                    let k1 = b1.len() - method.bytes().len();
                    assert(b1.skip(k1) == method.bytes());
                    lemma_attribute_requires(b1);
                    match spec_decode_seq::<Attribute<'a>>(method.bytes(), (m - 1) as nat) {
                        Ok((vs, j)) => {
                            assert(spec_decode_seq::<Attribute<'a>>(b1, m) == Ok::<
                                (Seq<SpecAttribute>, int),
                                Error,
                            >((seq![attr@] + vs, k1 + j)));
                            assert(done + (seq![attr@] + vs) =~= done.push(attr@) + vs);
                        },
                        Err(e) => {
                            assert(spec_decode_seq::<Attribute<'a>>(b1, m) == Err::<
                                (Seq<SpecAttribute>, int),
                                Error,
                            >(e));
                        },
                    }
                }
                let ghost wb = w.buffer()@;
                match w.push(&attr) {
                    Ok(()) => {},
                    Err(e) => {
                        return Err(e);
                    },
                }
                proof {
                    let a = spec_encode_seq::<Attribute<'static>>(done);
                    let e = Attribute::spec_encode(attr@);
                    assert(done.push(attr@).drop_last() =~= done);
                    assert(spec_encode_seq::<Attribute<'static>>(done.push(attr@)) == a + e);
                    lemma_slot_step(wb, w.buffer()@, before, c, a, e);
                    done = done.push(attr@);
                }
            },
            Some(Err(e)) => {
                proof {
                    assert(spec_decode_seq::<Attribute<'a>>(b1, m) == Err::<
                        (Seq<SpecAttribute>, int),
                        Error,
                    >(e));
                }
                failure = Some(e);
                break ;
            },
            None => {
                proof {
                    assert(spec_decode_seq::<Attribute<'a>>(b1, 0) == Ok::<(Seq<SpecAttribute>, int), Error>(
                        (Seq::empty(), 0),
                    ));
                    assert(done + Seq::<SpecAttribute>::empty() =~= done);
                }
                break ;
            },
        }
    }
    if let Some(e) = failure {
        return Err(e);
    }
    let ghost wl = w.buffer()@;
    let writer = match w.finish() {
        Ok(w) => w,
        Err(e) => {
            return Err(e);
        },
    };
    proof {
        lemma_fill_slot(wl, before, c, spec_encode_seq::<Attribute<'static>>(done), done.len() as u16);
        assert(spec_encode_list16::<Attribute<'static>>(done) == be_u16(done.len() as u16)
            + spec_encode_seq::<Attribute<'static>>(done));
        assert(writer.buffer()@ =~= w0 + spec_encode_member::<MethodHeader>((header, done)));
    }
    Ok((writer, Ghost(done)))
}

/// Reads the methods and writes them again; then reads the attribute count of
/// the class, and reserves its place.
#[verifier::spinoff_prover]
#[verifier::rlimit(100)]
fn pipe_methods<'a>(
    reader: Reader<'a, &'a [u8], rphases::Methods>,
    writer: Writer<Vec<u8>, wphases::Methods<wphases::Header>>,
    Ghost(before): Ghost<Seq<u8>>,
) -> (r: Result<(Reader<'a, &'a [u8], rphases::Attributes>, Writer<Vec<u8>, wphases::Attributes>), Error>)
    requires
        reader.wf(),
        reader.state().failed() is None,
        writer.wf(),
        writer.state().count() == 0,
        holds_slot(writer.buffer()@, before, writer.state().chunk(), Seq::empty()),
    ensures
        spec_decode_members::<MethodHeader>(reader.bytes(), reader.left()) matches Ok((_, k)) ==> 0 <= k
            <= reader.bytes().len(),
        match spec_decode_members::<MethodHeader>(reader.bytes(), reader.left()) {
            Ok((methods, k)) => match u16::spec_decode(reader.bytes().skip(k)) {
                Ok((count, m)) => r matches Ok((r2, w2)) && {
                    &&& 0 <= k && k + m <= reader.bytes().len()
                    &&& r2.bytes() == reader.bytes().skip(k + m)
                    &&& r2.state().list() == RawList::fresh(count)
                    &&& w2.wf()
                    &&& w2.state().count() == 0
                    &&& methods.len() == reader.left()
                    &&& holds_slot(
                        w2.buffer()@,
                        before + be_u16(reader.left() as u16) + spec_encode_members::<MethodHeader>(methods),
                        w2.state().chunk(),
                        Seq::empty(),
                    )
                },
                Err(e) => r == Err::<(Reader<'a, &'a [u8], rphases::Attributes>, Writer<Vec<u8>, wphases::Attributes>), Error>(e),
            },
            Err(e) => r == Err::<(Reader<'a, &'a [u8], rphases::Attributes>, Writer<Vec<u8>, wphases::Attributes>), Error>(e),
        },
{
    broadcast use RawList::lemma_fresh;

    let ghost b0 = reader.bytes();
    let ghost n0 = reader.left();
    let ghost l0 = reader.state().list().spec_len();
    let ghost c = writer.state().chunk();
    let ghost mut done: Seq<(MethodHeader, Seq<SpecAttribute>)> = Seq::empty();
    let ghost mut cur: Seq<u8> = b0;
    let mut failure: Option<Error> = None;
    let mut rdr = reader;
    let mut writer = writer;
    proof {
        assert(done + Seq::<(MethodHeader, Seq<SpecAttribute>)>::empty() =~= done);
        assert(b0.skip(0) =~= b0);
        assert(spec_encode_members::<MethodHeader>(done) == Seq::<u8>::empty());
        assert(spec_decode_seq::<Attribute<'a>>(b0, 0) == Ok::<(Seq<SpecAttribute>, int), Error>(
            (Seq::empty(), 0),
        ));
    }
    loop
        invariant_except_break
            failure is None,
            rdr.spec_cursor() == Ok::<Seq<u8>, Error>(cur),
            match spec_decode_members::<MethodHeader>(cur, rdr.left()) {
                Ok((ms, k)) => spec_decode_members::<MethodHeader>(b0, n0) == Ok::<
                    (Seq<(MethodHeader, Seq<SpecAttribute>)>, int),
                    Error,
                >((done + ms, b0.len() - cur.len() + k)),
                Err(e) => spec_decode_members::<MethodHeader>(b0, n0) == Err::<
                    (Seq<(MethodHeader, Seq<SpecAttribute>)>, int),
                    Error,
                >(e),
            },
            rdr.left() + done.len() == n0,
            suffix(b0, cur),
        invariant
            b0 == reader.bytes(),
            n0 == reader.left(),
            rdr.wf(),
            rdr.state().list().spec_len() == l0,
            n0 <= u16::MAX,
            suffix(b0, rdr.bytes()),
            writer.wf(),
            writer.state().chunk() == c,
            writer.state().count() == done.len(),
            holds_slot(writer.buffer()@, before, c, spec_encode_members::<MethodHeader>(done)),
        ensures
            failure matches Some(e) ==> spec_decode_members::<MethodHeader>(b0, n0) == Err::<
                (Seq<(MethodHeader, Seq<SpecAttribute>)>, int),
                Error,
            >(e),
            failure is None ==> {
                &&& rdr.left() == 0
                &&& done.len() == n0
                &&& rdr.spec_cursor() == Ok::<Seq<u8>, Error>(cur)
                &&& suffix(b0, cur)
                &&& spec_decode_members::<MethodHeader>(b0, n0) == Ok::<
                    (Seq<(MethodHeader, Seq<SpecAttribute>)>, int),
                    Error,
                >((done, b0.len() - cur.len()))
            },
        decreases rdr.left(),
    {
        let ghost m = rdr.left();
        let ghost b1 = cur;
        match rdr.next() {
            None => {
                proof {
                    assert(spec_decode_members::<MethodHeader>(b1, 0) == Ok::<
                        (Seq<(MethodHeader, Seq<SpecAttribute>)>, int),
                        Error,
                    >((Seq::empty(), 0)));
                    assert(done + Seq::<(MethodHeader, Seq<SpecAttribute>)>::empty() =~= done);
                }
                break ;
            },
            Some(Err(e)) => {
                proof {
                    lemma_member_head_err::<MethodHeader>(b1, m, e);
                }
                failure = Some(e);
                break ;
            },
            Some(Ok(method)) => {
                let ghost h = method.spec_header();
                let ghost fb = method.bytes();
                let ghost start = spec_member_head::<MethodHeader>(b1)->Ok_0.2;
                proof {
                    lemma_member_split::<MethodHeader>(b1);
                    RawList::lemma_fresh(spec_member_head::<MethodHeader>(b1)->Ok_0.1);
                }
                let ghost wb = writer.buffer()@;
                let (w2, Ghost(attrs)) = match pipe_method(method, writer) {
                    Ok(x) => x,
                    Err(e) => {
                        proof {
                            lemma_member_err::<MethodHeader>(b1, m, e);
                            assert(spec_decode_members::<MethodHeader>(b1, m) == Err::<
                                (Seq<(MethodHeader, Seq<SpecAttribute>)>, int),
                                Error,
                            >(e));
                            assert(spec_decode_members::<MethodHeader>(b0, n0) == Err::<
                                (Seq<(MethodHeader, Seq<SpecAttribute>)>, int),
                                Error,
                            >(e));
                        }
                        return Err(e);
                    },
                };
                writer = w2;
                proof {
                    let n3 = spec_decode_seq::<Attribute<'a>>(fb, spec_member_head::<MethodHeader>(b1)->Ok_0.1 as nat)->Ok_0.1;
                    lemma_member_ok::<MethodHeader>(b0, n0, b1, m, done, attrs, n3);
                    lemma_slot_step(wb, writer.buffer()@, before, c, spec_encode_members::<MethodHeader>(done), spec_encode_member::<MethodHeader>((h, attrs)));
                    lemma_encode_members_push::<MethodHeader>(done, (h, attrs));
                    done = done.push((h, attrs));
                    cur = b1.skip(start + n3);
                    assert(b0.skip(b0.len() - cur.len()) =~= cur);
                }
            },
        }
    }
    if let Some(e) = failure {
        return Err(e);
    }
    let ghost wl = writer.buffer()@;
    let writer = match writer.finish() {
        Ok(w) => w,
        Err(e) => {
            return Err(e);
        },
    };
    let rdr = rdr.finish()?;
    proof {
        assert(crate::reader::spec_members::<MethodHeader>(cur, 0) == Ok::<int, Error>(0));
        assert(cur.skip(0) =~= cur);
        assert(b0.skip(b0.len() - cur.len()) == cur);
        let enc = spec_encode_members::<MethodHeader>(done);
        assert(writer.buffer()@.take(wl.len() as int) =~= before + be_u16(n0 as u16) + enc);
        assert(writer.buffer()@.skip(wl.len() as int + 2) =~= Seq::<u8>::empty());
    }
    Ok((rdr, writer))
}


/// Reads the attributes of the class and writes them again; then fills in their
/// count, and gives back the bytes written.
fn pipe_attributes<'a>(
    reader: Reader<'a, &'a [u8], rphases::Attributes>,
    writer: Writer<Vec<u8>, wphases::Attributes>,
    Ghost(before): Ghost<Seq<u8>>,
) -> (r: Result<Vec<u8>, Error>)
    requires
        reader.wf(),
        writer.wf(),
        writer.state().count() == 0,
        holds_slot(writer.buffer()@, before, writer.state().chunk(), Seq::empty()),
    ensures
        match spec_decode_seq::<Attribute<'a>>(reader.bytes(), reader.left()) {
            Ok((attrs, _)) => r matches Ok(out) && attrs.len() == reader.left() && out@ == before
                + be_u16(reader.left() as u16) + spec_encode_seq::<Attribute<'static>>(attrs),
            Err(e) => r == Err::<Vec<u8>, Error>(e),
        },
{
    let ghost b0 = reader.bytes();
    let ghost n0 = reader.left();
    let ghost l0 = reader.state().list().spec_len();
    let ghost c = writer.state().chunk();
    let ghost mut done: Seq<SpecAttribute> = Seq::empty();
    let mut failure: Option<Error> = None;
    let mut reader = reader;
    let mut writer = writer;
    proof {
        assert(done + Seq::<SpecAttribute>::empty() =~= done);
        assert(b0.skip(0) =~= b0);
        assert(spec_encode_seq::<Attribute<'static>>(done) == Seq::<u8>::empty());
    }
    loop
        invariant_except_break
            failure is None,
            match spec_decode_seq::<Attribute<'a>>(reader.bytes(), reader.left()) {
                Ok((vs, k)) => spec_decode_seq::<Attribute<'a>>(b0, n0) == Ok::<
                    (Seq<SpecAttribute>, int),
                    Error,
                >((done + vs, b0.len() - reader.bytes().len() + k)),
                Err(e) => spec_decode_seq::<Attribute<'a>>(b0, n0) == Err::<
                    (Seq<SpecAttribute>, int),
                    Error,
                >(e),
            },
            reader.left() + done.len() == n0,
        invariant
            reader.wf(),
            reader.state().list().spec_len() == l0,
            n0 <= u16::MAX,
            suffix(b0, reader.bytes()),
            writer.wf(),
            writer.state().chunk() == c,
            writer.state().count() == done.len(),
            holds_slot(writer.buffer()@, before, c, spec_encode_seq::<Attribute<'static>>(done)),
        ensures
            failure matches Some(e) ==> spec_decode_seq::<Attribute<'a>>(b0, n0) == Err::<
                (Seq<SpecAttribute>, int),
                Error,
            >(e),
            failure is None ==> {
                &&& done.len() == n0
                &&& spec_decode_seq::<Attribute<'a>>(b0, n0) == Ok::<(Seq<SpecAttribute>, int), Error>(
                    (done, b0.len() - reader.bytes().len()),
                )
            },
        decreases reader.left(),
    {
        let ghost b1 = reader.bytes();
        let ghost m = reader.left();
        match reader.next() {
            None => {
                proof {
                    assert(spec_decode_seq::<Attribute<'a>>(b1, 0) == Ok::<(Seq<SpecAttribute>, int), Error>(
                        (Seq::empty(), 0),
                    ));
                    assert(done + Seq::<SpecAttribute>::empty() =~= done);
                }
                break ;
            },
            Some(Err(e)) => {
                assert(spec_decode_seq::<Attribute<'a>>(b1, m) == Err::<(Seq<SpecAttribute>, int), Error>(e));
                failure = Some(e);
                break ;
            },
            Some(Ok(attr)) => {
                proof {
                    let k1 = b1.len() - reader.bytes().len();
                    assert(b1.skip(k1) == reader.bytes());
                    lemma_attribute_requires(b1);
                    match spec_decode_seq::<Attribute<'a>>(reader.bytes(), (m - 1) as nat) {
                        Ok((vs, j)) => {
                            assert(spec_decode_seq::<Attribute<'a>>(b1, m) == Ok::<
                                (Seq<SpecAttribute>, int),
                                Error,
                            >((seq![attr@] + vs, k1 + j)));
                            assert(done + (seq![attr@] + vs) =~= done.push(attr@) + vs);
                        },
                        Err(e) => {
                            assert(spec_decode_seq::<Attribute<'a>>(b1, m) == Err::<
                                (Seq<SpecAttribute>, int),
                                Error,
                            >(e));
                        },
                    }
                }
                let ghost wb = writer.buffer()@;
                match writer.push(&attr) {
                    Ok(()) => {},
                    Err(e) => {
                        return Err(e);
                    },
                }
                proof {
                    let a = spec_encode_seq::<Attribute<'static>>(done);
                    let e = Attribute::spec_encode(attr@);
                    assert(done.push(attr@).drop_last() =~= done);
                    assert(spec_encode_seq::<Attribute<'static>>(done.push(attr@)) == a + e);
                    lemma_slot_step(wb, writer.buffer()@, before, c, a, e);
                    done = done.push(attr@);
                }
            },
        }
    }
    if let Some(e) = failure {
        return Err(e);
    }
    let ghost wl = writer.buffer()@;
    let out = match writer.finish() {
        Ok(b) => b,
        Err(e) => {
            return Err(e);
        },
    };
    proof {
        lemma_fill_slot(wl, before, c, spec_encode_seq::<Attribute<'static>>(done), done.len() as u16);
    }
    Ok(out)
}


proof fn lemma_skip_skip(s: Seq<u8>, a: int, b: int)
    requires
        0 <= a,
        0 <= b,
        a + b <= s.len(),
    ensures
        s.skip(a).skip(b) == s.skip(a + b),
{
    assert(s.skip(a).skip(b) =~= s.skip(a + b));
}

/// Reads the methods and the attributes of the class, and writes them again after
/// `before`; `t` is what is left of the classfile from the method count on.
#[verifier::spinoff_prover]
fn pipe_rest<'a>(
    reader: Reader<'a, &'a [u8], rphases::Methods>,
    writer: Writer<Vec<u8>, wphases::Methods<wphases::Header>>,
    Ghost(t): Ghost<Seq<u8>>,
    Ghost(before): Ghost<Seq<u8>>,
) -> (r: Result<Vec<u8>, Error>)
    requires
        u16::spec_decode(t) matches Ok((count, m)) && reader.bytes() == t.skip(m)
            && reader.state().list() == RawList::fresh(count),
        reader.state().failed() is None,
        writer.wf(),
        writer.state().count() == 0,
        holds_slot(writer.buffer()@, before, writer.state().chunk(), Seq::empty()),
    ensures
        match spec_decode_member_list::<MethodHeader>(t) {
            Ok((methods, j)) => match spec_decode_list16::<Attribute<'a>>(t.skip(j)) {
                Ok((attributes, _)) => r matches Ok(out) && out@ == before
                    + spec_encode_member_list::<MethodHeader>(methods) + spec_encode_list16::<
                    Attribute<'static>,
                >(attributes),
                Err(e) => r == Err::<Vec<u8>, Error>(e),
            },
            Err(e) => r == Err::<Vec<u8>, Error>(e),
        },
{
    broadcast use RawList::lemma_fresh;

    let ghost m0 = u16::spec_decode(t)->Ok_0.1;
    let ghost t1 = reader.bytes();
    let ghost nm = reader.left();
    let (reader, writer) = match pipe_methods(reader, writer, Ghost(before)) {
        Ok(x) => x,
        Err(e) => {
            proof {
                if let Ok((_, k)) = spec_decode_members::<MethodHeader>(t1, nm) {
                    lemma_skip_skip(t, m0, k);
                }
            }
            return Err(e);
        },
    };
    let ghost methods = spec_decode_members::<MethodHeader>(t1, nm)->Ok_0.0;
    let ghost k = spec_decode_members::<MethodHeader>(t1, nm)->Ok_0.1;
    let ghost t2 = t1.skip(k);
    let ghost m1 = u16::spec_decode(t2)->Ok_0.1;
    let ghost t3 = reader.bytes();
    let ghost na = reader.left();
    proof {
        lemma_skip_skip(t, m0, k);
        lemma_skip_skip(t1, k, m1);
        assert(spec_decode_member_list::<MethodHeader>(t) == Ok::<
            (Seq<(MethodHeader, Seq<SpecAttribute>)>, int),
            Error,
        >((methods, m0 + k)));
    }
    let out = pipe_attributes(reader, writer, Ghost(before + be_u16(nm as u16) + spec_encode_members::<MethodHeader>(methods)))?;
    proof {
        let attrs = spec_decode_seq::<Attribute<'a>>(t3, na)->Ok_0.0;
        assert(out@ =~= before + spec_encode_member_list::<MethodHeader>(methods)
            + spec_encode_list16::<Attribute<'static>>(attrs));
    }
    Ok(out)
}

/// Reads the fields, the methods and the attributes of the class, and writes them
/// again after `before`; `t` is what is left of the classfile from the field count on.
#[verifier::spinoff_prover]
fn pipe_tail<'a>(
    reader: Reader<'a, &'a [u8], rphases::Fields>,
    writer: Writer<Vec<u8>, wphases::Fields<wphases::Header>>,
    Ghost(t): Ghost<Seq<u8>>,
    Ghost(before): Ghost<Seq<u8>>,
) -> (r: Result<Vec<u8>, Error>)
    requires
        u16::spec_decode(t) matches Ok((count, m)) && reader.bytes() == t.skip(m)
            && reader.state().list() == RawList::fresh(count),
        reader.state().failed() is None,
        writer.wf(),
        writer.state().count() == 0,
        holds_slot(writer.buffer()@, before, writer.state().chunk(), Seq::empty()),
    ensures
        match spec_decode_tail(t) {
            Ok((fields, methods, attributes, _)) => r matches Ok(out) && out@ == before
                + spec_encode_tail(fields, methods, attributes),
            Err(e) => r == Err::<Vec<u8>, Error>(e),
        },
{
    broadcast use RawList::lemma_fresh;

    let ghost m0 = u16::spec_decode(t)->Ok_0.1;
    let ghost t1 = reader.bytes();
    let ghost nf = reader.left();
    let (reader, writer) = match pipe_fields(reader, writer, Ghost(before)) {
        Ok(x) => x,
        Err(e) => {
            assert(spec_decode_tail(t) == Err::<
                (
                    Seq<(FieldHeader, Seq<SpecAttribute>)>,
                    Seq<(MethodHeader, Seq<SpecAttribute>)>,
                    Seq<SpecAttribute>,
                    int,
                ),
                Error,
            >(e)) by {
                reveal(spec_decode_tail);
                if let Ok((_, k)) = spec_decode_members::<FieldHeader>(t1, nf) {
                    lemma_skip_skip(t, m0, k);
                }
            }
            return Err(e);
        },
    };
    let ghost fields = spec_decode_members::<FieldHeader>(t1, nf)->Ok_0.0;
    let ghost k = spec_decode_members::<FieldHeader>(t1, nf)->Ok_0.1;
    let ghost t2 = t1.skip(k);
    let ghost m1 = u16::spec_decode(t2)->Ok_0.1;
    proof {
        lemma_skip_skip(t, m0, k);
        lemma_skip_skip(t1, k, m1);
        assert(spec_decode_member_list::<FieldHeader>(t) == Ok::<
            (Seq<(FieldHeader, Seq<SpecAttribute>)>, int),
            Error,
        >((fields, m0 + k)));
    }
    let ghost before2 = before + be_u16(nf as u16) + spec_encode_members::<FieldHeader>(fields);
    let out = match pipe_rest(reader, writer, Ghost(t2), Ghost(before2)) {
        Ok(out) => out,
        Err(e) => {
            assert(spec_decode_tail(t) == Err::<
                (
                    Seq<(FieldHeader, Seq<SpecAttribute>)>,
                    Seq<(MethodHeader, Seq<SpecAttribute>)>,
                    Seq<SpecAttribute>,
                    int,
                ),
                Error,
            >(e)) by {
                reveal(spec_decode_tail);
            }
            return Err(e);
        },
    };
    proof {
        reveal(spec_decode_tail);
        reveal(spec_encode_tail);
        assert(spec_decode_tail(t) is Ok);
        let methods = spec_decode_tail(t)->Ok_0.1;
        let attrs = spec_decode_tail(t)->Ok_0.2;
        assert(out@ =~= before + spec_encode_tail(fields, methods, attrs));
    }
    Ok(out)
}

/// Reads a classfile and writes it again, phase by phase, as the reader gives it:
/// the bytes that come out are the layout of what was read, and the first error
/// that the reader meets is the error given back.
#[verifier::spinoff_prover]
pub fn pipe(input: &[u8]) -> (r: Result<Vec<u8>, Error>)
    requires
        pipe_requires(input@),
    ensures
        match spec_decode_classfile(input@) {
            Ok((c, _)) => r matches Ok(out) && out@ == spec_encode_classfile(c),
            Err(e) => r == Err::<Vec<u8>, Error>(e),
        },
        match spec_decode_classfile(input@) {
            Ok((c, n)) => pool_space(c.pool) + 1 == spec_pool_count(input@) ==> (r matches Ok(out)
                && out@ == input@.take(n)),
            Err(_) => true,
        },
{
    proof {
        if let Ok((c, _)) = spec_decode_classfile(input@) {
            if pool_space(c.pool) + 1 == spec_pool_count(input@) {
                lemma_classfile_back(input@);
            }
        }
    }
    reveal(spec_decode_tail);
    let ghost s = input@;
    let reader = Reader::new(input);
    let writer = Writer::new(Vec::new());
    let (reader, writer) = pipe_head(reader, writer)?;
    let ghost s1 = reader.bytes();
    let ghost w1 = writer.buffer()@;
    let (reader, writer) = pipe_class(reader, writer)?;
    let ghost metadata = spec_decode_class(s1)->Ok_0.0;
    let ghost interfaces = spec_decode_class(s1)->Ok_0.1;
    let ghost n = spec_decode_class(s1)->Ok_0.2;
    let ghost t = s1.skip(n);
    proof {
        lemma_skip_skip(s1, n, 2);
    }
    let out = pipe_tail(reader, writer, Ghost(t), Ghost(w1 + spec_encode_class(metadata, interfaces)))?;
    proof {
        assert(w1 =~= spec_encode_head(spec_decode_head(s)->Ok_0.0, spec_decode_head(s)->Ok_0.1));
    }
    Ok(out)
}

} // verus!
