//! Reading a classfile.
use core::marker::PhantomData;

use vstd::prelude::*;

use crate::list::{decode_seq_requires, lemma_seq_requires, skip_values, spec_decode_seq};
use crate::util::{Buf, Decode};
use crate::attributes::{CodeBody, ExceptionTableEntry, SpecCodeBody};
use crate::{
    Attribute, ClassMetadata, ClassfileHeader, ConstantEntry, ConstantPoolEntry, Error,
    FieldHeader, MethodHeader, NonZeroU16,
};

pub mod phases;

use phases::RawList;

verus! {

broadcast use crate::util::group_nonzero;

impl phases::RawList {
    /// How many items the list has.
    pub closed spec fn spec_len(&self) -> u16 {
        self.len
    }

    /// How many items were read.
    pub closed spec fn spec_read(&self) -> u16 {
        self.read
    }

    /// A list of `len` items of which none was read.
    pub closed spec fn fresh(len: u16) -> RawList {
        RawList { len, read: 0 }
    }

    pub broadcast proof fn lemma_fresh(len: u16)
        ensures
            #[trigger] RawList::fresh(len).spec_len() == len,
            RawList::fresh(len).spec_read() == 0,
    {
    }

    /// A list of `len` items of which none was read.
    pub(crate) fn new(len: u16) -> (r: RawList)
        ensures
            r == RawList::fresh(len),
    {
        RawList { len, read: 0 }
    }

    /// How many items are left, as bounds on an iterator's length.
    pub fn size_hint(&self) -> (r: (usize, Option<usize>))
        requires
            self.spec_read() <= self.spec_len(),
        ensures
            r.0 == self.spec_len() - self.spec_read(),
            r.1 == Some(r.0),
    {
        let len = (self.len - self.read) as usize;
        (len, Some(len))
    }
}

impl View for phases::RawList {
    type V = RawList;

    open spec fn view(&self) -> RawList {
        *self
    }
}

impl<'de> Decode<'de> for phases::RawList {
    /// A `u16` count.
    open spec fn spec_decode(s: Seq<u8>) -> Result<(phases::RawList, int), Error> {
        match u16::spec_decode(s) {
            Err(e) => Err(e),
            Ok((len, n)) => Ok((RawList::fresh(len), n)),
        }
    }

    open spec fn decode_requires(s: Seq<u8>) -> bool {
        true
    }

    fn decode<B: Buf<'de>>(buf: &mut B) -> (r: Result<phases::RawList, Error>) {
        Ok(RawList { len: u16::decode(buf)?, read: 0 })
    }
}

impl View for phases::ConstantPool {
    type V = phases::ConstantPool;

    open spec fn view(&self) -> phases::ConstantPool {
        *self
    }
}

impl phases::ConstantPool {
    /// The count of the constant pool, one more than the index space of its entries.
    pub closed spec fn spec_len(&self) -> u16 {
        self.len.value()
    }

    /// The index of the next entry.
    pub closed spec fn spec_idx(&self) -> NonZeroU16 {
        self.idx
    }

    /// The state before any entry of a pool with count `len` was read.
    pub closed spec fn fresh(len: NonZeroU16) -> phases::ConstantPool {
        phases::ConstantPool { len, idx: NonZeroU16::from_raw(1) }
    }

    pub broadcast proof fn lemma_fresh(len: NonZeroU16)
        ensures
            #[trigger] phases::ConstantPool::fresh(len).spec_len() == len.value(),
            phases::ConstantPool::fresh(len).spec_idx() == NonZeroU16::from_raw(1),
    {
        broadcast use crate::util::group_nonzero;

    }
}

impl<'de> Decode<'de> for phases::ConstantPool {
    /// A non-zero `u16` count.
    open spec fn spec_decode(s: Seq<u8>) -> Result<(phases::ConstantPool, int), Error> {
        match NonZeroU16::spec_decode(s) {
            Err(e) => Err(e),
            Ok((len, n)) => Ok((phases::ConstantPool::fresh(len), n)),
        }
    }

    open spec fn decode_requires(s: Seq<u8>) -> bool {
        true
    }

    fn decode<B: Buf<'de>>(buf: &mut B) -> (r: Result<phases::ConstantPool, Error>) {
        let len = NonZeroU16::decode(buf)?;
        let one = NonZeroU16::new(1).unwrap();
        Ok(phases::ConstantPool { len, idx: one })
    }
}


/// Decoding the constant pool entries from index `idx` on, in a pool of count
/// `len`: an entry at each index below the count, the next index following the
/// index space that the entry takes; and how many bytes they take.
pub open spec fn spec_decode_pool(s: Seq<u8>, idx: int, len: int) -> Result<(Seq<crate::SpecConstantEntry>, int), Error>
    decreases (if idx < len { len - idx } else { 0 }),
{
    if idx >= len {
        Ok((Seq::empty(), 0))
    } else {
        match ConstantEntry::spec_decode(s) {
            Err(e) => Err(e),
            Ok((v, m)) => {
                proof {
                    assert(v.spec_space() >= 1);
                }
                match spec_decode_pool(s.skip(m), idx + v.spec_space(), len) {
                Err(e) => Err(e),
                    Ok((vs, k)) => Ok((seq![v] + vs, m + k)),
                }
            },
        }
    }
}

/// Reader of a classfile.
#[derive(Debug)]
#[must_use]
pub struct Reader<'a, R, Phase> {
    haystack: R,
    phase: Phase,
    _ghost: PhantomData<&'a ()>,
}

/// Decoding a header of type `H`, a `u16` count and that many attributes: a field
/// or a method. Gives the header, the count, where the attributes start and where
/// the whole ends.
pub open spec fn spec_member<'a, H: Decode<'a>>(s: Seq<u8>) -> Result<(H::V, u16, int, int), Error> {
    match H::spec_decode(s) {
        Err(e) => Err(e),
        Ok((h, n1)) => match u16::spec_decode(s.skip(n1)) {
            Err(e) => Err(e),
            Ok((count, n2)) => match spec_decode_seq::<Attribute<'a>>(
                s.skip(n1).skip(n2),
                count as nat,
            ) {
                Err(e) => Err(e),
                Ok((_, n3)) => Ok((h, count, n1 + n2, n1 + n2 + n3)),
            },
        },
    }
}

/// Decoding a header of type `H` and a `u16` count: the header, the count, and
/// where the attributes start.
pub open spec fn spec_member_head<'a, H: Decode<'a>>(s: Seq<u8>) -> Result<(H::V, u16, int), Error> {
    match H::spec_decode(s) {
        Err(e) => Err(e),
        Ok((h, n1)) => match u16::spec_decode(s.skip(n1)) {
            Err(e) => Err(e),
            Ok((count, n2)) => Ok((h, count, n1 + n2)),
        },
    }
}

/// A member is its header and count, then its attributes.
proof fn lemma_member_parts<'a, H: Decode<'a>>(s: Seq<u8>)
    requires
        H::spec_decode(s) matches Ok((_, n1)) ==> 0 <= n1 <= s.len(),
    ensures
        spec_member::<H>(s) == match spec_member_head::<H>(s) {
            Ok((h, count, start)) => match spec_decode_seq::<Attribute<'a>>(s.skip(start), count as nat) {
                Ok((_, n3)) => Ok::<(H::V, u16, int, int), Error>((h, count, start, start + n3)),
                Err(e) => Err(e),
            },
            Err(e) => Err(e),
        },
{
    if let Ok((_, n1)) = H::spec_decode(s) {
        if s.skip(n1).len() >= 2 {
            assert(s.skip(n1).skip(2) =~= s.skip(n1 + 2));
        }
    }
}

/// Decoding `n` members, one after another: how many bytes they take, or the error.
pub open spec fn spec_members<'a, H: Decode<'a>>(s: Seq<u8>, n: nat) -> Result<int, Error>
    decreases n,
{
    if n == 0 {
        Ok(0)
    } else {
        match spec_member::<H>(s) {
            Err(e) => Err(e),
            Ok((_, _, _, m)) => if 0 <= m <= s.len() {
                match spec_members::<H>(s.skip(m), (n - 1) as nat) {
                    Err(e) => Err(e),
                    Ok(k) => Ok(m + k),
                }
            } else {
                Err(Error::UnexpectedEOF)
            },
        }
    }
}

/// Decoding the classfile header, then the constant pool count.
pub open spec fn spec_header(s: Seq<u8>) -> Result<(ClassfileHeader, phases::ConstantPool, int), Error> {
    match ClassfileHeader::spec_decode(s) {
        Err(e) => Err(e),
        Ok((h, n1)) => match phases::ConstantPool::spec_decode(s.skip(n1)) {
            Err(e) => Err(e),
            Ok((c, n2)) => Ok((h, c, n1 + n2)),
        },
    }
}

/// Decoding a value of type `T`, then a list count.
pub open spec fn spec_then_list<'a, T: Decode<'a>>(s: Seq<u8>) -> Result<(T::V, RawList, int), Error> {
    match T::spec_decode(s) {
        Err(e) => Err(e),
        Ok((v, n1)) => match RawList::spec_decode(s.skip(n1)) {
            Err(e) => Err(e),
            Ok((l, n2)) => Ok((v, l, n1 + n2)),
        },
    }
}

/// Decoding the remaining `n` values of `T` of a list, then the count of the next list.
pub open spec fn spec_finish_list<'a, T: Decode<'a>>(s: Seq<u8>, n: nat) -> Result<(RawList, int), Error> {
    match spec_decode_seq::<T>(s, n) {
        Err(e) => Err(e),
        Ok((_, k)) => match RawList::spec_decode(s.skip(k)) {
            Err(e) => Err(e),
            Ok((l, m)) => Ok((l, k + m)),
        },
    }
}


impl phases::Interfaces {
    /// The list of interfaces.
    pub closed spec fn list(self) -> RawList {
        self.0
    }
}

impl phases::Fields {
    /// The list of fields.
    pub closed spec fn list(self) -> RawList {
        self.0
    }

    /// The error met walking over the attributes of the member handed out last,
    /// given back by the next call.
    pub closed spec fn failed(self) -> Option<Error> {
        self.1
    }

    /// A list of `len` fields, none of them read.
    pub closed spec fn fresh(len: u16) -> phases::Fields {
        phases::Fields(RawList::fresh(len), None)
    }

    pub broadcast proof fn lemma_fresh(len: u16)
        ensures
            #[trigger] phases::Fields::fresh(len).list() == RawList::fresh(len),
            phases::Fields::fresh(len).failed() is None,
    {
    }
}

impl phases::Methods {
    /// The list of methods.
    pub closed spec fn list(self) -> RawList {
        self.0
    }

    /// The error met walking over the attributes of the member handed out last,
    /// given back by the next call.
    pub closed spec fn failed(self) -> Option<Error> {
        self.1
    }

    /// A list of `len` methods, none of them read.
    pub closed spec fn fresh(len: u16) -> phases::Methods {
        phases::Methods(RawList::fresh(len), None)
    }

    pub broadcast proof fn lemma_fresh(len: u16)
        ensures
            #[trigger] phases::Methods::fresh(len).list() == RawList::fresh(len),
            phases::Methods::fresh(len).failed() is None,
    {
    }
}

impl phases::Attributes {
    /// The list of attributes.
    pub closed spec fn list(self) -> RawList {
        self.0
    }
}

impl phases::ExceptionTable {
    /// The list of exception table entries.
    pub closed spec fn list(self) -> RawList {
        self.0
    }
}

/// `s1` is what is left of `s0` after a read.
pub open spec fn suffix(s0: Seq<u8>, s1: Seq<u8>) -> bool {
    s1.len() <= s0.len() && s1 =~= s0.skip(s0.len() - s1.len())
}

/// A read of a `T` from `s0` that left `s1` gave `r`.
pub open spec fn read_step<'a, T: Decode<'a>>(s0: Seq<u8>, s1: Seq<u8>, r: Result<T, Error>) -> bool {
    &&& suffix(s0, s1)
    &&& match r {
        Ok(v) => T::spec_decode(s0) == Ok::<(T::V, int), Error>((v@, s0.len() - s1.len())),
        Err(e) => T::spec_decode(s0) == Err::<(T::V, int), Error>(e),
    }
}

/// How many items of `l` are left to read.
pub open spec fn list_left(l: RawList) -> nat {
    if l.spec_read() <= l.spec_len() {
        (l.spec_len() - l.spec_read()) as nat
    } else {
        0
    }
}

/// Reads the next item of a list, counting it first.
pub(crate) fn list_next<'a, T: Decode<'a>, R: Buf<'a>>(hay: &mut R, list: &mut RawList) -> (r: Option<Result<T, Error>>)
    requires
        old(list).spec_read() <= old(list).spec_len(),
        list_left(*old(list)) > 0 ==> T::decode_requires(old(hay)@),
    ensures
        final(list).spec_read() <= final(list).spec_len(),
        final(list).spec_len() == old(list).spec_len(),
        list_left(*old(list)) == 0 ==> r is None && final(hay)@ == old(hay)@ && *final(list)
            == *old(list),
        list_left(*old(list)) > 0 ==> r is Some && final(list).spec_read() == old(list).spec_read()
            + 1,
        r matches Some(x) ==> read_step::<T>(old(hay)@, final(hay)@, x),
{
    if list.len > list.read {
        list.read = list.read + 1;
        Some(T::decode(hay))
    } else {
        None
    }
}

/// Reads the items of a list not read yet.
fn list_rest<'a, T: Decode<'a>, R: Buf<'a>>(hay: &mut R, list: &mut RawList) -> (r: Result<(), Error>)
    requires
        old(list).spec_read() <= old(list).spec_len(),
        decode_seq_requires::<T>(old(hay)@, list_left(*old(list))),
    ensures
        suffix(old(hay)@, final(hay)@),
        match r {
            Ok(_) => spec_decode_seq::<T>(old(hay)@, list_left(*old(list))) matches Ok((_, k)) && k
                == old(hay)@.len() - final(hay)@.len(),
            Err(e) => spec_decode_seq::<T>(old(hay)@, list_left(*old(list))) == Err::<
                (Seq<T::V>, int),
                Error,
            >(e),
        },
{
    let ghost s0 = hay@;
    let ghost n0 = list_left(*list);
    let ghost l0 = *list;
    while list.len > list.read
        invariant
            list.spec_read() <= list.spec_len(),
            list.spec_len() == l0.spec_len(),
            s0 == old(hay)@,
            n0 == list_left(*old(list)),
            suffix(s0, hay@),
            decode_seq_requires::<T>(hay@, list_left(*list)),
            match spec_decode_seq::<T>(hay@, list_left(*list)) {
                Ok((_, k)) => spec_decode_seq::<T>(s0, n0) matches Ok((_, k0)) && k0 == s0.len()
                    - hay@.len() + k,
                Err(e) => spec_decode_seq::<T>(s0, n0) == Err::<(Seq<T::V>, int), Error>(e),
            },
        decreases list_left(*list),
    {
        let ghost s1 = hay@;
        let ghost m = list_left(*list);
        match list_next::<T, R>(hay, list) {
            Some(Ok(_)) => {
                proof {
                    let k1 = s1.len() - hay@.len();
                    assert(s1.skip(k1) == hay@);
                }
            },
            Some(Err(e)) => {
                assert(spec_decode_seq::<T>(s1, m) == Err::<(Seq<T::V>, int), Error>(e));
                return Err(e);
            },
            None => {
                return Err(Error::UnexpectedEOF);
            },
        }
    }
    proof {
        assert(list_left(*list) == 0);
        assert(spec_decode_seq::<T>(hay@, 0) == Ok::<(Seq<T::V>, int), Error>((Seq::empty(), 0)));
        assert(s0.skip(s0.len() - hay@.len()) =~= hay@);
    }
    Ok(())
}

/// Reads the items of a list not read yet, then the count of the next list.
fn list_finish<'a, T: Decode<'a>, R: Buf<'a>>(hay: &mut R, list: &mut RawList) -> (r: Result<RawList, Error>)
    requires
        old(list).spec_read() <= old(list).spec_len(),
        decode_seq_requires::<T>(old(hay)@, list_left(*old(list))),
    ensures
        suffix(old(hay)@, final(hay)@),
        match r {
            Ok(next) => spec_finish_list::<T>(old(hay)@, list_left(*old(list))) == Ok::<(RawList, int), Error>(
                (next, old(hay)@.len() - final(hay)@.len()),
            ),
            Err(e) => spec_finish_list::<T>(old(hay)@, list_left(*old(list))) == Err::<(RawList, int), Error>(e),
        },
{
    let ghost s0 = hay@;
    let ghost n0 = list_left(*list);
    list_rest::<T, R>(hay, list)?;
    let ghost s2 = hay@;
    let next = RawList::decode(hay)?;
    proof {
        let k = s0.len() - s2.len();
        assert(s0.skip(k) == s2);
    }
    Ok(next)
}

/// Reads a member (a field or a method): its header and its attribute count; the
/// attributes are walked over in `hay`, and what is returned starts at them.
fn member_head<'a, H: Decode<'a>, R: Buf<'a>>(hay: &mut R) -> (r: Result<(H, RawList), Error>)
    requires
        H::decode_requires(old(hay)@),
    ensures
        suffix(old(hay)@, final(hay)@),
        match r {
            Ok((h, list)) => {
                &&& spec_member_head::<H>(old(hay)@) matches Ok((hv, count, start))
                &&& hv == h@
                &&& list == RawList::fresh(count)
                &&& final(hay)@ == old(hay)@.skip(start)
                &&& start == old(hay)@.len() - final(hay)@.len()
                &&& H::spec_decode(old(hay)@) matches Ok((_, n1)) && 0 <= n1 && n1 + 2 == start
                    && old(hay)@.skip(n1).skip(2) == old(hay)@.skip(start)
            },
            Err(e) => spec_member_head::<H>(old(hay)@) == Err::<(H::V, u16, int), Error>(e),
        },
{
    let ghost s0 = hay@;
    let header = H::decode(hay)?;
    let ghost s1 = hay@;
    let list = RawList::decode(hay)?;
    let ghost s2 = hay@;
    proof {
        assert(s0.skip(s0.len() - s1.len()) == s1);
        assert(s1.skip(s1.len() - s2.len()) == s2);
        assert(s0.skip(s0.len() - s2.len()) =~= s2);
        assert(s0.skip(s0.len() - s1.len()).skip(2) =~= s0.skip(s0.len() - s2.len()));
    }
    Ok((header, list))
}

/// Reading attributes needs nothing of the bytes.
proof fn lemma_attrs_requires<'a>(s: Seq<u8>, n: nat)
    ensures
        decode_seq_requires::<Attribute<'a>>(s, n),
    decreases n,
{
    if n > 0 {
        match Attribute::<'a>::spec_decode(s) {
            Ok((_, m)) => lemma_attrs_requires::<>(s.skip(m), (n - 1) as nat),
            Err(_) => {},
        }
    }
}

impl<'a, R: Buf<'a>, Phase> Reader<'a, R, Phase> {
    /// The bytes left to read.
    pub closed spec fn bytes(&self) -> Seq<u8> {
        self.haystack@
    }

    /// The state of the reader.
    pub closed spec fn state(&self) -> Phase {
        self.phase
    }

    fn transform<T>(self, phase: T) -> (r: Reader<'a, R, T>)
        ensures
            r.bytes() == self.bytes(),
            r.state() == phase,
    {
        Reader { haystack: self.haystack, phase, _ghost: PhantomData }
    }

    /// Peeks at the internal haystack.
    pub fn haystack(&self) -> (r: &R)
        ensures
            r@ == self.bytes(),
    {
        &self.haystack
    }
}

impl<'a, R: Buf<'a>> Reader<'a, R, phases::Header> {
    /// Creates a new classfile reader from given raw bytecode.
    pub fn new(src: R) -> (r: Self)
        ensures
            r.bytes() == src@,
    {
        Reader { haystack: src, phase: phases::Header, _ghost: PhantomData }
    }

    /// Reads the header of the classfile, and the constant pool count.
    pub fn header(self) -> (r: Result<(ClassfileHeader, Reader<'a, R, phases::ConstantPool>), Error>)
        ensures
            match r {
                Ok((h, next)) => {
                    &&& spec_header(self.bytes()) == Ok::<
                        (ClassfileHeader, phases::ConstantPool, int),
                        Error,
                    >((h, next.state(), self.bytes().len() - next.bytes().len()))
                    &&& next.bytes().len() <= self.bytes().len()
                    &&& next.bytes() =~= self.bytes().skip(self.bytes().len() - next.bytes().len())
                },
                Err(e) => spec_header(self.bytes()) == Err::<
                    (ClassfileHeader, phases::ConstantPool, int),
                    Error,
                >(e),
            },
    {
        let mut this = self;
        let header = ClassfileHeader::decode(&mut this.haystack)?;
        let phase = phases::ConstantPool::decode(&mut this.haystack)?;
        Ok((header, this.transform(phase)))
    }
}

impl<'a, R: Buf<'a>> Reader<'a, R, phases::ConstantPool> {
    /// Every state of the pool reader can go on.
    pub open spec fn wf(&self) -> bool {
        true
    }

    /// How many indices are left before the count: the index space of the
    /// entries left to read, or one less when the last of them takes two.
    pub open spec fn left(&self) -> nat {
        if self.state().spec_idx().value() < self.state().spec_len() {
            (self.state().spec_len() - self.state().spec_idx().value()) as nat
        } else {
            0
        }
    }

    /// Decoding the entries left: those at the indices from the next index up
    /// to the count.
    pub open spec fn spec_rest(&self) -> Result<(Seq<crate::SpecConstantEntry>, int), Error> {
        spec_decode_pool(
            self.bytes(),
            self.state().spec_idx().value() as int,
            self.state().spec_len() as int,
        )
    }

    /// Reads the next entry, with its index; `None` when the next index reaches
    /// the count.
    pub fn next(&mut self) -> (r: Option<Result<(NonZeroU16, ConstantPoolEntry<'a>), Error>>)
        requires
            old(self).wf(),
        ensures
            final(self).wf(),
            final(self).bytes().len() <= old(self).bytes().len(),
            final(self).bytes() =~= old(self).bytes().skip(
                old(self).bytes().len() - final(self).bytes().len(),
            ),
            final(self).state().spec_len() == old(self).state().spec_len(),
            old(self).left() == 0 ==> r is None && final(self).bytes() == old(self).bytes()
                && final(self).state() == old(self).state(),
            old(self).left() > 0 ==> match r {
                None => false,
                Some(Ok((idx, entry))) => {
                    &&& idx == old(self).state().spec_idx()
                    &&& ConstantEntry::spec_decode(old(self).bytes()) == Ok::<
                        (crate::SpecConstantEntry, int),
                        Error,
                    >((entry@, old(self).bytes().len() - final(self).bytes().len()))
                    &&& final(self).state().spec_idx() == old(self).state().spec_idx().spec_saturating_add(
                        entry@.spec_space(),
                    )
                    &&& final(self).left() < old(self).left()
                },
                Some(Err(e)) => {
                    &&& ConstantEntry::spec_decode(old(self).bytes()) == Err::<
                        (crate::SpecConstantEntry, int),
                        Error,
                    >(e)
                    &&& final(self).state() == old(self).state()
                },
            },
            r matches Some(Ok((_, entry))) ==> match final(self).spec_rest() {
                Ok((vs, k)) => old(self).spec_rest() == Ok::<(Seq<crate::SpecConstantEntry>, int), Error>(
                    (seq![entry@] + vs, old(self).bytes().len() - final(self).bytes().len() + k),
                ),
                Err(e) => old(self).spec_rest() == Err::<(Seq<crate::SpecConstantEntry>, int), Error>(e),
            },
            r matches Some(Err(e)) ==> old(self).spec_rest() == Err::<(Seq<crate::SpecConstantEntry>, int), Error>(e),
            r is None ==> old(self).spec_rest() == Ok::<(Seq<crate::SpecConstantEntry>, int), Error>(
                (Seq::empty(), 0),
            ),
    {
        broadcast use crate::util::group_nonzero;

        if self.phase.idx.get() < self.phase.len.get() {
            let idx = self.phase.idx;
            let ghost s0 = self.bytes();
            let entry: ConstantPoolEntry<'a> = match ConstantEntry::decode(&mut self.haystack) {
                Ok(entry) => entry,
                Err(err) => return Some(Err(err)),
            };
            self.phase.idx = self.phase.idx.saturating_add(entry.space());
            proof {
                let k1 = s0.len() - self.bytes().len();
                assert(s0.skip(k1) =~= self.bytes());
                let len = self.state().spec_len() as int;
                let i1 = idx.value() + entry@.spec_space();
                if i1 > u16::MAX {
                    assert(spec_decode_pool(self.bytes(), i1, len) == Ok::<(Seq<crate::SpecConstantEntry>, int), Error>(
                        (Seq::empty(), 0),
                    ));
                }
            }
            Some(Ok((idx, entry)))
        } else {
            proof {
                assert(self.bytes().skip(0) =~= self.bytes());
            }
            None
        }
    }

    /// How many entries are left to read: at least half the indices left, at
    /// most all of them.
    pub fn size_hint(&self) -> (r: (usize, Option<usize>))
        requires
            self.wf(),
        ensures
            r.0 == (self.left() + 1) / 2,
            r.1 == Some(self.left() as usize),
    {
        let left: usize = if self.phase.idx.get() < self.phase.len.get() {
            (self.phase.len.get() - self.phase.idx.get()) as usize
        } else {
            0
        };
        ((left + 1) / 2, Some(left))
    }

    /// Finishes the constant pool phase. Entries not read yet are walked over.
    pub fn finish(self) -> (r: Result<Reader<'a, R, phases::Metadata>, Error>)
        requires
            self.wf(),
        ensures
            match r {
                Ok(next) => self.spec_rest() matches Ok((_, k)) && next.bytes() =~= self.bytes().skip(k)
                    && 0 <= k <= self.bytes().len(),
                Err(e) => self.spec_rest() == Err::<(Seq<crate::SpecConstantEntry>, int), Error>(e),
            },
    {
        let mut this = self;
        let ghost s0 = this.bytes();
        loop
            invariant
                this.wf(),
                s0 == self.bytes(),
                this.bytes().len() <= s0.len(),
                this.bytes() =~= s0.skip(s0.len() - this.bytes().len()),
                match this.spec_rest() {
                    Ok((_, k)) => self.spec_rest() matches Ok((_, k0)) && k0 == s0.len()
                        - this.bytes().len() + k,
                    Err(e) => self.spec_rest() == Err::<(Seq<crate::SpecConstantEntry>, int), Error>(e),
                },
            ensures
                this.bytes().len() <= s0.len(),
                this.bytes() =~= s0.skip(s0.len() - this.bytes().len()),
                self.spec_rest() matches Ok((_, k0)) && k0 == s0.len() - this.bytes().len(),
            decreases this.left(),
        {
            let ghost s1 = this.bytes();
            match this.next() {
                Some(Ok(_)) => {
                    proof {
                        let k1 = s1.len() - this.bytes().len();
                        assert(s1.skip(k1) == this.bytes());
                    }
                },
                Some(Err(e)) => {
                    return Err(e);
                },
                None => {
                    break ;
                },
            }
        }
        proof {
            assert(s0.skip(s0.len() - this.bytes().len()) =~= this.bytes());
        }
        let next = this.transform(phases::Metadata);
        assert(next.bytes() =~= s0.skip(s0.len() - next.bytes().len()));
        Ok(next)
    }
}

impl<'a, R: Buf<'a>> Reader<'a, R, phases::Metadata> {
    /// Reads the class metadata of this classfile, and the interface count.
    pub fn metadata(self) -> (r: Result<(ClassMetadata, Reader<'a, R, phases::Interfaces>), Error>)
        ensures
            match r {
                Ok((m, next)) => {
                    &&& spec_then_list::<ClassMetadata>(self.bytes()) == Ok::<
                        (ClassMetadata, RawList, int),
                        Error,
                    >((m, next.state().list(), self.bytes().len() - next.bytes().len()))
                    &&& suffix(self.bytes(), next.bytes())
                },
                Err(e) => spec_then_list::<ClassMetadata>(self.bytes()) == Err::<
                    (ClassMetadata, RawList, int),
                    Error,
                >(e),
            },
    {
        let mut this = self;
        let meta = ClassMetadata::decode(&mut this.haystack)?;
        let list = RawList::decode(&mut this.haystack)?;
        Ok((meta, this.transform(phases::Interfaces(list))))
    }
}

impl<'a, R: Buf<'a>> Reader<'a, R, phases::Interfaces> {
    /// The interfaces not read yet are in the count.
    pub open spec fn wf(&self) -> bool {
        self.state().list().spec_read() <= self.state().list().spec_len()
    }

    /// How many interfaces are left to read.
    pub open spec fn left(&self) -> nat {
        list_left(self.state().list())
    }

    /// Reads the next interface, as the constant pool index of its `Class` entry.
    pub fn next(&mut self) -> (r: Option<Result<NonZeroU16, Error>>)
        requires
            old(self).wf(),
        ensures
            final(self).wf(),
            final(self).state().list().spec_len() == old(self).state().list().spec_len(),
            old(self).left() == 0 ==> r is None && final(self).bytes() == old(self).bytes()
                && final(self).state() == old(self).state(),
            old(self).left() > 0 ==> r is Some && final(self).left() == old(self).left() - 1,
            r matches Some(x) ==> read_step::<NonZeroU16>(old(self).bytes(), final(self).bytes(), x),
    {
        list_next::<NonZeroU16, R>(&mut self.haystack, &mut self.phase.0)
    }

    /// How many interfaces are left to read.
    pub fn size_hint(&self) -> (r: (usize, Option<usize>))
        requires
            self.wf(),
        ensures
            r.0 == self.left(),
            r.1 == Some(r.0),
    {
        self.phase.0.size_hint()
    }

    /// Finishes the interfaces phase, walking over the interfaces not read yet,
    /// and reads the field count.
    pub fn finish(self) -> (r: Result<Reader<'a, R, phases::Fields>, Error>)
        requires
            self.wf(),
        ensures
            match r {
                Ok(next) => spec_finish_list::<NonZeroU16>(self.bytes(), self.left()) == Ok::<
                    (RawList, int),
                    Error,
                >((next.state().list(), self.bytes().len() - next.bytes().len())) && suffix(
                    self.bytes(),
                    next.bytes(),
                ),
                Err(e) => spec_finish_list::<NonZeroU16>(self.bytes(), self.left()) == Err::<
                    (RawList, int),
                    Error,
                >(e),
            },
            r matches Ok(next) ==> next.state().failed() is None,
    {
        let mut this = self;
        proof {
            lemma_nonzero_requires(this.bytes(), this.left());
        }
        let list = list_finish::<NonZeroU16, R>(&mut this.haystack, &mut this.phase.0)?;
        Ok(this.transform(phases::Fields(list, None)))
    }
}

/// Reading indices needs nothing of the bytes.
proof fn lemma_nonzero_requires(s: Seq<u8>, n: nat)
    ensures
        decode_seq_requires::<NonZeroU16>(s, n),
    decreases n,
{
    if n > 0 {
        match NonZeroU16::spec_decode(s) {
            Ok((_, m)) => lemma_nonzero_requires(s.skip(m), (n - 1) as nat),
            Err(_) => {},
        }
    }
}

/// Reader of a field: its header, and its attributes.
#[derive(Debug)]
pub struct FieldReader<'a, R> {
    header: FieldHeader,
    haystack: R,
    attrs: RawList,
    _ghost: PhantomData<&'a ()>,
}

impl<'a, R: Buf<'a>> FieldReader<'a, R> {
    /// The header of the field.
    pub closed spec fn spec_header(&self) -> FieldHeader {
        self.header
    }

    /// The bytes left to read.
    pub closed spec fn bytes(&self) -> Seq<u8> {
        self.haystack@
    }

    /// The list of attributes.
    pub closed spec fn list(&self) -> RawList {
        self.attrs
    }

    /// The attributes not read yet are in the count.
    pub open spec fn wf(&self) -> bool {
        self.list().spec_read() <= self.list().spec_len()
    }

    /// How many attributes are left to read.
    pub open spec fn left(&self) -> nat {
        list_left(self.list())
    }

    /// Returns the header of this field.
    pub fn header(&self) -> (r: &FieldHeader)
        ensures
            *r == self.spec_header(),
    {
        &self.header
    }

    /// Reads the next attribute of the field.
    pub fn next(&mut self) -> (r: Option<Result<Attribute<'a>, Error>>)
        requires
            old(self).wf(),
        ensures
            final(self).wf(),
            final(self).spec_header() == old(self).spec_header(),
            final(self).list().spec_len() == old(self).list().spec_len(),
            old(self).left() == 0 ==> r is None && final(self).bytes() == old(self).bytes()
                && final(self).list() == old(self).list(),
            old(self).left() > 0 ==> r is Some && final(self).left() == old(self).left() - 1,
            r matches Some(x) ==> read_step::<Attribute<'a>>(old(self).bytes(), final(self).bytes(), x),
    {
        list_next::<Attribute<'a>, R>(&mut self.haystack, &mut self.attrs)
    }

    /// How many attributes are left to read.
    pub fn size_hint(&self) -> (r: (usize, Option<usize>))
        requires
            self.wf(),
        ensures
            r.0 == self.left(),
            r.1 == Some(r.0),
    {
        self.attrs.size_hint()
    }

    /// Finishes up this field, walking over the attributes not read yet.
    pub fn finish(self) -> (r: Result<(), Error>)
        requires
            self.wf(),
        ensures
            match r {
                Ok(_) => spec_decode_seq::<Attribute<'a>>(self.bytes(), self.left()) is Ok,
                Err(e) => spec_decode_seq::<Attribute<'a>>(self.bytes(), self.left()) == Err::<
                    (Seq<crate::SpecAttribute>, int),
                    Error,
                >(e),
            },
    {
        let mut this = self;
        proof {
            lemma_attrs_requires(this.bytes(), this.left());
        }
        skip_values::<Attribute<'a>, R>(&mut this.haystack, (this.attrs.len - this.attrs.read) as usize)
    }
}

/// Reader of a method: its header, and its attributes.
#[derive(Debug)]
pub struct MethodReader<'a, R> {
    header: MethodHeader,
    haystack: R,
    attrs: RawList,
    _ghost: PhantomData<&'a ()>,
}

impl<'a, R: Buf<'a>> MethodReader<'a, R> {
    /// The header of the method.
    pub closed spec fn spec_header(&self) -> MethodHeader {
        self.header
    }

    /// The bytes left to read.
    pub closed spec fn bytes(&self) -> Seq<u8> {
        self.haystack@
    }

    /// The list of attributes.
    pub closed spec fn list(&self) -> RawList {
        self.attrs
    }

    /// The attributes not read yet are in the count.
    pub open spec fn wf(&self) -> bool {
        self.list().spec_read() <= self.list().spec_len()
    }

    /// How many attributes are left to read.
    pub open spec fn left(&self) -> nat {
        list_left(self.list())
    }

    /// Returns the header of this method.
    pub fn header(&self) -> (r: &MethodHeader)
        ensures
            *r == self.spec_header(),
    {
        &self.header
    }

    /// Reads the next attribute of the method.
    pub fn next(&mut self) -> (r: Option<Result<Attribute<'a>, Error>>)
        requires
            old(self).wf(),
        ensures
            final(self).wf(),
            final(self).spec_header() == old(self).spec_header(),
            final(self).list().spec_len() == old(self).list().spec_len(),
            old(self).left() == 0 ==> r is None && final(self).bytes() == old(self).bytes()
                && final(self).list() == old(self).list(),
            old(self).left() > 0 ==> r is Some && final(self).left() == old(self).left() - 1,
            r matches Some(x) ==> read_step::<Attribute<'a>>(old(self).bytes(), final(self).bytes(), x),
    {
        list_next::<Attribute<'a>, R>(&mut self.haystack, &mut self.attrs)
    }

    /// How many attributes are left to read.
    pub fn size_hint(&self) -> (r: (usize, Option<usize>))
        requires
            self.wf(),
        ensures
            r.0 == self.left(),
            r.1 == Some(r.0),
    {
        self.attrs.size_hint()
    }

    /// Finishes up this method, walking over the attributes not read yet.
    pub fn finish(self) -> (r: Result<(), Error>)
        requires
            self.wf(),
        ensures
            match r {
                Ok(_) => spec_decode_seq::<Attribute<'a>>(self.bytes(), self.left()) is Ok,
                Err(e) => spec_decode_seq::<Attribute<'a>>(self.bytes(), self.left()) == Err::<
                    (Seq<crate::SpecAttribute>, int),
                    Error,
                >(e),
            },
    {
        let mut this = self;
        proof {
            lemma_attrs_requires(this.bytes(), this.left());
        }
        skip_values::<Attribute<'a>, R>(&mut this.haystack, (this.attrs.len - this.attrs.read) as usize)
    }
}

impl<'a, R: Buf<'a> + Copy> Reader<'a, R, phases::Fields> {
    /// The fields not read yet are in the count.
    pub open spec fn wf(&self) -> bool {
        self.state().list().spec_read() <= self.state().list().spec_len()
    }

    /// How many fields are left to read.
    pub open spec fn left(&self) -> nat {
        list_left(self.state().list())
    }

    /// Where the next field starts: the bytes after the field handed out last, or
    /// the error that walking over its attributes gave.
    pub open spec fn spec_cursor(&self) -> Result<Seq<u8>, Error> {
        match self.state().failed() {
            Some(e) => Err(e),
            None => Ok(self.bytes()),
        }
    }

    /// Pulls the next field: its header, and a reader of its attributes. The
    /// attributes are walked over here too, so that this reader is at once at the
    /// bytes after the field; an error in them is given back by the next call.
    pub fn next(&mut self) -> (r: Option<Result<FieldReader<'a, R>, Error>>)
        requires
            old(self).wf(),
        ensures
            final(self).wf(),
            final(self).state().list().spec_len() == old(self).state().list().spec_len(),
            suffix(old(self).bytes(), final(self).bytes()),
            old(self).left() == 0 ==> r is None && final(self).bytes() == old(self).bytes()
                && final(self).state() == old(self).state(),
            old(self).left() > 0 ==> r is Some && final(self).left() == old(self).left() - 1,
            r matches Some(Ok(f)) ==> {
                &&& old(self).spec_cursor() matches Ok(c)
                &&& spec_member_head::<FieldHeader>(c) matches Ok((h, count, start))
                &&& 0 <= start <= c.len()
                &&& FieldHeader::spec_decode(c) matches Ok((_, n1)) && 0 <= n1 && n1 + 2 == start
                    && c.skip(n1).skip(2) == c.skip(start)
                &&& f.spec_header() == h
                &&& f.list() == RawList::fresh(count)
                &&& f.bytes() == c.skip(start)
                &&& match spec_decode_seq::<Attribute<'a>>(c.skip(start), count as nat) {
                    Ok((_, n3)) => 0 <= n3 <= c.skip(start).len() && final(self).spec_cursor()
                        == Ok::<Seq<u8>, Error>(c.skip(start).skip(n3)),
                    Err(e) => final(self).spec_cursor() == Err::<Seq<u8>, Error>(e),
                }
            },
            r matches Some(Err(e)) ==> old(self).spec_cursor() == Err::<Seq<u8>, Error>(e) || (old(
                self,
            ).spec_cursor() matches Ok(c) && spec_member_head::<FieldHeader>(c) == Err::<
                (FieldHeader, u16, int),
                Error,
            >(e)),
    {
        if self.phase.0.len > self.phase.0.read {
            self.phase.0.read = self.phase.0.read + 1;
            let stored = self.phase.1.take();
            if let Some(e) = stored {
                return Some(Err(e));
            }
            let ghost s0 = self.bytes();
            match member_head::<FieldHeader, R>(&mut self.haystack) {
                Ok((header, attrs)) => {
                    let child = self.haystack;
                    let ghost s1 = self.bytes();
                    proof {
                        lemma_attrs_requires(s1, attrs.len as nat);
                    }
                    match skip_values::<Attribute<'a>, R>(&mut self.haystack, attrs.len as usize) {
                        Ok(()) => {},
                        Err(e) => {
                            self.phase.1 = Some(e);
                        },
                    }
                    proof {
                        assert(s1.skip(s1.len() - self.bytes().len()) =~= self.bytes());
                        assert(s0.skip(s0.len() - self.bytes().len()) =~= self.bytes());
                    }
                    Some(Ok(FieldReader { header, haystack: child, attrs, _ghost: PhantomData }))
                },
                Err(e) => {
                    proof {
                        assert(s0.skip(s0.len() - self.bytes().len()) =~= self.bytes());
                    }
                    Some(Err(e))
                },
            }
        } else {
            None
        }
    }

    /// Finishes the fields phase, walking over the attributes of the field handed
    /// out last and the fields not read yet, and reads the method count.
    #[verifier::spinoff_prover]
    pub fn finish(self) -> (r: Result<Reader<'a, R, phases::Methods>, Error>)
        requires
            self.wf(),
        ensures
            match r {
                Ok(next) => self.spec_cursor() matches Ok(c) && spec_members::<FieldHeader>(c, self.left())
                    matches Ok(k) && RawList::spec_decode(c.skip(k)) == Ok::<(RawList, int), Error>(
                    (next.state().list(), c.len() - next.bytes().len() - k),
                ) && suffix(self.bytes(), next.bytes()) && 0 <= k <= c.len() && next.state().failed() is None,
                Err(e) => self.spec_cursor() == Err::<Seq<u8>, Error>(e) || (self.spec_cursor() matches Ok(
                    c,
                ) && (spec_members::<FieldHeader>(c, self.left()) == Err::<int, Error>(e) || (spec_members::<
                    FieldHeader,
                >(c, self.left()) matches Ok(k) && RawList::spec_decode(c.skip(k)) == Err::<
                    (RawList, int),
                    Error,
                >(e)))),
            },
    {
        let mut this = self;
        let ghost s0 = this.bytes();
        let ghost n0 = this.left();
        let stored = this.phase.1.take();
        if let Some(e) = stored {
            return Err(e);
        }
        let ghost c0 = this.bytes();
        proof {
            assert(s0.skip(s0.len() - c0.len()) =~= c0);
            assert(self.spec_cursor() == Ok::<Seq<u8>, Error>(c0));
            assert(c0.skip(0) =~= c0);
        }
        while this.phase.0.len > this.phase.0.read
            invariant
                this.wf(),
                n0 == self.left(),
                this.left() <= n0,
                suffix(s0, c0),
                suffix(c0, this.bytes()),
                self.spec_cursor() == Ok::<Seq<u8>, Error>(c0),
                match spec_members::<FieldHeader>(this.bytes(), this.left()) {
                    Ok(k) => spec_members::<FieldHeader>(c0, n0) == Ok::<int, Error>(
                        c0.len() - this.bytes().len() + k,
                    ),
                    Err(e) => spec_members::<FieldHeader>(c0, n0) == Err::<int, Error>(e),
                },
            decreases this.left(),
        {
            let ghost s1 = this.bytes();
            let ghost m = this.left();
            this.phase.0.read = this.phase.0.read + 1;
            let (_, attrs) = match member_head::<FieldHeader, R>(&mut this.haystack) {
                Ok(x) => x,
                Err(e) => {
                    return Err(e);
                },
            };
            let ghost s2 = this.bytes();
            proof {
                lemma_attrs_requires(s2, attrs.len as nat);
            }
            proof {
                lemma_member_parts::<FieldHeader>(s1);
            }
            match skip_values::<Attribute<'a>, R>(&mut this.haystack, attrs.len as usize) {
                Ok(()) => {},
                Err(e) => {
                    return Err(e);
                },
            }
            proof {
                let k1 = s1.len() - this.bytes().len();
                assert(s1.skip(k1) =~= this.bytes());
                assert(s2.skip(s2.len() - this.bytes().len()) =~= this.bytes());
                assert(c0.skip(c0.len() - this.bytes().len()) =~= this.bytes());
            }
        }
        proof {
            assert(this.left() == 0);
            assert(spec_members::<FieldHeader>(this.bytes(), 0) == Ok::<int, Error>(0));
            assert(c0.skip(c0.len() - this.bytes().len()) =~= this.bytes());
        }
        let list = RawList::decode(&mut this.haystack)?;
        let next = this.transform(phases::Methods(list, None));
        proof {
            assert(suffix(s0, next.bytes()));
        }
        Ok(next)
    }
}

impl<'a, R: Buf<'a> + Copy> Reader<'a, R, phases::Methods> {
    /// The methods not read yet are in the count.
    pub open spec fn wf(&self) -> bool {
        self.state().list().spec_read() <= self.state().list().spec_len()
    }

    /// How many methods are left to read.
    pub open spec fn left(&self) -> nat {
        list_left(self.state().list())
    }

    /// Where the next method starts: the bytes after the method handed out last, or
    /// the error that walking over its attributes gave.
    pub open spec fn spec_cursor(&self) -> Result<Seq<u8>, Error> {
        match self.state().failed() {
            Some(e) => Err(e),
            None => Ok(self.bytes()),
        }
    }

    /// Pulls the next method: its header, and a reader of its attributes. The
    /// attributes are walked over here too, so that this reader is at once at the
    /// bytes after the method; an error in them is given back by the next call.
    pub fn next(&mut self) -> (r: Option<Result<MethodReader<'a, R>, Error>>)
        requires
            old(self).wf(),
        ensures
            final(self).wf(),
            final(self).state().list().spec_len() == old(self).state().list().spec_len(),
            suffix(old(self).bytes(), final(self).bytes()),
            old(self).left() == 0 ==> r is None && final(self).bytes() == old(self).bytes()
                && final(self).state() == old(self).state(),
            old(self).left() > 0 ==> r is Some && final(self).left() == old(self).left() - 1,
            r matches Some(Ok(f)) ==> {
                &&& old(self).spec_cursor() matches Ok(c)
                &&& spec_member_head::<MethodHeader>(c) matches Ok((h, count, start))
                &&& 0 <= start <= c.len()
                &&& MethodHeader::spec_decode(c) matches Ok((_, n1)) && 0 <= n1 && n1 + 2 == start
                    && c.skip(n1).skip(2) == c.skip(start)
                &&& f.spec_header() == h
                &&& f.list() == RawList::fresh(count)
                &&& f.bytes() == c.skip(start)
                &&& match spec_decode_seq::<Attribute<'a>>(c.skip(start), count as nat) {
                    Ok((_, n3)) => 0 <= n3 <= c.skip(start).len() && final(self).spec_cursor()
                        == Ok::<Seq<u8>, Error>(c.skip(start).skip(n3)),
                    Err(e) => final(self).spec_cursor() == Err::<Seq<u8>, Error>(e),
                }
            },
            r matches Some(Err(e)) ==> old(self).spec_cursor() == Err::<Seq<u8>, Error>(e) || (old(
                self,
            ).spec_cursor() matches Ok(c) && spec_member_head::<MethodHeader>(c) == Err::<
                (MethodHeader, u16, int),
                Error,
            >(e)),
    {
        if self.phase.0.len > self.phase.0.read {
            self.phase.0.read = self.phase.0.read + 1;
            let stored = self.phase.1.take();
            if let Some(e) = stored {
                return Some(Err(e));
            }
            let ghost s0 = self.bytes();
            match member_head::<MethodHeader, R>(&mut self.haystack) {
                Ok((header, attrs)) => {
                    let child = self.haystack;
                    let ghost s1 = self.bytes();
                    proof {
                        lemma_attrs_requires(s1, attrs.len as nat);
                    }
                    match skip_values::<Attribute<'a>, R>(&mut self.haystack, attrs.len as usize) {
                        Ok(()) => {},
                        Err(e) => {
                            self.phase.1 = Some(e);
                        },
                    }
                    proof {
                        assert(s1.skip(s1.len() - self.bytes().len()) =~= self.bytes());
                        assert(s0.skip(s0.len() - self.bytes().len()) =~= self.bytes());
                    }
                    Some(Ok(MethodReader { header, haystack: child, attrs, _ghost: PhantomData }))
                },
                Err(e) => {
                    proof {
                        assert(s0.skip(s0.len() - self.bytes().len()) =~= self.bytes());
                    }
                    Some(Err(e))
                },
            }
        } else {
            None
        }
    }

    /// Finishes the methods phase, walking over the attributes of the method handed
    /// out last and the methods not read yet, and reads the class attribute count.
    #[verifier::spinoff_prover]
    pub fn finish(self) -> (r: Result<Reader<'a, R, phases::Attributes>, Error>)
        requires
            self.wf(),
        ensures
            match r {
                Ok(next) => self.spec_cursor() matches Ok(c) && spec_members::<MethodHeader>(c, self.left())
                    matches Ok(k) && RawList::spec_decode(c.skip(k)) == Ok::<(RawList, int), Error>(
                    (next.state().list(), c.len() - next.bytes().len() - k),
                ) && suffix(self.bytes(), next.bytes()) && 0 <= k <= c.len(),
                Err(e) => self.spec_cursor() == Err::<Seq<u8>, Error>(e) || (self.spec_cursor() matches Ok(
                    c,
                ) && (spec_members::<MethodHeader>(c, self.left()) == Err::<int, Error>(e) || (spec_members::<
                    MethodHeader,
                >(c, self.left()) matches Ok(k) && RawList::spec_decode(c.skip(k)) == Err::<
                    (RawList, int),
                    Error,
                >(e)))),
            },
    {
        let mut this = self;
        let ghost s0 = this.bytes();
        let ghost n0 = this.left();
        let stored = this.phase.1.take();
        if let Some(e) = stored {
            return Err(e);
        }
        let ghost c0 = this.bytes();
        proof {
            assert(s0.skip(s0.len() - c0.len()) =~= c0);
            assert(self.spec_cursor() == Ok::<Seq<u8>, Error>(c0));
            assert(c0.skip(0) =~= c0);
        }
        while this.phase.0.len > this.phase.0.read
            invariant
                this.wf(),
                n0 == self.left(),
                this.left() <= n0,
                suffix(s0, c0),
                suffix(c0, this.bytes()),
                self.spec_cursor() == Ok::<Seq<u8>, Error>(c0),
                match spec_members::<MethodHeader>(this.bytes(), this.left()) {
                    Ok(k) => spec_members::<MethodHeader>(c0, n0) == Ok::<int, Error>(
                        c0.len() - this.bytes().len() + k,
                    ),
                    Err(e) => spec_members::<MethodHeader>(c0, n0) == Err::<int, Error>(e),
                },
            decreases this.left(),
        {
            let ghost s1 = this.bytes();
            let ghost m = this.left();
            this.phase.0.read = this.phase.0.read + 1;
            let (_, attrs) = match member_head::<MethodHeader, R>(&mut this.haystack) {
                Ok(x) => x,
                Err(e) => {
                    return Err(e);
                },
            };
            let ghost s2 = this.bytes();
            proof {
                lemma_attrs_requires(s2, attrs.len as nat);
            }
            proof {
                lemma_member_parts::<MethodHeader>(s1);
            }
            match skip_values::<Attribute<'a>, R>(&mut this.haystack, attrs.len as usize) {
                Ok(()) => {},
                Err(e) => {
                    return Err(e);
                },
            }
            proof {
                let k1 = s1.len() - this.bytes().len();
                assert(s1.skip(k1) =~= this.bytes());
                assert(s2.skip(s2.len() - this.bytes().len()) =~= this.bytes());
                assert(c0.skip(c0.len() - this.bytes().len()) =~= this.bytes());
            }
        }
        proof {
            assert(this.left() == 0);
            assert(spec_members::<MethodHeader>(this.bytes(), 0) == Ok::<int, Error>(0));
            assert(c0.skip(c0.len() - this.bytes().len()) =~= this.bytes());
        }
        let list = RawList::decode(&mut this.haystack)?;
        let next = this.transform(phases::Attributes(list));
        proof {
            assert(suffix(s0, next.bytes()));
        }
        Ok(next)
    }
}

impl<'a, R: Buf<'a>> Reader<'a, R, phases::Attributes> {
    /// The attributes not read yet are in the count.
    pub open spec fn wf(&self) -> bool {
        self.state().list().spec_read() <= self.state().list().spec_len()
    }

    /// How many attributes are left to read.
    pub open spec fn left(&self) -> nat {
        list_left(self.state().list())
    }

    /// Reads the next attribute of the class.
    pub fn next(&mut self) -> (r: Option<Result<Attribute<'a>, Error>>)
        requires
            old(self).wf(),
        ensures
            final(self).wf(),
            final(self).state().list().spec_len() == old(self).state().list().spec_len(),
            old(self).left() == 0 ==> r is None && final(self).bytes() == old(self).bytes()
                && final(self).state() == old(self).state(),
            old(self).left() > 0 ==> r is Some && final(self).left() == old(self).left() - 1,
            r matches Some(x) ==> read_step::<Attribute<'a>>(old(self).bytes(), final(self).bytes(), x),
    {
        list_next::<Attribute<'a>, R>(&mut self.haystack, &mut self.phase.0)
    }

    /// How many attributes are left to read.
    pub fn size_hint(&self) -> (r: (usize, Option<usize>))
        requires
            self.wf(),
        ensures
            r.0 == self.left(),
            r.1 == Some(r.0),
    {
        self.phase.0.size_hint()
    }
}

/// Reader of a `Code` attribute: its body, its exception table, then its attributes.
#[derive(Debug)]
#[must_use]
pub struct CodeReader<'a, B, Phase> {
    buf: B,
    phase: Phase,
    _ghost: PhantomData<&'a ()>,
}

impl<'a, B: Buf<'a>, Phase> CodeReader<'a, B, Phase> {
    /// The bytes left to read.
    pub closed spec fn bytes(&self) -> Seq<u8> {
        self.buf@
    }

    /// The state of the reader.
    pub closed spec fn state(&self) -> Phase {
        self.phase
    }

    fn transform<T>(self, phase: T) -> (r: CodeReader<'a, B, T>)
        ensures
            r.bytes() == self.bytes(),
            r.state() == phase,
    {
        CodeReader { buf: self.buf, phase, _ghost: PhantomData }
    }
}

impl<'a, B: Buf<'a>> CodeReader<'a, B, phases::Body> {
    /// Creates a new `Code` reader over the info of the attribute.
    pub fn new(buf: B) -> (r: Self)
        ensures
            r.bytes() == buf@,
    {
        CodeReader { buf, phase: phases::Body, _ghost: PhantomData }
    }

    /// Reads the body, and the length of the exception table.
    pub fn body(self) -> (r: Result<(CodeBody<'a>, CodeReader<'a, B, phases::ExceptionTable>), Error>)
        ensures
            match r {
                Ok((body, next)) => {
                    &&& spec_then_list::<CodeBody<'a>>(self.bytes()) == Ok::<
                        (SpecCodeBody, RawList, int),
                        Error,
                    >((body@, next.state().list(), self.bytes().len() - next.bytes().len()))
                    &&& suffix(self.bytes(), next.bytes())
                },
                Err(e) => spec_then_list::<CodeBody<'a>>(self.bytes()) == Err::<
                    (SpecCodeBody, RawList, int),
                    Error,
                >(e),
            },
    {
        let mut this = self;
        let body = CodeBody::decode(&mut this.buf)?;
        let list = RawList::decode(&mut this.buf)?;
        Ok((body, this.transform(phases::ExceptionTable(list))))
    }
}

impl<'a, B: Buf<'a>> CodeReader<'a, B, phases::ExceptionTable> {
    /// The entries not read yet are in the count.
    pub open spec fn wf(&self) -> bool {
        self.state().list().spec_read() <= self.state().list().spec_len()
    }

    /// How many entries are left to read.
    pub open spec fn left(&self) -> nat {
        list_left(self.state().list())
    }

    /// Reads the next entry of the exception table.
    pub fn next(&mut self) -> (r: Option<Result<ExceptionTableEntry, Error>>)
        requires
            old(self).wf(),
        ensures
            final(self).wf(),
            final(self).state().list().spec_len() == old(self).state().list().spec_len(),
            old(self).left() == 0 ==> r is None && final(self).bytes() == old(self).bytes()
                && final(self).state() == old(self).state(),
            old(self).left() > 0 ==> r is Some && final(self).left() == old(self).left() - 1,
            r matches Some(x) ==> read_step::<ExceptionTableEntry>(
                old(self).bytes(),
                final(self).bytes(),
                x,
            ),
    {
        list_next::<ExceptionTableEntry, B>(&mut self.buf, &mut self.phase.0)
    }

    /// How many entries are left to read.
    pub fn size_hint(&self) -> (r: (usize, Option<usize>))
        requires
            self.wf(),
        ensures
            r.0 == self.left(),
            r.1 == Some(r.0),
    {
        self.phase.0.size_hint()
    }

    /// Finishes the exception table, walking over the entries not read yet, and
    /// reads the attribute count.
    pub fn finish(self) -> (r: Result<CodeReader<'a, B, phases::Attributes>, Error>)
        requires
            self.wf(),
        ensures
            match r {
                Ok(next) => spec_finish_list::<ExceptionTableEntry>(self.bytes(), self.left()) == Ok::<
                    (RawList, int),
                    Error,
                >((next.state().list(), self.bytes().len() - next.bytes().len())) && suffix(
                    self.bytes(),
                    next.bytes(),
                ),
                Err(e) => spec_finish_list::<ExceptionTableEntry>(self.bytes(), self.left())
                    == Err::<(RawList, int), Error>(e),
            },
    {
        let mut this = self;
        proof {
            lemma_seq_requires::<ExceptionTableEntry>(this.bytes(), this.left());
        }
        let list = list_finish::<ExceptionTableEntry, B>(&mut this.buf, &mut this.phase.0)?;
        Ok(this.transform(phases::Attributes(list)))
    }
}

impl<'a, B: Buf<'a>> CodeReader<'a, B, phases::Attributes> {
    /// The attributes not read yet are in the count.
    pub open spec fn wf(&self) -> bool {
        self.state().list().spec_read() <= self.state().list().spec_len()
    }

    /// How many attributes are left to read.
    pub open spec fn left(&self) -> nat {
        list_left(self.state().list())
    }

    /// Reads the next attribute of the code.
    pub fn next(&mut self) -> (r: Option<Result<Attribute<'a>, Error>>)
        requires
            old(self).wf(),
        ensures
            final(self).wf(),
            final(self).state().list().spec_len() == old(self).state().list().spec_len(),
            old(self).left() == 0 ==> r is None && final(self).bytes() == old(self).bytes()
                && final(self).state() == old(self).state(),
            old(self).left() > 0 ==> r is Some && final(self).left() == old(self).left() - 1,
            r matches Some(x) ==> read_step::<Attribute<'a>>(old(self).bytes(), final(self).bytes(), x),
    {
        list_next::<Attribute<'a>, B>(&mut self.buf, &mut self.phase.0)
    }

    /// How many attributes are left to read.
    pub fn size_hint(&self) -> (r: (usize, Option<usize>))
        requires
            self.wf(),
        ensures
            r.0 == self.left(),
            r.1 == Some(r.0),
    {
        self.phase.0.size_hint()
    }

    /// Finishes reading the attribute, walking over the attributes not read yet.
    pub fn finish(self) -> (r: Result<(), Error>)
        requires
            self.wf(),
        ensures
            match r {
                Ok(_) => spec_decode_seq::<Attribute<'a>>(self.bytes(), self.left()) is Ok,
                Err(e) => spec_decode_seq::<Attribute<'a>>(self.bytes(), self.left()) == Err::<
                    (Seq<crate::SpecAttribute>, int),
                    Error,
                >(e),
            },
    {
        let mut this = self;
        proof {
            lemma_attrs_requires(this.bytes(), this.left());
        }
        list_rest::<Attribute<'a>, B>(&mut this.buf, &mut this.phase.0)
    }
}

} // verus!
