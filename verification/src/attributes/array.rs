//! Readers and writers of attributes that hold a counted array of entries.
use core::marker::PhantomData;

use vstd::prelude::*;

use crate::reader::phases::RawList;
use crate::reader::{list_left, list_next, read_step, suffix};
use crate::util::{encode_post, Buf, BufMut, Decode, Encode, VecChunk};
use crate::writer::{fill_count, filled, fits, reserve_count, reserved_after, slot};
use crate::Error;

verus! {

broadcast use RawList::lemma_fresh;

/// Reader of an array whose count takes one byte.
#[derive(Debug)]
pub struct ArrayReaderU8<'a, B, T> {
    buf: B,
    list: RawList,
    _ghost: PhantomData<(&'a (), T)>,
}

/// Reader of an array whose count takes two bytes.
#[derive(Debug)]
pub struct ArrayReaderU16<'a, B, T> {
    buf: B,
    list: RawList,
    _ghost: PhantomData<(&'a (), T)>,
}

/// Writer of an array whose count takes one byte.
#[derive(Debug)]
pub struct ArrayWriterU8<B, T> {
    buf: B,
    chunk: VecChunk,
    count: u8,
    _ghost: PhantomData<T>,
}

/// Writer of an array whose count takes two bytes.
#[derive(Debug)]
pub struct ArrayWriterU16<B, T> {
    buf: B,
    chunk: VecChunk,
    count: u16,
    _ghost: PhantomData<T>,
}

/// Shorthand for [`ArrayReaderU16`].
pub type ArrayReader<'a, B, T> = ArrayReaderU16<'a, B, T>;

/// Shorthand for [`ArrayWriterU16`].
pub type ArrayWriter<B, T> = ArrayWriterU16<B, T>;

impl<'a, B: Buf<'a>, T> ArrayReaderU8<'a, B, T> {
    /// The bytes left to read.
    pub closed spec fn bytes(&self) -> Seq<u8> {
        self.buf@
    }

    /// The count of the array and how many entries were read.
    pub closed spec fn list(&self) -> RawList {
        self.list
    }

    /// The entries not read yet are in the count.
    pub open spec fn wf(&self) -> bool {
        self.list().spec_read() <= self.list().spec_len()
    }

    /// How many entries are left to read.
    pub open spec fn left(&self) -> nat {
        list_left(self.list())
    }

    /// Creates a new reader: reads the one-byte count of the array.
    pub fn new(buf: B) -> (r: Result<Self, Error>)
        ensures
            match r {
                Ok(a) => {
                    &&& u8::spec_decode(buf@) matches Ok((n, k)) && a.list() == RawList::fresh(
                        n as u16,
                    ) && a.bytes() == buf@.skip(k)
                    &&& a.wf()
                    &&& suffix(buf@, a.bytes())
                },
                Err(e) => u8::spec_decode(buf@) == Err::<(u8, int), Error>(e),
            },
    {
        let mut buf = buf;
        let len = u8::decode(&mut buf)?;
        Ok(ArrayReaderU8 { buf, list: RawList::new(len as u16), _ghost: PhantomData })
    }

    /// Reads the next entry; `None` when every entry was read.
    pub fn next(&mut self) -> (r: Option<Result<T, Error>>) where T: Decode<'a>
        requires
            old(self).wf(),
            old(self).left() > 0 ==> T::decode_requires(old(self).bytes()),
        ensures
            final(self).wf(),
            final(self).list().spec_len() == old(self).list().spec_len(),
            old(self).left() == 0 ==> r is None && final(self).bytes() == old(self).bytes()
                && final(self).list() == old(self).list(),
            old(self).left() > 0 ==> r is Some && final(self).left() == old(self).left() - 1,
            r matches Some(x) ==> read_step::<T>(old(self).bytes(), final(self).bytes(), x),
    {
        list_next::<T, B>(&mut self.buf, &mut self.list)
    }

    /// How many entries are left to read.
    pub fn size_hint(&self) -> (r: (usize, Option<usize>))
        requires
            self.wf(),
        ensures
            r.0 == self.left(),
            r.1 == Some(r.0),
    {
        self.list.size_hint()
    }
}

impl<'a, B: Buf<'a>, T> ArrayReaderU16<'a, B, T> {
    /// The bytes left to read.
    pub closed spec fn bytes(&self) -> Seq<u8> {
        self.buf@
    }

    /// The count of the array and how many entries were read.
    pub closed spec fn list(&self) -> RawList {
        self.list
    }

    /// The entries not read yet are in the count.
    pub open spec fn wf(&self) -> bool {
        self.list().spec_read() <= self.list().spec_len()
    }

    /// How many entries are left to read.
    pub open spec fn left(&self) -> nat {
        list_left(self.list())
    }

    /// Creates a new reader: reads the two-byte count of the array.
    pub fn new(buf: B) -> (r: Result<Self, Error>)
        ensures
            match r {
                Ok(a) => {
                    &&& u16::spec_decode(buf@) matches Ok((n, k)) && a.list() == RawList::fresh(n)
                        && a.bytes() == buf@.skip(k)
                    &&& a.wf()
                    &&& suffix(buf@, a.bytes())
                },
                Err(e) => u16::spec_decode(buf@) == Err::<(u16, int), Error>(e),
            },
    {
        let mut buf = buf;
        let len = u16::decode(&mut buf)?;
        Ok(ArrayReaderU16 { buf, list: RawList::new(len), _ghost: PhantomData })
    }

    /// Reads the next entry; `None` when every entry was read.
    pub fn next(&mut self) -> (r: Option<Result<T, Error>>) where T: Decode<'a>
        requires
            old(self).wf(),
            old(self).left() > 0 ==> T::decode_requires(old(self).bytes()),
        ensures
            final(self).wf(),
            final(self).list().spec_len() == old(self).list().spec_len(),
            old(self).left() == 0 ==> r is None && final(self).bytes() == old(self).bytes()
                && final(self).list() == old(self).list(),
            old(self).left() > 0 ==> r is Some && final(self).left() == old(self).left() - 1,
            r matches Some(x) ==> read_step::<T>(old(self).bytes(), final(self).bytes(), x),
    {
        list_next::<T, B>(&mut self.buf, &mut self.list)
    }

    /// How many entries are left to read.
    pub fn size_hint(&self) -> (r: (usize, Option<usize>))
        requires
            self.wf(),
        ensures
            r.0 == self.left(),
            r.1 == Some(r.0),
    {
        self.list.size_hint()
    }
}

impl<'a, T> ArrayReaderU16<'a, &'a [u8], T> {
    /// The bytes left to read, so that what the next entry asks of them can be
    /// checked before it is read.
    pub fn remaining(&self) -> (r: &'a [u8])
        ensures
            r@ == self.bytes(),
    {
        self.buf
    }
}

/// `c` is a one-byte slot among the bytes that `b` holds.
pub open spec fn slot8<W: BufMut>(b: W, c: VecChunk) -> bool {
    c.size() == 1 && 0 <= c.start() && c.start() + 1 <= b.written().len()
}

/// `b1` is `b0` with the one-byte count `n` filled into the slot `c`.
pub open spec fn filled8<W: BufMut>(b0: W, b1: W, c: VecChunk, n: u8) -> bool {
    &&& b1.written() == b0.written().take(c.start()) + seq![n] + b0.written().skip(c.start() + 1)
    &&& b1.bounded() == b0.bounded()
    &&& b1.room() == b0.room()
}

impl<B: BufMut, T> ArrayWriterU8<B, T> {
    /// The buffer written into.
    pub closed spec fn buffer(&self) -> B {
        self.buf
    }

    /// How many entries were written.
    pub closed spec fn count(&self) -> u8 {
        self.count
    }

    /// Where the count goes.
    pub closed spec fn chunk(&self) -> VecChunk {
        self.chunk
    }

    /// The slot of the count is among the bytes written.
    pub open spec fn wf(&self) -> bool {
        slot8(self.buffer(), self.chunk())
    }

    /// Creates a new writer: reserves one byte for the count.
    pub fn new(buf: B) -> (r: Result<Self, Error>)
        ensures
            match r {
                Ok(w) => {
                    &&& w.buffer().written().len() == buf.written().len() + 1
                    &&& w.buffer().written().take(buf.written().len() as int) == buf.written()
                    &&& w.chunk().start() == buf.written().len()
                    &&& w.buffer().bounded() == buf.bounded()
                    &&& (buf.bounded() ==> w.buffer().room() == buf.room() - 1)
                    &&& w.count() == 0
                    &&& w.wf()
                },
                Err(e) => e == Error::UnexpectedEOF && !fits(buf, 1),
            },
    {
        let mut buf = buf;
        match buf.reserve_chunk(1) {
            Some(chunk) => Ok(ArrayWriterU8 { buf, chunk, count: 0, _ghost: PhantomData }),
            None => Err(Error::UnexpectedEOF),
        }
    }

    /// Writes a new entry.
    pub fn push(&mut self, entry: &T) -> (r: Result<(), Error>) where T: Encode
        requires
            old(self).wf(),
            old(self).count() < u8::MAX,
            T::encode_requires(entry@),
        ensures
            final(self).wf(),
            final(self).chunk() == old(self).chunk(),
            encode_post(
                old(self).buffer(),
                final(self).buffer(),
                T::encodable(entry@),
                T::spec_encode(entry@),
                r,
            ),
            final(self).count() == (if r is Ok {
                old(self).count() + 1
            } else {
                old(self).count() as int
            }),
    {
        entry.encode(&mut self.buf)?;
        self.count = self.count + 1;
        Ok(())
    }

    /// Finishes writing the array: fills in its count and gives the buffer back.
    pub fn finish(self) -> (r: Result<B, Error>)
        requires
            self.wf(),
        ensures
            r matches Ok(b) && filled8(self.buffer(), b, self.chunk(), self.count()),
    {
        let ArrayWriterU8 { mut buf, chunk, count, _ghost } = self;
        let bytes = [count];
        assert(bytes@ =~= seq![count]);
        buf.write_chunk(chunk, &bytes)?;
        Ok(buf)
    }
}

impl<B: BufMut, T> ArrayWriterU16<B, T> {
    /// The buffer written into.
    pub closed spec fn buffer(&self) -> B {
        self.buf
    }

    /// How many entries were written.
    pub closed spec fn count(&self) -> u16 {
        self.count
    }

    /// Where the count goes.
    pub closed spec fn chunk(&self) -> VecChunk {
        self.chunk
    }

    /// The slot of the count is among the bytes written.
    pub open spec fn wf(&self) -> bool {
        slot(self.buffer(), self.chunk())
    }

    /// Creates a new writer: reserves two bytes for the count.
    pub fn new(buf: B) -> (r: Result<Self, Error>)
        ensures
            match r {
                Ok(w) => {
                    &&& reserved_after(buf, w.buffer(), Seq::empty(), w.chunk())
                    &&& w.count() == 0
                    &&& w.wf()
                },
                Err(e) => e == Error::UnexpectedEOF && !fits(buf, 2),
            },
    {
        let mut buf = buf;
        let chunk = reserve_count(&mut buf)?;
        Ok(ArrayWriterU16 { buf, chunk, count: 0, _ghost: PhantomData })
    }

    /// Writes a new entry.
    pub fn push(&mut self, entry: &T) -> (r: Result<(), Error>) where T: Encode
        requires
            old(self).wf(),
            old(self).count() < u16::MAX,
            T::encode_requires(entry@),
        ensures
            final(self).wf(),
            final(self).chunk() == old(self).chunk(),
            encode_post(
                old(self).buffer(),
                final(self).buffer(),
                T::encodable(entry@),
                T::spec_encode(entry@),
                r,
            ),
            final(self).count() == (if r is Ok {
                old(self).count() + 1
            } else {
                old(self).count() as int
            }),
    {
        entry.encode(&mut self.buf)?;
        self.count = self.count + 1;
        Ok(())
    }

    /// Finishes writing the array: fills in its count and gives the buffer back.
    pub fn finish(self) -> (r: Result<B, Error>)
        requires
            self.wf(),
        ensures
            r matches Ok(b) && filled(self.buffer(), b, self.chunk(), self.count()),
    {
        let ArrayWriterU16 { mut buf, chunk, count, _ghost } = self;
        fill_count(&mut buf, chunk, count)?;
        Ok(buf)
    }
}

} // verus!
