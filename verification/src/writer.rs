//! Writing a classfile.
use vstd::prelude::*;

use crate::util::{be_u16, BufMut, Encode, VecChunk};
use crate::attributes::{CodeBody, ExceptionTableEntry};
use crate::{
    Attribute, ClassMetadata, ClassfileHeader, ConstantEntry, ConstantPoolEntry, Error,
    FieldHeader, MethodHeader, NonZeroU16,
};

pub mod phases;

verus! {

/// Whether `n` more bytes fit into `b`.
pub open spec fn fits<W: BufMut>(b: W, n: int) -> bool {
    !b.bounded() || n <= b.room()
}

/// `b1` is `b0` with `bytes` appended, then two bytes reserved at `c` for a count.
pub open spec fn reserved_after<W: BufMut>(b0: W, b1: W, bytes: Seq<u8>, c: VecChunk) -> bool {
    &&& b1.written().len() == b0.written().len() + bytes.len() + 2
    &&& b1.written().take(b0.written().len() + bytes.len() as int) == b0.written() + bytes
    &&& c.start() == b0.written().len() + bytes.len()
    &&& c.size() == 2
    &&& (!b0.bounded() ==> b1.written().skip(c.start()) == seq![0u8, 0u8])
    &&& b1.bounded() == b0.bounded()
    &&& (b0.bounded() ==> b1.room() == b0.room() - bytes.len() - 2)
}

/// `c` is a slot for a count among the bytes that `b` holds.
pub open spec fn slot<W: BufMut>(b: W, c: VecChunk) -> bool {
    c.size() == 2 && 0 <= c.start() && c.start() + 2 <= b.written().len()
}

/// `b1` is `b0` with the count `n` filled into the slot `c`.
pub open spec fn filled<W: BufMut>(b0: W, b1: W, c: VecChunk, n: u16) -> bool {
    &&& b1.written() == b0.written().take(c.start()) + be_u16(n) + b0.written().skip(c.start() + 2)
    &&& b1.bounded() == b0.bounded()
    &&& b1.room() == b0.room()
}

/// `b1` is `b0` after a push of a value encoded as `bytes` that gave `r`: the bytes
/// are appended when they fit, and a prefix of them otherwise.
pub open spec fn pushed<W: BufMut>(b0: W, b1: W, bytes: Seq<u8>, r: Result<(), Error>) -> bool {
    crate::util::encode_post(b0, b1, true, bytes, r)
}

/// `b1` is `b0` with the count `n` filled into the slot `c`, then two bytes
/// reserved at `c2` for another count.
pub open spec fn filled_then_reserved<W: BufMut>(b0: W, b1: W, c: VecChunk, n: u16, c2: VecChunk) -> bool {
    &&& b1.written().len() == b0.written().len() + 2
    &&& b1.written().take(b0.written().len() as int) == b0.written().take(c.start()) + be_u16(n)
        + b0.written().skip(c.start() + 2)
    &&& c2.start() == b0.written().len()
    &&& c2.size() == 2
    &&& (!b0.bounded() ==> b1.written().skip(c2.start()) == seq![0u8, 0u8])
    &&& b1.bounded() == b0.bounded()
    &&& (b0.bounded() ==> b1.room() == b0.room() - 2)
}

/// Fills a count into its slot, then reserves two bytes for another.
fn fill_then_reserve<W: BufMut>(buf: &mut W, chunk: VecChunk, n: u16) -> (r: Result<VecChunk, Error>)
    requires
        slot(*old(buf), chunk),
    ensures
        match r {
            Ok(c2) => filled_then_reserved(*old(buf), *final(buf), chunk, n, c2),
            Err(e) => e == Error::UnexpectedEOF && !fits(*old(buf), 2),
        },
{
    let ghost c0 = chunk;
    fill_count(buf, chunk, n)?;
    let ghost b1 = *buf;
    let c2 = reserve_count(buf)?;
    proof {
        assert(b1.written() + Seq::<u8>::empty() =~= b1.written());
        assert(b1.written().len() == old(buf).written().len());
    }
    Ok(c2)
}

/// Reserves two bytes for a count.
pub(crate) fn reserve_count<W: BufMut>(buf: &mut W) -> (r: Result<VecChunk, Error>)
    ensures
        match r {
            Ok(c) => reserved_after(*old(buf), *final(buf), Seq::empty(), c),
            Err(e) => e == Error::UnexpectedEOF && !fits(*old(buf), 2),
        },
{
    match buf.reserve_chunk(2) {
        Some(c) => {
            assert(old(buf).written() + Seq::<u8>::empty() =~= old(buf).written());
            proof {
                if !old(buf).bounded() {
                    assert(buf.written().skip(c.start()) =~= seq![0u8, 0u8]);
                }
            }
            Ok(c)
        },
        None => Err(Error::UnexpectedEOF),
    }
}

/// Fills a count into its slot.
pub(crate) fn fill_count<W: BufMut>(buf: &mut W, chunk: VecChunk, n: u16) -> (r: Result<(), Error>)
    requires
        slot(*old(buf), chunk),
    ensures
        r is Ok,
        filled(*old(buf), *final(buf), chunk, n),
{
    let bytes = [(n / 0x100) as u8, (n % 0x100) as u8];
    assert(bytes@ =~= be_u16(n));
    buf.write_chunk(chunk, &bytes)
}

/// Encodes `x`, then reserves two bytes for a count.
fn put_then_reserve<T: Encode, W: BufMut>(buf: &mut W, x: &T) -> (r: Result<VecChunk, Error>)
    requires
        T::encode_requires(x@),
        T::encodable(x@),
    ensures
        match r {
            Ok(c) => reserved_after(*old(buf), *final(buf), T::spec_encode(x@), c),
            Err(e) => e == Error::UnexpectedEOF && !fits(*old(buf), T::spec_encode(x@).len() + 2int),
        },
{
    x.encode(buf)?;
    let ghost b1 = *buf;
    let c = reserve_count(buf)?;
    proof {
        assert(b1.written() + Seq::<u8>::empty() =~= b1.written());
    }
    Ok(c)
}

/// A classfile writer.
#[derive(Debug)]
#[must_use]
pub struct Writer<W, Phase> {
    buf: W,
    phase: Phase,
}

impl<W: BufMut, Phase> Writer<W, Phase> {
    /// The buffer written into.
    pub closed spec fn buffer(&self) -> W {
        self.buf
    }

    /// The state of the writer.
    pub closed spec fn state(&self) -> Phase {
        self.phase
    }

    fn transform<T>(self, phase: T) -> (r: Writer<W, T>)
        ensures
            r.buffer() == self.buffer(),
            r.state() == phase,
    {
        Writer { buf: self.buf, phase }
    }

    /// Peeks at the internal buffer.
    pub fn buf(&self) -> (r: &W)
        ensures
            *r == self.buffer(),
    {
        &self.buf
    }
}

impl<W: BufMut> Writer<W, phases::Header> {
    /// Creates a new classfile writer.
    pub fn new(buf: W) -> (r: Self)
        ensures
            r.buffer() == buf,
    {
        Writer { buf, phase: phases::Header }
    }

    /// Writes the classfile header, and reserves the constant pool count.
    pub fn set_header(self, header: &ClassfileHeader) -> (r: Result<Writer<W, phases::ConstantPool>, Error>)
        ensures
            match r {
                Ok(w) => {
                    &&& reserved_after(self.buffer(), w.buffer(), ClassfileHeader::spec_encode(*header), w.state().chunk())
                    &&& w.state().count() == 0
                },
                Err(e) => e == Error::UnexpectedEOF && !fits(self.buffer(), ClassfileHeader::spec_encode(*header).len() + 2int),
            },
    {
        let mut this = self;
        let chunk = put_then_reserve(&mut this.buf, header)?;
        Ok(this.transform(phases::ConstantPool { count: 0, chunk }))
    }
}

impl phases::ConstantPool {
    /// The index space taken by the entries written.
    pub closed spec fn count(self) -> u16 {
        self.count
    }

    /// Where the count goes.
    pub closed spec fn chunk(self) -> VecChunk {
        self.chunk
    }
}

impl phases::Interfaces {
    /// How many interfaces were written.
    pub closed spec fn count(self) -> u16 {
        self.count
    }

    /// Where the count goes.
    pub closed spec fn chunk(self) -> VecChunk {
        self.chunk
    }
}

impl phases::Attributes {
    /// How many attributes were written.
    pub closed spec fn count(self) -> u16 {
        self.count
    }

    /// Where the count goes.
    pub closed spec fn chunk(self) -> VecChunk {
        self.chunk
    }
}

impl phases::ExceptionTable {
    /// How many entries were written.
    pub closed spec fn count(self) -> u16 {
        self.count
    }

    /// Where the count goes.
    pub closed spec fn chunk(self) -> VecChunk {
        self.chunk
    }
}

impl<Phase> phases::Fields<Phase> {
    /// How many fields were written.
    pub closed spec fn count(self) -> u16 {
        self.count
    }

    /// Where the count goes.
    pub closed spec fn chunk(self) -> VecChunk {
        self.chunk
    }

    /// The state within the current field.
    pub closed spec fn inner(self) -> Phase {
        self.phase
    }
}

impl<Phase> phases::Methods<Phase> {
    /// How many methods were written.
    pub closed spec fn count(self) -> u16 {
        self.count
    }

    /// Where the count goes.
    pub closed spec fn chunk(self) -> VecChunk {
        self.chunk
    }

    /// The state within the current method.
    pub closed spec fn inner(self) -> Phase {
        self.phase
    }
}

impl<W: BufMut> Writer<W, phases::ConstantPool> {
    /// The slot of the count is among the bytes written.
    pub open spec fn wf(&self) -> bool {
        slot(self.buffer(), self.state().chunk())
    }

    /// Writes a new constant pool entry.
    pub fn push(&mut self, entry: &ConstantPoolEntry<'_>) -> (r: Result<(), Error>)
        requires
            old(self).wf(),
            old(self).state().count() + entry@.spec_space() <= u16::MAX,
            ConstantEntry::encode_requires(entry@),
        ensures
            final(self).wf(),
            final(self).state().chunk() == old(self).state().chunk(),
            pushed(old(self).buffer(), final(self).buffer(), ConstantEntry::spec_encode(entry@), r),
            final(self).state().count() == (if r is Ok {
                old(self).state().count() + entry@.spec_space()
            } else {
                old(self).state().count() as int
            }),
    {
        entry.encode(&mut self.buf)?;
        self.phase.count = self.phase.count + entry.space();
        Ok(())
    }

    /// Finishes up the constant pool: fills in its count, one more than the index
    /// space its entries take.
    pub fn finish(self) -> (r: Result<Writer<W, phases::Metadata>, Error>)
        requires
            self.wf(),
            self.state().count() < u16::MAX,
        ensures
            r matches Ok(w) && filled(self.buffer(), w.buffer(), self.state().chunk(), (self.state().count() + 1) as u16),
    {
        let mut this = self;
        let phases::ConstantPool { count, chunk } = this.phase;
        fill_count(&mut this.buf, chunk, count + 1)?;
        Ok(Writer { buf: this.buf, phase: phases::Metadata })
    }
}

impl<W: BufMut> Writer<W, phases::Metadata> {
    /// Writes the class metadata, and reserves the interface count.
    pub fn set_metadata(self, metadata: &ClassMetadata) -> (r: Result<Writer<W, phases::Interfaces>, Error>)
        ensures
            match r {
                Ok(w) => {
                    &&& reserved_after(self.buffer(), w.buffer(), ClassMetadata::spec_encode(*metadata), w.state().chunk())
                    &&& w.state().count() == 0
                },
                Err(e) => e == Error::UnexpectedEOF && !fits(self.buffer(), ClassMetadata::spec_encode(*metadata).len() + 2int),
            },
    {
        let mut this = self;
        let chunk = put_then_reserve(&mut this.buf, metadata)?;
        Ok(this.transform(phases::Interfaces { count: 0, chunk }))
    }
}

impl<W: BufMut> Writer<W, phases::Interfaces> {
    /// The slot of the count is among the bytes written.
    pub open spec fn wf(&self) -> bool {
        slot(self.buffer(), self.state().chunk())
    }

    /// Writes a new interface, as the constant pool index of its `Class` entry.
    pub fn push(&mut self, index: NonZeroU16) -> (r: Result<(), Error>)
        requires
            old(self).wf(),
            old(self).state().count() < u16::MAX,
        ensures
            final(self).wf(),
            final(self).state().chunk() == old(self).state().chunk(),
            pushed(old(self).buffer(), final(self).buffer(), NonZeroU16::spec_encode(index), r),
            final(self).state().count() == (if r is Ok {
                old(self).state().count() + 1
            } else {
                old(self).state().count() as int
            }),
    {
        index.encode(&mut self.buf)?;
        self.phase.count = self.phase.count + 1;
        Ok(())
    }

    /// Finishes up the interfaces: fills in their count, and reserves the field count.
    pub fn finish(self) -> (r: Result<Writer<W, phases::Fields<phases::Header>>, Error>)
        requires
            self.wf(),
        ensures
            match r {
                Ok(w) => {
                    &&& filled_then_reserved(self.buffer(), w.buffer(), self.state().chunk(), self.state().count(), w.state().chunk())
                    &&& w.state().count() == 0
                },
                Err(e) => e == Error::UnexpectedEOF && !fits(self.buffer(), 2),
            },
    {
        let Writer { mut buf, phase } = self;
        let phases::Interfaces { count, chunk } = phase;
        let chunk = fill_then_reserve(&mut buf, chunk, count)?;
        Ok(Writer { buf, phase: phases::Fields { count: 0, chunk, phase: phases::Header } })
    }
}

impl<W: BufMut> Writer<W, phases::Fields<phases::Header>> {
    /// The slot of the count is among the bytes written.
    pub open spec fn wf(&self) -> bool {
        slot(self.buffer(), self.state().chunk())
    }

    /// Writes the header of a new field, and reserves its attribute count.
    pub fn set_header(self, header: &FieldHeader) -> (r: Result<Writer<W, phases::Fields<phases::Attributes>>, Error>)
        requires
            self.wf(),
        ensures
            match r {
                Ok(w) => {
                    &&& reserved_after(self.buffer(), w.buffer(), FieldHeader::spec_encode(*header), w.state().inner().chunk())
                    &&& w.state().inner().count() == 0
                    &&& w.state().count() == self.state().count()
                    &&& w.state().chunk() == self.state().chunk()
                    &&& w.wf()
                },
                Err(e) => e == Error::UnexpectedEOF && !fits(self.buffer(), FieldHeader::spec_encode(*header).len() + 2int),
            },
    {
        let Writer { mut buf, phase } = self;
        let phases::Fields { count, chunk, phase: _ } = phase;
        let inner = put_then_reserve(&mut buf, header)?;
        Ok(Writer { buf, phase: phases::Fields { count, chunk, phase: phases::Attributes { count: 0, chunk: inner } } })
    }

    /// Finishes up the fields: fills in their count, and reserves the method count.
    pub fn finish(self) -> (r: Result<Writer<W, phases::Methods<phases::Header>>, Error>)
        requires
            self.wf(),
        ensures
            match r {
                Ok(w) => {
                    &&& filled_then_reserved(self.buffer(), w.buffer(), self.state().chunk(), self.state().count(), w.state().chunk())
                    &&& w.state().count() == 0
                },
                Err(e) => e == Error::UnexpectedEOF && !fits(self.buffer(), 2),
            },
    {
        let Writer { mut buf, phase } = self;
        let phases::Fields { count, chunk, phase: _ } = phase;
        let chunk = fill_then_reserve(&mut buf, chunk, count)?;
        Ok(Writer { buf, phase: phases::Methods { count: 0, chunk, phase: phases::Header } })
    }
}

impl<W: BufMut> Writer<W, phases::Fields<phases::Attributes>> {
    /// The slots of both counts are among the bytes written.
    pub open spec fn wf(&self) -> bool {
        slot(self.buffer(), self.state().chunk()) && slot(self.buffer(), self.state().inner().chunk())
    }

    /// Writes a new attribute of the current field.
    pub fn push(&mut self, attr: &Attribute<'_>) -> (r: Result<(), Error>)
        requires
            old(self).wf(),
            old(self).state().inner().count() < u16::MAX,
            Attribute::encode_requires(attr@),
        ensures
            final(self).wf(),
            final(self).state().chunk() == old(self).state().chunk(),
            final(self).state().count() == old(self).state().count(),
            final(self).state().inner().chunk() == old(self).state().inner().chunk(),
            pushed(old(self).buffer(), final(self).buffer(), Attribute::spec_encode(attr@), r),
            final(self).state().inner().count() == (if r is Ok {
                old(self).state().inner().count() + 1
            } else {
                old(self).state().inner().count() as int
            }),
    {
        attr.encode(&mut self.buf)?;
        self.phase.phase.count = self.phase.phase.count + 1;
        Ok(())
    }

    /// Finishes up the current field: fills in its attribute count, and counts the field.
    pub fn finish(self) -> (r: Result<Writer<W, phases::Fields<phases::Header>>, Error>)
        requires
            self.wf(),
            self.state().count() < u16::MAX,
        ensures
            r matches Ok(w) && {
                &&& filled(self.buffer(), w.buffer(), self.state().inner().chunk(), self.state().inner().count())
                &&& w.state().count() == self.state().count() + 1
                &&& w.state().chunk() == self.state().chunk()
                &&& w.wf()
            },
    {
        let Writer { mut buf, phase } = self;
        let phases::Fields { count, chunk, phase: inner } = phase;
        let phases::Attributes { count: n, chunk: c } = inner;
        fill_count(&mut buf, c, n)?;
        Ok(Writer { buf, phase: phases::Fields { count: count + 1, chunk, phase: phases::Header } })
    }
}

impl<W: BufMut> Writer<W, phases::Methods<phases::Header>> {
    /// The slot of the count is among the bytes written.
    pub open spec fn wf(&self) -> bool {
        slot(self.buffer(), self.state().chunk())
    }

    /// Writes the header of a new method, and reserves its attribute count.
    pub fn set_header(self, header: &MethodHeader) -> (r: Result<Writer<W, phases::Methods<phases::Attributes>>, Error>)
        requires
            self.wf(),
        ensures
            match r {
                Ok(w) => {
                    &&& reserved_after(self.buffer(), w.buffer(), MethodHeader::spec_encode(*header), w.state().inner().chunk())
                    &&& w.state().inner().count() == 0
                    &&& w.state().count() == self.state().count()
                    &&& w.state().chunk() == self.state().chunk()
                    &&& w.wf()
                },
                Err(e) => e == Error::UnexpectedEOF && !fits(self.buffer(), MethodHeader::spec_encode(*header).len() + 2int),
            },
    {
        let Writer { mut buf, phase } = self;
        let phases::Methods { count, chunk, phase: _ } = phase;
        let inner = put_then_reserve(&mut buf, header)?;
        Ok(Writer { buf, phase: phases::Methods { count, chunk, phase: phases::Attributes { count: 0, chunk: inner } } })
    }

    /// Finishes up the methods: fills in their count, and reserves the attribute
    /// count of the class.
    pub fn finish(self) -> (r: Result<Writer<W, phases::Attributes>, Error>)
        requires
            self.wf(),
        ensures
            match r {
                Ok(w) => {
                    &&& filled_then_reserved(self.buffer(), w.buffer(), self.state().chunk(), self.state().count(), w.state().chunk())
                    &&& w.state().count() == 0
                },
                Err(e) => e == Error::UnexpectedEOF && !fits(self.buffer(), 2),
            },
    {
        let Writer { mut buf, phase } = self;
        let phases::Methods { count, chunk, phase: _ } = phase;
        let chunk = fill_then_reserve(&mut buf, chunk, count)?;
        Ok(Writer { buf, phase: phases::Attributes { count: 0, chunk } })
    }
}

impl<W: BufMut> Writer<W, phases::Methods<phases::Attributes>> {
    /// The slots of both counts are among the bytes written.
    pub open spec fn wf(&self) -> bool {
        slot(self.buffer(), self.state().chunk()) && slot(self.buffer(), self.state().inner().chunk())
    }

    /// Writes a new attribute of the current method.
    pub fn push(&mut self, attr: &Attribute<'_>) -> (r: Result<(), Error>)
        requires
            old(self).wf(),
            old(self).state().inner().count() < u16::MAX,
            Attribute::encode_requires(attr@),
        ensures
            final(self).wf(),
            final(self).state().chunk() == old(self).state().chunk(),
            final(self).state().count() == old(self).state().count(),
            final(self).state().inner().chunk() == old(self).state().inner().chunk(),
            pushed(old(self).buffer(), final(self).buffer(), Attribute::spec_encode(attr@), r),
            final(self).state().inner().count() == (if r is Ok {
                old(self).state().inner().count() + 1
            } else {
                old(self).state().inner().count() as int
            }),
    {
        attr.encode(&mut self.buf)?;
        self.phase.phase.count = self.phase.phase.count + 1;
        Ok(())
    }

    /// Finishes up the current method: fills in its attribute count, and counts the method.
    pub fn finish(self) -> (r: Result<Writer<W, phases::Methods<phases::Header>>, Error>)
        requires
            self.wf(),
            self.state().count() < u16::MAX,
        ensures
            r matches Ok(w) && {
                &&& filled(self.buffer(), w.buffer(), self.state().inner().chunk(), self.state().inner().count())
                &&& w.state().count() == self.state().count() + 1
                &&& w.state().chunk() == self.state().chunk()
                &&& w.wf()
            },
    {
        let Writer { mut buf, phase } = self;
        let phases::Methods { count, chunk, phase: inner } = phase;
        let phases::Attributes { count: n, chunk: c } = inner;
        fill_count(&mut buf, c, n)?;
        Ok(Writer { buf, phase: phases::Methods { count: count + 1, chunk, phase: phases::Header } })
    }
}

impl<W: BufMut> Writer<W, phases::Attributes> {
    /// The slot of the count is among the bytes written.
    pub open spec fn wf(&self) -> bool {
        slot(self.buffer(), self.state().chunk())
    }

    /// Writes a new attribute of the class.
    pub fn push(&mut self, attr: &Attribute<'_>) -> (r: Result<(), Error>)
        requires
            old(self).wf(),
            old(self).state().count() < u16::MAX,
            Attribute::encode_requires(attr@),
        ensures
            final(self).wf(),
            final(self).state().chunk() == old(self).state().chunk(),
            pushed(old(self).buffer(), final(self).buffer(), Attribute::spec_encode(attr@), r),
            final(self).state().count() == (if r is Ok {
                old(self).state().count() + 1
            } else {
                old(self).state().count() as int
            }),
    {
        attr.encode(&mut self.buf)?;
        self.phase.count = self.phase.count + 1;
        Ok(())
    }

    /// Finishes up the attributes of the class, and with them the classfile: fills
    /// in their count and gives the buffer back.
    pub fn finish(self) -> (r: Result<W, Error>)
        requires
            self.wf(),
        ensures
            r matches Ok(b) && filled(self.buffer(), b, self.state().chunk(), self.state().count()),
    {
        let Writer { mut buf, phase } = self;
        let phases::Attributes { count, chunk } = phase;
        fill_count(&mut buf, chunk, count)?;
        Ok(buf)
    }
}

/// Writer of a `Code` attribute: its body, its exception table, then its attributes.
#[derive(Debug)]
#[must_use]
pub struct CodeWriter<W, Phase> {
    buf: W,
    phase: Phase,
}

impl<W: BufMut, Phase> CodeWriter<W, Phase> {
    /// The buffer written into.
    pub closed spec fn buffer(&self) -> W {
        self.buf
    }

    /// The state of the writer.
    pub closed spec fn state(&self) -> Phase {
        self.phase
    }
}

impl<W: BufMut> CodeWriter<W, phases::Body> {
    /// Creates a new `Code` writer.
    pub fn new(buf: W) -> (r: Self)
        ensures
            r.buffer() == buf,
    {
        CodeWriter { buf, phase: phases::Body }
    }

    /// Writes the body of the code, and reserves the length of the exception table.
    pub fn set_body(self, body: &CodeBody<'_>) -> (r: Result<CodeWriter<W, phases::ExceptionTable>, Error>)
        requires
            CodeBody::encode_requires(body@),
        ensures
            match r {
                Ok(w) => {
                    &&& reserved_after(self.buffer(), w.buffer(), CodeBody::spec_encode(body@), w.state().chunk())
                    &&& w.state().count() == 0
                },
                Err(e) => e == Error::UnexpectedEOF && !fits(self.buffer(), CodeBody::spec_encode(body@).len() + 2int),
            },
    {
        let CodeWriter { mut buf, phase: _ } = self;
        let chunk = put_then_reserve(&mut buf, body)?;
        Ok(CodeWriter { buf, phase: phases::ExceptionTable { count: 0, chunk } })
    }
}

impl<W: BufMut> CodeWriter<W, phases::ExceptionTable> {
    /// The slot of the count is among the bytes written.
    pub open spec fn wf(&self) -> bool {
        slot(self.buffer(), self.state().chunk())
    }

    /// Writes an entry of the exception table.
    pub fn push(&mut self, entry: &ExceptionTableEntry) -> (r: Result<(), Error>)
        requires
            old(self).wf(),
            old(self).state().count() < u16::MAX,
        ensures
            final(self).wf(),
            final(self).state().chunk() == old(self).state().chunk(),
            pushed(old(self).buffer(), final(self).buffer(), ExceptionTableEntry::spec_encode(*entry), r),
            final(self).state().count() == (if r is Ok {
                old(self).state().count() + 1
            } else {
                old(self).state().count() as int
            }),
    {
        entry.encode(&mut self.buf)?;
        self.phase.count = self.phase.count + 1;
        Ok(())
    }

    /// Finishes the exception table: fills in its length, and reserves the
    /// attribute count.
    pub fn finish(self) -> (r: Result<CodeWriter<W, phases::Attributes>, Error>)
        requires
            self.wf(),
        ensures
            match r {
                Ok(w) => {
                    &&& filled_then_reserved(self.buffer(), w.buffer(), self.state().chunk(), self.state().count(), w.state().chunk())
                    &&& w.state().count() == 0
                },
                Err(e) => e == Error::UnexpectedEOF && !fits(self.buffer(), 2),
            },
    {
        let CodeWriter { mut buf, phase } = self;
        let phases::ExceptionTable { count, chunk } = phase;
        let chunk = fill_then_reserve(&mut buf, chunk, count)?;
        Ok(CodeWriter { buf, phase: phases::Attributes { count: 0, chunk } })
    }
}

impl<W: BufMut> CodeWriter<W, phases::Attributes> {
    /// The slot of the count is among the bytes written.
    pub open spec fn wf(&self) -> bool {
        slot(self.buffer(), self.state().chunk())
    }

    /// Writes an attribute of the code.
    pub fn push(&mut self, attr: &Attribute<'_>) -> (r: Result<(), Error>)
        requires
            old(self).wf(),
            old(self).state().count() < u16::MAX,
            Attribute::encode_requires(attr@),
        ensures
            final(self).wf(),
            final(self).state().chunk() == old(self).state().chunk(),
            pushed(old(self).buffer(), final(self).buffer(), Attribute::spec_encode(attr@), r),
            final(self).state().count() == (if r is Ok {
                old(self).state().count() + 1
            } else {
                old(self).state().count() as int
            }),
    {
        attr.encode(&mut self.buf)?;
        self.phase.count = self.phase.count + 1;
        Ok(())
    }

    /// Finishes the attribute: fills in the attribute count and gives the buffer back.
    pub fn finish(self) -> (r: Result<W, Error>)
        requires
            self.wf(),
        ensures
            r matches Ok(b) && filled(self.buffer(), b, self.state().chunk(), self.state().count()),
    {
        let CodeWriter { mut buf, phase } = self;
        let phases::Attributes { count, chunk } = phase;
        fill_count(&mut buf, chunk, count)?;
        Ok(buf)
    }
}

} // verus!
