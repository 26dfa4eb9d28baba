use vstd::prelude::*;

use crate::Error;

verus! {

/// A `u16` that is never zero, as used for constant pool indices.
#[derive(Debug, Clone, Copy, PartialEq, Eq, PartialOrd, Ord, Hash)]
pub struct NonZeroU16 {
    v: u16,
}

impl NonZeroU16 {
    #[verifier::type_invariant]
    closed spec fn inv(self) -> bool {
        self.v != 0
    }

    /// The value as a plain integer.
    pub closed spec fn value(self) -> u16 {
        self.v
    }

    /// The index with the given value (meaningful only for a non-zero value).
    pub closed spec fn from_raw(v: u16) -> NonZeroU16 {
        NonZeroU16 { v }
    }

    /// Wraps `v` if it is not zero.
    pub fn new(v: u16) -> (r: Option<NonZeroU16>)
        ensures
            r == (if v == 0 { None } else { Some(NonZeroU16::from_raw(v)) }),
    {
        if v == 0 {
            None
        } else {
            Some(NonZeroU16 { v })
        }
    }

    /// The wrapped value.
    pub fn get(self) -> (r: u16)
        ensures
            r == self.value(),
            r != 0,
    {
        proof {
            use_type_invariant(&self);
        }
        self.v
    }

    /// The sum, or `u16::MAX` when the sum does not fit.
    pub open spec fn spec_saturating_add(self, other: u16) -> NonZeroU16 {
        if self.value() + other > u16::MAX {
            NonZeroU16::from_raw(u16::MAX)
        } else {
            NonZeroU16::from_raw((self.value() + other) as u16)
        }
    }

    /// Adds, stopping at `u16::MAX`.
    pub fn saturating_add(self, other: u16) -> (r: NonZeroU16)
        ensures
            r == self.spec_saturating_add(other),
    {
        proof {
            use_type_invariant(&self);
        }
        if self.v as u32 + other as u32 > 0xffff {
            NonZeroU16 { v: 0xffff }
        } else {
            NonZeroU16 { v: self.v + other }
        }
    }

    pub broadcast proof fn lemma_from_raw_value(v: u16)
        ensures
            #[trigger] NonZeroU16::from_raw(v).value() == v,
    {
    }

    pub broadcast proof fn lemma_value_from_raw(x: NonZeroU16)
        ensures
            #[trigger] NonZeroU16::from_raw(x.value()) == x,
    {
    }
}

pub broadcast group group_nonzero {
    NonZeroU16::lemma_from_raw_value,
    NonZeroU16::lemma_value_from_raw,
}


// ---------------------------------------------------------------------------
// Big-endian integers as bytes.

/// The big-endian bytes of a `u16`.
pub open spec fn be_u16(x: u16) -> Seq<u8> {
    seq![(x / 0x100) as u8, (x % 0x100) as u8]
}

/// The big-endian bytes of a `u32`.
pub open spec fn be_u32(x: u32) -> Seq<u8> {
    seq![
        (x / 0x1000000) as u8,
        (x / 0x10000 % 0x100) as u8,
        (x / 0x100 % 0x100) as u8,
        (x % 0x100) as u8,
    ]
}

/// The big-endian bytes of a `u64`.
pub open spec fn be_u64(x: u64) -> Seq<u8> {
    be_u32((x / 0x100000000) as u32) + be_u32((x % 0x100000000) as u32)
}

/// The `u16` whose big-endian bytes start at `s[i]`.
pub open spec fn u16_at(s: Seq<u8>, i: int) -> u16 {
    (s[i] as int * 0x100 + s[i + 1] as int) as u16
}

/// The `u32` whose big-endian bytes start at `s[i]`.
pub open spec fn u32_at(s: Seq<u8>, i: int) -> u32 {
    (s[i] as int * 0x1000000 + s[i + 1] as int * 0x10000 + s[i + 2] as int * 0x100
        + s[i + 3] as int) as u32
}

/// The `u64` whose big-endian bytes start at `s[i]`.
pub open spec fn u64_at(s: Seq<u8>, i: int) -> u64 {
    (u32_at(s, i) as int * 0x100000000 + u32_at(s, i + 4) as int) as u64
}

pub proof fn lemma_be_u16(x: u16, rest: Seq<u8>)
    ensures
        (be_u16(x) + rest).len() == rest.len() + 2,
        u16_at(be_u16(x) + rest, 0) == x,
        (be_u16(x) + rest).skip(2) == rest,
{
    assert((be_u16(x) + rest).skip(2) =~= rest);
}

pub proof fn lemma_be_u32(x: u32, rest: Seq<u8>)
    ensures
        (be_u32(x) + rest).len() == rest.len() + 4,
        u32_at(be_u32(x) + rest, 0) == x,
        (be_u32(x) + rest).skip(4) == rest,
{
    assert((be_u32(x) + rest).skip(4) =~= rest);
}

pub proof fn lemma_be_u64(x: u64, rest: Seq<u8>)
    ensures
        (be_u64(x) + rest).len() == rest.len() + 8,
        u64_at(be_u64(x) + rest, 0) == x,
        (be_u64(x) + rest).skip(8) == rest,
{
    let s = be_u64(x) + rest;
    assert(s.skip(8) =~= rest);
    assert(s.skip(4) =~= be_u32((x % 0x100000000) as u32) + rest);
    lemma_be_u32((x / 0x100000000) as u32, s.skip(4));
    assert(s =~= be_u32((x / 0x100000000) as u32) + s.skip(4));
    lemma_be_u32((x % 0x100000000) as u32, rest);
    assert(u32_at(s, 4) == u32_at(s.skip(4), 0));
}

// ---------------------------------------------------------------------------
// Reading.

/// Reading buffer: a source of bytes that is consumed from the front.
pub trait Buf<'de>: View<V = Seq<u8>> + Sized {
    /// Copies as many bytes as fit into `dst` and consumes them; returns how many.
    fn read_to_slice(&mut self, dst: &mut [u8]) -> (n: usize)
        ensures
            n as int == (if old(dst)@.len() <= old(self)@.len() {
                old(dst)@.len() as int
            } else {
                old(self)@.len() as int
            }),
            final(dst)@ == old(self)@.take(n as int) + old(dst)@.skip(n as int),
            final(self)@ == old(self)@.skip(n as int),
    ;

    /// Consumes and returns the next `len` bytes, if there are that many.
    fn read_slice(&mut self, len: usize) -> (r: Option<&'de [u8]>)
        ensures
            match r {
                Some(s) => len <= old(self)@.len() && s@ == old(self)@.take(len as int)
                    && final(self)@ == old(self)@.skip(len as int),
                None => len > old(self)@.len() && final(self)@ == old(self)@,
            },
    ;
}

impl<'de> Buf<'de> for &'de [u8] {
    fn read_to_slice(&mut self, dst: &mut [u8]) -> (n: usize) {
        let src: &'de [u8] = *self;
        let n: usize = if dst.len() <= src.len() {
            dst.len()
        } else {
            src.len()
        };
        let ghost d0 = dst@;
        let mut i: usize = 0;
        while i < n
            invariant
                n <= src@.len(),
                n <= dst@.len(),
                i <= n,
                dst@.len() == d0.len(),
                forall|j: int| 0 <= j < i ==> dst@[j] == src@[j],
                forall|j: int| i <= j < dst@.len() ==> dst@[j] == d0[j],
            decreases n - i,
        {
            dst[i] = src[i];
            i = i + 1;
        }
        let (_, rem) = src.split_at(n);
        *self = rem;
        assert(dst@ =~= src@.take(n as int) + d0.skip(n as int));
        n
    }

    fn read_slice(&mut self, len: usize) -> (r: Option<&'de [u8]>) {
        let src: &'de [u8] = *self;
        if src.len() >= len {
            let (chunk, rem) = src.split_at(len);
            *self = rem;
            Some(chunk)
        } else {
            None
        }
    }
}

/// Reading buffer, as exposed to users.
pub trait SealedBuf<'de>: Buf<'de> {
}

impl<'de> SealedBuf<'de> for &'de [u8] {
}

/// What a read of a value decoded by `spec` from the bytes `s0` leaves: `r` agrees
/// with `spec`, and `s1` is what follows the bytes it took.
pub open spec fn read_post<V>(s0: Seq<u8>, s1: Seq<u8>, spec: Result<(V, int), Error>, r: Result<V, Error>) -> bool {
    &&& s1.len() <= s0.len()
    &&& s1 =~= s0.skip(s0.len() - s1.len())
    &&& match r {
        Ok(v) => spec == Ok::<(V, int), Error>((v, s0.len() - s1.len())),
        Err(e) => spec == Err::<(V, int), Error>(e),
    }
}

// ---------------------------------------------------------------------------
// Writing.

/// A region reserved in a writing buffer, to be filled in later.
#[derive(Debug)]
pub struct VecChunk {
    idx: usize,
    len: usize,
}

impl VecChunk {
    /// Where the region starts among the bytes written so far.
    pub closed spec fn start(self) -> int {
        self.idx as int
    }

    /// How many bytes the region holds.
    pub closed spec fn size(self) -> int {
        self.len as int
    }
}

/// Writing buffer: a sink that bytes are appended to, possibly with a bounded room.
pub trait BufMut: Sized {
    /// The bytes written so far.
    spec fn written(&self) -> Seq<u8>;

    /// Whether the buffer has a bounded room.
    spec fn bounded(&self) -> bool;

    /// How many more bytes fit, when the buffer is bounded.
    spec fn room(&self) -> int;

    proof fn lemma_room_nonneg(&self)
        ensures
            self.room() >= 0,
    ;

    /// Appends as many bytes of `src` as fit; returns how many.
    fn write_from_slice(&mut self, src: &[u8]) -> (n: usize)
        ensures
            n as int == (if !old(self).bounded() || src@.len() <= old(self).room() {
                src@.len() as int
            } else {
                old(self).room()
            }),
            final(self).written() == old(self).written() + src@.take(n as int),
            final(self).bounded() == old(self).bounded(),
            old(self).bounded() ==> final(self).room() == old(self).room() - n,
    ;

    /// Appends all of `bytes` if they fit, and nothing otherwise.
    fn write_bytes(&mut self, bytes: &[u8]) -> (ok: bool)
        ensures
            ok == (!old(self).bounded() || bytes@.len() <= old(self).room()),
            ok ==> final(self).written() == old(self).written() + bytes@,
            !ok ==> final(self).written() == old(self).written(),
            final(self).bounded() == old(self).bounded(),
            old(self).bounded() && ok ==> final(self).room() == old(self).room() - bytes@.len(),
            old(self).bounded() && !ok ==> final(self).room() == old(self).room(),
    ;

    /// Reserves `len` bytes to be filled in later by `write_chunk`; a buffer
    /// without a bound reserves zeros.
    fn reserve_chunk(&mut self, len: usize) -> (r: Option<VecChunk>)
        ensures
            r is Some == (!old(self).bounded() || len <= old(self).room()),
            r is Some && !old(self).bounded() ==> final(self).written() == old(self).written()
                + Seq::new(len as nat, |i: int| 0u8),
            r matches Some(c) ==> {
                &&& c.start() == old(self).written().len()
                &&& c.size() == len
                &&& final(self).written().len() == old(self).written().len() + len
                &&& final(self).written().take(old(self).written().len() as int)
                    == old(self).written()
            },
            r is None ==> final(self).written() == old(self).written(),
            final(self).bounded() == old(self).bounded(),
            old(self).bounded() && r is Some ==> final(self).room() == old(self).room() - len,
            old(self).bounded() && r is None ==> final(self).room() == old(self).room(),
    ;

    /// Fills the reserved region `chunk` with `bytes`, from its start.
    fn write_chunk(&mut self, chunk: VecChunk, bytes: &[u8]) -> (r: Result<(), Error>)
        ensures
            r == chunk_result(old(self).written().len() as int, chunk, bytes@.len() as int),
            r is Ok && bytes@.len() > 0 ==> final(self).written() == old(self).written().take(
                chunk.start(),
            ) + bytes@ + old(self).written().skip(chunk.start() + bytes@.len()),
            r is Err || bytes@.len() == 0 ==> final(self).written() == old(self).written(),
            final(self).bounded() == old(self).bounded(),
            final(self).room() == old(self).room(),
    ;
}

/// Writing buffer, as exposed to users.
pub trait SealedBufMut: BufMut {
}

/// `w` with the bytes from `i` on replaced by `b`.
pub open spec fn splice(w: Seq<u8>, i: int, b: Seq<u8>) -> Seq<u8> {
    w.take(i) + b + w.skip(i + b.len())
}

/// The outcome of filling `c` with `n` bytes, when `len` bytes were written so far.
pub open spec fn chunk_result(len: int, c: VecChunk, n: int) -> Result<(), Error> {
    if c.size() == 0 {
        if n == 0 { Ok(()) } else { Err(Error::UnexpectedEOF) }
    } else if c.start() + c.size() <= len {
        if n <= c.size() { Ok(()) } else { Err(Error::UnexpectedEOF) }
    } else {
        Err(Error::IndexOfBounds)
    }
}

fn fill_region(v: &mut Vec<u8>, idx: usize, bytes: &[u8])
    requires
        idx + bytes@.len() <= old(v)@.len(),
    ensures
        final(v)@ == splice(old(v)@, idx as int, bytes@),
{
    let ghost v0 = v@;
    let mut i: usize = 0;
    while i < bytes.len()
        invariant
            idx + bytes@.len() <= v0.len(),
            v@.len() == v0.len(),
            v.len() == v0.len(),
            i <= bytes@.len(),
            forall|j: int| 0 <= j < idx ==> v@[j] == v0[j],
            forall|j: int| idx <= j < idx + i ==> v@[j] == bytes@[j - idx],
            forall|j: int| idx + i <= j < v0.len() ==> v@[j] == v0[j],
        decreases bytes@.len() - i,
    {
        v[idx + i] = bytes[i];
        i = i + 1;
    }
    assert(v@ =~= splice(v0, idx as int, bytes@));
}

impl BufMut for Vec<u8> {
    open spec fn written(&self) -> Seq<u8> {
        self@
    }

    open spec fn bounded(&self) -> bool {
        false
    }

    open spec fn room(&self) -> int {
        0
    }

    proof fn lemma_room_nonneg(&self) {
    }

    fn write_from_slice(&mut self, src: &[u8]) -> (n: usize) {
        self.extend_from_slice(src);
        assert(self@ =~= old(self)@ + src@.take(src@.len() as int));
        src.len()
    }

    fn write_bytes(&mut self, bytes: &[u8]) -> (ok: bool) {
        self.extend_from_slice(bytes);
        assert(self@ =~= old(self)@ + bytes@);
        true
    }

    /// The reserved bytes are zeros.
    fn reserve_chunk(&mut self, len: usize) -> (r: Option<VecChunk>)
        ensures
            final(self)@ == old(self)@ + Seq::new(len as nat, |i: int| 0u8),
    {
        let idx = self.len();
        let mut i: usize = 0;
        while i < len
            invariant
                idx == old(self)@.len(),
                i <= len,
                self@ == old(self)@ + Seq::new(i as nat, |j: int| 0u8),
            decreases len - i,
        {
            self.push(0u8);
            assert(self@ =~= old(self)@ + Seq::new((i + 1) as nat, |j: int| 0u8));
            i = i + 1;
        }
        assert(self@.take(idx as int) =~= old(self)@);
        Some(VecChunk { idx, len })
    }

    fn write_chunk(&mut self, chunk: VecChunk, bytes: &[u8]) -> (r: Result<(), Error>) {
        if chunk.len == 0 {
            if bytes.len() == 0 {
                Ok(())
            } else {
                Err(Error::UnexpectedEOF)
            }
        } else if chunk.idx <= self.len() && chunk.len <= self.len() - chunk.idx {
            if bytes.len() <= chunk.len {
                fill_region(self, chunk.idx, bytes);
                Ok(())
            } else {
                Err(Error::UnexpectedEOF)
            }
        } else {
            Err(Error::IndexOfBounds)
        }
    }
}

impl SealedBufMut for Vec<u8> {
}

/// A writing buffer of fixed size: bytes are written over its contents from the
/// front, and writing fails once it is full.
#[derive(Debug)]
pub struct FixedBuf {
    data: Vec<u8>,
    pos: usize,
}

impl FixedBuf {
    #[verifier::type_invariant]
    closed spec fn inv(self) -> bool {
        self.pos <= self.data@.len()
    }

    /// The whole backing storage.
    pub closed spec fn storage(self) -> Seq<u8> {
        self.data@
    }

    /// How many bytes of the storage were written, from its start.
    pub closed spec fn spec_position(self) -> int {
        self.pos as int
    }

    /// The written bytes are the first bytes of the storage.
    pub proof fn lemma_storage(self)
        requires
            self.spec_position() <= self.storage().len(),
        ensures
            self.written() == self.storage().take(self.written().len() as int),
            self.written().len() == self.spec_position(),
    {
    }

    /// Writes will go over `data`, from its start.
    pub fn new(data: Vec<u8>) -> (r: FixedBuf)
        ensures
            r.written() == Seq::<u8>::empty(),
            r.spec_position() == 0,
            r.storage() == data@,
            r.room() == data@.len(),
            r.bounded(),
    {
        FixedBuf { data, pos: 0 }
    }

    /// How many bytes were written.
    pub fn position(&self) -> (r: usize)
        ensures
            r == self.written().len(),
            r == self.spec_position(),
            r <= self.storage().len(),
    {
        proof {
            use_type_invariant(self);
        }
        self.pos
    }

    /// Gives the backing storage back.
    pub fn into_inner(self) -> (r: Vec<u8>)
        ensures
            r@ == self.storage(),
    {
        self.data
    }
}

impl FixedBuf {
    /// Moves the storage and position out, leaving an empty buffer behind.
    fn take_parts(&mut self) -> (r: (Vec<u8>, usize))
        ensures
            r.0@ == old(self).data@,
            r.1 == old(self).pos,
            r.1 <= r.0@.len(),
    {
        proof {
            use_type_invariant(&*self);
        }
        let mut tmp = FixedBuf { data: Vec::new(), pos: 0 };
        core::mem::swap(self, &mut tmp);
        let FixedBuf { data, pos } = tmp;
        (data, pos)
    }
}

impl BufMut for FixedBuf {
    open spec fn written(&self) -> Seq<u8> {
        self.storage().take(self.spec_position())
    }

    open spec fn bounded(&self) -> bool {
        true
    }

    closed spec fn room(&self) -> int {
        if self.pos <= self.data@.len() {
            self.data@.len() - self.pos
        } else {
            0
        }
    }

    proof fn lemma_room_nonneg(&self) {
    }

    fn write_from_slice(&mut self, src: &[u8]) -> (n: usize)
        ensures
            final(self).storage().len() == old(self).storage().len(),
            final(self).spec_position() <= final(self).storage().len(),
            final(self).storage().skip(final(self).spec_position()) == old(self).storage().skip(
                final(self).spec_position(),
            ),
    {
        let (mut data, pos) = self.take_parts();
        let room = data.len() - pos;
        let n: usize = if src.len() <= room {
            src.len()
        } else {
            room
        };
        let (head, _) = src.split_at(n);
        fill_region(&mut data, pos, head);
        assert(data@.take(pos + n) =~= old(self).data@.take(pos as int) + src@.take(n as int));
        *self = FixedBuf { data, pos: pos + n };
        n
    }

    fn write_bytes(&mut self, bytes: &[u8]) -> (ok: bool)
        ensures
            final(self).storage().len() == old(self).storage().len(),
            final(self).spec_position() <= final(self).storage().len(),
            final(self).storage().skip(final(self).spec_position()) == old(self).storage().skip(
                final(self).spec_position(),
            ),
    {
        let (mut data, pos) = self.take_parts();
        if bytes.len() <= data.len() - pos {
            fill_region(&mut data, pos, bytes);
            assert(data@.take(pos + bytes@.len()) =~= old(self).data@.take(pos as int) + bytes@);
            *self = FixedBuf { data, pos: pos + bytes.len() };
            true
        } else {
            *self = FixedBuf { data, pos };
            false
        }
    }

    fn reserve_chunk(&mut self, len: usize) -> (r: Option<VecChunk>)
        ensures
            final(self).storage().len() == old(self).storage().len(),
            final(self).spec_position() <= final(self).storage().len(),
            final(self).storage().skip(final(self).spec_position()) == old(self).storage().skip(
                final(self).spec_position(),
            ),
    {
        let (data, pos) = self.take_parts();
        if len <= data.len() - pos {
            assert(data@.take(pos + len).take(pos as int) =~= data@.take(pos as int));
            *self = FixedBuf { data, pos: pos + len };
            Some(VecChunk { idx: pos, len })
        } else {
            *self = FixedBuf { data, pos };
            None
        }
    }

    fn write_chunk(&mut self, chunk: VecChunk, bytes: &[u8]) -> (r: Result<(), Error>)
        ensures
            final(self).storage().len() == old(self).storage().len(),
            final(self).spec_position() <= final(self).storage().len(),
            final(self).storage().skip(final(self).spec_position()) == old(self).storage().skip(
                final(self).spec_position(),
            ),
    {
        let (mut data, pos) = self.take_parts();
        let r = if chunk.len == 0 {
            if bytes.len() == 0 {
                Ok(())
            } else {
                Err(Error::UnexpectedEOF)
            }
        } else if chunk.idx <= pos && chunk.len <= pos - chunk.idx {
            if bytes.len() <= chunk.len {
                let ghost d0 = data@;
                fill_region(&mut data, chunk.idx, bytes);
                assert(data@.take(pos as int) =~= d0.take(pos as int).take(chunk.idx as int)
                    + bytes@ + d0.take(pos as int).skip(chunk.idx + bytes@.len()));
                Ok(())
            } else {
                Err(Error::UnexpectedEOF)
            }
        } else {
            Err(Error::IndexOfBounds)
        };
        *self = FixedBuf { data, pos };
        r
    }
}

impl SealedBufMut for FixedBuf {
}

// ---------------------------------------------------------------------------
// Decoding and encoding.

/// A value that can be read from the front of a reading buffer.
pub trait Decode<'de>: Sized + View {
    /// What decoding the bytes `s` gives: the value and how many bytes it takes, or the error.
    spec fn spec_decode(s: Seq<u8>) -> Result<(Self::V, int), Error>;

    /// What decoding needs of the bytes `s` to run to its end.
    spec fn decode_requires(s: Seq<u8>) -> bool;

    #[verifier::spinoff_prover]
    fn decode<B: Buf<'de>>(buf: &mut B) -> (r: Result<Self, Error>)
        requires
            Self::decode_requires(old(buf)@),
        ensures
            final(buf)@.len() <= old(buf)@.len(),
            final(buf)@ =~= old(buf)@.skip(old(buf)@.len() - final(buf)@.len()),
            match r {
                Ok(v) => Self::spec_decode(old(buf)@) == Ok::<(Self::V, int), Error>(
                    (v@, old(buf)@.len() - final(buf)@.len()),
                ),
                Err(e) => Self::spec_decode(old(buf)@) == Err::<(Self::V, int), Error>(e),
            },
    ;
}

/// A value that can be written to a writing buffer.
pub trait Encode: View {
    /// The bytes that encode `v`.
    spec fn spec_encode(v: Self::V) -> Seq<u8>;

    /// Whether `v` can be encoded at all; when not, encoding fails with
    /// `Error::OffsetOutOfBounds` before anything is written.
    spec fn encodable(v: Self::V) -> bool;

    /// What encoding needs of `v` to run to its end.
    spec fn encode_requires(v: Self::V) -> bool;

    #[verifier::spinoff_prover]
    fn encode<B: BufMut>(&self, buf: &mut B) -> (r: Result<(), Error>)
        requires
            Self::encode_requires(self@),
        ensures
            encode_post(*old(buf), *final(buf), Self::encodable(self@), Self::spec_encode(self@), r),
    ;
}

/// A value whose encoding decodes back to it.
pub trait Codec<'de>: Decode<'de> + Encode {
    /// Whether `v` is a value that decoding can give (non-zero indices and the like).
    spec fn wf(v: <Self as View>::V) -> bool;

    /// Decoding the encoding of a well-formed value gives the value back, and takes
    /// exactly its bytes, whatever follows them.
    proof fn lemma_codec(v: <Self as View>::V, rest: Seq<u8>)
        requires
            Self::wf(v),
            <Self as Encode>::encodable(v),
        ensures
            Self::spec_decode(<Self as Encode>::spec_encode(v) + rest) == Ok::<(<Self as View>::V, int), Error>(
                (v, <Self as Encode>::spec_encode(v).len() as int),
            ),
    ;
}

/// What an encoding of `bytes` into `b0` leaves: all of them appended when they
/// fit, and otherwise `Error::UnexpectedEOF` with a prefix of them appended;
/// when the value is not encodable, `Error::OffsetOutOfBounds` with nothing written.
pub open spec fn encode_post<B: BufMut>(b0: B, b1: B, valid: bool, bytes: Seq<u8>, r: Result<(), Error>) -> bool {
    if !valid {
        &&& r == Err::<(), Error>(Error::OffsetOutOfBounds)
        &&& b1.written() == b0.written()
        &&& b1.bounded() == b0.bounded()
        &&& b1.room() == b0.room()
    } else if !b0.bounded() || bytes.len() <= b0.room() {
        &&& r is Ok
        &&& b1.written() == b0.written() + bytes
        &&& b1.bounded() == b0.bounded()
        &&& (b0.bounded() ==> b1.room() == b0.room() - bytes.len())
    } else {
        &&& r == Err::<(), Error>(Error::UnexpectedEOF)
        &&& b0.written().is_prefix_of(b1.written())
        &&& b1.written().is_prefix_of(b0.written() + bytes)
        &&& b1.bounded()
    }
}

/// `b1` is `b0` with `acc` appended, and `acc` fitted.
pub open spec fn progress<B: BufMut>(b0: B, b1: B, acc: Seq<u8>) -> bool {
    &&& b1.written() == b0.written() + acc
    &&& b1.bounded() == b0.bounded()
    &&& (b0.bounded() ==> b1.room() == b0.room() - acc.len() && acc.len() <= b0.room())
}

proof fn lemma_prefix_parts(w: Seq<u8>, acc: Seq<u8>, piece: Seq<u8>, total: Seq<u8>, k: int)
    requires
        (acc + piece).is_prefix_of(total),
        0 <= k <= piece.len(),
    ensures
        (w + acc + piece.take(k)).is_prefix_of(w + total),
        w.is_prefix_of(w + acc + piece.take(k)),
{
    let n: int = acc.len() + piece.len() as int;
    assert forall|i: int| 0 <= i < n implies #[trigger] (acc + piece)[i] == total[i] by {
        assert(total.subrange(0, n)[i] == total[i]);
    }
    let m: int = w.len() + acc.len() + k;
    assert forall|i: int| 0 <= i < m implies #[trigger] (w + acc + piece.take(k))[i] == (w
        + total)[i] by {
        if i >= w.len() {
            assert((acc + piece)[i - w.len()] == total[i - w.len()]);
        }
    }
    assert((w + acc + piece.take(k)) =~= (w + total).subrange(0, m));
    assert(w =~= (w + acc + piece.take(k)).subrange(0, w.len() as int));
}

pub proof fn lemma_progress_start<B: BufMut>(b: B)
    ensures
        progress(b, b, Seq::empty()),
{
    b.lemma_room_nonneg();
    assert(b.written() + Seq::empty() =~= b.written());
}

/// Appends as much of `src`, a piece of `total` that follows `acc`, as fits.
pub fn put_slice<B: BufMut>(
    buf: &mut B,
    src: &[u8],
    Ghost(b0): Ghost<B>,
    Ghost(acc): Ghost<Seq<u8>>,
    Ghost(total): Ghost<Seq<u8>>,
) -> (r: Result<(), Error>)
    requires
        progress(b0, *old(buf), acc),
        (acc + src@).is_prefix_of(total),
    ensures
        r is Ok ==> progress(b0, *final(buf), acc + src@),
        r is Err ==> encode_post(b0, *final(buf), true, total, r),
{
    proof {
        b0.lemma_room_nonneg();
    }
    let n = buf.write_from_slice(src);
    if n == src.len() {
        assert(src@.take(n as int) =~= src@);
        assert(buf.written() =~= b0.written() + (acc + src@));
        Ok(())
    } else {
        proof {
            lemma_prefix_parts(b0.written(), acc, src@, total, n as int);
        }
        Err(Error::UnexpectedEOF)
    }
}

/// Encodes `x`, a piece of `total` that follows `acc`.
pub fn put<T: Encode, B: BufMut>(
    buf: &mut B,
    x: &T,
    Ghost(b0): Ghost<B>,
    Ghost(acc): Ghost<Seq<u8>>,
    Ghost(total): Ghost<Seq<u8>>,
) -> (r: Result<(), Error>)
    requires
        progress(b0, *old(buf), acc),
        (acc + T::spec_encode(x@)).is_prefix_of(total),
        T::encodable(x@),
        T::encode_requires(x@),
    ensures
        r is Ok ==> progress(b0, *final(buf), acc + T::spec_encode(x@)),
        r is Err ==> encode_post(b0, *final(buf), true, total, r),
{
    proof {
        b0.lemma_room_nonneg();
    }
    let ghost b1 = *buf;
    match x.encode(buf) {
        Ok(()) => {
            assert(buf.written() =~= b0.written() + (acc + T::spec_encode(x@)));
            Ok(())
        },
        Err(e) => {
            proof {
                let p = T::spec_encode(x@);
                let k = buf.written().len() - b1.written().len();
                assert(buf.written() =~= b0.written() + acc + p.take(k)) by {
                    assert forall|i: int| 0 <= i < buf.written().len() implies #[trigger] buf.written()[i]
                        == (b0.written() + acc + p.take(k))[i] by {
                        assert(buf.written().subrange(0, buf.written().len() as int)[i]
                            == buf.written()[i]);
                        assert((b1.written() + p).subrange(0, buf.written().len() as int)[i]
                            == (b1.written() + p)[i]);
                    }
                }
                lemma_prefix_parts(b0.written(), acc, p, total, k);
            }
            Err(e)
        },
    }
}

// ---------------------------------------------------------------------------
// Integers, big-endian.

impl View for NonZeroU16 {
    type V = NonZeroU16;

    open spec fn view(&self) -> NonZeroU16 {
        *self
    }
}

/// Reads `n` bytes, or fails with `Error::UnexpectedEOF` consuming nothing.
fn take_bytes<'de, B: Buf<'de>>(buf: &mut B, n: usize) -> (r: Result<&'de [u8], Error>)
    ensures
        final(buf)@.len() <= old(buf)@.len(),
        final(buf)@ =~= old(buf)@.skip(old(buf)@.len() - final(buf)@.len()),
        match r {
            Ok(b) => n <= old(buf)@.len() && b@ == old(buf)@.take(n as int) && final(buf)@.len()
                == old(buf)@.len() - n,
            Err(e) => n > old(buf)@.len() && e == Error::UnexpectedEOF && final(buf)@.len()
                == old(buf)@.len(),
        },
{
    let ghost s0 = old(buf)@;
    match buf.read_slice(n) {
        Some(b) => Ok(b),
        None => {
            assert(s0.skip(0) =~= s0);
            Err(Error::UnexpectedEOF)
        },
    }
}

/// Writes `bytes` whole, or fails with `Error::UnexpectedEOF` writing nothing.
fn give_bytes<B: BufMut>(buf: &mut B, bytes: &[u8]) -> (r: Result<(), Error>)
    ensures
        encode_post(*old(buf), *final(buf), true, bytes@, r),
{
    proof {
        old(buf).lemma_room_nonneg();
    }
    if buf.write_bytes(bytes) {
        Ok(())
    } else {
        assert(old(buf).written() =~= old(buf).written().subrange(
            0,
            old(buf).written().len() as int,
        ));
        assert(old(buf).written() =~= (old(buf).written() + bytes@).subrange(
            0,
            old(buf).written().len() as int,
        ));
        Err(Error::UnexpectedEOF)
    }
}

impl<'de> Decode<'de> for u8 {
    open spec fn spec_decode(s: Seq<u8>) -> Result<(u8, int), Error> {
        if s.len() < 1 { Err(Error::UnexpectedEOF) } else { Ok((s[0], 1)) }
    }

    open spec fn decode_requires(s: Seq<u8>) -> bool {
        true
    }

    #[verifier::spinoff_prover]
    fn decode<B: Buf<'de>>(buf: &mut B) -> (r: Result<u8, Error>) {
        let b = take_bytes(buf, 1)?;
        Ok(b[0])
    }
}

impl Encode for u8 {
    open spec fn spec_encode(v: u8) -> Seq<u8> {
        seq![v]
    }

    open spec fn encodable(v: u8) -> bool {
        true
    }

    open spec fn encode_requires(v: u8) -> bool {
        true
    }

    #[verifier::spinoff_prover]
    fn encode<B: BufMut>(&self, buf: &mut B) -> (r: Result<(), Error>) {
        let bytes = [*self];
        assert(bytes@ =~= seq![*self]);
        give_bytes(buf, &bytes)
    }
}

impl<'de> Codec<'de> for u8 {
    open spec fn wf(v: u8) -> bool {
        true
    }

    proof fn lemma_codec(v: u8, rest: Seq<u8>) {
    }
}

impl<'de> Decode<'de> for i8 {
    open spec fn spec_decode(s: Seq<u8>) -> Result<(i8, int), Error> {
        if s.len() < 1 { Err(Error::UnexpectedEOF) } else { Ok((s[0] as i8, 1)) }
    }

    open spec fn decode_requires(s: Seq<u8>) -> bool {
        true
    }

    #[verifier::spinoff_prover]
    fn decode<B: Buf<'de>>(buf: &mut B) -> (r: Result<i8, Error>) {
        let b = take_bytes(buf, 1)?;
        Ok(b[0] as i8)
    }
}

impl Encode for i8 {
    open spec fn spec_encode(v: i8) -> Seq<u8> {
        seq![v as u8]
    }

    open spec fn encodable(v: i8) -> bool {
        true
    }

    open spec fn encode_requires(v: i8) -> bool {
        true
    }

    #[verifier::spinoff_prover]
    fn encode<B: BufMut>(&self, buf: &mut B) -> (r: Result<(), Error>) {
        let bytes = [*self as u8];
        assert(bytes@ =~= seq![*self as u8]);
        give_bytes(buf, &bytes)
    }
}

impl<'de> Codec<'de> for i8 {
    open spec fn wf(v: i8) -> bool {
        true
    }

    proof fn lemma_codec(v: i8, rest: Seq<u8>) {
        assert((v as u8) as i8 == v) by (bit_vector);
    }
}

impl<'de> Decode<'de> for u16 {
    open spec fn spec_decode(s: Seq<u8>) -> Result<(u16, int), Error> {
        if s.len() < 2 { Err(Error::UnexpectedEOF) } else { Ok((u16_at(s, 0), 2)) }
    }

    open spec fn decode_requires(s: Seq<u8>) -> bool {
        true
    }

    #[verifier::spinoff_prover]
    fn decode<B: Buf<'de>>(buf: &mut B) -> (r: Result<u16, Error>) {
        let ghost s0 = old(buf)@;
        match take_bytes(buf, 2) {
            Ok(b) => {
                assert(b@[0] == s0[0] && b@[1] == s0[1]);
                let v: u16 = (b[0] as u16) * 0x100 + (b[1] as u16);
                assert(v == u16_at(s0, 0));
                assert(Self::spec_decode(s0) == Ok::<(u16, int), Error>((v, 2)));
                Ok(v)
            },
            Err(e) => {
                assert(Self::spec_decode(s0) == Err::<(u16, int), Error>(e));
                Err(e)
            },
        }
    }
}

impl Encode for u16 {
    open spec fn spec_encode(v: u16) -> Seq<u8> {
        be_u16(v)
    }

    open spec fn encodable(v: u16) -> bool {
        true
    }

    open spec fn encode_requires(v: u16) -> bool {
        true
    }

    #[verifier::spinoff_prover]
    fn encode<B: BufMut>(&self, buf: &mut B) -> (r: Result<(), Error>) {
        let x = *self;
        let bytes = [(x / 0x100) as u8, (x % 0x100) as u8];
        assert(bytes@ =~= be_u16(x));
        let r = give_bytes(buf, &bytes);
        assert(self@ == x && Self::spec_encode(self@) == bytes@ && Self::encodable(self@));
        r
    }
}

impl<'de> Codec<'de> for u16 {
    open spec fn wf(v: u16) -> bool {
        true
    }

    proof fn lemma_codec(v: u16, rest: Seq<u8>) {
        lemma_be_u16(v, rest);
    }
}

impl<'de> Decode<'de> for i16 {
    open spec fn spec_decode(s: Seq<u8>) -> Result<(i16, int), Error> {
        if s.len() < 2 { Err(Error::UnexpectedEOF) } else { Ok((u16_at(s, 0) as i16, 2)) }
    }

    open spec fn decode_requires(s: Seq<u8>) -> bool {
        true
    }

    #[verifier::spinoff_prover]
    fn decode<B: Buf<'de>>(buf: &mut B) -> (r: Result<i16, Error>) {
        let x = u16::decode(buf)?;
        Ok(x as i16)
    }
}

impl Encode for i16 {
    open spec fn spec_encode(v: i16) -> Seq<u8> {
        be_u16(v as u16)
    }

    open spec fn encodable(v: i16) -> bool {
        true
    }

    open spec fn encode_requires(v: i16) -> bool {
        true
    }

    #[verifier::spinoff_prover]
    fn encode<B: BufMut>(&self, buf: &mut B) -> (r: Result<(), Error>) {
        (*self as u16).encode(buf)
    }
}

impl<'de> Codec<'de> for i16 {
    open spec fn wf(v: i16) -> bool {
        true
    }

    proof fn lemma_codec(v: i16, rest: Seq<u8>) {
        lemma_be_u16(v as u16, rest);
        assert((v as u16) as i16 == v) by (bit_vector);
    }
}

impl<'de> Decode<'de> for u32 {
    open spec fn spec_decode(s: Seq<u8>) -> Result<(u32, int), Error> {
        if s.len() < 4 { Err(Error::UnexpectedEOF) } else { Ok((u32_at(s, 0), 4)) }
    }

    open spec fn decode_requires(s: Seq<u8>) -> bool {
        true
    }

    #[verifier::spinoff_prover]
    fn decode<B: Buf<'de>>(buf: &mut B) -> (r: Result<u32, Error>) {
        let ghost s0 = old(buf)@;
        let b = take_bytes(buf, 4)?;
        assert(b@[0] == s0[0] && b@[1] == s0[1] && b@[2] == s0[2] && b@[3] == s0[3]);
        Ok((b[0] as u32) * 0x1000000 + (b[1] as u32) * 0x10000 + (b[2] as u32) * 0x100 + (
        b[3] as u32))
    }
}

impl Encode for u32 {
    open spec fn spec_encode(v: u32) -> Seq<u8> {
        be_u32(v)
    }

    open spec fn encodable(v: u32) -> bool {
        true
    }

    open spec fn encode_requires(v: u32) -> bool {
        true
    }

    #[verifier::spinoff_prover]
    fn encode<B: BufMut>(&self, buf: &mut B) -> (r: Result<(), Error>) {
        let x = *self;
        let bytes = [
            (x / 0x1000000) as u8,
            (x / 0x10000 % 0x100) as u8,
            (x / 0x100 % 0x100) as u8,
            (x % 0x100) as u8,
        ];
        assert(bytes@ =~= be_u32(x));
        give_bytes(buf, &bytes)
    }
}

impl<'de> Codec<'de> for u32 {
    open spec fn wf(v: u32) -> bool {
        true
    }

    proof fn lemma_codec(v: u32, rest: Seq<u8>) {
        lemma_be_u32(v, rest);
    }
}

impl<'de> Decode<'de> for i32 {
    open spec fn spec_decode(s: Seq<u8>) -> Result<(i32, int), Error> {
        if s.len() < 4 { Err(Error::UnexpectedEOF) } else { Ok((u32_at(s, 0) as i32, 4)) }
    }

    open spec fn decode_requires(s: Seq<u8>) -> bool {
        true
    }

    #[verifier::spinoff_prover]
    fn decode<B: Buf<'de>>(buf: &mut B) -> (r: Result<i32, Error>) {
        let x = u32::decode(buf)?;
        Ok(x as i32)
    }
}

impl Encode for i32 {
    open spec fn spec_encode(v: i32) -> Seq<u8> {
        be_u32(v as u32)
    }

    open spec fn encodable(v: i32) -> bool {
        true
    }

    open spec fn encode_requires(v: i32) -> bool {
        true
    }

    #[verifier::spinoff_prover]
    fn encode<B: BufMut>(&self, buf: &mut B) -> (r: Result<(), Error>) {
        (*self as u32).encode(buf)
    }
}

impl<'de> Codec<'de> for i32 {
    open spec fn wf(v: i32) -> bool {
        true
    }

    proof fn lemma_codec(v: i32, rest: Seq<u8>) {
        lemma_be_u32(v as u32, rest);
        assert((v as u32) as i32 == v) by (bit_vector);
    }
}

impl<'de> Decode<'de> for u64 {
    open spec fn spec_decode(s: Seq<u8>) -> Result<(u64, int), Error> {
        if s.len() < 8 { Err(Error::UnexpectedEOF) } else { Ok((u64_at(s, 0), 8)) }
    }

    open spec fn decode_requires(s: Seq<u8>) -> bool {
        true
    }

    #[verifier::spinoff_prover]
    fn decode<B: Buf<'de>>(buf: &mut B) -> (r: Result<u64, Error>) {
        let b = take_bytes(buf, 8)?;
        let hi: u32 = (b[0] as u32) * 0x1000000 + (b[1] as u32) * 0x10000 + (b[2] as u32) * 0x100
            + (b[3] as u32);
        let lo: u32 = (b[4] as u32) * 0x1000000 + (b[5] as u32) * 0x10000 + (b[6] as u32) * 0x100
            + (b[7] as u32);
        assert(hi == u32_at(old(buf)@, 0));
        assert(lo == u32_at(old(buf)@, 4));
        Ok((hi as u64) * 0x100000000 + (lo as u64))
    }
}

impl Encode for u64 {
    open spec fn spec_encode(v: u64) -> Seq<u8> {
        be_u64(v)
    }

    open spec fn encodable(v: u64) -> bool {
        true
    }

    open spec fn encode_requires(v: u64) -> bool {
        true
    }

    #[verifier::spinoff_prover]
    fn encode<B: BufMut>(&self, buf: &mut B) -> (r: Result<(), Error>) {
        let x = *self;
        let hi = (x / 0x100000000) as u32;
        let lo = (x % 0x100000000) as u32;
        let bytes = [
            (hi / 0x1000000) as u8,
            (hi / 0x10000 % 0x100) as u8,
            (hi / 0x100 % 0x100) as u8,
            (hi % 0x100) as u8,
            (lo / 0x1000000) as u8,
            (lo / 0x10000 % 0x100) as u8,
            (lo / 0x100 % 0x100) as u8,
            (lo % 0x100) as u8,
        ];
        assert(bytes@ =~= be_u64(x));
        give_bytes(buf, &bytes)
    }
}

impl<'de> Codec<'de> for u64 {
    open spec fn wf(v: u64) -> bool {
        true
    }

    proof fn lemma_codec(v: u64, rest: Seq<u8>) {
        lemma_be_u64(v, rest);
    }
}

impl<'de> Decode<'de> for i64 {
    open spec fn spec_decode(s: Seq<u8>) -> Result<(i64, int), Error> {
        if s.len() < 8 { Err(Error::UnexpectedEOF) } else { Ok((u64_at(s, 0) as i64, 8)) }
    }

    open spec fn decode_requires(s: Seq<u8>) -> bool {
        true
    }

    #[verifier::spinoff_prover]
    fn decode<B: Buf<'de>>(buf: &mut B) -> (r: Result<i64, Error>) {
        let x = u64::decode(buf)?;
        Ok(x as i64)
    }
}

impl Encode for i64 {
    open spec fn spec_encode(v: i64) -> Seq<u8> {
        be_u64(v as u64)
    }

    open spec fn encodable(v: i64) -> bool {
        true
    }

    open spec fn encode_requires(v: i64) -> bool {
        true
    }

    #[verifier::spinoff_prover]
    fn encode<B: BufMut>(&self, buf: &mut B) -> (r: Result<(), Error>) {
        (*self as u64).encode(buf)
    }
}

impl<'de> Codec<'de> for i64 {
    open spec fn wf(v: i64) -> bool {
        true
    }

    proof fn lemma_codec(v: i64, rest: Seq<u8>) {
        lemma_be_u64(v as u64, rest);
        assert((v as u64) as i64 == v) by (bit_vector);
    }
}

impl<'de> Decode<'de> for NonZeroU16 {
    open spec fn spec_decode(s: Seq<u8>) -> Result<(NonZeroU16, int), Error> {
        if s.len() < 2 {
            Err(Error::UnexpectedEOF)
        } else if u16_at(s, 0) == 0 {
            Err(Error::UnexpectedZero)
        } else {
            Ok((NonZeroU16::from_raw(u16_at(s, 0)), 2))
        }
    }

    open spec fn decode_requires(s: Seq<u8>) -> bool {
        true
    }

    #[verifier::spinoff_prover]
    fn decode<B: Buf<'de>>(buf: &mut B) -> (r: Result<NonZeroU16, Error>) {
        let x = u16::decode(buf)?;
        match NonZeroU16::new(x) {
            Some(n) => Ok(n),
            None => Err(Error::UnexpectedZero),
        }
    }
}

impl Encode for NonZeroU16 {
    open spec fn spec_encode(v: NonZeroU16) -> Seq<u8> {
        be_u16(v.value())
    }

    open spec fn encodable(v: NonZeroU16) -> bool {
        true
    }

    open spec fn encode_requires(v: NonZeroU16) -> bool {
        true
    }

    #[verifier::spinoff_prover]
    fn encode<B: BufMut>(&self, buf: &mut B) -> (r: Result<(), Error>) {
        self.get().encode(buf)
    }
}

impl<'de> Codec<'de> for NonZeroU16 {
    open spec fn wf(v: NonZeroU16) -> bool {
        v.value() != 0
    }

    #[verifier::spinoff_prover]
    proof fn lemma_codec(v: NonZeroU16, rest: Seq<u8>) {
        broadcast use group_nonzero;

        let s = be_u16(v.value()) + rest;
        lemma_be_u16(v.value(), rest);
        assert(u16_at(s, 0) == v.value());
        assert(NonZeroU16::from_raw(v.value()) == v);
        assert(Self::spec_encode(v) == be_u16(v.value()));
        assert(Self::wf(v));
        assert(v.value() != 0);
        assert(s.len() >= 2);
        assert(<NonZeroU16 as Decode<'de>>::spec_decode(s) == Ok::<(NonZeroU16, int), Error>((v, 2)));
    }
}

impl<'de> Decode<'de> for Option<NonZeroU16> {
    open spec fn spec_decode(s: Seq<u8>) -> Result<(Option<NonZeroU16>, int), Error> {
        if s.len() < 2 {
            Err(Error::UnexpectedEOF)
        } else if u16_at(s, 0) == 0 {
            Ok((None, 2))
        } else {
            Ok((Some(NonZeroU16::from_raw(u16_at(s, 0))), 2))
        }
    }

    open spec fn decode_requires(s: Seq<u8>) -> bool {
        true
    }

    #[verifier::spinoff_prover]
    fn decode<B: Buf<'de>>(buf: &mut B) -> (r: Result<Option<NonZeroU16>, Error>) {
        let x = u16::decode(buf)?;
        Ok(NonZeroU16::new(x))
    }
}

impl Encode for Option<NonZeroU16> {
    open spec fn spec_encode(v: Option<NonZeroU16>) -> Seq<u8> {
        match v {
            Some(n) => be_u16(n.value()),
            None => be_u16(0),
        }
    }

    open spec fn encodable(v: Option<NonZeroU16>) -> bool {
        true
    }

    open spec fn encode_requires(v: Option<NonZeroU16>) -> bool {
        true
    }

    #[verifier::spinoff_prover]
    fn encode<B: BufMut>(&self, buf: &mut B) -> (r: Result<(), Error>) {
        let x: u16 = match self {
            Some(n) => n.get(),
            None => 0,
        };
        x.encode(buf)
    }
}

impl<'de> Codec<'de> for Option<NonZeroU16> {
    open spec fn wf(v: Option<NonZeroU16>) -> bool {
        v matches Some(n) ==> n.value() != 0
    }

    proof fn lemma_codec(v: Option<NonZeroU16>, rest: Seq<u8>) {
        broadcast use group_nonzero;

        match v {
            Some(n) => lemma_be_u16(n.value(), rest),
            None => lemma_be_u16(0, rest),
        }
    }
}

} // verus!
