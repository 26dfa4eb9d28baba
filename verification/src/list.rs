use vstd::prelude::*;

use crate::util::{lemma_progress_start, progress, put, Buf, BufMut, Codec, Decode, Encode};
use crate::Error;

verus! {

/// The values of the elements of `v`.
pub open spec fn views<T: View>(v: Seq<T>) -> Seq<T::V> {
    v.map_values(|x: T| x@)
}

/// Decoding `n` values of `T`, one after another, from the front of `s`.
pub open spec fn spec_decode_seq<'de, T: Decode<'de>>(s: Seq<u8>, n: nat) -> Result<(Seq<T::V>, int), Error>
    decreases n,
{
    if n == 0 {
        Ok((Seq::empty(), 0))
    } else {
        match T::spec_decode(s) {
            Err(e) => Err(e),
            Ok((v, m)) => match spec_decode_seq::<T>(s.skip(m), (n - 1) as nat) {
                Err(e) => Err(e),
                Ok((vs, k)) => Ok((seq![v] + vs, m + k)),
            },
        }
    }
}

/// What decoding `n` values of `T` from `s` needs of the bytes.
pub open spec fn decode_seq_requires<'de, T: Decode<'de>>(s: Seq<u8>, n: nat) -> bool
    decreases n,
{
    n == 0 || (T::decode_requires(s) && match T::spec_decode(s) {
        Err(_) => true,
        Ok((_, m)) => decode_seq_requires::<T>(s.skip(m), (n - 1) as nat),
    })
}

/// The encodings of `vs`, one after another.
pub open spec fn spec_encode_seq<T: Encode>(vs: Seq<T::V>) -> Seq<u8>
    decreases vs.len(),
{
    if vs.len() == 0 {
        Seq::empty()
    } else {
        spec_encode_seq::<T>(vs.drop_last()) + T::spec_encode(vs.last())
    }
}

/// Every one of `vs` can be encoded.
pub open spec fn all_encodable<T: Encode>(vs: Seq<T::V>) -> bool {
    forall|i: int| 0 <= i < vs.len() ==> T::encodable(#[trigger] vs[i]) && T::encode_requires(
        vs[i],
    )
}

/// Every one of `vs` is well-formed.
pub open spec fn all_wf<'de, T: Codec<'de>>(vs: Seq<<T as View>::V>) -> bool {
    forall|i: int| 0 <= i < vs.len() ==> T::wf(#[trigger] vs[i])
}

pub proof fn lemma_encode_seq_concat<T: Encode>(a: Seq<T::V>, b: Seq<T::V>)
    ensures
        spec_encode_seq::<T>(a + b) == spec_encode_seq::<T>(a) + spec_encode_seq::<T>(b),
    decreases b.len(),
{
    if b.len() == 0 {
        assert(a + b =~= a);
        assert(spec_encode_seq::<T>(a) + spec_encode_seq::<T>(b) =~= spec_encode_seq::<T>(a));
    } else {
        lemma_encode_seq_concat::<T>(a, b.drop_last());
        assert((a + b).drop_last() =~= a + b.drop_last());
        assert((a + b).last() == b.last());
        assert(spec_encode_seq::<T>(a) + spec_encode_seq::<T>(b.drop_last()) + T::spec_encode(
            b.last(),
        ) =~= spec_encode_seq::<T>(a) + (spec_encode_seq::<T>(b.drop_last()) + T::spec_encode(
            b.last(),
        )));
    }
}

pub proof fn lemma_encode_seq_one<T: Encode>(v: T::V)
    ensures
        spec_encode_seq::<T>(seq![v]) == T::spec_encode(v),
{
    assert(seq![v].drop_last() =~= Seq::<T::V>::empty());
    assert(spec_encode_seq::<T>(Seq::<T::V>::empty()) == Seq::<u8>::empty());
    assert(seq![v].last() == v);
    assert(Seq::<u8>::empty() + T::spec_encode(v) =~= T::spec_encode(v));
}

/// Decoding the encodings of well-formed values gives them back.
pub proof fn lemma_codec_seq<'de, T: Codec<'de>>(vs: Seq<<T as View>::V>, rest: Seq<u8>)
    requires
        all_wf::<T>(vs),
        all_encodable::<T>(vs),
    ensures
        spec_decode_seq::<T>(spec_encode_seq::<T>(vs) + rest, vs.len()) == Ok::<
            (Seq<<T as View>::V>, int),
            Error,
        >((vs, spec_encode_seq::<T>(vs).len() as int)),
    decreases vs.len(),
{
    if vs.len() == 0 {
        assert(spec_encode_seq::<T>(vs) =~= Seq::<u8>::empty());
        assert(vs =~= Seq::<<T as View>::V>::empty());
    } else {
        let first = vs[0];
        let tail = vs.drop_first();
        assert(vs =~= seq![first] + tail);
        lemma_encode_seq_concat::<T>(seq![first], tail);
        lemma_encode_seq_one::<T>(first);
        let e = T::spec_encode(first);
        let et = spec_encode_seq::<T>(tail);
        assert(spec_encode_seq::<T>(vs) + rest =~= e + (et + rest));
        assert(T::wf(vs[0]) && T::encodable(vs[0]));
        T::lemma_codec(first, et + rest);
        assert((e + (et + rest)).skip(e.len() as int) =~= et + rest);
        assert forall|i: int| 0 <= i < tail.len() implies T::wf(#[trigger] tail[i]) && T::encodable(tail[i]) && T::encode_requires(tail[i]) by {
            assert(tail[i] == vs[i + 1]);
        }
        lemma_codec_seq::<T>(tail, rest);
    }
}

/// Reads `n` values of `T`, one after another.
pub fn decode_vec<'de, T: Decode<'de>, B: Buf<'de>>(buf: &mut B, n: usize) -> (r: Result<Vec<T>, Error>)
    requires
        decode_seq_requires::<T>(old(buf)@, n as nat),
    ensures
        final(buf)@.len() <= old(buf)@.len(),
        final(buf)@ =~= old(buf)@.skip(old(buf)@.len() - final(buf)@.len()),
        match r {
            Ok(v) => spec_decode_seq::<T>(old(buf)@, n as nat) == Ok::<(Seq<T::V>, int), Error>(
                (views(v@), old(buf)@.len() - final(buf)@.len()),
            ),
            Err(e) => spec_decode_seq::<T>(old(buf)@, n as nat) == Err::<(Seq<T::V>, int), Error>(e),
        },
{
    let ghost s0 = old(buf)@;
    let mut out: Vec<T> = Vec::with_capacity(n);
    let mut i: usize = 0;
    while i < n
        invariant
            i <= n,
            s0 == old(buf)@,
            buf@.len() <= s0.len(),
            buf@ =~= s0.skip(s0.len() - buf@.len()),
            out@.len() == i,
            decode_seq_requires::<T>(buf@, (n - i) as nat),
            match spec_decode_seq::<T>(buf@, (n - i) as nat) {
                Ok((vs, k)) => spec_decode_seq::<T>(s0, n as nat) == Ok::<(Seq<T::V>, int), Error>(
                    (views(out@) + vs, s0.len() - buf@.len() + k),
                ),
                Err(e) => spec_decode_seq::<T>(s0, n as nat) == Err::<(Seq<T::V>, int), Error>(e),
            },
        decreases n - i,
    {
        let ghost s1 = buf@;
        let ghost o1 = out@;
        let ghost m: nat = (n - i) as nat;
        assert(decode_seq_requires::<T>(s1, m));
        let x = match T::decode(buf) {
            Ok(x) => x,
            Err(e) => {
                assert(spec_decode_seq::<T>(s1, m) == Err::<(Seq<T::V>, int), Error>(e));
                return Err(e);
            },
        };
        proof {
            let k1 = s1.len() - buf@.len();
            assert(s1.skip(k1) == buf@);
            match spec_decode_seq::<T>(buf@, (m - 1) as nat) {
                Ok((vs, k)) => {
                    assert(spec_decode_seq::<T>(s1, m) == Ok::<(Seq<T::V>, int), Error>(
                        (seq![x@] + vs, k1 + k),
                    ));
                    assert(views(o1.push(x)) =~= views(o1) + seq![x@]);
                    assert(views(o1) + (seq![x@] + vs) =~= views(o1.push(x)) + vs);
                },
                Err(e) => {
                    assert(spec_decode_seq::<T>(s1, m) == Err::<(Seq<T::V>, int), Error>(e));
                },
            }
        }
        out.push(x);
        i = i + 1;
    }
    proof {
        assert(spec_decode_seq::<T>(buf@, 0) == Ok::<(Seq<T::V>, int), Error>((Seq::empty(), 0)));
        assert(views(out@) + Seq::<T::V>::empty() =~= views(out@));
    }
    Ok(out)
}

/// Reads `n` values of `T`, one after another, and discards them.
pub fn skip_values<'de, T: Decode<'de>, B: Buf<'de>>(buf: &mut B, n: usize) -> (r: Result<(), Error>)
    requires
        decode_seq_requires::<T>(old(buf)@, n as nat),
    ensures
        final(buf)@.len() <= old(buf)@.len(),
        final(buf)@ =~= old(buf)@.skip(old(buf)@.len() - final(buf)@.len()),
        match r {
            Ok(_) => spec_decode_seq::<T>(old(buf)@, n as nat) matches Ok((_, k)) && k == old(
                buf,
            )@.len() - final(buf)@.len(),
            Err(e) => spec_decode_seq::<T>(old(buf)@, n as nat) == Err::<(Seq<T::V>, int), Error>(e),
        },
{
    let ghost s0 = old(buf)@;
    let mut i: usize = 0;
    while i < n
        invariant
            i <= n,
            s0 == old(buf)@,
            buf@.len() <= s0.len(),
            buf@ =~= s0.skip(s0.len() - buf@.len()),
            decode_seq_requires::<T>(buf@, (n - i) as nat),
            match spec_decode_seq::<T>(buf@, (n - i) as nat) {
                Ok((_, k)) => spec_decode_seq::<T>(s0, n as nat) matches Ok((_, k0)) && k0 == s0.len()
                    - buf@.len() + k,
                Err(e) => spec_decode_seq::<T>(s0, n as nat) == Err::<(Seq<T::V>, int), Error>(e),
            },
        decreases n - i,
    {
        let ghost s1 = buf@;
        let ghost m: nat = (n - i) as nat;
        match T::decode(buf) {
            Ok(_) => {},
            Err(e) => {
                assert(spec_decode_seq::<T>(s1, m) == Err::<(Seq<T::V>, int), Error>(e));
                return Err(e);
            },
        }
        proof {
            let k1 = s1.len() - buf@.len();
            assert(s1.skip(k1) == buf@);
        }
        i = i + 1;
    }
    Ok(())
}

/// Encodes the values of `v` one after another, as a piece of `total` that follows `acc`.
pub fn put_all<T: Encode, B: BufMut>(
    buf: &mut B,
    v: &[T],
    Ghost(b0): Ghost<B>,
    Ghost(acc): Ghost<Seq<u8>>,
    Ghost(total): Ghost<Seq<u8>>,
) -> (r: Result<(), Error>)
    requires
        progress(b0, *old(buf), acc),
        (acc + spec_encode_seq::<T>(views(v@))).is_prefix_of(total),
        all_encodable::<T>(views(v@)),
    ensures
        r is Ok ==> progress(b0, *final(buf), acc + spec_encode_seq::<T>(views(v@))),
        r is Err ==> crate::util::encode_post(b0, *final(buf), true, total, r),
{
    let ghost vs = views(v@);
    let mut i: usize = 0;
    while i < v.len()
        invariant
            i <= v@.len(),
            vs == views(v@),
            progress(b0, *buf, acc + spec_encode_seq::<T>(vs.take(i as int))),
            (acc + spec_encode_seq::<T>(vs)).is_prefix_of(total),
            all_encodable::<T>(vs),
        decreases v@.len() - i,
    {
        let ghost pre = vs.take(i as int);
        proof {
            assert(vs.take(i + 1) =~= pre.push(vs[i as int]));
            assert(pre.push(vs[i as int]).drop_last() =~= pre);
            lemma_encode_seq_concat::<T>(vs.take(i + 1), vs.skip(i + 1));
            assert(vs.take(i + 1) + vs.skip(i + 1) =~= vs);
            let a = acc + spec_encode_seq::<T>(pre) + T::spec_encode(vs[i as int]);
            let t = acc + spec_encode_seq::<T>(vs);
            assert(a =~= acc + spec_encode_seq::<T>(vs.take(i + 1)));
            assert(a.is_prefix_of(t)) by {
                assert(t =~= a + spec_encode_seq::<T>(vs.skip(i + 1)));
                assert(a =~= t.subrange(0, a.len() as int));
            }
            assert(t.is_prefix_of(total));
            assert(a.is_prefix_of(total)) by {
                assert forall|j: int| 0 <= j < a.len() implies #[trigger] a[j] == total[j] by {
                    assert(t.subrange(0, a.len() as int)[j] == t[j]);
                    assert(total.subrange(0, t.len() as int)[j] == total[j]);
                }
                assert(a =~= total.subrange(0, a.len() as int));
            }
            assert(v@[i as int]@ == vs[i as int]);
            assert(T::encodable(vs[i as int]) && T::encode_requires(vs[i as int]));
        }
        put(buf, &v[i], Ghost(b0), Ghost(acc + spec_encode_seq::<T>(pre)), Ghost(total))?;
        proof {
            assert(acc + spec_encode_seq::<T>(pre) + T::spec_encode(vs[i as int]) =~= acc
                + spec_encode_seq::<T>(vs.take(i + 1)));
        }
        i = i + 1;
    }
    proof {
        assert(vs.take(v@.len() as int) =~= vs);
    }
    Ok(())
}

/// Decoding a `u16` count, then that many values of `T`.
pub open spec fn spec_decode_list16<'de, T: Decode<'de>>(s: Seq<u8>) -> Result<(Seq<T::V>, int), Error> {
    match u16::spec_decode(s) {
        Err(e) => Err(e),
        Ok((n, k)) => match spec_decode_seq::<T>(s.skip(k), n as nat) {
            Err(e) => Err(e),
            Ok((vs, m)) => Ok((vs, k + m)),
        },
    }
}

/// What decoding a `u16` count and that many values of `T` needs of the bytes.
pub open spec fn list16_requires<'de, T: Decode<'de>>(s: Seq<u8>) -> bool {
    match u16::spec_decode(s) {
        Err(_) => true,
        Ok((n, k)) => decode_seq_requires::<T>(s.skip(k), n as nat),
    }
}

/// The count of `vs`, cut to two bytes, then their encodings.
pub open spec fn spec_encode_list16<T: Encode>(vs: Seq<T::V>) -> Seq<u8> {
    u16::spec_encode(vs.len() as u16) + spec_encode_seq::<T>(vs)
}

/// Decoding a `u8` count, then that many values of `T`.
pub open spec fn spec_decode_list8<'de, T: Decode<'de>>(s: Seq<u8>) -> Result<(Seq<T::V>, int), Error> {
    match u8::spec_decode(s) {
        Err(e) => Err(e),
        Ok((n, k)) => match spec_decode_seq::<T>(s.skip(k), n as nat) {
            Err(e) => Err(e),
            Ok((vs, m)) => Ok((vs, k + m)),
        },
    }
}

/// What decoding a `u8` count and that many values of `T` needs of the bytes.
pub open spec fn list8_requires<'de, T: Decode<'de>>(s: Seq<u8>) -> bool {
    match u8::spec_decode(s) {
        Err(_) => true,
        Ok((n, k)) => decode_seq_requires::<T>(s.skip(k), n as nat),
    }
}

/// The count of `vs`, cut to one byte, then their encodings.
pub open spec fn spec_encode_list8<T: Encode>(vs: Seq<T::V>) -> Seq<u8> {
    u8::spec_encode(vs.len() as u8) + spec_encode_seq::<T>(vs)
}

/// Reads a `u16` count, then that many values of `T`.
pub fn decode_list16<'de, T: Decode<'de>, B: Buf<'de>>(buf: &mut B) -> (r: Result<Vec<T>, Error>)
    requires
        list16_requires::<T>(old(buf)@),
    ensures
        final(buf)@.len() <= old(buf)@.len(),
        final(buf)@ =~= old(buf)@.skip(old(buf)@.len() - final(buf)@.len()),
        match r {
            Ok(v) => spec_decode_list16::<T>(old(buf)@) == Ok::<(Seq<T::V>, int), Error>(
                (views(v@), old(buf)@.len() - final(buf)@.len()),
            ),
            Err(e) => spec_decode_list16::<T>(old(buf)@) == Err::<(Seq<T::V>, int), Error>(e),
        },
{
    let ghost s0 = old(buf)@;
    let n = u16::decode(buf)?;
    let ghost s1 = buf@;
    let v = decode_vec::<T, B>(buf, n as usize)?;
    proof {
        assert(s0.skip(s0.len() - s1.len()) == s1);
        assert(s0.skip(s0.len() - buf@.len()) =~= buf@);
    }
    Ok(v)
}

/// Reads a `u8` count, then that many values of `T`.
pub fn decode_list8<'de, T: Decode<'de>, B: Buf<'de>>(buf: &mut B) -> (r: Result<Vec<T>, Error>)
    requires
        list8_requires::<T>(old(buf)@),
    ensures
        final(buf)@.len() <= old(buf)@.len(),
        final(buf)@ =~= old(buf)@.skip(old(buf)@.len() - final(buf)@.len()),
        match r {
            Ok(v) => spec_decode_list8::<T>(old(buf)@) == Ok::<(Seq<T::V>, int), Error>(
                (views(v@), old(buf)@.len() - final(buf)@.len()),
            ),
            Err(e) => spec_decode_list8::<T>(old(buf)@) == Err::<(Seq<T::V>, int), Error>(e),
        },
{
    let ghost s0 = old(buf)@;
    let n = u8::decode(buf)?;
    let ghost s1 = buf@;
    let v = decode_vec::<T, B>(buf, n as usize)?;
    proof {
        assert(s0.skip(s0.len() - s1.len()) == s1);
        assert(s0.skip(s0.len() - buf@.len()) =~= buf@);
    }
    Ok(v)
}

/// Encodes the count of `v`, cut to two bytes, then its values, as a piece of
/// `total` that follows `acc`.
pub fn put_list16<T: Encode, B: BufMut>(
    buf: &mut B,
    v: &[T],
    Ghost(b0): Ghost<B>,
    Ghost(acc): Ghost<Seq<u8>>,
    Ghost(total): Ghost<Seq<u8>>,
) -> (r: Result<(), Error>)
    requires
        progress(b0, *old(buf), acc),
        (acc + spec_encode_list16::<T>(views(v@))).is_prefix_of(total),
        all_encodable::<T>(views(v@)),
    ensures
        r is Ok ==> progress(b0, *final(buf), acc + spec_encode_list16::<T>(views(v@))),
        r is Err ==> crate::util::encode_post(b0, *final(buf), true, total, r),
{
    let ghost vs = views(v@);
    let n = v.len() as u16;
    let ghost e = u16::spec_encode(n);
    proof {
        assert(vs.len() == v@.len());
        assert(acc + spec_encode_list16::<T>(vs) =~= (acc + e) + spec_encode_seq::<T>(vs));
        assert((acc + e).is_prefix_of(total)) by {
            let a = acc + spec_encode_list16::<T>(vs);
            assert forall|j: int| 0 <= j < (acc + e).len() implies #[trigger] (acc + e)[j]
                == total[j] by {
                assert(a[j] == (acc + e)[j]);
                assert(total.subrange(0, a.len() as int)[j] == total[j]);
            }
            assert(acc + e =~= total.subrange(0, (acc + e).len() as int));
        }
    }
    put(buf, &n, Ghost(b0), Ghost(acc), Ghost(total))?;
    put_all(buf, v, Ghost(b0), Ghost(acc + e), Ghost(total))?;
    Ok(())
}

/// Encodes the count of `v`, cut to one byte, then its values, as a piece of
/// `total` that follows `acc`.
pub fn put_list8<T: Encode, B: BufMut>(
    buf: &mut B,
    v: &[T],
    Ghost(b0): Ghost<B>,
    Ghost(acc): Ghost<Seq<u8>>,
    Ghost(total): Ghost<Seq<u8>>,
) -> (r: Result<(), Error>)
    requires
        progress(b0, *old(buf), acc),
        (acc + spec_encode_list8::<T>(views(v@))).is_prefix_of(total),
        all_encodable::<T>(views(v@)),
    ensures
        r is Ok ==> progress(b0, *final(buf), acc + spec_encode_list8::<T>(views(v@))),
        r is Err ==> crate::util::encode_post(b0, *final(buf), true, total, r),
{
    let ghost vs = views(v@);
    let n = v.len() as u8;
    let ghost e = u8::spec_encode(n);
    proof {
        assert(vs.len() == v@.len());
        assert(acc + spec_encode_list8::<T>(vs) =~= (acc + e) + spec_encode_seq::<T>(vs));
        assert((acc + e).is_prefix_of(total)) by {
            let a = acc + spec_encode_list8::<T>(vs);
            assert forall|j: int| 0 <= j < (acc + e).len() implies #[trigger] (acc + e)[j]
                == total[j] by {
                assert(a[j] == (acc + e)[j]);
                assert(total.subrange(0, a.len() as int)[j] == total[j]);
            }
            assert(acc + e =~= total.subrange(0, (acc + e).len() as int));
        }
    }
    put(buf, &n, Ghost(b0), Ghost(acc), Ghost(total))?;
    put_all(buf, v, Ghost(b0), Ghost(acc + e), Ghost(total))?;
    Ok(())
}

/// Decoding the count and the encodings of well-formed values gives them back,
/// when the count fits in two bytes.
pub proof fn lemma_codec_list16<'de, T: Codec<'de>>(vs: Seq<<T as View>::V>, rest: Seq<u8>)
    requires
        vs.len() <= u16::MAX,
        all_wf::<T>(vs),
        all_encodable::<T>(vs),
    ensures
        spec_decode_list16::<T>(spec_encode_list16::<T>(vs) + rest) == Ok::<
            (Seq<<T as View>::V>, int),
            Error,
        >((vs, spec_encode_list16::<T>(vs).len() as int)),
{
    let e = u16::spec_encode(vs.len() as u16);
    let body = spec_encode_seq::<T>(vs) + rest;
    assert(spec_encode_list16::<T>(vs) + rest =~= e + body);
    u16::lemma_codec(vs.len() as u16, body);
    assert((e + body).skip(2) =~= body);
    lemma_codec_seq::<T>(vs, rest);
}

/// Decoding the count and the encodings of well-formed values gives them back,
/// when the count fits in one byte.
pub proof fn lemma_codec_list8<'de, T: Codec<'de>>(vs: Seq<<T as View>::V>, rest: Seq<u8>)
    requires
        vs.len() <= u8::MAX,
        all_wf::<T>(vs),
        all_encodable::<T>(vs),
    ensures
        spec_decode_list8::<T>(spec_encode_list8::<T>(vs) + rest) == Ok::<
            (Seq<<T as View>::V>, int),
            Error,
        >((vs, spec_encode_list8::<T>(vs).len() as int)),
{
    let e = u8::spec_encode(vs.len() as u8);
    let body = spec_encode_seq::<T>(vs) + rest;
    assert(spec_encode_list8::<T>(vs) + rest =~= e + body);
    u8::lemma_codec(vs.len() as u8, body);
    assert((e + body).skip(1) =~= body);
    lemma_codec_seq::<T>(vs, rest);
}

/// Reading `n` values of a type whose decoding needs nothing of the bytes needs
/// nothing of them either.
pub proof fn lemma_seq_requires<'a, T: Decode<'a>>(s: Seq<u8>, n: nat)
    requires
        forall|t: Seq<u8>| T::decode_requires(t),
    ensures
        decode_seq_requires::<T>(s, n),
    decreases n,
{
    if n > 0 {
        match T::spec_decode(s) {
            Ok((_, m)) => lemma_seq_requires::<T>(s.skip(m), (n - 1) as nat),
            Err(_) => {},
        }
    }
}

/// Reading a count and that many values of a type whose decoding needs nothing of
/// the bytes needs nothing of them either.
pub proof fn lemma_list16_requires<'a, T: Decode<'a>>(s: Seq<u8>)
    requires
        forall|t: Seq<u8>| T::decode_requires(t),
    ensures
        list16_requires::<T>(s),
{
    match u16::spec_decode(s) {
        Ok((n, k)) => lemma_seq_requires::<T>(s.skip(k), n as nat),
        Err(_) => {},
    }
}

} // verus!
