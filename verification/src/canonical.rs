//! Encodings are canonical: encoding the value that decoding gives yields the very
//! bytes that decoding took.
use vstd::prelude::*;

use crate::list::{
    decode_seq_requires, list16_requires,
    lemma_encode_seq_concat, lemma_encode_seq_one, spec_decode_list16, spec_decode_seq,
    spec_encode_list16, spec_encode_seq,
};
use crate::util::{be_u16, be_u32, be_u64, u16_at, u32_at, u64_at, Codec, Decode, Encode, NonZeroU16};
use crate::attribute::spec_decode_bytes32;
use crate::attributes::{
    AnnotationTarget, CodeBody, ExceptionTableEntry, LocalVarTableEntry, Module, ModuleFlags,
    ModuleProvided, ModuleRequired, ModuleRequiredFlags, PackageFlags, PackageRelation,
    SpecStackMapFrame, StackMapFrame, VerificationType, spec_decode_module_deps,
    spec_decode_module_services, spec_encode_module_deps, spec_encode_module_services,
};
use crate::{
    Attribute, ClassAccessFlags, ConstantEntry, ClassMetadata, ClassfileHeader, Error, FieldAccessFlags,
    FieldHeader, MethodAccessFlags, MethodHeader, ModifiedUtf8, ReferenceKind, Version,
};

verus! {

broadcast use crate::util::group_nonzero;

/// Encoding the value that decoding `s` gives yields the bytes that it took.
pub open spec fn decodes_back<'de, T: Codec<'de>>(s: Seq<u8>) -> bool {
    T::spec_decode(s) matches Ok((v, n)) ==> 0 <= n <= s.len() && <T as Encode>::spec_encode(v)
        == s.take(n)
}

/// The first `a` bytes, then the `b` bytes after them, are the first `a + b` bytes.
pub proof fn lemma_take_take(s: Seq<u8>, a: int, b: int)
    requires
        0 <= a,
        0 <= b,
        a + b <= s.len(),
    ensures
        s.take(a) + s.skip(a).take(b) == s.take(a + b),
        s.skip(a).skip(b) == s.skip(a + b),
        s.skip(a).len() == s.len() - a,
{
    assert(s.take(a) + s.skip(a).take(b) =~= s.take(a + b));
    assert(s.skip(a).skip(b) =~= s.skip(a + b));
}

/// A byte decodes back to itself.
pub proof fn lemma_u8_back(s: Seq<u8>)
    ensures
        decodes_back::<u8>(s),
{
    if s.len() >= 1 {
        assert(seq![s[0]] =~= s.take(1));
    }
}

/// The big-endian bytes of the `u16` that two bytes stand for are those bytes.
pub proof fn lemma_be_u16_at(s: Seq<u8>)
    requires
        s.len() >= 2,
    ensures
        be_u16(u16_at(s, 0)) == s.take(2),
{
    let a = s[0];
    let b = s[1];
    let x = u16_at(s, 0);
    assert(x == (a as u16) * 0x100 + (b as u16)) by (bit_vector)
        requires
            x == ((a as int) * 0x100 + (b as int)) as u16,
    ;
    assert(((x / 0x100) as u8) == a && ((x % 0x100) as u8) == b) by (bit_vector)
        requires
            x == (a as u16) * 0x100 + (b as u16),
    ;
    assert(be_u16(x) =~= s.take(2));
}

/// A `u16` decodes back to its two bytes.
pub proof fn lemma_u16_back(s: Seq<u8>)
    ensures
        decodes_back::<u16>(s),
{
    if s.len() >= 2 {
        lemma_be_u16_at(s);
    }
}

/// The big-endian bytes of the `u32` that four bytes stand for are those bytes.
pub proof fn lemma_be_u32_at(s: Seq<u8>)
    requires
        s.len() >= 4,
    ensures
        be_u32(u32_at(s, 0)) == s.take(4),
{
    let a = s[0];
    let b = s[1];
    let c = s[2];
    let d = s[3];
    let x = u32_at(s, 0);
    assert(x == (a as u32) * 0x1000000 + (b as u32) * 0x10000 + (c as u32) * 0x100 + (d as u32))
        by (bit_vector)
        requires
            x == ((a as int) * 0x1000000 + (b as int) * 0x10000 + (c as int) * 0x100 + (d as int)) as u32,
    ;
    assert(((x / 0x1000000) as u8) == a && ((x / 0x10000 % 0x100) as u8) == b && ((x / 0x100
        % 0x100) as u8) == c && ((x % 0x100) as u8) == d) by (bit_vector)
        requires
            x == (a as u32) * 0x1000000 + (b as u32) * 0x10000 + (c as u32) * 0x100 + (d as u32),
    ;
    assert(be_u32(x) =~= s.take(4));
}

/// A `u32` decodes back to its four bytes.
pub proof fn lemma_u32_back(s: Seq<u8>)
    ensures
        decodes_back::<u32>(s),
{
    if s.len() >= 4 {
        lemma_be_u32_at(s);
    }
}

/// An `i32` decodes back to its four bytes.
pub proof fn lemma_i32_back(s: Seq<u8>)
    ensures
        decodes_back::<i32>(s),
{
    if s.len() >= 4 {
        let x = u32_at(s, 0);
        lemma_be_u32_at(s);
        assert((x as i32) as u32 == x) by (bit_vector);
    }
}

/// The big-endian bytes of the `u64` that eight bytes stand for are those bytes.
pub proof fn lemma_be_u64_at(s: Seq<u8>)
    requires
        s.len() >= 8,
    ensures
        be_u64(u64_at(s, 0)) == s.take(8),
{
    let hi = u32_at(s, 0);
    let lo = u32_at(s, 4);
    let x = u64_at(s, 0);
    assert(x == (hi as u64) * 0x100000000 + (lo as u64)) by (bit_vector)
        requires
            x == ((hi as int) * 0x100000000 + (lo as int)) as u64,
    ;
    assert((x / 0x100000000) as u32 == hi && (x % 0x100000000) as u32 == lo) by (bit_vector)
        requires
            x == (hi as u64) * 0x100000000 + (lo as u64),
    ;
    lemma_be_u32_at(s);
    lemma_be_u32_at(s.skip(4));
    assert(u32_at(s.skip(4), 0) == lo);
    lemma_take_take(s, 4, 4);
}

/// A `u64` decodes back to its eight bytes.
pub proof fn lemma_u64_back(s: Seq<u8>)
    ensures
        decodes_back::<u64>(s),
{
    if s.len() >= 8 {
        lemma_be_u64_at(s);
    }
}

/// An `i64` decodes back to its eight bytes.
pub proof fn lemma_i64_back(s: Seq<u8>)
    ensures
        decodes_back::<i64>(s),
{
    if s.len() >= 8 {
        let x = u64_at(s, 0);
        lemma_be_u64_at(s);
        assert((x as i64) as u64 == x) by (bit_vector);
    }
}

/// A non-zero index decodes back to its two bytes.
pub proof fn lemma_nonzero_back(s: Seq<u8>)
    ensures
        decodes_back::<NonZeroU16>(s),
{
    if s.len() >= 2 {
        lemma_be_u16_at(s);
    }
}

/// An optional index, zero for none, decodes back to its two bytes.
pub proof fn lemma_option_nonzero_back(s: Seq<u8>)
    ensures
        decodes_back::<Option<NonZeroU16>>(s),
{
    if s.len() >= 2 {
        lemma_be_u16_at(s);
    }
}

/// Two pieces read one after the other give back, together, the bytes that both took.
pub proof fn lemma_back2(s: Seq<u8>, n0: int, n1: int, e0: Seq<u8>, e1: Seq<u8>)
    requires
        0 <= n0 <= s.len(),
        0 <= n1 <= s.skip(n0).len(),
        e0 == s.take(n0),
        e1 == s.skip(n0).take(n1),
    ensures
        0 <= n0 + n1 <= s.len(),
        e0 + e1 == s.take(n0 + n1),
{
    lemma_take_take(s, n0, n1);
}

/// Three pieces read one after the other give back, together, the bytes that all took.
pub proof fn lemma_back3(s: Seq<u8>, n0: int, n1: int, n2: int, e0: Seq<u8>, e1: Seq<u8>, e2: Seq<u8>)
    requires
        0 <= n0 <= s.len(),
        0 <= n1 <= s.skip(n0).len(),
        0 <= n2 <= s.skip(n0).skip(n1).len(),
        e0 == s.take(n0),
        e1 == s.skip(n0).take(n1),
        e2 == s.skip(n0).skip(n1).take(n2),
    ensures
        0 <= n0 + n1 + n2 <= s.len(),
        e0 + e1 + e2 == s.take(n0 + n1 + n2),
{
    lemma_take_take(s, n0, n1);
    lemma_take_take(s, n0 + n1, n2);
}

/// A string literal decodes back to its length and its bytes.
pub proof fn lemma_modified_utf8_back<'de>(s: Seq<u8>)
    ensures
        decodes_back::<ModifiedUtf8<'de>>(s),
{
    if s.len() >= 2 {
        lemma_be_u16_at(s);
        let len = u16_at(s, 0);
        if s.skip(2).len() >= len {
            lemma_take_take(s, 2, len as int);
        }
    }
}

/// A `u32` length, then that many bytes: encoding them again gives the bytes back.
pub proof fn lemma_bytes32_back(s: Seq<u8>)
    ensures
        spec_decode_bytes32(s) matches Ok((v, n)) ==> 0 <= n <= s.len() && u32::spec_encode(
            v.len() as u32,
        ) + v == s.take(n),
{
    if s.len() >= 4 {
        lemma_be_u32_at(s);
        let len = u32_at(s, 0);
        if s.skip(4).len() >= len {
            lemma_take_take(s, 4, len as int);
        }
    }
}

/// An attribute decodes back to its name index, its length and its bytes.
pub proof fn lemma_attribute_back<'de>(s: Seq<u8>)
    ensures
        decodes_back::<Attribute<'de>>(s),
{
    lemma_nonzero_back(s);
    if s.len() >= 2 {
        lemma_bytes32_back(s.skip(2));
        if let Ok((info, n)) = spec_decode_bytes32(s.skip(2)) {
            lemma_back2(s, 2, n, s.take(2), s.skip(2).take(n));
            if let Ok((name_index, _)) = NonZeroU16::spec_decode(s) {
                let e0 = NonZeroU16::spec_encode(name_index);
                let e1 = u32::spec_encode(info.len() as u32);
                assert(e0 + e1 + info =~= e0 + (e1 + info));
            }
        }
    }
}

/// A method handle kind decodes back to its byte.
pub proof fn lemma_reference_kind_back(s: Seq<u8>)
    ensures
        decodes_back::<ReferenceKind>(s),
{
    if s.len() >= 1 {
        assert(seq![s[0]] =~= s.take(1));
    }
}

/// A version decodes back to its four bytes.
pub proof fn lemma_version_back(s: Seq<u8>)
    ensures
        decodes_back::<Version>(s),
{
    if s.len() >= 4 {
        lemma_be_u16_at(s);
        lemma_be_u16_at(s.skip(2));
        lemma_back2(s, 2, 2, s.take(2), s.skip(2).take(2));
    }
}

/// A classfile header decodes back to the magic number and the version.
pub proof fn lemma_classfile_header_back(s: Seq<u8>)
    ensures
        decodes_back::<ClassfileHeader>(s),
{
    lemma_u32_back(s);
    if s.len() >= 4 {
        lemma_version_back(s.skip(4));
        if let Ok((v, n)) = Version::spec_decode(s.skip(4)) {
            lemma_back2(s, 4, n, s.take(4), s.skip(4).take(n));
        }
    }
}

/// Class access flags decode back to their bits.
pub proof fn lemma_class_flags_back(s: Seq<u8>)
    ensures
        decodes_back::<ClassAccessFlags>(s),
{
    broadcast use ClassAccessFlags::lemma_bits;

    lemma_u16_back(s);
}

/// Field access flags decode back to their bits.
pub proof fn lemma_field_flags_back(s: Seq<u8>)
    ensures
        decodes_back::<FieldAccessFlags>(s),
{
    broadcast use FieldAccessFlags::lemma_bits;

    lemma_u16_back(s);
}

/// Method access flags decode back to their bits.
pub proof fn lemma_method_flags_back(s: Seq<u8>)
    ensures
        decodes_back::<MethodAccessFlags>(s),
{
    broadcast use MethodAccessFlags::lemma_bits;

    lemma_u16_back(s);
}

/// Class metadata decodes back to its flags and its indices.
pub proof fn lemma_class_metadata_back(s: Seq<u8>)
    ensures
        decodes_back::<ClassMetadata>(s),
{
    lemma_class_flags_back(s);
    if let Ok((_, n0)) = ClassAccessFlags::spec_decode(s) {
        lemma_nonzero_back(s.skip(n0));
        if let Ok((_, n1)) = NonZeroU16::spec_decode(s.skip(n0)) {
            lemma_option_nonzero_back(s.skip(n0).skip(n1));
            if let Ok((_, n2)) = <Option<NonZeroU16>>::spec_decode(s.skip(n0).skip(n1)) {
                lemma_back3(
                    s,
                    n0,
                    n1,
                    n2,
                    s.take(n0),
                    s.skip(n0).take(n1),
                    s.skip(n0).skip(n1).take(n2),
                );
            }
        }
    }
}

/// A field header decodes back to its flags and its indices.
pub proof fn lemma_field_header_back(s: Seq<u8>)
    ensures
        decodes_back::<FieldHeader>(s),
{
    lemma_field_flags_back(s);
    if let Ok((_, n0)) = FieldAccessFlags::spec_decode(s) {
        lemma_nonzero_back(s.skip(n0));
        if let Ok((_, n1)) = NonZeroU16::spec_decode(s.skip(n0)) {
            lemma_nonzero_back(s.skip(n0).skip(n1));
            if let Ok((_, n2)) = NonZeroU16::spec_decode(s.skip(n0).skip(n1)) {
                lemma_back3(
                    s,
                    n0,
                    n1,
                    n2,
                    s.take(n0),
                    s.skip(n0).take(n1),
                    s.skip(n0).skip(n1).take(n2),
                );
            }
        }
    }
}

/// A method header decodes back to its flags and its indices.
pub proof fn lemma_method_header_back(s: Seq<u8>)
    ensures
        decodes_back::<MethodHeader>(s),
{
    lemma_method_flags_back(s);
    if let Ok((_, n0)) = MethodAccessFlags::spec_decode(s) {
        lemma_nonzero_back(s.skip(n0));
        if let Ok((_, n1)) = NonZeroU16::spec_decode(s.skip(n0)) {
            lemma_nonzero_back(s.skip(n0).skip(n1));
            if let Ok((_, n2)) = NonZeroU16::spec_decode(s.skip(n0).skip(n1)) {
                lemma_back3(
                    s,
                    n0,
                    n1,
                    n2,
                    s.take(n0),
                    s.skip(n0).take(n1),
                    s.skip(n0).skip(n1).take(n2),
                );
            }
        }
    }
}

/// A constant pool entry decodes back to its tag byte and its fields.
#[verifier::spinoff_prover]
pub proof fn lemma_constant_entry_back<'de>(s: Seq<u8>)
    ensures
        decodes_back::<ConstantEntry<'de>>(s),
{
    if s.len() >= 1 {
        let tag = s[0];
        let r = s.skip(1);
        assert(seq![tag] =~= s.take(1));
        if tag == 1 {
            lemma_modified_utf8_back(r);
            if let Ok((_, n0)) = <ModifiedUtf8<'de>>::spec_decode(r) {
                lemma_back2(s, 1, n0, s.take(1), r.take(n0));
            }
        } else if tag == 3 {
            lemma_i32_back(r);
            if let Ok((_, n0)) = i32::spec_decode(r) {
                lemma_back2(s, 1, n0, s.take(1), r.take(n0));
            }
        } else if tag == 4 {
            lemma_u32_back(r);
            if let Ok((_, n0)) = u32::spec_decode(r) {
                lemma_back2(s, 1, n0, s.take(1), r.take(n0));
            }
        } else if tag == 5 {
            lemma_i64_back(r);
            if let Ok((_, n0)) = i64::spec_decode(r) {
                lemma_back2(s, 1, n0, s.take(1), r.take(n0));
            }
        } else if tag == 6 {
            lemma_u64_back(r);
            if let Ok((_, n0)) = u64::spec_decode(r) {
                lemma_back2(s, 1, n0, s.take(1), r.take(n0));
            }
        } else if tag == 7 {
            lemma_nonzero_back(r);
            if let Ok((_, n0)) = NonZeroU16::spec_decode(r) {
                lemma_back2(s, 1, n0, s.take(1), r.take(n0));
            }
        } else if tag == 8 {
            lemma_nonzero_back(r);
            if let Ok((_, n0)) = NonZeroU16::spec_decode(r) {
                lemma_back2(s, 1, n0, s.take(1), r.take(n0));
            }
        } else if tag == 9 {
            lemma_nonzero_back(r);
            if let Ok((_, n0)) = NonZeroU16::spec_decode(r) {
                lemma_nonzero_back(r.skip(n0));
                if let Ok((_, n1)) = NonZeroU16::spec_decode(r.skip(n0)) {
                    lemma_back3(s, 1, n0, n1, s.take(1), r.take(n0), r.skip(n0).take(n1));
                }
            }
        } else if tag == 10 {
            lemma_nonzero_back(r);
            if let Ok((_, n0)) = NonZeroU16::spec_decode(r) {
                lemma_nonzero_back(r.skip(n0));
                if let Ok((_, n1)) = NonZeroU16::spec_decode(r.skip(n0)) {
                    lemma_back3(s, 1, n0, n1, s.take(1), r.take(n0), r.skip(n0).take(n1));
                }
            }
        } else if tag == 11 {
            lemma_nonzero_back(r);
            if let Ok((_, n0)) = NonZeroU16::spec_decode(r) {
                lemma_nonzero_back(r.skip(n0));
                if let Ok((_, n1)) = NonZeroU16::spec_decode(r.skip(n0)) {
                    lemma_back3(s, 1, n0, n1, s.take(1), r.take(n0), r.skip(n0).take(n1));
                }
            }
        } else if tag == 12 {
            lemma_nonzero_back(r);
            if let Ok((_, n0)) = NonZeroU16::spec_decode(r) {
                lemma_nonzero_back(r.skip(n0));
                if let Ok((_, n1)) = NonZeroU16::spec_decode(r.skip(n0)) {
                    lemma_back3(s, 1, n0, n1, s.take(1), r.take(n0), r.skip(n0).take(n1));
                }
            }
        } else if tag == 15 {
            lemma_reference_kind_back(r);
            if let Ok((_, n0)) = ReferenceKind::spec_decode(r) {
                lemma_nonzero_back(r.skip(n0));
                if let Ok((_, n1)) = NonZeroU16::spec_decode(r.skip(n0)) {
                    lemma_back3(s, 1, n0, n1, s.take(1), r.take(n0), r.skip(n0).take(n1));
                }
            }
        } else if tag == 16 {
            lemma_nonzero_back(r);
            if let Ok((_, n0)) = NonZeroU16::spec_decode(r) {
                lemma_back2(s, 1, n0, s.take(1), r.take(n0));
            }
        } else if tag == 17 {
            lemma_u16_back(r);
            if let Ok((_, n0)) = u16::spec_decode(r) {
                lemma_nonzero_back(r.skip(n0));
                if let Ok((_, n1)) = NonZeroU16::spec_decode(r.skip(n0)) {
                    lemma_back3(s, 1, n0, n1, s.take(1), r.take(n0), r.skip(n0).take(n1));
                }
            }
        } else if tag == 18 {
            lemma_u16_back(r);
            if let Ok((_, n0)) = u16::spec_decode(r) {
                lemma_nonzero_back(r.skip(n0));
                if let Ok((_, n1)) = NonZeroU16::spec_decode(r.skip(n0)) {
                    lemma_back3(s, 1, n0, n1, s.take(1), r.take(n0), r.skip(n0).take(n1));
                }
            }
        } else if tag == 19 {
            lemma_nonzero_back(r);
            if let Ok((_, n0)) = NonZeroU16::spec_decode(r) {
                lemma_back2(s, 1, n0, s.take(1), r.take(n0));
            }
        } else if tag == 20 {
            lemma_nonzero_back(r);
            if let Ok((_, n0)) = NonZeroU16::spec_decode(r) {
                lemma_back2(s, 1, n0, s.take(1), r.take(n0));
            }
        }
    }
}

/// When every value of `T` decodes back, so does a run of `n` of them.
pub proof fn lemma_seq_back<'de, T: Codec<'de>>(s: Seq<u8>, n: nat)
    requires
        forall|t: Seq<u8>| #[trigger] decodes_back::<T>(t),
    ensures
        spec_decode_seq::<T>(s, n) matches Ok((vs, k)) ==> 0 <= k <= s.len() && vs.len() == n
            && spec_encode_seq::<T>(vs) == s.take(k),
    decreases n,
{
    if n == 0 {
        assert(s.take(0) =~= Seq::<u8>::empty());
    } else {
        assert(decodes_back::<T>(s));
        if let Ok((v, m)) = T::spec_decode(s) {
            lemma_seq_back::<T>(s.skip(m), (n - 1) as nat);
            if let Ok((vs, j)) = spec_decode_seq::<T>(s.skip(m), (n - 1) as nat) {
                lemma_encode_seq_concat::<T>(seq![v], vs);
                lemma_encode_seq_one::<T>(v);
                lemma_back2(s, m, j, s.take(m), s.skip(m).take(j));
            }
        }
    }
}

/// When every value of `T` decodes back, so does a `u16` count and that many of them.
pub proof fn lemma_list16_back<'de, T: Codec<'de>>(s: Seq<u8>)
    requires
        forall|t: Seq<u8>| #[trigger] decodes_back::<T>(t),
    ensures
        spec_decode_list16::<T>(s) matches Ok((vs, k)) ==> 0 <= k <= s.len()
            && spec_encode_list16::<T>(vs) == s.take(k),
{
    if s.len() >= 2 {
        lemma_be_u16_at(s);
        let n = u16_at(s, 0);
        lemma_seq_back::<T>(s.skip(2), n as nat);
        if let Ok((vs, m)) = spec_decode_seq::<T>(s.skip(2), n as nat) {
            lemma_back2(s, 2, m, s.take(2), s.skip(2).take(m));
        }
    }
}

/// The body of a `Code` attribute decodes back to its limits, the length of its
/// code and the code.
pub proof fn lemma_code_body_back<'de>(s: Seq<u8>)
    ensures
        decodes_back::<CodeBody<'de>>(s),
{
    if s.len() >= 4 {
        lemma_be_u16_at(s);
        lemma_be_u16_at(s.skip(2));
        lemma_bytes32_back(s.skip(2).skip(2));
        if let Ok((code, n)) = spec_decode_bytes32(s.skip(2).skip(2)) {
            lemma_back3(s, 2, 2, n, s.take(2), s.skip(2).take(2), s.skip(2).skip(2).take(n));
            let e0 = s.take(2);
            let e1 = s.skip(2).take(2);
            let e2 = u32::spec_encode(code.len() as u32);
            assert(e0 + e1 + e2 + code =~= e0 + e1 + (e2 + code));
        }
    }
}

/// An entry of an exception table decodes back to its range, its handler and its
/// catch type.
pub proof fn lemma_exception_entry_back(s: Seq<u8>)
    ensures
        decodes_back::<ExceptionTableEntry>(s),
{
    if s.len() >= 8 {
        lemma_be_u16_at(s);
        lemma_be_u16_at(s.skip(2));
        lemma_be_u16_at(s.skip(2).skip(2));
        lemma_option_nonzero_back(s.skip(2).skip(2).skip(2));
        lemma_back3(s, 2, 2, 2, s.take(2), s.skip(2).take(2), s.skip(2).skip(2).take(2));
        lemma_take_take(s, 2, 2);
        lemma_take_take(s, 4, 2);
        lemma_back2(s, 6, 2, s.take(6), s.skip(6).take(2));
    }
}

/// A string literal cut short does not decode: no strict prefix of its encoding
/// holds the whole of it, and reading one runs out of bytes.
pub proof fn lemma_modified_utf8_prefix<'de>(v: Seq<u8>, j: int)
    requires
        v.len() <= u16::MAX,
        0 <= j < <ModifiedUtf8<'de>>::spec_encode(v).len(),
    ensures
        <ModifiedUtf8<'de>>::spec_decode(<ModifiedUtf8<'de>>::spec_encode(v).take(j)) == Err::<
            (Seq<u8>, int),
            Error,
        >(Error::UnexpectedEOF),
{
    let e = <ModifiedUtf8<'de>>::spec_encode(v);
    let p = e.take(j);
    if j >= 2 {
        crate::util::lemma_be_u16(v.len() as u16, v);
        assert(p[0] == e[0] && p[1] == e[1]);
        assert(u16_at(p, 0) == u16_at(e, 0));
    }
}

/// A verification type decodes back to its tag byte and its index or offset.
pub proof fn lemma_verification_type_back(s: Seq<u8>)
    ensures
        decodes_back::<VerificationType>(s),
{
    if s.len() >= 1 {
        let tag = s[0];
        let r = s.skip(1);
        assert(seq![tag] =~= s.take(1));
        if tag == 7 {
            lemma_nonzero_back(r);
            if let Ok((_, n0)) = NonZeroU16::spec_decode(r) {
                lemma_back2(s, 1, n0, s.take(1), r.take(n0));
            }
        } else if tag == 8 {
            lemma_u16_back(r);
            if let Ok((_, n0)) = u16::spec_decode(r) {
                lemma_back2(s, 1, n0, s.take(1), r.take(n0));
            }
        }
    }
}

/// A stack map frame decodes back to its frame type byte and its fields: writing
/// again a frame that was read gives the bytes it was read from.
#[verifier::spinoff_prover]
pub proof fn lemma_stack_map_frame_back(s: Seq<u8>)
    ensures
        decodes_back::<StackMapFrame>(s),
{
    if s.len() >= 1 {
        let tag = s[0];
        let r = s.skip(1);
        assert(seq![tag] =~= s.take(1));
        assert forall|t: Seq<u8>| #[trigger] decodes_back::<VerificationType>(t) by {
            lemma_verification_type_back(t);
        }
        if tag <= 63 {
            assert(((tag as u16) as u8) == tag);
        } else if tag <= 127 {
            assert((((tag - 64) as u16 + 64) as u8) == tag);
            lemma_verification_type_back(r);
            if let Ok((_, n0)) = VerificationType::spec_decode(r) {
                lemma_back2(s, 1, n0, s.take(1), r.take(n0));
            }
        } else if tag == 247 {
            lemma_u16_back(r);
            if r.len() >= 2 {
                lemma_verification_type_back(r.skip(2));
                if let Ok((_, n2)) = VerificationType::spec_decode(r.skip(2)) {
                    lemma_back3(s, 1, 2, n2, s.take(1), r.take(2), r.skip(2).take(n2));
                }
            }
        } else if 248 <= tag <= 250 {
            lemma_u16_back(r);
            assert(NonZeroU16::from_raw((251 - tag) as u16).value() == 251 - tag);
            if r.len() >= 2 {
                lemma_back2(s, 1, 2, s.take(1), r.take(2));
            }
        } else if tag == 251 {
            lemma_u16_back(r);
            if r.len() >= 2 {
                lemma_back2(s, 1, 2, s.take(1), r.take(2));
            }
        } else if 252 <= tag <= 254 {
            lemma_u16_back(r);
            if r.len() >= 2 {
                lemma_seq_back::<VerificationType>(r.skip(2), (tag - 251) as nat);
                if let Ok((ls, n2)) = spec_decode_seq::<VerificationType>(r.skip(2), (tag - 251) as nat) {
                    assert(((251 + ls.len()) as u8) == tag);
                    lemma_back3(s, 1, 2, n2, s.take(1), r.take(2), r.skip(2).take(n2));
                }
            }
        } else if tag == 255 {
            lemma_u16_back(r);
            if r.len() >= 2 {
                let r2 = r.skip(2);
                lemma_list16_back::<VerificationType>(r2);
                if let Ok((_, n2)) = spec_decode_list16::<VerificationType>(r2) {
                    lemma_list16_back::<VerificationType>(r2.skip(n2));
                    if let Ok((_, n3)) = spec_decode_list16::<VerificationType>(r2.skip(n2)) {
                        lemma_back3(s, 1, 2, n2, s.take(1), r.take(2), r2.take(n2));
                        lemma_take_take(s, 1, 2);
                        lemma_take_take(s, 3, n2);
                        lemma_take_take(s.skip(1), 2, n2);
                        lemma_back2(s, 3 + n2, n3, s.take(3 + n2), r2.skip(n2).take(n3));
                    }
                }
            }
        }
    }
}

/// Encoding the value that decoding `s` gives yields the bytes that it took,
/// wherever decoding can run on `s`.
pub open spec fn decodes_back_when<'de, T: Codec<'de>>(s: Seq<u8>) -> bool {
    T::decode_requires(s) ==> decodes_back::<T>(s)
}

/// When every value of `T` that can be decoded decodes back, so does a run of `n`
/// of them.
pub proof fn lemma_seq_back_when<'de, T: Codec<'de>>(s: Seq<u8>, n: nat)
    requires
        forall|t: Seq<u8>| #[trigger] decodes_back_when::<T>(t),
        decode_seq_requires::<T>(s, n),
    ensures
        spec_decode_seq::<T>(s, n) matches Ok((vs, k)) ==> 0 <= k <= s.len() && vs.len() == n
            && spec_encode_seq::<T>(vs) == s.take(k),
    decreases n,
{
    if n == 0 {
        assert(s.take(0) =~= Seq::<u8>::empty());
    } else {
        assert(decodes_back_when::<T>(s));
        if let Ok((v, m)) = T::spec_decode(s) {
            lemma_seq_back_when::<T>(s.skip(m), (n - 1) as nat);
            if let Ok((vs, j)) = spec_decode_seq::<T>(s.skip(m), (n - 1) as nat) {
                lemma_encode_seq_concat::<T>(seq![v], vs);
                lemma_encode_seq_one::<T>(v);
                lemma_back2(s, m, j, s.take(m), s.skip(m).take(j));
            }
        }
    }
}

/// A `u16` count and that many values that can be decoded decode back.
pub proof fn lemma_list16_back_when<'de, T: Codec<'de>>(s: Seq<u8>)
    requires
        forall|t: Seq<u8>| #[trigger] decodes_back_when::<T>(t),
        list16_requires::<T>(s),
    ensures
        spec_decode_list16::<T>(s) matches Ok((vs, k)) ==> 0 <= k <= s.len()
            && spec_encode_list16::<T>(vs) == s.take(k),
{
    if s.len() >= 2 {
        lemma_be_u16_at(s);
        let n = u16_at(s, 0);
        lemma_seq_back_when::<T>(s.skip(2), n as nat);
        if let Ok((vs, m)) = spec_decode_seq::<T>(s.skip(2), n as nat) {
            lemma_back2(s, 2, m, s.take(2), s.skip(2).take(m));
        }
    }
}

/// An entry of a table of local variables whose range ends within a `u16`
/// decodes back to its start, its length and its index.
pub proof fn lemma_local_var_entry_back(s: Seq<u8>)
    ensures
        decodes_back_when::<LocalVarTableEntry>(s),
{
    if s.len() >= 6 && LocalVarTableEntry::decode_requires(s) {
        lemma_be_u16_at(s);
        lemma_be_u16_at(s.skip(2));
        lemma_be_u16_at(s.skip(2).skip(2));
        lemma_back3(s, 2, 2, 2, s.take(2), s.skip(2).take(2), s.skip(2).skip(2).take(2));
    }
}

/// An annotation target decodes back to its target type and its fields, wherever
/// the ranges of its table of local variables end within a `u16`.
#[verifier::spinoff_prover]
pub proof fn lemma_annotation_target_back(s: Seq<u8>)
    ensures
        decodes_back_when::<AnnotationTarget>(s),
{
    if s.len() >= 1 && AnnotationTarget::decode_requires(s) {
        let tag = s[0];
        let r = s.skip(1);
        assert(seq![tag] =~= s.take(1));
        if tag <= 0x01 || tag == 0x16 {
            lemma_u8_back(r);
            if r.len() >= 1 {
                lemma_back2(s, 1, 1, s.take(1), r.take(1));
            }
        } else if tag == 0x10 || tag == 0x17 || tag == 0x42 || 0x43 <= tag <= 0x46 {
            lemma_u16_back(r);
            if r.len() >= 2 {
                lemma_back2(s, 1, 2, s.take(1), r.take(2));
            }
        } else if 0x11 <= tag <= 0x12 {
            if r.len() >= 2 {
                assert(seq![r[0]] + seq![r[1]] =~= r.take(2));
                lemma_back2(s, 1, 2, s.take(1), r.take(2));
            }
        } else if 0x13 <= tag <= 0x15 {
            assert(r.take(0) =~= Seq::<u8>::empty());
            lemma_back2(s, 1, 0, s.take(1), r.take(0));
        } else if 0x40 <= tag <= 0x41 {
            assert forall|t: Seq<u8>| #[trigger] decodes_back_when::<LocalVarTableEntry>(t) by {
                lemma_local_var_entry_back(t);
            }
            lemma_list16_back_when::<LocalVarTableEntry>(r);
            if let Ok((_, m)) = spec_decode_list16::<LocalVarTableEntry>(r) {
                lemma_back2(s, 1, m, s.take(1), r.take(m));
            }
        } else if 0x47 <= tag <= 0x4B {
            if r.len() >= 3 {
                lemma_be_u16_at(r);
                assert(seq![r[2]] =~= r.skip(2).take(1));
                lemma_back2(r, 2, 1, r.take(2), r.skip(2).take(1));
                lemma_back2(s, 1, 3, s.take(1), r.take(3));
            }
        }
    }
}

/// Module flags decode back to their bits.
pub proof fn lemma_module_flags_back(s: Seq<u8>)
    ensures
        decodes_back::<ModuleFlags>(s),
{
    broadcast use ModuleFlags::lemma_bits;

    lemma_u16_back(s);
}

/// The flags of a module dependency decode back to their bits.
pub proof fn lemma_module_required_flags_back(s: Seq<u8>)
    ensures
        decodes_back::<ModuleRequiredFlags>(s),
{
    broadcast use ModuleRequiredFlags::lemma_bits;

    lemma_u16_back(s);
}

/// The flags of a package relation decode back to their bits.
pub proof fn lemma_package_flags_back(s: Seq<u8>)
    ensures
        decodes_back::<PackageFlags>(s),
{
    broadcast use PackageFlags::lemma_bits;

    lemma_u16_back(s);
}

/// A module dependency decodes back to its index, its flags and its version index.
pub proof fn lemma_module_required_back(s: Seq<u8>)
    ensures
        decodes_back::<ModuleRequired>(s),
{
    lemma_nonzero_back(s);
    if let Ok((_, n0)) = NonZeroU16::spec_decode(s) {
        lemma_module_required_flags_back(s.skip(n0));
        if let Ok((_, n1)) = ModuleRequiredFlags::spec_decode(s.skip(n0)) {
            lemma_option_nonzero_back(s.skip(n0).skip(n1));
            if let Ok((_, n2)) = <Option<NonZeroU16>>::spec_decode(s.skip(n0).skip(n1)) {
                lemma_back3(
                    s,
                    n0,
                    n1,
                    n2,
                    s.take(n0),
                    s.skip(n0).take(n1),
                    s.skip(n0).skip(n1).take(n2),
                );
            }
        }
    }
}

/// A package relation decodes back to its index, its flags and its list of modules.
pub proof fn lemma_package_relation_back(s: Seq<u8>)
    ensures
        decodes_back::<PackageRelation>(s),
{
    assert forall|t: Seq<u8>| #[trigger] decodes_back::<NonZeroU16>(t) by {
        lemma_nonzero_back(t);
    }
    lemma_nonzero_back(s);
    if let Ok((_, n0)) = NonZeroU16::spec_decode(s) {
        lemma_package_flags_back(s.skip(n0));
        if let Ok((_, n1)) = PackageFlags::spec_decode(s.skip(n0)) {
            lemma_list16_back::<NonZeroU16>(s.skip(n0).skip(n1));
            if let Ok((_, n2)) = spec_decode_list16::<NonZeroU16>(s.skip(n0).skip(n1)) {
                lemma_back3(
                    s,
                    n0,
                    n1,
                    n2,
                    s.take(n0),
                    s.skip(n0).take(n1),
                    s.skip(n0).skip(n1).take(n2),
                );
            }
        }
    }
}

/// A provided service decodes back to its interface and its list of implementations.
pub proof fn lemma_module_provided_back(s: Seq<u8>)
    ensures
        decodes_back::<ModuleProvided>(s),
{
    assert forall|t: Seq<u8>| #[trigger] decodes_back::<NonZeroU16>(t) by {
        lemma_nonzero_back(t);
    }
    lemma_nonzero_back(s);
    if let Ok((_, n0)) = NonZeroU16::spec_decode(s) {
        lemma_list16_back::<NonZeroU16>(s.skip(n0));
        if let Ok((_, n1)) = spec_decode_list16::<NonZeroU16>(s.skip(n0)) {
            lemma_back2(s, n0, n1, s.take(n0), s.skip(n0).take(n1));
        }
    }
}

/// The lists of what a module requires, exports and opens decode back to their bytes.
proof fn lemma_module_deps_back(s: Seq<u8>)
    ensures
        spec_decode_module_deps(s) matches Ok((r, e, o, k)) ==> 0 <= k <= s.len() && (
        spec_encode_list16::<ModuleRequired>(r) + spec_encode_list16::<PackageRelation>(e)
            + spec_encode_list16::<PackageRelation>(o)) == s.take(k),
{
    assert forall|t: Seq<u8>| #[trigger] decodes_back::<ModuleRequired>(t) by {
        lemma_module_required_back(t);
    }
    assert forall|t: Seq<u8>| #[trigger] decodes_back::<PackageRelation>(t) by {
        lemma_package_relation_back(t);
    }
    lemma_list16_back::<ModuleRequired>(s);
    if let Ok((_, n0)) = spec_decode_list16::<ModuleRequired>(s) {
        lemma_list16_back::<PackageRelation>(s.skip(n0));
        if let Ok((_, n1)) = spec_decode_list16::<PackageRelation>(s.skip(n0)) {
            lemma_list16_back::<PackageRelation>(s.skip(n0).skip(n1));
            if let Ok((_, n2)) = spec_decode_list16::<PackageRelation>(s.skip(n0).skip(n1)) {
                lemma_back3(
                    s,
                    n0,
                    n1,
                    n2,
                    s.take(n0),
                    s.skip(n0).take(n1),
                    s.skip(n0).skip(n1).take(n2),
                );
            }
        }
    }
}

/// The lists of the services that a module uses and provides decode back to their bytes.
proof fn lemma_module_services_back(s: Seq<u8>)
    ensures
        spec_decode_module_services(s) matches Ok((u, p, k)) ==> 0 <= k <= s.len() && (
        spec_encode_list16::<NonZeroU16>(u) + spec_encode_list16::<ModuleProvided>(p)) == s.take(
            k,
        ),
{
    assert forall|t: Seq<u8>| #[trigger] decodes_back::<NonZeroU16>(t) by {
        lemma_nonzero_back(t);
    }
    assert forall|t: Seq<u8>| #[trigger] decodes_back::<ModuleProvided>(t) by {
        lemma_module_provided_back(t);
    }
    lemma_list16_back::<NonZeroU16>(s);
    if let Ok((_, n0)) = spec_decode_list16::<NonZeroU16>(s) {
        lemma_list16_back::<ModuleProvided>(s.skip(n0));
        if let Ok((_, n1)) = spec_decode_list16::<ModuleProvided>(s.skip(n0)) {
            lemma_back2(s, n0, n1, s.take(n0), s.skip(n0).take(n1));
        }
    }
}

/// A module decodes back to its name, its flags, its version and its five lists:
/// what it requires, exports, opens, uses and provides.
#[verifier::spinoff_prover]
pub proof fn lemma_module_back(s: Seq<u8>)
    ensures
        decodes_back::<Module>(s),
{
    lemma_nonzero_back(s);
    if let Ok((_, n1)) = NonZeroU16::spec_decode(s) {
        lemma_module_flags_back(s.skip(n1));
        if let Ok((_, n2)) = ModuleFlags::spec_decode(s.skip(n1)) {
            lemma_option_nonzero_back(s.skip(n1).skip(n2));
            if let Ok((_, n3)) = <Option<NonZeroU16>>::spec_decode(s.skip(n1).skip(n2)) {
                let t = s.skip(n1).skip(n2).skip(n3);
                lemma_module_deps_back(t);
                if let Ok((_, _, _, n4)) = spec_decode_module_deps(t) {
                    lemma_module_services_back(t.skip(n4));
                    if let Ok((_, _, n5)) = spec_decode_module_services(t.skip(n4)) {
                        lemma_back3(
                            s,
                            n1,
                            n2,
                            n3,
                            s.take(n1),
                            s.skip(n1).take(n2),
                            s.skip(n1).skip(n2).take(n3),
                        );
                        let h = n1 + n2 + n3;
                        assert(t =~= s.skip(h));
                        lemma_back3(s, h, n4, n5, s.take(h), t.take(n4), t.skip(n4).take(n5));
                        let m = Module::spec_decode(s)->Ok_0.0;
                        let e0 = NonZeroU16::spec_encode(m.name_idx);
                        let e1 = ModuleFlags::spec_encode(m.flags);
                        let e2 = <Option<NonZeroU16>>::spec_encode(m.version_idx);
                        let d = spec_encode_module_deps(m);
                        let v = spec_encode_module_services(m);
                        assert(e0 + e1 + e2 + d + v =~= (e0 + e1 + e2) + d + v);
                    }
                }
            }
        }
    }
}

} // verus!
