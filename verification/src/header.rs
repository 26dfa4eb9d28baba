use vstd::prelude::*;
use vstd::string::StringExecFns;

use crate::util::{lemma_progress_start, put, Buf, BufMut, Codec, Decode, Encode};
use crate::Error;

verus! {

/// The magic number that starts every classfile.
pub const MAGIC: u32 = 0xCAFEBABE;

/// Header of a classfile.
#[derive(Debug, Clone, Copy, PartialEq, Eq, PartialOrd, Ord, Hash)]
pub struct ClassfileHeader {
    /// The version numbers of the classfile format.
    pub version: Version,
}

/// Versioning information of a classfile.
#[derive(Debug, Clone, Copy, PartialEq, Eq, PartialOrd, Ord, Hash)]
pub struct Version {
    /// Major version number of the classfile.
    pub major: u16,
    /// Minor version number of the classfile.
    pub minor: u16,
}

/// The character of the decimal digit `d`.
pub open spec fn digit_char(d: nat) -> char {
    if d == 0 {
        '0'
    } else if d == 1 {
        '1'
    } else if d == 2 {
        '2'
    } else if d == 3 {
        '3'
    } else if d == 4 {
        '4'
    } else if d == 5 {
        '5'
    } else if d == 6 {
        '6'
    } else if d == 7 {
        '7'
    } else if d == 8 {
        '8'
    } else {
        '9'
    }
}

/// The decimal digits of `n`, the most significant first, with no leading zero.
pub open spec fn decimal(n: nat) -> Seq<char>
    decreases n,
{
    if n < 10 {
        seq![digit_char(n)]
    } else {
        decimal(n / 10) + seq![digit_char(n % 10)]
    }
}

/// The text of the decimal digit `d`.
fn digit_str(d: u16) -> (r: &'static str)
    requires
        d < 10,
    ensures
        r@ == seq![digit_char(d as nat)],
{
    proof {
        reveal_strlit("0");
        reveal_strlit("1");
        reveal_strlit("2");
        reveal_strlit("3");
        reveal_strlit("4");
        reveal_strlit("5");
        reveal_strlit("6");
        reveal_strlit("7");
        reveal_strlit("8");
        reveal_strlit("9");
    }
    match d {
        0 => "0",
        1 => "1",
        2 => "2",
        3 => "3",
        4 => "4",
        5 => "5",
        6 => "6",
        7 => "7",
        8 => "8",
        _ => "9",
    }
}

/// Appends the decimal digits of `n` to `out`.
fn append_decimal(out: &mut String, n: u16)
    ensures
        final(out)@ == old(out)@ + decimal(n as nat),
    decreases n,
{
    if n >= 10 {
        append_decimal(out, n / 10);
    }
    out.append(digit_str(n % 10));
    proof {
        assert(old(out)@ + decimal((n / 10) as nat) + seq![digit_char((n % 10) as nat)] =~= old(
            out,
        )@ + (decimal((n / 10) as nat) + seq![digit_char((n % 10) as nat)]));
    }
}

impl Version {
    /// The version as text: the major number, a dot, then the minor number, both
    /// in decimal.
    pub fn text(&self) -> (r: String)
        ensures
            r@ == decimal(self.major as nat) + seq!['.'] + decimal(self.minor as nat),
    {
        let mut out = String::new();
        append_decimal(&mut out, self.major);
        proof {
            reveal_strlit(".");
        }
        out.append(".");
        append_decimal(&mut out, self.minor);
        proof {
            assert(Seq::<char>::empty() + decimal(self.major as nat) =~= decimal(self.major as nat));
        }
        out
    }
}

impl View for Version {
    type V = Version;

    open spec fn view(&self) -> Version {
        *self
    }
}

impl View for ClassfileHeader {
    type V = ClassfileHeader;

    open spec fn view(&self) -> ClassfileHeader {
        *self
    }
}

impl<'de> Decode<'de> for Version {
    /// The minor version, then the major version.
    open spec fn spec_decode(s: Seq<u8>) -> Result<(Version, int), Error> {
        match u16::spec_decode(s) {
            Err(e) => Err(e),
            Ok((minor, n1)) => match u16::spec_decode(s.skip(n1)) {
                Err(e) => Err(e),
                Ok((major, n2)) => Ok((Version { major, minor }, n1 + n2)),
            },
        }
    }

    open spec fn decode_requires(s: Seq<u8>) -> bool {
        true
    }

    fn decode<B: Buf<'de>>(buf: &mut B) -> (r: Result<Version, Error>) {
        let minor = u16::decode(buf)?;
        let major = u16::decode(buf)?;
        Ok(Version { major, minor })
    }
}

impl Encode for Version {
    open spec fn spec_encode(v: Version) -> Seq<u8> {
        u16::spec_encode(v.minor) + u16::spec_encode(v.major)
    }

    open spec fn encodable(v: Version) -> bool {
        true
    }

    open spec fn encode_requires(v: Version) -> bool {
        true
    }

    fn encode<B: BufMut>(&self, buf: &mut B) -> (r: Result<(), Error>) {
        let ghost b0 = *buf;
        let ghost total = Self::spec_encode(*self);
        proof {
            lemma_progress_start(b0);
        }
        put(buf, &self.minor, Ghost(b0), Ghost(Seq::empty()), Ghost(total))?;
        put(buf, &self.major, Ghost(b0), Ghost(Seq::empty() + u16::spec_encode(self.minor)), Ghost(total))?;
        assert(Seq::empty() + u16::spec_encode(self.minor) + u16::spec_encode(self.major) =~= total);
        Ok(())
    }
}

impl<'de> Codec<'de> for Version {
    open spec fn wf(v: Version) -> bool {
        true
    }

    proof fn lemma_codec(v: Version, rest: Seq<u8>) {
        let a = u16::spec_encode(v.minor);
        let b = u16::spec_encode(v.major);
        assert(a + b + rest =~= a + (b + rest));
        u16::lemma_codec(v.minor, b + rest);
        u16::lemma_codec(v.major, rest);
    }
}

impl<'de> Decode<'de> for ClassfileHeader {
    /// The magic number, which must be `MAGIC`, then the version.
    open spec fn spec_decode(s: Seq<u8>) -> Result<(ClassfileHeader, int), Error> {
        match u32::spec_decode(s) {
            Err(e) => Err(e),
            Ok((magic, n1)) => if magic != MAGIC {
                Err(Error::MalformedMagic(magic))
            } else {
                match Version::spec_decode(s.skip(n1)) {
                    Err(e) => Err(e),
                    Ok((version, n2)) => Ok((ClassfileHeader { version }, n1 + n2)),
                }
            },
        }
    }

    open spec fn decode_requires(s: Seq<u8>) -> bool {
        true
    }

    fn decode<B: Buf<'de>>(buf: &mut B) -> (r: Result<ClassfileHeader, Error>) {
        let magic = u32::decode(buf)?;
        if magic != MAGIC {
            return Err(Error::MalformedMagic(magic));
        }
        let version = Version::decode(buf)?;
        Ok(ClassfileHeader { version })
    }
}

impl Encode for ClassfileHeader {
    open spec fn spec_encode(v: ClassfileHeader) -> Seq<u8> {
        u32::spec_encode(MAGIC) + Version::spec_encode(v.version)
    }

    open spec fn encodable(v: ClassfileHeader) -> bool {
        true
    }

    open spec fn encode_requires(v: ClassfileHeader) -> bool {
        true
    }

    fn encode<B: BufMut>(&self, buf: &mut B) -> (r: Result<(), Error>) {
        let ghost b0 = *buf;
        let ghost total = Self::spec_encode(*self);
        proof {
            lemma_progress_start(b0);
        }
        put(buf, &MAGIC, Ghost(b0), Ghost(Seq::empty()), Ghost(total))?;
        put(buf, &self.version, Ghost(b0), Ghost(Seq::empty() + u32::spec_encode(MAGIC)), Ghost(total))?;
        assert(Seq::empty() + u32::spec_encode(MAGIC) + Version::spec_encode(self.version) =~= total);
        Ok(())
    }
}

impl<'de> Codec<'de> for ClassfileHeader {
    open spec fn wf(v: ClassfileHeader) -> bool {
        true
    }

    proof fn lemma_codec(v: ClassfileHeader, rest: Seq<u8>) {
        let a = u32::spec_encode(MAGIC);
        let b = Version::spec_encode(v.version);
        assert(a + b + rest =~= a + (b + rest));
        u32::lemma_codec(MAGIC, b + rest);
        Version::lemma_codec(v.version, rest);
    }
}

} // verus!
