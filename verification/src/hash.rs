//! The content identifier: a 20-byte digest of a byte payload, together
//! with its deterministic computation and its textual form.

use crate::codec::byte_at;
use crate::codec::char_value;
use crate::codec::char_values;
use crate::codec::decoded;
use crate::codec::encoded;
use crate::codec::group_sym;
use crate::codec::is_alphabet_char;
use crate::codec::sym_at;
use crate::codec::text_valid;
use crate::codec::value_code;
use vstd::prelude::*;

verus! {

use vstd::arithmetic::div_mod::lemma_fundamental_div_mod_converse;

/// Number of bytes in a digest.
pub const BYTE_LENGTH: usize = 20;

/// Number of characters in the textual form of a digest.
pub const TEXT_LENGTH: usize = 32;

/// A 20-byte content identifier.  Equal identifiers are exactly those
/// with equal bytes, and a value never changes after construction.
#[derive(Debug, PartialEq, Eq)]
pub struct Hash {
    pub sum: [u8; 20],
}

impl View for Hash {
    type V = Seq<u8>;

    open spec fn view(&self) -> Seq<u8> {
        self.sum@
    }
}

/// Failure to read a textual form back into a `Hash`.
#[derive(Copy, Clone, Debug, PartialEq, Eq)]
pub enum Error {
    InvalidHashSerialization,
}

/// The all-zero digest bytes.
pub open spec fn empty_bytes() -> Seq<u8> {
    Seq::new(20, |i: int| 0u8)
}

/// The 64-byte SHA-512 digest of a byte sequence, as the `sha2` crate
/// computes it: a fixed function of the input bytes alone.
pub uninterp spec fn sha512_of(data: Seq<u8>) -> Seq<u8>;

/// The 20-byte identifier of a payload: its SHA-512 digest cut to the
/// first 20 bytes.
pub open spec fn digest_of(data: Seq<u8>) -> Seq<u8> {
    sha512_of(data).subrange(0, 20)
}

/// Relies on sha2::Sha512 through the Digest trait: the digest is 64
/// bytes long and depends on the input bytes alone.
#[verifier::external_body]
fn sha512(data: &[u8]) -> (r: Vec<u8>)
    ensures
        r@ == sha512_of(data@),
        r@.len() == 64,
{
    <sha2::Sha512 as sha2::Digest>::digest(data).to_vec()
}

/// Relies on String::from_utf8: bytes below 0x80 are valid UTF-8 and
/// decode to one character per byte, with the same code.
#[verifier::external_body]
fn ascii_to_string(bytes: Vec<u8>) -> (r: String)
    requires
        forall|i: int| 0 <= i < bytes@.len() ==> bytes@[i] < 128,
    ensures
        r@ == Seq::new(bytes@.len(), |i: int| bytes@[i] as char),
{
    String::from_utf8(bytes).unwrap_or_default()
}

/// The ASCII code of the alphabet character for a 5-bit value.
fn value_code_exec(v: u8) -> (r: u8)
    requires
        v < 32,
    ensures
        r == value_code(v),
        r < 128,
{
    if v < 10 {
        v + 48
    } else {
        v + 87
    }
}

impl Hash {
    /// The all-zero sentinel identifier.
    pub fn empty() -> (h: Hash)
        ensures
            h@ == empty_bytes(),
    {
        let h = Hash { sum: [0u8; 20] };
        proof {
            assert(h.sum@ =~= empty_bytes());
        }
        h
    }

    /// Wraps 20 known digest bytes.
    pub fn new(sum: [u8; 20]) -> (h: Hash)
        ensures
            h@ == sum@,
    {
        Hash { sum }
    }

    /// The deterministic identifier of a payload: SHA-512, cut to the
    /// first 20 bytes.  Total over all byte sequences, the empty one
    /// included.
    pub fn of(data: &[u8]) -> (h: Hash)
        ensures
            h@ == digest_of(data@),
    {
        let d = sha512(data);
        let mut sum = [0u8; 20];
        let mut i: usize = 0;
        while i < 20
            invariant
                0 <= i <= 20,
                d@ == sha512_of(data@),
                d@.len() == 64,
                forall|k: int| 0 <= k < i ==> sum@[k] == sha512_of(data@)[k],
            decreases 20 - i,
        {
            sum[i] = d[i];
            i += 1;
        }
        proof {
            assert(sum@ =~= digest_of(data@));
        }
        Hash { sum }
    }

    /// Whether this is the all-zero sentinel.
    pub fn is_empty(&self) -> (r: bool)
        ensures
            r == (self@ == empty_bytes()),
    {
        let mut i: usize = 0;
        while i < 20
            invariant
                0 <= i <= 20,
                forall|k: int| 0 <= k < i ==> self@[k] == 0u8,
            decreases 20 - i,
        {
            if self.sum[i] != 0 {
                proof {
                    assert(self@[i as int] != empty_bytes()[i as int]);
                }
                return false;
            }
            i += 1;
        }
        proof {
            assert(self@ =~= empty_bytes());
        }
        true
    }

    /// The 32-character textual form of this identifier: each 5-bit
    /// slice of the 160 bits, high bits first, named by its alphabet
    /// character.
    pub fn encode(&self) -> (r: String)
        ensures
            r@ == encoded(self@),
    {
        let mut out: Vec<u8> = Vec::new();
        let mut g: usize = 0;
        while g < 4
            invariant
                0 <= g <= 4,
                out@.len() == 8 * g,
                forall|j: int| 0 <= j < 8 * g ==> #[trigger] out@[j] == value_code(sym_at(self@, j))
                    && out@[j] < 128,
            decreases 4 - g,
        {
            let b0 = self.sum[5 * g];
            let b1 = self.sum[5 * g + 1];
            let b2 = self.sum[5 * g + 2];
            let b3 = self.sum[5 * g + 3];
            let b4 = self.sum[5 * g + 4];
            let c0 = b0 >> 3;
            let c1 = ((b0 & 7) << 2) | (b1 >> 6);
            let c2 = (b1 >> 1) & 31;
            let c3 = ((b1 & 1) << 4) | (b2 >> 4);
            let c4 = ((b2 & 15) << 1) | (b3 >> 7);
            let c5 = ((b3 >> 2)) & 31;
            let c6 = ((b3 & 3) << 3) | (b4 >> 5);
            let c7 = b4 & 31;
            proof {
                assert(c0 < 32 && c1 < 32 && c2 < 32 && c3 < 32 && c4 < 32 && c5 < 32 && c6 < 32
                    && c7 < 32) by (bit_vector)
                    requires
                        c0 == b0 >> 3,
                        c1 == ((b0 & 7) << 2) | (b1 >> 6),
                        c2 == (b1 >> 1) & 31,
                        c3 == ((b1 & 1) << 4) | (b2 >> 4),
                        c4 == ((b2 & 15) << 1) | (b3 >> 7),
                        c5 == ((b3 >> 2)) & 31,
                        c6 == ((b3 & 3) << 3) | (b4 >> 5),
                        c7 == b4 & 31,
                ;
                assert forall|n: int| 0 <= n < 8 implies sym_at(self@, 8 * (g as int) + n)
                    == group_sym(self@, g as int, n) by {
                    lemma_fundamental_div_mod_converse(8 * (g as int) + n, 8, g as int, n);
                }
            }
            out.push(value_code_exec(c0));
            out.push(value_code_exec(c1));
            out.push(value_code_exec(c2));
            out.push(value_code_exec(c3));
            out.push(value_code_exec(c4));
            out.push(value_code_exec(c5));
            out.push(value_code_exec(c6));
            out.push(value_code_exec(c7));
            g += 1;
        }
        let s = ascii_to_string(out);
        proof {
            assert(s@ =~= encoded(self@));
        }
        s
    }

    /// Reads a textual form back.  Returns the named identifier exactly
    /// for 32-character strings over the alphabet; any other input gives
    /// `Error::InvalidHashSerialization`, and nothing panics.
    pub fn parse(s: &str) -> (r: Result<Hash, Error>)
        ensures
            r is Ok <==> text_valid(s@),
            r matches Ok(h) ==> h@ == decoded(s@),
            r matches Err(e) ==> e == Error::InvalidHashSerialization,
    {
        let bytes: &[u8] = s.as_bytes();
        if !s.is_ascii() {
            proof {
                let i = choose|i: int| !(0 <= i < s@.len() ==> '\0' <= #[trigger] s@[i] <= '\u{7f}');
                assert(!is_alphabet_char(s@[i]));
            }
            return Err(Error::InvalidHashSerialization);
        }
        proof {
            vstd::string::is_ascii_spec_bytes(s);
        }
        if bytes.len() != 32 {
            return Err(Error::InvalidHashSerialization);
        }
        let mut vals: Vec<u8> = Vec::new();
        let mut j: usize = 0;
        while j < 32
            invariant
                0 <= j <= 32,
                s@.len() == 32,
                bytes@ == Seq::new(s@.len(), |i: int| s@[i] as u8),
                forall|i: int| 0 <= i < 32 ==> '\0' <= #[trigger] s@[i] <= '\u{7f}',
                vals@.len() == j,
                forall|k: int| 0 <= k < j ==> is_alphabet_char(#[trigger] s@[k]) && vals@[k]
                    == char_value(s@[k]),
            decreases 32 - j,
        {
            let b = bytes[j];
            let v: u8;
            if 48 <= b && b <= 57 {
                v = b - 48;
            } else if 97 <= b && b <= 118 {
                v = b - 87;
            } else {
                proof {
                    assert(!is_alphabet_char(s@[j as int]));
                }
                return Err(Error::InvalidHashSerialization);
            }
            proof {
                assert(is_alphabet_char(s@[j as int]) && v == char_value(s@[j as int]));
            }
            vals.push(v);
            j += 1;
        }
        proof {
            assert(vals@ =~= char_values(s@));
        }
        let mut sum = [0u8; 20];
        let mut g: usize = 0;
        while g < 4
            invariant
                0 <= g <= 4,
                text_valid(s@),
                vals@ == char_values(s@),
                vals@.len() == 32,
                forall|i: int| 0 <= i < 5 * g ==> #[trigger] sum@[i] == byte_at(char_values(s@), i),
            decreases 4 - g,
        {
            let c0 = vals[8 * g];
            let c1 = vals[8 * g + 1];
            let c2 = vals[8 * g + 2];
            let c3 = vals[8 * g + 3];
            let c4 = vals[8 * g + 4];
            let c5 = vals[8 * g + 5];
            let c6 = vals[8 * g + 6];
            let c7 = vals[8 * g + 7];
            sum[5 * g] = (c0 << 3) | (c1 >> 2);
            sum[5 * g + 1] = ((c1 & 3) << 6) | (c2 << 1) | (c3 >> 4);
            sum[5 * g + 2] = ((c3 & 15) << 4) | (c4 >> 1);
            sum[5 * g + 3] = ((c4 & 1) << 7) | (c5 << 2) | (c6 >> 3);
            sum[5 * g + 4] = ((c6 & 7) << 5) | c7;
            proof {
                assert forall|m: int| 0 <= m < 5 implies byte_at(
                    char_values(s@),
                    5 * (g as int) + m,
                ) == crate::codec::group_byte(char_values(s@), g as int, m) by {
                    lemma_fundamental_div_mod_converse(5 * (g as int) + m, 5, g as int, m);
                }
            }
            g += 1;
        }
        proof {
            assert(sum@ =~= decoded(s@));
        }
        Ok(Hash { sum })
    }
}

/// The identifier is deterministic: equal payloads always receive the
/// same digest.  (That distinct payloads receive distinct digests is the
/// usual collision-resistance assumption on SHA-512; it is assumed, not
/// stated.)
pub proof fn lemma_digest_deterministic(x: Seq<u8>, y: Seq<u8>)
    requires
        x == y,
    ensures
        digest_of(x) == digest_of(y),
{
}

} // verus!
