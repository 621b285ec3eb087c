//! The identifier value: 16 bytes, immutable, ordered bytewise (big-endian,
//! most significant byte first), rendered through the base32 codec.
//!
//! The high six bytes of a generated identifier hold a millisecond
//! timestamp, the rest randomness; see `monotonic` for stateful generation.

use vstd::prelude::*;

use crate::bigend::{
    be_val, lemma_be_val6, lemma_be_val8, lemma_be_val_concat, lemma_increment_val,
    lemma_lex_iff_val, lex_lt,
};
use crate::codec::{base32_decode, base32_encode, encode_chars, DecodeError, SHORT_LENGTH};

verus! {

/// Every byte is 255: the one value that `increment` cannot take.
pub open spec fn is_max(s: Seq<u8>) -> bool {
    forall|i: int| 0 <= i < s.len() ==> s[i] == 255
}

/// Every byte is zero: the null identifier.
pub open spec fn is_zero(s: Seq<u8>) -> bool {
    forall|i: int| 0 <= i < s.len() ==> s[i] == 0
}

/// The millisecond timestamp held in the high six bytes of an identifier.
pub open spec fn timestamp_of(s: Seq<u8>) -> nat {
    be_val(s.take(6), 256)
}

/// One accumulation step of reading a big-endian prefix: the value of the
/// first `i` bytes extends the value of the first `i - 1` by one digit.
proof fn lemma_take_step(s: Seq<u8>, i: int)
    requires
        1 <= i <= s.len(),
    ensures
        be_val(s.take(i), 256) == be_val(s.take(i - 1), 256) * 256 + s[i - 1],
{
    assert(s.take(i).drop_last() =~= s.take(i - 1));
    assert(s.take(i).last() == s[i - 1]);
}

/// A 16-byte sortable identifier.
///
/// Equality and order are the bytewise (big-endian) equality and order of
/// the underlying buffer.
#[derive(Debug, Clone, Copy, PartialEq, Eq, PartialOrd, Ord, Hash)]
pub struct Oid {
    data: [u8; 16],
}

impl View for Oid {
    type V = Seq<u8>;

    closed spec fn view(&self) -> Seq<u8> {
        self.data@
    }
}

impl Oid {
    /// The null identifier: all 16 bytes zero.
    pub fn null() -> (r: Oid)
        ensures
            is_zero(r@),
            r@.len() == 16,
    {
        Oid { data: [0; 16] }
    }

    /// An identifier over the given bytes, unvalidated: every 16-byte buffer
    /// is a well-formed identifier.
    pub fn from_bytes(data: [u8; 16]) -> (r: Oid)
        ensures
            r@ == data@,
    {
        Oid { data }
    }

    /// The identifier's bytes, borrowed.
    pub fn data(&self) -> (r: &[u8; 16])
        ensures
            r@ == self@,
    {
        &self.data
    }

    /// The identifier's bytes, owned; also its interchange form as a
    /// standard 128-bit universally-unique-identifier byte layout.
    pub fn into_bytes(self) -> (r: [u8; 16])
        ensures
            r@ == self@,
    {
        self.data
    }

    /// Whether this is the null identifier.
    pub fn is_null(&self) -> (r: bool)
        ensures
            r <==> is_zero(self@),
    {
        let mut i: usize = 0;
        while i < 16
            invariant
                0 <= i <= 16,
                self@.len() == 16,
                forall|k: int| 0 <= k < i ==> self@[k] == 0,
            decreases 16 - i,
        {
            if self.data[i] != 0 {
                return false;
            }
            i += 1;
        }
        true
    }

    /// The rendered form: 26 symbols with the separator, 27 characters.
    pub fn render(&self) -> (r: String)
        ensures
            r@ == encode_chars(self@),
            r@.len() == 27,
    {
        base32_encode(self.data)
    }

    /// The short display form: only the last four symbols of the rendered
    /// form. Lossy by design; it cannot be parsed back.
    pub fn short(&self) -> (r: String)
        ensures
            r@ == encode_chars(self@).subrange(23, 27),
    {
        let encoded = base32_encode(self.data);
        let tail = encoded.as_str().substring_char(SHORT_LENGTH + 1, 27);
        tail.to_owned()
    }

    /// Parses a rendered form back to an identifier; the label-aware
    /// front-end is `label::parse`.
    pub fn from_text(input: &str) -> (r: Result<Oid, DecodeError>)
        ensures
            match r {
                Ok(o) => crate::codec::decode_result(input@) == Ok::<Seq<u8>, DecodeError>(o@),
                Err(e) => crate::codec::decode_result(input@) == Err::<Seq<u8>, DecodeError>(e),
            },
    {
        match base32_decode(input) {
            Ok(data) => Ok(Oid { data }),
            Err(e) => Err(e),
        }
    }

    /// The high eight bytes as one big-endian word: the millisecond
    /// timestamp in the top 48 bits, 16 random bits below it.
    pub fn timestamp(&self) -> (r: u64)
        ensures
            r == be_val(self@.take(8), 256),
    {
        let d = &self.data;
        let mut r: u64 = d[0] as u64;
        proof {
            lemma_take_step(self@, 1);
            assert(self@.take(1).drop_last().len() == 0);
            assert(be_val(self@.take(1).drop_last(), 256) == 0);
            assert(r == be_val(self@.take(1), 256));
        }
        r = r * 256 + (d[1] as u64);
        proof {
            lemma_take_step(self@, 2);
        }
        r = r * 256 + (d[2] as u64);
        proof {
            lemma_take_step(self@, 3);
        }
        r = r * 256 + (d[3] as u64);
        proof {
            lemma_take_step(self@, 4);
        }
        r = r * 256 + (d[4] as u64);
        proof {
            lemma_take_step(self@, 5);
        }
        r = r * 256 + (d[5] as u64);
        proof {
            lemma_take_step(self@, 6);
        }
        r = r * 256 + (d[6] as u64);
        proof {
            lemma_take_step(self@, 7);
        }
        r = r * 256 + (d[7] as u64);
        proof {
            lemma_take_step(self@, 8);
        }
        r
    }

    /// The millisecond timestamp: the high six bytes as one big-endian
    /// 48-bit value.
    pub fn timestamp_millis(&self) -> (r: u64)
        ensures
            r == timestamp_of(self@),
            r < 0x1_0000_0000_0000,
    {
        let d = &self.data;
        let mut r: u64 = d[0] as u64;
        proof {
            lemma_take_step(self@, 1);
            assert(self@.take(1).drop_last().len() == 0);
            assert(be_val(self@.take(1).drop_last(), 256) == 0);
            assert(r == be_val(self@.take(1), 256));
        }
        r = r * 256 + (d[1] as u64);
        proof {
            lemma_take_step(self@, 2);
        }
        r = r * 256 + (d[2] as u64);
        proof {
            lemma_take_step(self@, 3);
        }
        r = r * 256 + (d[3] as u64);
        proof {
            lemma_take_step(self@, 4);
        }
        r = r * 256 + (d[4] as u64);
        proof {
            lemma_take_step(self@, 5);
        }
        r = r * 256 + (d[5] as u64);
        proof {
            lemma_take_step(self@, 6);
        }
        r
    }

    /// The next identifier in byte order: the buffer read as one big-endian
    /// integer, plus one. The all-255 buffer is excluded: there the order is
    /// exhausted and no next value exists.
    pub fn increment(&self) -> (r: Oid)
        requires
            !is_max(self@),
        ensures
            r@.len() == 16,
            be_val(r@, 256) == be_val(self@, 256) + 1,
    {
        let mut data = self.data;
        let mut i: usize = 15;
        while data[i] == 255
            invariant
                0 <= i <= 15,
                self@.len() == 16,
                data@.len() == 16,
                forall|k: int| i < k < 16 ==> self@[k] == 255,
                forall|k: int| i < k < 16 ==> data@[k] == 0,
                forall|k: int| 0 <= k <= i ==> data@[k] == self@[k],
                !is_max(self@),
            decreases i,
        {
            proof {
                if i == 0 {
                    assert forall|k: int| 0 <= k < 16 implies self@[k] == 255 by {}
                    assert(false);
                }
            }
            data[i] = 0;
            i = i - 1;
        }
        data[i] = data[i] + 1;
        let r = Oid { data };
        proof {
            lemma_increment_val(self@, r@, i as int);
        }
        r
    }

    /// Whether every byte is 255, so that no identifier orders above this
    /// one and `increment` has nowhere to go.
    pub fn is_max(&self) -> (r: bool)
        ensures
            r <==> is_max(self@),
    {
        let mut i: usize = 0;
        while i < 16
            invariant
                0 <= i <= 16,
                self@.len() == 16,
                forall|k: int| 0 <= k < i ==> self@[k] == 255,
            decreases 16 - i,
        {
            if self.data[i] != 255 {
                return false;
            }
            i += 1;
        }
        true
    }

    /// A fresh identifier laid out from its parts: the millisecond
    /// timestamp in the high 48 bits, sixteen random bits below it, and a
    /// fully random low word, all big-endian — so byte order equals
    /// timestamp order first, random order second.
    pub fn from_timestamp_and_random(timestamp: u64, rand_high: u16, rand_low: u64) -> (r: Oid)
        requires
            timestamp < 0x1_0000_0000_0000,
        ensures
            r@.len() == 16,
            timestamp_of(r@) == timestamp,
            be_val(r@, 256) == timestamp * 0x1_0000_0000_0000_0000_0000 + rand_high
                * 0x1_0000_0000_0000_0000 + rand_low,
    {
        let q4 = timestamp / 256;
        let q3 = q4 / 256;
        let q2 = q3 / 256;
        let q1 = q2 / 256;
        let q0 = q1 / 256;
        let d0 = q0 as u8;
        let d1 = (q1 % 256) as u8;
        let d2 = (q2 % 256) as u8;
        let d3 = (q3 % 256) as u8;
        let d4 = (q4 % 256) as u8;
        let d5 = (timestamp % 256) as u8;
        let d6 = (rand_high / 256) as u8;
        let d7 = (rand_high % 256) as u8;
        let w6 = rand_low / 256;
        let w5 = w6 / 256;
        let w4 = w5 / 256;
        let w3 = w4 / 256;
        let w2 = w3 / 256;
        let w1 = w2 / 256;
        let w0 = w1 / 256;
        let d8 = w0 as u8;
        let d9 = (w1 % 256) as u8;
        let d10 = (w2 % 256) as u8;
        let d11 = (w3 % 256) as u8;
        let d12 = (w4 % 256) as u8;
        let d13 = (w5 % 256) as u8;
        let d14 = (w6 % 256) as u8;
        let d15 = (rand_low % 256) as u8;
        let data: [u8; 16] = [
            d0,
            d1,
            d2,
            d3,
            d4,
            d5,
            d6,
            d7,
            d8,
            d9,
            d10,
            d11,
            d12,
            d13,
            d14,
            d15,
        ];
        let r = Oid { data };
        proof {
            crate::bigend::lemma_pow256_vals();
            let t = r@.take(6);
            let h = r@.subrange(6, 8);
            let l = r@.subrange(8, 16);
            assert(r@ =~= (t + h) + l);
            lemma_be_val_concat(t, h, 256);
            lemma_be_val_concat(t + h, l, 256);
            lemma_be_val6(t, 256);
            crate::bigend::lemma_be_val2(h, 256);
            lemma_be_val8(l, 256);
            assert(q0 < 256);
            assert(d0 == q0 && q1 == q0 * 256 + d1 && q2 == q1 * 256 + d2 && q3 == q2 * 256 + d3
                && q4 == q3 * 256 + d4 && timestamp == q4 * 256 + d5);
            assert(be_val(t, 256) == timestamp);
            assert(rand_high == d6 * 256 + d7);
            assert(be_val(h, 256) == rand_high);
            assert(w0 < 256);
            assert(d8 == w0 && w1 == w0 * 256 + d9 && w2 == w1 * 256 + d10 && w3 == w2 * 256 + d11
                && w4 == w3 * 256 + d12 && w5 == w4 * 256 + d13 && w6 == w5 * 256 + d14 && rand_low
                == w6 * 256 + d15);
            assert(be_val(l, 256) == rand_low);
            let vt = be_val(t, 256);
            let vh = be_val(h, 256);
            assert((vt * 0x1_0000 + vh) * 0x1_0000_0000_0000_0000 == vt
                * 0x1_0000_0000_0000_0000_0000 + vh * 0x1_0000_0000_0000_0000) by (nonlinear_arith);
        }
        r
    }

    /// Bytewise comparison; `Less` exactly when this identifier's rendered
    /// form is the smaller string.
    pub fn compare(&self, other: &Oid) -> (r: core::cmp::Ordering)
        ensures
            r == core::cmp::Ordering::Equal <==> self@ == other@,
            r == core::cmp::Ordering::Less <==> lex_lt(self@, other@),
            r == core::cmp::Ordering::Greater <==> lex_lt(other@, self@),
    {
        let mut i: usize = 0;
        while i < 16
            invariant
                0 <= i <= 16,
                self@.len() == 16,
                other@.len() == 16,
                forall|k: int| 0 <= k < i ==> self@[k] == other@[k],
            decreases 16 - i,
        {
            if self.data[i] < other.data[i] {
                proof {
                    assert(crate::ordering::diff_at(self@, other@, i as int));
                    crate::ordering::lemma_lex_first_diff(self@, other@);
                    lemma_lex_iff_val(self@, other@, 256);
                    lemma_lex_iff_val(other@, self@, 256);
                    assert(lex_lt(self@, other@));
                    assert(!lex_lt(other@, self@));
                    assert(self@ != other@);
                }
                return core::cmp::Ordering::Less;
            }
            if self.data[i] > other.data[i] {
                proof {
                    assert(crate::ordering::diff_at(other@, self@, i as int));
                    crate::ordering::lemma_lex_first_diff(other@, self@);
                    lemma_lex_iff_val(self@, other@, 256);
                    lemma_lex_iff_val(other@, self@, 256);
                    assert(lex_lt(other@, self@));
                    assert(!lex_lt(self@, other@));
                    assert(self@ != other@);
                }
                return core::cmp::Ordering::Greater;
            }
            i += 1;
        }
        proof {
            assert(self@ =~= other@);
            lemma_lex_iff_val(self@, other@, 256);
            lemma_lex_iff_val(other@, self@, 256);
        }
        core::cmp::Ordering::Equal
    }
}

/// The standard universally-unique-identifier type, declared so that the
/// interchange conversion below can hand one out.
#[verifier::external_type_specification]
#[verifier::external_body]
pub struct ExUuid(uuid::Uuid);

impl Oid {
    /// The identifier as a standard 128-bit universally unique identifier.
    ///
    /// Relies on uuid::Uuid::from_bytes: a straight reinterpretation of the
    /// same 16 bytes in the same order, no transformation. Nothing about
    /// the opaque result is stated here; the byte form itself is
    /// `into_bytes`.
    #[verifier::external_body]
    pub fn uuid(&self) -> uuid::Uuid {
        uuid::Uuid::from_bytes(self.data)
    }
}

/// The marker of the unlabeled identifier family: its label text is empty,
/// so its rendered forms are the bare 27-character bodies.
pub struct NoLabel;

impl NoLabel {
    /// The empty label text of the unlabeled family.
    pub fn label() -> (r: &'static str)
        ensures
            r@ == Seq::<char>::empty(),
    {
        proof {
            reveal_strlit("");
            assert(""@ =~= Seq::<char>::empty());
        }
        ""
    }

    /// A fresh unlabeled identifier from the system clock and fresh
    /// randomness.
    pub fn oid() -> (r: Option<Oid>)
        ensures
            r matches Some(o) ==> o@.len() == 16 && timestamp_of(o@) < 0x1_0000_0000_0000,
    {
        new_oid()
    }
}

/// A fresh identifier: the system clock's milliseconds since the Unix epoch
/// in the high 48 bits, random bits below, so later identifiers order after
/// earlier ones. `None` only when the clock reads at or past the 48-bit
/// millisecond ceiling (around the year 10889): that is a clock defect, not
/// retried here.
pub fn new_oid() -> (r: Option<Oid>)
    ensures
        r matches Some(o) ==> o@.len() == 16 && timestamp_of(o@) < 0x1_0000_0000_0000,
{
    let timestamp = crate::sys::unix_epoch_millis();
    if timestamp >= 0x1_0000_0000_0000 {
        return None;
    }
    let rand_high = crate::sys::random_u16();
    let rand_low = crate::sys::random_u64();
    Some(Oid::from_timestamp_and_random(timestamp, rand_high, rand_low))
}

} // verus!
