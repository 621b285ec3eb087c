//! Decoding is the exact left inverse of encoding: every 16-byte buffer
//! survives a render/parse round trip unchanged.

use vstd::prelude::*;

use crate::codec::{
    alphabet_char, char_value, char_values, decode_bytes, decode_result, encode_chars,
    first_bad_from, sym, sym_seq, DecodeError, INVALID,
};

verus! {

/// Every five-bit value is below 32 once masked.
pub proof fn lemma_mask31()
    by (bit_vector)
    ensures
        forall|x: u8| #[trigger] (x & 31) < 32,
{
}

/// The reverse lookup undoes the alphabet on every five-bit value.
pub proof fn lemma_alphabet_inverse()
    ensures
        forall|v: u8| v < 32 ==> char_value(#[trigger] alphabet_char(v)) == v,
{
}

/// Reassembling one five-byte block from its eight symbols gives the block
/// back; the symbol values are the encode expressions of the bytes.
proof fn lemma_block_roundtrip(
    e0: u8,
    e1: u8,
    e2: u8,
    e3: u8,
    e4: u8,
    s0: u8,
    s1: u8,
    s2: u8,
    s3: u8,
    s4: u8,
    s5: u8,
    s6: u8,
    s7: u8,
)
    requires
        s0 == (e0 >> 3) & 31,
        s1 == ((e0 << 2) | (e1 >> 6)) & 31,
        s2 == (e1 >> 1) & 31,
        s3 == ((e1 << 4) | (e2 >> 4)) & 31,
        s4 == ((e2 << 1) | (e3 >> 7)) & 31,
        s5 == (e3 >> 2) & 31,
        s6 == ((e3 << 3) | (e4 >> 5)) & 31,
        s7 == e4 & 31,
    ensures
        ((s0 << 3) | (s1 >> 2)) == e0,
        ((s1 << 6) | (s2 << 1) | (s3 >> 4)) == e1,
        ((s3 << 4) | (s4 >> 1)) == e2,
        ((s4 << 7) | (s5 << 2) | (s6 >> 3)) == e3,
        ((s6 << 5) | s7) == e4,
{
    assert(((s0 << 3) | (s1 >> 2)) == e0 && ((s1 << 6) | (s2 << 1) | (s3 >> 4)) == e1 && ((s3
        << 4) | (s4 >> 1)) == e2 && ((s4 << 7) | (s5 << 2) | (s6 >> 3)) == e3 && ((s6 << 5) | s7)
        == e4) by (bit_vector)
        requires
            s0 == (e0 >> 3) & 31,
            s1 == ((e0 << 2) | (e1 >> 6)) & 31,
            s2 == (e1 >> 1) & 31,
            s3 == ((e1 << 4) | (e2 >> 4)) & 31,
            s4 == ((e2 << 1) | (e3 >> 7)) & 31,
            s5 == (e3 >> 2) & 31,
            s6 == ((e3 << 3) | (e4 >> 5)) & 31,
            s7 == e4 & 31,
    ;
}

/// The rendered form of a buffer decodes: it has the right length, the
/// separator in place, and no character outside the alphabet.
proof fn lemma_encode_chars_valid(d: Seq<u8>)
    requires
        d.len() == 16,
    ensures
        first_bad_from(encode_chars(d), 0) == 27,
        char_values(encode_chars(d)) =~= sym_seq(d),
{
    lemma_mask31();
    lemma_alphabet_inverse();
    let s = encode_chars(d);
    assert forall|t: int| 0 <= t < 27 && t != 22 implies char_value(s[t]) != INVALID by {
        let i = if t < 22 { t } else { t - 1 };
        assert(s[t] == alphabet_char(sym(d, i)));
        assert(sym(d, i) < 32);
    }
    crate::codec::lemma_first_bad_from(s, 0, 27);
    assert forall|i: int| 0 <= i < 26 implies char_values(s)[i] == sym_seq(d)[i] by {
        assert(sym(d, i) < 32);
    }
}

/// Round trip: decoding the rendered form of any 16-byte buffer yields that
/// buffer again.
pub proof fn lemma_round_trip(d: Seq<u8>)
    requires
        d.len() == 16,
    ensures
        decode_result(encode_chars(d)) == Ok::<Seq<u8>, DecodeError>(d),
{
    let s = encode_chars(d);
    lemma_encode_chars_valid(d);
    let v = sym_seq(d);
    let d0 = d[0];
    let v0 = v[0];
    let v1 = v[1];
    assert(((v0 << 5) | v1) == d0) by (bit_vector)
        requires
            v0 == (d0 >> 5) & 31,
            v1 == d0 & 31,
    ;
    lemma_block_roundtrip(
        d[1], d[2], d[3], d[4], d[5],
        v[2], v[3], v[4], v[5], v[6], v[7], v[8], v[9],
    );
    lemma_block_roundtrip(
        d[6], d[7], d[8], d[9], d[10],
        v[10], v[11], v[12], v[13], v[14], v[15], v[16], v[17],
    );
    lemma_block_roundtrip(
        d[11], d[12], d[13], d[14], d[15],
        v[18], v[19], v[20], v[21], v[22], v[23], v[24], v[25],
    );
    assert(decode_bytes(v) =~= d);
    assert(decode_result(s) == Ok::<Seq<u8>, DecodeError>(d));
}

} // verus!
