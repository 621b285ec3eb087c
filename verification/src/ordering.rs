//! Order preservation: two 16-byte buffers compare (bytewise) exactly as
//! their rendered forms compare (as strings).
//!
//! The proof goes through numeric values: bytewise order is the order of the
//! base-256 value, the 26 symbols carry the same value in base 32, symbolwise
//! order is the order of that value, and the alphabet maps symbol order to
//! character order while the shared separator never decides a comparison.

use vstd::prelude::*;

use vstd::arithmetic::power::pow;

use crate::bigend::{
    all_below, be_val, lemma_be_val2, lemma_be_val5, lemma_be_val8, lemma_be_val_concat,
    lemma_lex_iff_val, lex_lt,
};
use crate::codec::{alphabet_char, encode_chars, sym, sym_seq};
use crate::roundtrip::{lemma_alphabet_inverse, lemma_mask31};

verus! {

/// Strict lexicographic order on character strings, by character code: the
/// first differing character decides; a proper prefix comes first.
pub open spec fn str_lt(a: Seq<char>, b: Seq<char>) -> bool
    decreases a.len(),
{
    if b.len() == 0 {
        false
    } else if a.len() == 0 {
        true
    } else if (a.first() as u32) < (b.first() as u32) {
        true
    } else if a.first() == b.first() {
        str_lt(a.drop_first(), b.drop_first())
    } else {
        false
    }
}

/// Position `j` is the first difference of `a` and `b`, and `a` is smaller
/// there.
pub open spec fn diff_at(a: Seq<u8>, b: Seq<u8>, j: int) -> bool {
    &&& 0 <= j < a.len()
    &&& j < b.len()
    &&& (forall|k: int| 0 <= k < j ==> a[k] == b[k])
    &&& a[j] < b[j]
}

/// Position `j` is the first difference of character strings `a` and `b`,
/// and `a` is smaller there.
pub open spec fn char_diff_at(a: Seq<char>, b: Seq<char>, j: int) -> bool {
    &&& 0 <= j < a.len()
    &&& j < b.len()
    &&& (forall|k: int| 0 <= k < j ==> a[k] == b[k])
    &&& (a[j] as u32) < (b[j] as u32)
}

/// On equal-length digit strings, lexicographic order means: some position
/// is a first difference in `a`'s favour.
pub(crate) proof fn lemma_lex_first_diff(a: Seq<u8>, b: Seq<u8>)
    requires
        a.len() == b.len(),
    ensures
        lex_lt(a, b) <==> exists|j: int| #[trigger] diff_at(a, b, j),
    decreases a.len(),
{
    if a.len() == 0 {
        assert(!lex_lt(a, b));
        assert(forall|j: int| !#[trigger] diff_at(a, b, j));
    } else if a.first() < b.first() {
        assert(diff_at(a, b, 0));
    } else if a.first() == b.first() {
        let ta = a.drop_first();
        let tb = b.drop_first();
        lemma_lex_first_diff(ta, tb);
        if lex_lt(a, b) {
            let j = choose|j: int| #[trigger] diff_at(ta, tb, j);
            assert forall|k: int| 0 <= k < j + 1 implies a[k] == b[k] by {
                if k >= 1 {
                    assert(ta[k - 1] == tb[k - 1]);
                }
            }
            assert(a[j + 1] == ta[j] && b[j + 1] == tb[j]);
            assert(diff_at(a, b, j + 1));
        }
        if exists|j: int| #[trigger] diff_at(a, b, j) {
            let j = choose|j: int| #[trigger] diff_at(a, b, j);
            assert(j != 0);
            assert(forall|k: int| 0 <= k < j - 1 ==> ta[k] == tb[k]);
            assert(diff_at(ta, tb, j - 1));
        }
    } else {
        assert(!lex_lt(a, b));
        assert forall|j: int| !#[trigger] diff_at(a, b, j) by {
            if 0 < j < a.len() {
                assert(diff_at(a, b, j) ==> a[0] == b[0]);
            }
        }
    }
}

/// The same characterization for character strings of equal length.
proof fn lemma_str_first_diff(a: Seq<char>, b: Seq<char>)
    requires
        a.len() == b.len(),
    ensures
        str_lt(a, b) <==> exists|j: int| #[trigger] char_diff_at(a, b, j),
    decreases a.len(),
{
    if a.len() == 0 {
        assert(!str_lt(a, b));
        assert(forall|j: int| !#[trigger] char_diff_at(a, b, j));
    } else if (a.first() as u32) < (b.first() as u32) {
        assert(char_diff_at(a, b, 0));
    } else if a.first() == b.first() {
        let ta = a.drop_first();
        let tb = b.drop_first();
        lemma_str_first_diff(ta, tb);
        if str_lt(a, b) {
            let j = choose|j: int| #[trigger] char_diff_at(ta, tb, j);
            assert forall|k: int| 0 <= k < j + 1 implies a[k] == b[k] by {
                if k >= 1 {
                    assert(ta[k - 1] == tb[k - 1]);
                }
            }
            assert(a[j + 1] == ta[j] && b[j + 1] == tb[j]);
            assert(char_diff_at(a, b, j + 1));
        }
        if exists|j: int| #[trigger] char_diff_at(a, b, j) {
            let j = choose|j: int| #[trigger] char_diff_at(a, b, j);
            assert(j != 0);
            assert(forall|k: int| 0 <= k < j - 1 ==> ta[k] == tb[k]);
            assert(char_diff_at(ta, tb, j - 1));
        }
    } else {
        assert(!str_lt(a, b));
        assert forall|j: int| !#[trigger] char_diff_at(a, b, j) by {
            if 0 < j < a.len() {
                assert(char_diff_at(a, b, j) ==> a[0] == b[0]);
            }
        }
    }
}

/// The alphabet is strictly increasing by character code.
proof fn lemma_alphabet_monotone(v1: u8, v2: u8)
    requires
        v1 < v2,
        v2 < 32,
    ensures
        (alphabet_char(v1) as u32) < (alphabet_char(v2) as u32),
    decreases v2 - v1,
{
    if v2 != v1 + 1 {
        lemma_alphabet_monotone(v1, (v2 - 1) as u8);
        lemma_alphabet_monotone((v2 - 1) as u8, v2);
    }
}

/// Symbolwise order of two buffers is the character order of their rendered
/// forms: the separator sits at the same place in both and the alphabet is
/// order-preserving.
proof fn lemma_sym_lex_iff_str_lt(a: Seq<u8>, b: Seq<u8>)
    requires
        a.len() == 16,
        b.len() == 16,
    ensures
        lex_lt(sym_seq(a), sym_seq(b)) <==> str_lt(encode_chars(a), encode_chars(b)),
{
    lemma_mask31();
    lemma_alphabet_inverse();
    let va = sym_seq(a);
    let vb = sym_seq(b);
    let sa = encode_chars(a);
    let sb = encode_chars(b);
    lemma_lex_first_diff(va, vb);
    lemma_str_first_diff(sa, sb);
    if lex_lt(va, vb) {
        let j = choose|j: int| #[trigger] diff_at(va, vb, j);
        let j2 = if j < 22 {
            j
        } else {
            j + 1
        };
        assert forall|k: int| 0 <= k < j2 implies sa[k] == sb[k] by {
            if k != 22 {
                let k2 = if k < 22 {
                    k
                } else {
                    k - 1
                };
                assert(va[k2] == vb[k2]);
            }
        }
        lemma_alphabet_monotone(sym(a, j), sym(b, j));
        assert(char_diff_at(sa, sb, j2));
    }
    if str_lt(sa, sb) {
        let j2 = choose|j: int| #[trigger] char_diff_at(sa, sb, j);
        assert(j2 != 22);
        let j = if j2 < 22 {
            j2
        } else {
            j2 - 1
        };
        assert forall|k: int| 0 <= k < j implies va[k] == vb[k] by {
            let k2 = if k < 22 {
                k
            } else {
                k + 1
            };
            assert(sa[k2] == sb[k2]);
            assert(alphabet_char(sym(a, k)) == alphabet_char(sym(b, k)));
            assert(sym(a, k) < 32 && sym(b, k) < 32);
        }
        assert(sym(a, j) < 32 && sym(b, j) < 32);
        if sym(a, j) == sym(b, j) {
            assert(false);
        } else if sym(b, j) < sym(a, j) {
            lemma_alphabet_monotone(sym(b, j), sym(a, j));
            assert(false);
        }
        assert(diff_at(va, vb, j));
    }
}

/// The powers of the two bases that one five-byte block spans: eight base-32
/// digits carry exactly forty bits, as five base-256 digits do.
proof fn lemma_block_pow()
    ensures
        pow(32, 8) == 0x100_0000_0000,
        pow(256, 5) == 0x100_0000_0000,
{
    reveal(pow);
    assert(pow(32, 0) == 1);
    assert(pow(32, 1) == 32 * pow(32, 0));
    assert(pow(32, 2) == 32 * pow(32, 1));
    assert(pow(32, 3) == 32 * pow(32, 2));
    assert(pow(32, 4) == 32 * pow(32, 3));
    assert(pow(32, 5) == 32 * pow(32, 4));
    assert(pow(32, 6) == 32 * pow(32, 5));
    assert(pow(32, 7) == 32 * pow(32, 6));
    assert(pow(32, 8) == 32 * pow(32, 7));
    assert(pow(256, 0) == 1);
    assert(pow(256, 1) == 256 * pow(256, 0));
    assert(pow(256, 2) == 256 * pow(256, 1));
    assert(pow(256, 3) == 256 * pow(256, 2));
    assert(pow(256, 4) == 256 * pow(256, 3));
    assert(pow(256, 5) == 256 * pow(256, 4));
}

/// One five-byte block: the base-32 value of its eight symbols equals the
/// base-256 value of the five bytes.
proof fn lemma_block_val(
    e0: u8,
    e1: u8,
    e2: u8,
    e3: u8,
    e4: u8,
    s0: u8,
    s1: u8,
    s2: u8,
    s3: u8,
    s4: u8,
    s5: u8,
    s6: u8,
    s7: u8,
)
    requires
        s0 == (e0 >> 3) & 31,
        s1 == ((e0 << 2) | (e1 >> 6)) & 31,
        s2 == (e1 >> 1) & 31,
        s3 == ((e1 << 4) | (e2 >> 4)) & 31,
        s4 == ((e2 << 1) | (e3 >> 7)) & 31,
        s5 == (e3 >> 2) & 31,
        s6 == ((e3 << 3) | (e4 >> 5)) & 31,
        s7 == e4 & 31,
    ensures
        ((((((s0 * 32 + s1) * 32 + s2) * 32 + s3) * 32 + s4) * 32 + s5) * 32 + s6) * 32 + s7 == (((
        e0 * 256 + e1) * 256 + e2) * 256 + e3) * 256 + e4,
{
    assert(((((((s0 * 32 + s1) * 32 + s2) * 32 + s3) * 32 + s4) * 32 + s5) * 32 + s6) * 32 + s7
        == (((e0 * 256 + e1) * 256 + e2) * 256 + e3) * 256 + e4) by (bit_vector)
        requires
            s0 == (e0 >> 3) & 31,
            s1 == ((e0 << 2) | (e1 >> 6)) & 31,
            s2 == (e1 >> 1) & 31,
            s3 == ((e1 << 4) | (e2 >> 4)) & 31,
            s4 == ((e2 << 1) | (e3 >> 7)) & 31,
            s5 == (e3 >> 2) & 31,
            s6 == ((e3 << 3) | (e4 >> 5)) & 31,
            s7 == e4 & 31,
    ;
}

/// The 26 symbols of a buffer carry, in base 32, exactly the base-256 value
/// of the buffer's 16 bytes.
proof fn lemma_sym_val(d: Seq<u8>)
    requires
        d.len() == 16,
    ensures
        be_val(sym_seq(d), 32) == be_val(d, 256),
{
    let v = sym_seq(d);
    let q0 = v.subrange(0, 2);
    let q1 = v.subrange(2, 10);
    let q2 = v.subrange(10, 18);
    let q3 = v.subrange(18, 26);
    let p0 = d.subrange(0, 1);
    let p1 = d.subrange(1, 6);
    let p2 = d.subrange(6, 11);
    let p3 = d.subrange(11, 16);
    assert(v =~= ((q0 + q1) + q2) + q3);
    assert(d =~= ((p0 + p1) + p2) + p3);
    lemma_block_pow();
    lemma_be_val_concat(q0, q1, 32);
    lemma_be_val_concat(q0 + q1, q2, 32);
    lemma_be_val_concat((q0 + q1) + q2, q3, 32);
    lemma_be_val_concat(p0, p1, 256);
    lemma_be_val_concat(p0 + p1, p2, 256);
    lemma_be_val_concat((p0 + p1) + p2, p3, 256);
    lemma_be_val2(q0, 32);
    lemma_be_val8(q1, 32);
    lemma_be_val8(q2, 32);
    lemma_be_val8(q3, 32);
    assert(p0.drop_last().len() == 0);
    assert(be_val(p0.drop_last(), 256) == 0);
    assert(be_val(p0, 256) == be_val(p0.drop_last(), 256) * 256 + (p0.last() as nat));
    assert(be_val(p0, 256) == d[0]);
    lemma_be_val5(p1, 256);
    lemma_be_val5(p2, 256);
    lemma_be_val5(p3, 256);
    let d0 = d[0];
    let s0 = v[0];
    let s1 = v[1];
    assert(s0 * 32 + s1 == d0) by (bit_vector)
        requires
            s0 == (d0 >> 5) & 31,
            s1 == d0 & 31,
    ;
    lemma_block_val(
        d[1], d[2], d[3], d[4], d[5],
        v[2], v[3], v[4], v[5], v[6], v[7], v[8], v[9],
    );
    lemma_block_val(
        d[6], d[7], d[8], d[9], d[10],
        v[10], v[11], v[12], v[13], v[14], v[15], v[16], v[17],
    );
    lemma_block_val(
        d[11], d[12], d[13], d[14], d[15],
        v[18], v[19], v[20], v[21], v[22], v[23], v[24], v[25],
    );
    assert(be_val(q0, 32) == be_val(p0, 256));
    assert(be_val(q1, 32) == be_val(p1, 256));
    assert(be_val(q2, 32) == be_val(p2, 256));
    assert(be_val(q3, 32) == be_val(p3, 256));
}

/// Order preservation: one buffer is bytewise below another exactly when its
/// rendered form is the smaller string.
pub proof fn lemma_order_preserved(a: Seq<u8>, b: Seq<u8>)
    requires
        a.len() == 16,
        b.len() == 16,
    ensures
        lex_lt(a, b) <==> str_lt(encode_chars(a), encode_chars(b)),
        lex_lt(a, b) <==> be_val(a, 256) < be_val(b, 256),
{
    lemma_mask31();
    lemma_lex_iff_val(a, b, 256);
    lemma_sym_val(a);
    lemma_sym_val(b);
    assert(all_below(sym_seq(a), 32));
    assert(all_below(sym_seq(b), 32));
    lemma_lex_iff_val(sym_seq(a), sym_seq(b), 32);
    lemma_sym_lex_iff_str_lt(a, b);
}

} // verus!
