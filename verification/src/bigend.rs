//! Big-endian digit strings: their numeric value and their ordering.
//!
//! Both the 16 bytes of an identifier (base 256) and its 26 encoded symbols
//! (base 32) are read here as digit strings, most significant digit first.
//! The central fact is that strict lexicographic order on equal-length digit
//! strings coincides with the order of their numeric values; the codec's
//! order-preservation law rests on it.

use vstd::prelude::*;

use vstd::arithmetic::power::pow;

verus! {

/// The numeric value of a big-endian digit string in the given base.
pub open spec fn be_val(s: Seq<u8>, base: nat) -> nat
    decreases s.len(),
{
    if s.len() == 0 {
        0
    } else {
        be_val(s.drop_last(), base) * base + (s.last() as nat)
    }
}

/// Strict lexicographic order on digit strings: the first differing digit
/// decides; a proper prefix comes first.
pub open spec fn lex_lt(a: Seq<u8>, b: Seq<u8>) -> bool
    decreases a.len(),
{
    if b.len() == 0 {
        false
    } else if a.len() == 0 {
        true
    } else if a.first() < b.first() {
        true
    } else if a.first() == b.first() {
        lex_lt(a.drop_first(), b.drop_first())
    } else {
        false
    }
}

/// Every digit of `s` lies below `base`.
pub open spec fn all_below(s: Seq<u8>, base: nat) -> bool {
    forall|i: int| 0 <= i < s.len() ==> s[i] < base
}

/// A digit string's value is below `base` to the power of its length.
pub proof fn lemma_be_val_bound(s: Seq<u8>, base: nat)
    requires
        base >= 1,
        all_below(s, base),
    ensures
        be_val(s, base) < pow(base as int, s.len()),
    decreases s.len(),
{
    reveal(pow);
    if s.len() == 0 {
        assert(pow(base as int, 0) == 1);
    } else {
        let t = s.drop_last();
        assert(all_below(t, base));
        lemma_be_val_bound(t, base);
        let p = pow(base as int, t.len());
        assert(pow(base as int, s.len()) == base * p);
        let v = be_val(t, base);
        assert(v * base <= (p - 1) * base) by (nonlinear_arith)
            requires
                v <= p - 1,
                base >= 1,
        ;
        assert((p - 1) * base == p * base - base) by (nonlinear_arith);
        assert(base * p == p * base) by (nonlinear_arith);
        assert(s.last() < base);
    }
}

/// Peeling the most significant digit off a digit string.
pub proof fn lemma_be_val_first(s: Seq<u8>, base: nat)
    requires
        s.len() > 0,
    ensures
        be_val(s, base) == s.first() * pow(base as int, (s.len() - 1) as nat) + be_val(
            s.drop_first(),
            base,
        ),
    decreases s.len(),
{
    reveal(pow);
    if s.len() == 1 {
        assert(s.drop_last().len() == 0);
        assert(be_val(s.drop_last(), base) == 0);
        assert(be_val(s.drop_first(), base) == 0);
        assert(be_val(s, base) == s.last());
        assert(pow(base as int, 0) == 1);
    } else {
        let t = s.drop_last();
        lemma_be_val_first(t, base);
        assert(t.first() == s.first());
        assert(t.drop_first() =~= s.drop_first().drop_last());
        assert(s.drop_first().last() == s.last());
        let s0 = s.first();
        let p2 = pow(base as int, (s.len() - 2) as nat);
        let p1 = pow(base as int, (s.len() - 1) as nat);
        assert(p1 == base * p2);
        let x = be_val(t.drop_first(), base);
        assert(be_val(t, base) == s0 * p2 + x);
        assert(be_val(s, base) == be_val(t, base) * base + s.last());
        assert(be_val(s.drop_first(), base) == x * base + s.last());
        assert((s0 * p2 + x) * base == s0 * (base * p2) + x * base) by (nonlinear_arith);
    }
}

/// Lexicographic order on equal-length digit strings is numeric order.
pub proof fn lemma_lex_iff_val(a: Seq<u8>, b: Seq<u8>, base: nat)
    requires
        a.len() == b.len(),
        base >= 1,
        all_below(a, base),
        all_below(b, base),
    ensures
        lex_lt(a, b) <==> be_val(a, base) < be_val(b, base),
    decreases a.len(),
{
    if a.len() == 0 {
    } else {
        lemma_be_val_first(a, base);
        lemma_be_val_first(b, base);
        let p = pow(base as int, (a.len() - 1) as nat);
        vstd::arithmetic::power::lemma_pow_positive(base as int, (a.len() - 1) as nat);
        assert(all_below(a.drop_first(), base));
        assert(all_below(b.drop_first(), base));
        lemma_be_val_bound(a.drop_first(), base);
        lemma_be_val_bound(b.drop_first(), base);
        let a0 = a.first();
        let b0 = b.first();
        let ra = be_val(a.drop_first(), base);
        let rb = be_val(b.drop_first(), base);
        if a0 < b0 {
            assert((a0 + 1) * p <= b0 * p) by (nonlinear_arith)
                requires
                    a0 + 1 <= b0,
                    p >= 0,
            ;
            assert((a0 + 1) * p == a0 * p + p) by (nonlinear_arith);
            assert(be_val(a, base) < be_val(b, base));
        } else if a0 == b0 {
            lemma_lex_iff_val(a.drop_first(), b.drop_first(), base);
        } else {
            assert((b0 + 1) * p <= a0 * p) by (nonlinear_arith)
                requires
                    b0 + 1 <= a0,
                    p >= 0,
            ;
            assert((b0 + 1) * p == b0 * p + p) by (nonlinear_arith);
            assert(be_val(b, base) < be_val(a, base));
        }
    }
}

/// Lexicographic order on equal-length digit strings is transitive, so
/// sorting a set of outputs whose generation order strictly increased
/// recovers that generation order.
pub proof fn lemma_lex_lt_transitive(a: Seq<u8>, b: Seq<u8>, c: Seq<u8>)
    requires
        a.len() == b.len(),
        b.len() == c.len(),
        lex_lt(a, b),
        lex_lt(b, c),
    ensures
        lex_lt(a, c),
{
    assert(all_below(a, 256));
    assert(all_below(b, 256));
    assert(all_below(c, 256));
    lemma_lex_iff_val(a, b, 256);
    lemma_lex_iff_val(b, c, 256);
    lemma_lex_iff_val(a, c, 256);
}

/// The value of a concatenation: the left part is shifted up by the length
/// of the right part.
pub proof fn lemma_be_val_concat(a: Seq<u8>, b: Seq<u8>, base: nat)
    ensures
        be_val(a + b, base) == be_val(a, base) * pow(base as int, b.len()) + be_val(b, base),
    decreases b.len(),
{
    reveal(pow);
    if b.len() == 0 {
        assert(a + b =~= a);
        assert(pow(base as int, 0) == 1);
    } else {
        let bt = b.drop_last();
        lemma_be_val_concat(a, bt, base);
        assert((a + b).drop_last() =~= a + bt);
        assert((a + b).last() == b.last());
        let p2 = pow(base as int, bt.len());
        let p1 = pow(base as int, b.len());
        assert(p1 == base * p2);
        let va = be_val(a, base);
        let x = be_val(bt, base);
        assert(be_val(a + b, base) == (va * p2 + x) * base + b.last());
        assert(be_val(b, base) == x * base + b.last());
        assert((va * p2 + x) * base == va * (base * p2) + x * base) by (nonlinear_arith);
    }
}

/// A string of zero digits has value zero.
pub proof fn lemma_be_val_zeroes(s: Seq<u8>, base: nat)
    requires
        forall|i: int| 0 <= i < s.len() ==> s[i] == 0,
    ensures
        be_val(s, base) == 0,
    decreases s.len(),
{
    if s.len() > 0 {
        lemma_be_val_zeroes(s.drop_last(), base);
        assert(s.last() == 0);
        assert(be_val(s, base) == be_val(s.drop_last(), base) * base + (s.last() as nat));
    }
}

/// A string of maximal base-256 digits has the maximal value of its length.
pub proof fn lemma_be_val_maxed(s: Seq<u8>)
    requires
        forall|i: int| 0 <= i < s.len() ==> s[i] == 255,
    ensures
        be_val(s, 256) == pow(256, s.len()) - 1,
    decreases s.len(),
{
    reveal(pow);
    if s.len() == 0 {
        assert(pow(256, 0) == 1);
    } else {
        let t = s.drop_last();
        lemma_be_val_maxed(t);
        let p = pow(256, t.len());
        assert(pow(256, s.len()) == 256 * p);
        assert((p - 1) * 256 == 256 * p - 256) by (nonlinear_arith);
    }
}

/// The powers of 256 that the identifier layout uses: two bytes of extra
/// randomness, the eight-byte low word, and the ten bytes below the
/// timestamp.
pub proof fn lemma_pow256_vals()
    ensures
        pow(256, 2) == 0x1_0000,
        pow(256, 8) == 0x1_0000_0000_0000_0000,
        pow(256, 10) == 0x1_0000_0000_0000_0000_0000,
{
    reveal(pow);
    assert(pow(256, 0) == 1);
    assert(pow(256, 1) == 256 * pow(256, 0));
    assert(pow(256, 2) == 256 * pow(256, 1));
    assert(pow(256, 3) == 256 * pow(256, 2));
    assert(pow(256, 4) == 256 * pow(256, 3));
    assert(pow(256, 5) == 256 * pow(256, 4));
    assert(pow(256, 6) == 256 * pow(256, 5));
    assert(pow(256, 7) == 256 * pow(256, 6));
    assert(pow(256, 8) == 256 * pow(256, 7));
    assert(pow(256, 9) == 256 * pow(256, 8));
    assert(pow(256, 10) == 256 * pow(256, 9));
}

/// The value of a single digit.
pub(crate) proof fn lemma_be_val1(s: Seq<u8>, base: nat)
    requires
        s.len() == 1,
    ensures
        be_val(s, base) == s[0],
{
    assert(s.drop_last().len() == 0);
    assert(be_val(s.drop_last(), base) == 0);
    assert(be_val(s, base) == be_val(s.drop_last(), base) * base + (s.last() as nat));
}

/// Adding one to a big-endian byte string: the last digit below 255 ticks
/// up and the maximal digits after it roll over to zero.
pub proof fn lemma_increment_val(a: Seq<u8>, b: Seq<u8>, i: int)
    requires
        a.len() == b.len(),
        0 <= i < a.len(),
        a[i] < 255,
        b[i] == a[i] + 1,
        forall|k: int| 0 <= k < i ==> a[k] == b[k],
        forall|k: int| i < k < a.len() ==> a[k] == 255,
        forall|k: int| i < k < b.len() ==> b[k] == 0,
    ensures
        be_val(b, 256) == be_val(a, 256) + 1,
{
    let n = a.len() as int;
    let pa = a.subrange(0, i);
    let ma = a.subrange(i, i + 1);
    let sa = a.subrange(i + 1, n);
    let pb = b.subrange(0, i);
    let mb = b.subrange(i, i + 1);
    let sb = b.subrange(i + 1, n);
    assert(a =~= (pa + ma) + sa);
    assert(b =~= (pb + mb) + sb);
    assert(pa =~= pb);
    lemma_be_val_concat(pa, ma, 256);
    lemma_be_val_concat(pa + ma, sa, 256);
    lemma_be_val_concat(pb, mb, 256);
    lemma_be_val_concat(pb + mb, sb, 256);
    lemma_be_val1(ma, 256);
    lemma_be_val1(mb, 256);
    lemma_be_val_maxed(sa);
    lemma_be_val_zeroes(sb, 256);
    let p = pow(256, sa.len());
    vstd::arithmetic::power::lemma_pow_positive(256, sa.len());
    let v = be_val(pa + ma, 256);
    assert(be_val(pb + mb, 256) == v + 1);
    assert(be_val(a, 256) == v * p + (p - 1));
    assert(be_val(b, 256) == (v + 1) * p);
    assert((v + 1) * p == v * p + p) by (nonlinear_arith);
}

/// The value of a two-digit string, written out.
pub(crate) proof fn lemma_be_val2(s: Seq<u8>, base: nat)
    requires
        s.len() == 2,
    ensures
        be_val(s, base) == s[0] * base + s[1],
{
    let s1 = s.drop_last();
    assert(s1.drop_last().len() == 0);
    assert(be_val(s1.drop_last(), base) == 0);
    assert(be_val(s1, base) == s[0]);
}

/// The value of a five-digit string, written out.
pub(crate) proof fn lemma_be_val5(s: Seq<u8>, base: nat)
    requires
        s.len() == 5,
    ensures
        be_val(s, base) == (((s[0] * base + s[1]) * base + s[2]) * base + s[3]) * base + s[4],
{
    let s4 = s.drop_last();
    let s3 = s4.drop_last();
    let s2 = s3.drop_last();
    let s1 = s2.drop_last();
    assert(s4 =~= s.subrange(0, 4));
    assert(s3 =~= s.subrange(0, 3));
    assert(s2 =~= s.subrange(0, 2));
    assert(s1 =~= s.subrange(0, 1));
    assert(s1.drop_last().len() == 0);
    assert(be_val(s1.drop_last(), base) == 0);
    assert(be_val(s1, base) == be_val(s1.drop_last(), base) * base + (s1.last() as nat));
    assert(be_val(s1, base) == s[0]);
    assert(be_val(s2, base) == s[0] * base + s[1]);
    assert(be_val(s3, base) == (s[0] * base + s[1]) * base + s[2]);
    assert(be_val(s4, base) == ((s[0] * base + s[1]) * base + s[2]) * base + s[3]);
}

/// The value of a six-digit string, written out.
pub(crate) proof fn lemma_be_val6(s: Seq<u8>, base: nat)
    requires
        s.len() == 6,
    ensures
        be_val(s, base) == ((((s[0] * base + s[1]) * base + s[2]) * base + s[3]) * base + s[4])
            * base + s[5],
{
    let s5 = s.drop_last();
    lemma_be_val5(s5, base);
    assert(be_val(s, base) == be_val(s5, base) * base + (s.last() as nat));
}

/// The value of an eight-digit string, written out.
pub(crate) proof fn lemma_be_val8(s: Seq<u8>, base: nat)
    requires
        s.len() == 8,
    ensures
        be_val(s, base) == ((((((s[0] * base + s[1]) * base + s[2]) * base + s[3]) * base + s[4])
            * base + s[5]) * base + s[6]) * base + s[7],
{
    let s7 = s.drop_last();
    let s6 = s7.drop_last();
    assert(s7 =~= s.subrange(0, 7));
    assert(s6 =~= s.subrange(0, 6));
    lemma_be_val6(s6, base);
    assert(be_val(s7, base) == be_val(s6, base) * base + (s7.last() as nat));
    assert(be_val(s, base) == be_val(s7, base) * base + (s.last() as nat));
}

} // verus!
