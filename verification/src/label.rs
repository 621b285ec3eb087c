//! Label handling: a textual family prefix rendered in front of an
//! identifier and stripped again on parse.
//!
//! A label never enters the 16 bytes; it only namespaces the rendered form.
//! A labeled form is `<label>_<body>` where the body is the 27-character
//! rendered identifier (which itself holds one `_`); an unlabeled form is
//! the bare body. Parsing counts the underscores: one means a bare body, two
//! means one label to strip, anything else is malformed.

use vstd::prelude::*;

use crate::codec::{base32_decode, decode_result, encode_chars, DecodeError};
use crate::oid::Oid;

verus! {

/// The number of separator characters in a string.
pub open spec fn count_us(s: Seq<char>) -> nat
    decreases s.len(),
{
    if s.len() == 0 {
        0
    } else {
        count_us(s.drop_last()) + (if s.last() == '_' {
            1nat
        } else {
            0nat
        })
    }
}

/// The position of the first separator character; the length when there is
/// none.
pub open spec fn first_us(s: Seq<char>) -> int
    decreases s.len(),
{
    if s.len() == 0 {
        0
    } else if s.first() == '_' {
        0
    } else {
        1 + first_us(s.drop_first())
    }
}

/// The rendered form of an identifier under a label: the label, a joining
/// separator (dropped when the label is empty), then the 27-character body.
pub open spec fn labeled_chars(label: Seq<char>, d: Seq<u8>) -> Seq<char> {
    if label.len() == 0 {
        encode_chars(d)
    } else {
        label + seq!['_'] + encode_chars(d)
    }
}

/// The short display form under a label: the label, a joining separator
/// (dropped when the label is empty), then the last four symbols.
pub open spec fn short_labeled_chars(label: Seq<char>, d: Seq<u8>) -> Seq<char> {
    if label.len() == 0 {
        encode_chars(d).subrange(23, 27)
    } else {
        label + seq!['_'] + encode_chars(d).subrange(23, 27)
    }
}

/// What parsing a possibly labeled string yields: with one separator the
/// string is decoded whole; with two, everything after the first separator
/// is; any other count is malformed and rejected as `InvalidLength`.
pub open spec fn parse_result(s: Seq<char>) -> Result<Seq<u8>, DecodeError> {
    if count_us(s) == 1 {
        decode_result(s)
    } else if count_us(s) == 2 {
        decode_result(s.subrange(first_us(s) + 1, s.len() as int))
    } else {
        Err(DecodeError::InvalidLength)
    }
}

/// Renders an identifier with a label prefix; an empty label yields the
/// bare 27-character form.
pub fn render_labeled(label: &str, id: &Oid) -> (r: String)
    ensures
        r@ == labeled_chars(label@, id@),
{
    let body = id.render();
    if label.is_empty() {
        body
    } else {
        let mut r = label.to_owned();
        r.append("_");
        r.append(body.as_str());
        proof {
            reveal_strlit("_");
            assert(r@ =~= labeled_chars(label@, id@));
        }
        r
    }
}

/// Renders the short display form with a label prefix; an empty label
/// yields the bare four symbols.
pub fn short_labeled(label: &str, id: &Oid) -> (r: String)
    ensures
        r@ == short_labeled_chars(label@, id@),
{
    let tail = id.short();
    if label.is_empty() {
        tail
    } else {
        let mut r = label.to_owned();
        r.append("_");
        r.append(tail.as_str());
        proof {
            reveal_strlit("_");
            assert(r@ =~= short_labeled_chars(label@, id@));
        }
        r
    }
}

/// One counting step: the separators in the first `i` characters extend
/// those in the first `i - 1`.
proof fn lemma_count_us_step(s: Seq<char>, i: int)
    requires
        1 <= i <= s.len(),
    ensures
        count_us(s.take(i)) == count_us(s.take(i - 1)) + (if s[i - 1] == '_' {
            1nat
        } else {
            0nat
        }),
{
    assert(s.take(i).drop_last() =~= s.take(i - 1));
    assert(s.take(i).last() == s[i - 1]);
}

/// A string without separators counts zero of them.
proof fn lemma_count_us_none(s: Seq<char>)
    requires
        forall|k: int| 0 <= k < s.len() ==> s[k] != '_',
    ensures
        count_us(s) == 0,
    decreases s.len(),
{
    if s.len() > 0 {
        lemma_count_us_none(s.drop_last());
        assert(s.last() != '_');
    }
}

/// Counting separators distributes over concatenation.
proof fn lemma_count_us_concat(a: Seq<char>, b: Seq<char>)
    ensures
        count_us(a + b) == count_us(a) + count_us(b),
    decreases b.len(),
{
    if b.len() == 0 {
        assert(a + b =~= a);
    } else {
        lemma_count_us_concat(a, b.drop_last());
        assert((a + b).drop_last() =~= a + b.drop_last());
        assert((a + b).last() == b.last());
    }
}

/// A separator at `j` with none before it is the first one.
proof fn lemma_first_us_at(s: Seq<char>, j: int)
    requires
        0 <= j < s.len(),
        s[j] == '_',
        forall|k: int| 0 <= k < j ==> s[k] != '_',
    ensures
        first_us(s) == j,
    decreases j,
{
    if j > 0 {
        assert(s.first() != '_');
        lemma_first_us_at(s.drop_first(), j - 1);
    }
}

/// The rendered body holds exactly one separator, the one at position 22.
pub(crate) proof fn lemma_encode_count(d: Seq<u8>)
    requires
        d.len() == 16,
    ensures
        count_us(encode_chars(d)) == 1,
{
    let s = encode_chars(d);
    let front = s.subrange(0, 22);
    let mid = s.subrange(22, 23);
    let back = s.subrange(23, 27);
    assert(s =~= (front + mid) + back);
    assert forall|k: int| 0 <= k < front.len() implies front[k] != '_' by {
        crate::codec::lemma_alphabet_not_separator(crate::codec::sym(d, k));
    }
    assert forall|k: int| 0 <= k < back.len() implies back[k] != '_' by {
        crate::codec::lemma_alphabet_not_separator(crate::codec::sym(d, k + 22));
    }
    lemma_count_us_none(front);
    lemma_count_us_none(back);
    assert(mid.drop_last().len() == 0);
    assert(count_us(mid.drop_last()) == 0);
    assert(count_us(mid) == 1);
    lemma_count_us_concat(front, mid);
    lemma_count_us_concat(front + mid, back);
}

/// Labeled round trip: rendering under any label free of separators and
/// parsing again recovers the identifier's bytes exactly.
pub proof fn lemma_labeled_round_trip(label: Seq<char>, d: Seq<u8>)
    requires
        d.len() == 16,
        forall|k: int| 0 <= k < label.len() ==> label[k] != '_',
    ensures
        parse_result(labeled_chars(label, d)) == Ok::<Seq<u8>, DecodeError>(d),
{
    let body = encode_chars(d);
    lemma_encode_count(d);
    crate::roundtrip::lemma_round_trip(d);
    if label.len() == 0 {
    } else {
        let s = labeled_chars(label, d);
        let us = seq!['_'];
        assert(us.drop_last().len() == 0);
        assert(count_us(us.drop_last()) == 0);
        assert(count_us(us) == 1);
        lemma_count_us_none(label);
        lemma_count_us_concat(label, us);
        lemma_count_us_concat(label + us, body);
        assert(s =~= (label + us) + body);
        assert(count_us(s) == 2);
        assert(s[label.len() as int] == '_');
        lemma_first_us_at(s, label.len() as int);
        assert(s.subrange(label.len() as int + 1, s.len() as int) =~= body);
    }
}

/// Parses a possibly labeled rendered form.
///
/// One separator: the whole string is decoded. Two separators: the label
/// before the first one is stripped and ignored, and the rest decoded. Any
/// other count is malformed and fails with `InvalidLength`; the decode
/// errors themselves are the codec's.
pub fn parse(input: &str) -> (r: Result<Oid, DecodeError>)
    ensures
        match r {
            Ok(o) => parse_result(input@) == Ok::<Seq<u8>, DecodeError>(o@),
            Err(e) => parse_result(input@) == Err::<Seq<u8>, DecodeError>(e),
        },
{
    let n = input.unicode_len();
    let mut count: usize = 0;
    let mut first: usize = 0;
    let mut i: usize = 0;
    while i < n
        invariant
            0 <= i <= n,
            n == input@.len(),
            count <= i,
            count == count_us(input@.take(i as int)),
            count > 0 ==> 0 <= first < i && input@[first as int] == '_' && (forall|k: int|
                0 <= k < first ==> input@[k] != '_'),
            count == 0 ==> forall|k: int| 0 <= k < i ==> input@[k] != '_',
        decreases n - i,
    {
        let c = input.get_char(i);
        proof {
            lemma_count_us_step(input@, i as int + 1);
        }
        if c == '_' {
            if count == 0 {
                first = i;
            }
            count = count + 1;
        }
        i += 1;
    }
    proof {
        assert(input@.take(n as int) =~= input@);
    }
    if count == 1 {
        match base32_decode(input) {
            Ok(data) => Ok(Oid::from_bytes(data)),
            Err(e) => Err(e),
        }
    } else if count == 2 {
        proof {
            lemma_first_us_at(input@, first as int);
        }
        let rest = input.substring_char(first + 1, n);
        proof {
            assert(rest@ == input@.subrange(first_us(input@) + 1, input@.len() as int));
        }
        match base32_decode(rest) {
            Ok(data) => Ok(Oid::from_bytes(data)),
            Err(e) => Err(e),
        }
    } else {
        Err(DecodeError::InvalidLength)
    }
}

} // verus!
