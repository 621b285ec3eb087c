//! Base32 codec: a 16-byte buffer is rendered as 26 symbols from a fixed
//! 32-symbol alphabet, with one `_` separator inserted after the 22nd symbol
//! (27 characters in all), and parsed back losslessly.
//!
//! The input is treated as a contiguous bitstream read most-significant-bit
//! first, five bits at a symbol; the first symbol therefore carries only the
//! top three bits of the first byte. The alphabet is strictly increasing by
//! character code, which makes the string order of rendered buffers equal the
//! byte order of the buffers themselves (see `ordering`).

use vstd::prelude::*;

verus! {

/// Number of symbols before the `_` separator in the rendered form.
pub const SHORT_LENGTH: usize = 22;

/// Why a string failed to decode.
#[derive(Debug, Clone, Copy, PartialEq, Eq)]
pub enum DecodeError {
    /// A character outside the alphabet, reported with that character.
    InvalidCharacter(char),
    /// The input is not exactly 27 characters long.
    InvalidLength,
    /// The character at the separator offset is not `_`.
    NoSeparator,
}

/// Sentinel value returned by the reverse lookup for characters outside the
/// alphabet; all alphabet symbols map below 32.
pub const INVALID: u8 = 255;

/// The symbol for a five-bit value: digits and lowercase letters, strictly
/// increasing by character code, with the visually ambiguous `i`, `l`, `o`
/// and `u` left out.
pub open spec fn alphabet_char(v: u8) -> char {
    if v == 0 { '0' }
    else if v == 1 { '1' }
    else if v == 2 { '2' }
    else if v == 3 { '3' }
    else if v == 4 { '4' }
    else if v == 5 { '5' }
    else if v == 6 { '6' }
    else if v == 7 { '7' }
    else if v == 8 { '8' }
    else if v == 9 { '9' }
    else if v == 10 { 'a' }
    else if v == 11 { 'b' }
    else if v == 12 { 'c' }
    else if v == 13 { 'd' }
    else if v == 14 { 'e' }
    else if v == 15 { 'f' }
    else if v == 16 { 'g' }
    else if v == 17 { 'h' }
    else if v == 18 { 'j' }
    else if v == 19 { 'k' }
    else if v == 20 { 'm' }
    else if v == 21 { 'n' }
    else if v == 22 { 'p' }
    else if v == 23 { 'q' }
    else if v == 24 { 'r' }
    else if v == 25 { 's' }
    else if v == 26 { 't' }
    else if v == 27 { 'v' }
    else if v == 28 { 'w' }
    else if v == 29 { 'x' }
    else if v == 30 { 'y' }
    else { 'z' }
}

/// The five-bit value of a symbol, or `INVALID` for a character outside the
/// alphabet.
pub open spec fn char_value(c: char) -> u8 {
    if c == '0' { 0 }
    else if c == '1' { 1 }
    else if c == '2' { 2 }
    else if c == '3' { 3 }
    else if c == '4' { 4 }
    else if c == '5' { 5 }
    else if c == '6' { 6 }
    else if c == '7' { 7 }
    else if c == '8' { 8 }
    else if c == '9' { 9 }
    else if c == 'a' { 10 }
    else if c == 'b' { 11 }
    else if c == 'c' { 12 }
    else if c == 'd' { 13 }
    else if c == 'e' { 14 }
    else if c == 'f' { 15 }
    else if c == 'g' { 16 }
    else if c == 'h' { 17 }
    else if c == 'j' { 18 }
    else if c == 'k' { 19 }
    else if c == 'm' { 20 }
    else if c == 'n' { 21 }
    else if c == 'p' { 22 }
    else if c == 'q' { 23 }
    else if c == 'r' { 24 }
    else if c == 's' { 25 }
    else if c == 't' { 26 }
    else if c == 'v' { 27 }
    else if c == 'w' { 28 }
    else if c == 'x' { 29 }
    else if c == 'y' { 30 }
    else if c == 'z' { 31 }
    else { INVALID }
}

/// The symbol for the low five bits of `v`, as a one-character string slice.
fn alphabet(v: u8) -> (r: &'static str)
    ensures
        r@ == seq![alphabet_char((v & 31) as u8)],
{
    proof {
        reveal_strlit("0");
        reveal_strlit("1");
        reveal_strlit("2");
        reveal_strlit("3");
        reveal_strlit("4");
        reveal_strlit("5");
        reveal_strlit("6");
        reveal_strlit("7");
        reveal_strlit("8");
        reveal_strlit("9");
        reveal_strlit("a");
        reveal_strlit("b");
        reveal_strlit("c");
        reveal_strlit("d");
        reveal_strlit("e");
        reveal_strlit("f");
        reveal_strlit("g");
        reveal_strlit("h");
        reveal_strlit("j");
        reveal_strlit("k");
        reveal_strlit("m");
        reveal_strlit("n");
        reveal_strlit("p");
        reveal_strlit("q");
        reveal_strlit("r");
        reveal_strlit("s");
        reveal_strlit("t");
        reveal_strlit("v");
        reveal_strlit("w");
        reveal_strlit("x");
        reveal_strlit("y");
        reveal_strlit("z");
        assert(v & 31 < 32) by (bit_vector);
    }
    let w = v & 31;
    if w == 0 { "0" }
    else if w == 1 { "1" }
    else if w == 2 { "2" }
    else if w == 3 { "3" }
    else if w == 4 { "4" }
    else if w == 5 { "5" }
    else if w == 6 { "6" }
    else if w == 7 { "7" }
    else if w == 8 { "8" }
    else if w == 9 { "9" }
    else if w == 10 { "a" }
    else if w == 11 { "b" }
    else if w == 12 { "c" }
    else if w == 13 { "d" }
    else if w == 14 { "e" }
    else if w == 15 { "f" }
    else if w == 16 { "g" }
    else if w == 17 { "h" }
    else if w == 18 { "j" }
    else if w == 19 { "k" }
    else if w == 20 { "m" }
    else if w == 21 { "n" }
    else if w == 22 { "p" }
    else if w == 23 { "q" }
    else if w == 24 { "r" }
    else if w == 25 { "s" }
    else if w == 26 { "t" }
    else if w == 27 { "v" }
    else if w == 28 { "w" }
    else if w == 29 { "x" }
    else if w == 30 { "y" }
    else { "z" }
}

/// The value of symbol `i` (0 to 25) of a 16-byte buffer: five bits of the
/// buffer read most-significant-bit first, starting at bit `5 * i - 2`. The
/// first symbol carries only the top three bits of the first byte, as if two
/// zero bits were prepended to the stream.
pub open spec fn sym(d: Seq<u8>, i: int) -> u8
    recommends
        d.len() == 16,
        0 <= i < 26,
{
    (if i == 0 { d[0] >> 5 }
    else if i == 1 { d[0] }
    else if i == 2 { d[1] >> 3 }
    else if i == 3 { (d[1] << 2) | (d[2] >> 6) }
    else if i == 4 { d[2] >> 1 }
    else if i == 5 { (d[2] << 4) | (d[3] >> 4) }
    else if i == 6 { (d[3] << 1) | (d[4] >> 7) }
    else if i == 7 { d[4] >> 2 }
    else if i == 8 { (d[4] << 3) | (d[5] >> 5) }
    else if i == 9 { d[5] }
    else if i == 10 { d[6] >> 3 }
    else if i == 11 { (d[6] << 2) | (d[7] >> 6) }
    else if i == 12 { d[7] >> 1 }
    else if i == 13 { (d[7] << 4) | (d[8] >> 4) }
    else if i == 14 { (d[8] << 1) | (d[9] >> 7) }
    else if i == 15 { d[9] >> 2 }
    else if i == 16 { (d[9] << 3) | (d[10] >> 5) }
    else if i == 17 { d[10] }
    else if i == 18 { d[11] >> 3 }
    else if i == 19 { (d[11] << 2) | (d[12] >> 6) }
    else if i == 20 { d[12] >> 1 }
    else if i == 21 { (d[12] << 4) | (d[13] >> 4) }
    else if i == 22 { (d[13] << 1) | (d[14] >> 7) }
    else if i == 23 { d[14] >> 2 }
    else if i == 24 { (d[14] << 3) | (d[15] >> 5) }
    else { d[15] }) & 31
}

/// The 26 symbol values of a buffer, in order.
pub open spec fn sym_seq(d: Seq<u8>) -> Seq<u8> {
    Seq::new(26, |i: int| sym(d, i))
}

/// The rendered form of a buffer: its 26 symbols with `_` inserted after the
/// 22nd, 27 characters in all.
pub open spec fn encode_chars(d: Seq<u8>) -> Seq<char> {
    Seq::new(27, |j: int| if j == 22 { '_' } else if j < 22 { alphabet_char(sym(d, j)) } else {
        alphabet_char(sym(d, j - 1))
    })
}

/// Encodes a 16-byte buffer as its 27-character rendered form.
pub fn base32_encode(data: [u8; 16]) -> (r: String)
    ensures
        r@ == encode_chars(data@),
        r@.len() == 27,
{
    let mut r = String::new();
    r.append(alphabet(data[0] >> 5));
    r.append(alphabet(data[0]));
    r.append(alphabet(data[1] >> 3));
    r.append(alphabet((data[1] << 2) | (data[2] >> 6)));
    r.append(alphabet(data[2] >> 1));
    r.append(alphabet((data[2] << 4) | (data[3] >> 4)));
    r.append(alphabet((data[3] << 1) | (data[4] >> 7)));
    r.append(alphabet(data[4] >> 2));
    r.append(alphabet((data[4] << 3) | (data[5] >> 5)));
    r.append(alphabet(data[5]));
    r.append(alphabet(data[6] >> 3));
    r.append(alphabet((data[6] << 2) | (data[7] >> 6)));
    r.append(alphabet(data[7] >> 1));
    r.append(alphabet((data[7] << 4) | (data[8] >> 4)));
    r.append(alphabet((data[8] << 1) | (data[9] >> 7)));
    r.append(alphabet(data[9] >> 2));
    r.append(alphabet((data[9] << 3) | (data[10] >> 5)));
    r.append(alphabet(data[10]));
    r.append(alphabet(data[11] >> 3));
    r.append(alphabet((data[11] << 2) | (data[12] >> 6)));
    r.append(alphabet(data[12] >> 1));
    r.append(alphabet((data[12] << 4) | (data[13] >> 4)));
    r.append("_");
    r.append(alphabet((data[13] << 1) | (data[14] >> 7)));
    r.append(alphabet(data[14] >> 2));
    r.append(alphabet((data[14] << 3) | (data[15] >> 5)));
    r.append(alphabet(data[15]));
    proof {
        reveal_strlit("_");
        assert(r@ =~= encode_chars(data@));
    }
    r
}

/// The alphabet never yields the separator.
pub(crate) proof fn lemma_alphabet_not_separator(v: u8)
    ensures
        alphabet_char(v) != '_',
{
}

/// The position of symbol `i` in the 27-character rendered form: the
/// separator at position 22 shifts the last four symbols right by one.
pub open spec fn data_index(i: int) -> int {
    if i < 22 {
        i
    } else {
        i + 1
    }
}

/// The 26 symbol values of a 27-character rendered form, separator skipped.
pub open spec fn char_values(s: Seq<char>) -> Seq<u8>
    recommends
        s.len() == 27,
{
    Seq::new(26, |i: int| char_value(s[data_index(i)]))
}

/// The 16 bytes reassembled from 26 symbol values, packing five bits a
/// symbol most-significant-bit first. The top two bits of the first symbol
/// are dropped: they lie before the first byte of the buffer.
pub open spec fn decode_bytes(v: Seq<u8>) -> Seq<u8>
    recommends
        v.len() == 26,
{
    Seq::new(16, |k: int|
        if k == 0 { (v[0] << 5) | v[1] }
        else if k == 1 { (v[2] << 3) | (v[3] >> 2) }
        else if k == 2 { (v[3] << 6) | (v[4] << 1) | (v[5] >> 4) }
        else if k == 3 { (v[5] << 4) | (v[6] >> 1) }
        else if k == 4 { (v[6] << 7) | (v[7] << 2) | (v[8] >> 3) }
        else if k == 5 { (v[8] << 5) | v[9] }
        else if k == 6 { (v[10] << 3) | (v[11] >> 2) }
        else if k == 7 { (v[11] << 6) | (v[12] << 1) | (v[13] >> 4) }
        else if k == 8 { (v[13] << 4) | (v[14] >> 1) }
        else if k == 9 { (v[14] << 7) | (v[15] << 2) | (v[16] >> 3) }
        else if k == 10 { (v[16] << 5) | v[17] }
        else if k == 11 { (v[18] << 3) | (v[19] >> 2) }
        else if k == 12 { (v[19] << 6) | (v[20] << 1) | (v[21] >> 4) }
        else if k == 13 { (v[21] << 4) | (v[22] >> 1) }
        else if k == 14 { (v[22] << 7) | (v[23] << 2) | (v[24] >> 3) }
        else { (v[24] << 5) | v[25] })
}

/// The first position (in 0..27, separator excluded) whose character is
/// outside the alphabet, scanning from `j`; 27 when there is none.
pub open spec fn first_bad_from(s: Seq<char>, j: int) -> int
    recommends
        s.len() == 27,
        0 <= j <= 27,
    decreases 27 - j,
{
    if j >= 27 {
        27
    } else if j != 22 && char_value(s[j]) == INVALID {
        j
    } else {
        first_bad_from(s, j + 1)
    }
}

/// The first position of a character outside the alphabet; 27 when all 26
/// data characters are symbols.
pub open spec fn first_bad(s: Seq<char>) -> int {
    first_bad_from(s, 0)
}

/// What decoding a string yields: each failure is tied exactly to the inputs
/// that produce it, and success yields the reassembled bytes.
pub open spec fn decode_result(s: Seq<char>) -> Result<Seq<u8>, DecodeError> {
    if s.len() != 27 {
        Err(DecodeError::InvalidLength)
    } else if s[22] != '_' {
        Err(DecodeError::NoSeparator)
    } else if first_bad(s) < 27 {
        Err(DecodeError::InvalidCharacter(s[first_bad(s)]))
    } else {
        Ok(decode_bytes(char_values(s)))
    }
}

pub(crate) proof fn lemma_first_bad_from(s: Seq<char>, j: int, i: int)
    requires
        s.len() == 27,
        0 <= j <= i <= 27,
        forall|t: int| j <= t < i && t != 22 ==> char_value(s[t]) != INVALID,
        i < 27 ==> (i != 22 && char_value(s[i]) == INVALID),
    ensures
        first_bad_from(s, j) == i,
    decreases i - j,
{
    if j < i {
        lemma_first_bad_from(s, j + 1, i);
    }
}

/// Decodes a 27-character rendered form back to its 16-byte buffer.
///
/// Fails with `InvalidLength` when the input is not exactly 27 characters,
/// with `NoSeparator` when the character at position 22 is not `_`, and with
/// `InvalidCharacter` naming the first character outside the alphabet.
pub fn base32_decode(input: &str) -> (r: Result<[u8; 16], DecodeError>)
    ensures
        match r {
            Ok(b) => decode_result(input@) == Ok::<Seq<u8>, DecodeError>(b@),
            Err(e) => decode_result(input@) == Err::<Seq<u8>, DecodeError>(e),
        },
{
    let len = input.unicode_len();
    if len != 27 {
        return Err(DecodeError::InvalidLength);
    }
    if input.get_char(22) != '_' {
        return Err(DecodeError::NoSeparator);
    }
    let mut vals: [u8; 26] = [0; 26];
    let mut i: usize = 0;
    while i < 27
        invariant
            input@.len() == 27,
            input@[22] == '_',
            0 <= i <= 27,
            forall|t: int| 0 <= t < i && t != 22 ==> char_value(input@[t]) != INVALID,
            forall|k: int|
                0 <= k < 26 && data_index(k) < i ==> vals@[k] == char_value(
                    input@[data_index(k)],
                ),
        decreases 27 - i,
    {
        if i != 22 {
            let c = input.get_char(i);
            let v = lookup(c);
            if v == INVALID {
                proof {
                    lemma_first_bad_from(input@, 0, i as int);
                }
                return Err(DecodeError::InvalidCharacter(c));
            }
            let k = if i < 22 {
                i
            } else {
                i - 1
            };
            vals[k] = v;
        }
        i += 1;
    }
    proof {
        lemma_first_bad_from(input@, 0, 27);
        assert(vals@ =~= char_values(input@));
    }
    let b0 = (vals[0] << 5) | vals[1];
    let b1 = (vals[2] << 3) | (vals[3] >> 2);
    let b2 = (vals[3] << 6) | (vals[4] << 1) | (vals[5] >> 4);
    let b3 = (vals[5] << 4) | (vals[6] >> 1);
    let b4 = (vals[6] << 7) | (vals[7] << 2) | (vals[8] >> 3);
    let b5 = (vals[8] << 5) | vals[9];
    let b6 = (vals[10] << 3) | (vals[11] >> 2);
    let b7 = (vals[11] << 6) | (vals[12] << 1) | (vals[13] >> 4);
    let b8 = (vals[13] << 4) | (vals[14] >> 1);
    let b9 = (vals[14] << 7) | (vals[15] << 2) | (vals[16] >> 3);
    let b10 = (vals[16] << 5) | vals[17];
    let b11 = (vals[18] << 3) | (vals[19] >> 2);
    let b12 = (vals[19] << 6) | (vals[20] << 1) | (vals[21] >> 4);
    let b13 = (vals[21] << 4) | (vals[22] >> 1);
    let b14 = (vals[22] << 7) | (vals[23] << 2) | (vals[24] >> 3);
    let b15 = (vals[24] << 5) | vals[25];
    let result: [u8; 16] = [b0, b1, b2, b3, b4, b5, b6, b7, b8, b9, b10, b11, b12, b13, b14, b15];
    proof {
        assert(result@ =~= decode_bytes(char_values(input@)));
    }
    Ok(result)
}

/// Reverse lookup: the five-bit value of a character, or `INVALID` when the
/// character is not one of the 32 symbols.
fn lookup(c: char) -> (v: u8)
    ensures
        v == char_value(c),
{
    if c == '0' { 0 }
    else if c == '1' { 1 }
    else if c == '2' { 2 }
    else if c == '3' { 3 }
    else if c == '4' { 4 }
    else if c == '5' { 5 }
    else if c == '6' { 6 }
    else if c == '7' { 7 }
    else if c == '8' { 8 }
    else if c == '9' { 9 }
    else if c == 'a' { 10 }
    else if c == 'b' { 11 }
    else if c == 'c' { 12 }
    else if c == 'd' { 13 }
    else if c == 'e' { 14 }
    else if c == 'f' { 15 }
    else if c == 'g' { 16 }
    else if c == 'h' { 17 }
    else if c == 'j' { 18 }
    else if c == 'k' { 19 }
    else if c == 'm' { 20 }
    else if c == 'n' { 21 }
    else if c == 'p' { 22 }
    else if c == 'q' { 23 }
    else if c == 'r' { 24 }
    else if c == 's' { 25 }
    else if c == 't' { 26 }
    else if c == 'v' { 27 }
    else if c == 'w' { 28 }
    else if c == 'x' { 29 }
    else if c == 'y' { 30 }
    else if c == 'z' { 31 }
    else { INVALID }
}

} // verus!
