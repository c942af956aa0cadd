//! Shared model of the two encodings every flag type offers.
//!
//! A value serializes to bytes as its little-endian expansion (`le_bytes_of`,
//! read back by `nat_of_le_bytes`) and to text as its decimal digit string
//! (`dec_string_of`, read back by `dec_val`).  The lemmas prove both
//! directions inverse to each other; the width-specific modules instantiate
//! them with their exact byte count and value range.

use vstd::prelude::*;

verus! {

use vstd::arithmetic::power2::pow2;
use vstd::arithmetic::power2::lemma_pow2_adds;
use vstd::arithmetic::power2::lemma_pow2_pos;
use vstd::arithmetic::power2::lemma2_to64;
use vstd::arithmetic::div_mod::lemma_div_decreases;
use vstd::arithmetic::div_mod::lemma_fundamental_div_mod;

/// Error returned when a binary decode finds fewer bytes than one encoded
/// value needs at the given offset.
#[derive(Debug, Clone, Copy, PartialEq, Eq, Structural)]
pub struct DecodeError {
    /// Offset into the buffer at which the read was attempted.
    pub offset: usize,
    /// Number of bytes one encoded value occupies.
    pub needed: usize,
    /// Total length of the buffer.
    pub available: usize,
}

/// Error returned when a decimal text decode rejects its input.
#[derive(Debug, Clone, Copy, PartialEq, Eq, Structural)]
pub enum ParseError {
    /// The input held no characters.
    Empty,
    /// A character of the input is not a decimal digit; a leading sign is
    /// rejected this way, since the encoding is unsigned only.
    InvalidDigit,
    /// The digits denote a value above the largest one the width can hold.
    OutOfRange,
}

/// The `len` little-endian bytes of `v`.
pub open spec fn le_bytes_of(v: nat, len: nat) -> Seq<u8>
    decreases len,
{
    if len == 0 {
        Seq::empty()
    } else {
        seq![(v % 256) as u8] + le_bytes_of(v / 256, (len - 1) as nat)
    }
}

/// The value denoted by a little-endian byte string.
pub open spec fn nat_of_le_bytes(s: Seq<u8>) -> nat
    decreases s.len(),
{
    if s.len() == 0 {
        0nat
    } else {
        (s[0] + 256 * nat_of_le_bytes(s.drop_first())) as nat
    }
}

/// Whether `c` is a decimal digit.
pub open spec fn is_digit(c: char) -> bool {
    48 <= c as u32 <= 57
}

/// The numeric value of a digit character.
pub open spec fn digit_of(c: char) -> int {
    c as u32 - 48
}

/// The digit character for a value below ten.
pub open spec fn char_of_digit(d: nat) -> char {
    if d == 0 {
        '0'
    } else if d == 1 {
        '1'
    } else if d == 2 {
        '2'
    } else if d == 3 {
        '3'
    } else if d == 4 {
        '4'
    } else if d == 5 {
        '5'
    } else if d == 6 {
        '6'
    } else if d == 7 {
        '7'
    } else if d == 8 {
        '8'
    } else {
        '9'
    }
}

/// The decimal rendering of `v`: no sign, no leading zero except for `"0"`.
pub open spec fn dec_string_of(v: nat) -> Seq<char>
    decreases v,
    via dec_string_of_decreases
{
    if v < 10 {
        seq![char_of_digit(v)]
    } else {
        dec_string_of(v / 10) + seq![char_of_digit(v % 10)]
    }
}

#[via_fn]
proof fn dec_string_of_decreases(v: nat) {
    if v >= 10 {
        lemma_div_decreases(v as int, 10);
    }
}

/// Whether every character of `s` is a decimal digit.
pub open spec fn all_digits(s: Seq<char>) -> bool {
    forall|i: int| 0 <= i < s.len() ==> is_digit(#[trigger] s[i])
}

/// The value denoted by a digit string.
pub open spec fn dec_val(s: Seq<char>) -> int
    decreases s.len(),
{
    if s.len() == 0 {
        0
    } else {
        10 * dec_val(s.drop_last()) + digit_of(s.last())
    }
}

/// The little-endian expansion has exactly the requested length.
pub proof fn lemma_le_bytes_of_len(v: nat, len: nat)
    ensures
        le_bytes_of(v, len).len() == len,
    decreases len,
{
    if len > 0 {
        lemma_le_bytes_of_len(v / 256, (len - 1) as nat);
    }
}

/// Reading back the little-endian expansion of a value that fits in `len`
/// bytes recovers the value.
pub proof fn lemma_le_bytes_round_trip(v: nat, len: nat)
    requires
        v < pow2(8 * len),
    ensures
        nat_of_le_bytes(le_bytes_of(v, len)) == v,
    decreases len,
{
    if len == 0 {
        assert(pow2(0) == 1) by {
            lemma2_to64();
        }
    } else {
        assert(pow2(8) == 256) by {
            lemma2_to64();
        }
        lemma_pow2_adds(8, (8 * len - 8) as nat);
        lemma_pow2_pos((8 * len - 8) as nat);
        assert(v < 256 * pow2((8 * (len - 1)) as nat));
        assert(v / 256 < pow2((8 * (len - 1)) as nat)) by {
            vstd::arithmetic::div_mod::lemma_multiply_divide_lt(
                v as int,
                256,
                pow2((8 * (len - 1)) as nat) as int,
            );
        }
        lemma_le_bytes_round_trip(v / 256, (len - 1) as nat);
        let s = le_bytes_of(v, len);
        assert(s.drop_first() =~= le_bytes_of(v / 256, (len - 1) as nat));
        assert(s[0] == (v % 256) as u8);
        lemma_fundamental_div_mod(v as int, 256);
    }
}

/// A little-endian byte string denotes a value that fits in its length.
pub proof fn lemma_nat_of_le_bytes_bound(s: Seq<u8>)
    ensures
        nat_of_le_bytes(s) < pow2(8 * s.len()),
    decreases s.len(),
{
    if s.len() == 0 {
        assert(pow2(0) == 1) by {
            lemma2_to64();
        }
    } else {
        lemma_nat_of_le_bytes_bound(s.drop_first());
        assert(pow2(8) == 256) by {
            lemma2_to64();
        }
        lemma_pow2_adds(8, (8 * s.len() - 8) as nat);
        assert(8 * s.drop_first().len() == 8 * s.len() - 8);
        let m = pow2((8 * s.len() - 8) as nat);
        assert(s[0] + 256 * nat_of_le_bytes(s.drop_first()) <= 255 + 256 * (m - 1));
    }
}

/// The decimal rendering is nonempty and consists of digits.
pub proof fn lemma_dec_string_of_digits(v: nat)
    ensures
        dec_string_of(v).len() >= 1,
        all_digits(dec_string_of(v)),
    decreases v,
{
    if v < 10 {
        assert(is_digit(char_of_digit(v)));
        assert(forall|i: int|
            0 <= i < dec_string_of(v).len() ==> is_digit(#[trigger] dec_string_of(v)[i]));
    } else {
        lemma_div_decreases(v as int, 10);
        lemma_dec_string_of_digits(v / 10);
        assert(is_digit(char_of_digit(v % 10)));
        let s = dec_string_of(v / 10);
        let w = dec_string_of(v);
        assert(w == s + seq![char_of_digit(v % 10)]);
        assert forall|i: int| 0 <= i < w.len() implies is_digit(#[trigger] w[i]) by {
            if i < s.len() {
                assert(w[i] == s[i]);
            } else {
                assert(w[i] == char_of_digit(v % 10));
            }
        }
    }
}

/// Reading back the decimal rendering recovers the value.
pub proof fn lemma_dec_round_trip(v: nat)
    ensures
        dec_val(dec_string_of(v)) == v,
    decreases v,
{
    if v < 10 {
        let s = dec_string_of(v);
        assert(s.drop_last() =~= Seq::<char>::empty());
        assert(dec_val(Seq::<char>::empty()) == 0);
        assert(s.last() == char_of_digit(v));
        assert(digit_of(char_of_digit(v)) == v);
    } else {
        lemma_div_decreases(v as int, 10);
        lemma_dec_round_trip(v / 10);
        let s = dec_string_of(v / 10);
        let w = dec_string_of(v);
        assert(w == s + seq![char_of_digit(v % 10)]);
        assert(w.drop_last() =~= s);
        assert(w.last() == char_of_digit(v % 10));
        assert(digit_of(char_of_digit(v % 10)) == v % 10);
        lemma_fundamental_div_mod(v as int, 10);
    }
}

/// A digit string denotes a value that is not negative.
pub proof fn lemma_dec_val_nonneg(s: Seq<char>)
    requires
        all_digits(s),
    ensures
        dec_val(s) >= 0,
    decreases s.len(),
{
    if s.len() > 0 {
        assert(all_digits(s.drop_last())) by {
            assert(forall|i: int|
                0 <= i < s.drop_last().len() ==> #[trigger] s.drop_last()[i] == s[i]);
        }
        lemma_dec_val_nonneg(s.drop_last());
        assert(is_digit(s.last()));
    }
}

/// The digit characters of a digit-value string, lowest digit first in the
/// input, highest digit first in the result.
pub open spec fn rev_chars(ds: Seq<u8>) -> Seq<char>
    decreases ds.len(),
{
    if ds.len() == 0 {
        Seq::empty()
    } else {
        seq![char_of_digit(ds.last() as nat)] + rev_chars(ds.drop_last())
    }
}

/// Peeling the lowest digit off the front of the digit-value string moves
/// its character to the back of the rendering.
pub proof fn lemma_rev_chars_unfold_front(ds: Seq<u8>)
    requires
        ds.len() > 0,
    ensures
        rev_chars(ds) == rev_chars(ds.drop_first()) + seq![char_of_digit(ds.first() as nat)],
    decreases ds.len(),
{
    if ds.len() == 1 {
        assert(ds.drop_first() =~= Seq::<u8>::empty());
        assert(ds.drop_last() =~= Seq::<u8>::empty());
        assert(rev_chars(Seq::<u8>::empty()) =~= Seq::<char>::empty());
        assert(rev_chars(ds) =~= seq![char_of_digit(ds.last() as nat)]);
        assert(ds.first() == ds.last());
        assert(rev_chars(ds.drop_first()) + seq![char_of_digit(ds.first() as nat)] =~= seq![
            char_of_digit(ds.last() as nat),
        ]);
    } else {
        lemma_rev_chars_unfold_front(ds.drop_last());
        assert(ds.drop_last().drop_first() =~= ds.drop_first().drop_last());
        assert(ds.drop_last().first() == ds.first());
        assert(ds.drop_first().last() == ds.last());
        assert(rev_chars(ds) == seq![char_of_digit(ds.last() as nat)] + rev_chars(ds.drop_last()));
        assert(rev_chars(ds.drop_first()) == seq![char_of_digit(ds.last() as nat)] + rev_chars(
            ds.drop_first().drop_last(),
        ));
        assert(rev_chars(ds) =~= rev_chars(ds.drop_first()) + seq![
            char_of_digit(ds.first() as nat),
        ]);
    }
}

/// Appending a digit at the end of the digit-value string prepends its
/// character to the rendering.
pub proof fn lemma_rev_chars_push(ds: Seq<u8>, d: u8)
    ensures
        rev_chars(ds.push(d)) == seq![char_of_digit(d as nat)] + rev_chars(ds),
{
    assert(ds.push(d).drop_last() =~= ds);
    assert(ds.push(d).last() == d);
}

/// Returns the one-character string for a digit value below ten.
pub fn digit_str(d: u8) -> (r: &'static str)
    requires
        d < 10,
    ensures
        r@ == seq![char_of_digit(d as nat)],
{
    proof {
        reveal_strlit("0");
        reveal_strlit("1");
        reveal_strlit("2");
        reveal_strlit("3");
        reveal_strlit("4");
        reveal_strlit("5");
        reveal_strlit("6");
        reveal_strlit("7");
        reveal_strlit("8");
        reveal_strlit("9");
    }
    let r: &'static str = if d == 0 {
        "0"
    } else if d == 1 {
        "1"
    } else if d == 2 {
        "2"
    } else if d == 3 {
        "3"
    } else if d == 4 {
        "4"
    } else if d == 5 {
        "5"
    } else if d == 6 {
        "6"
    } else if d == 7 {
        "7"
    } else if d == 8 {
        "8"
    } else {
        "9"
    };
    proof {
        assert(r@ =~= seq![char_of_digit(d as nat)]);
    }
    r
}

/// Builds the string whose characters are the digits of `digits` read from
/// the highest digit down; `digits` holds digit values, lowest first.
pub fn digits_to_string(digits: &Vec<u8>) -> (r: String)
    requires
        forall|k: int| 0 <= k < digits@.len() ==> (#[trigger] digits@[k]) < 10,
    ensures
        r@ == rev_chars(digits@),
{
    let mut out = String::new();
    let mut i: usize = digits.len();
    proof {
        assert(digits@.skip(digits@.len() as int) =~= Seq::<u8>::empty());
        assert(rev_chars(Seq::<u8>::empty()) =~= Seq::<char>::empty());
    }
    while i > 0
        invariant
            i <= digits@.len(),
            forall|k: int| 0 <= k < digits@.len() ==> (#[trigger] digits@[k]) < 10,
            out@ == rev_chars(digits@.skip(i as int)),
        decreases i,
    {
        i = i - 1;
        let piece = digit_str(digits[i]);
        out.append(piece);
        proof {
            let tail = digits@.skip(i as int);
            assert(tail.len() > 0);
            assert(tail.first() == digits@[i as int]);
            assert(tail.drop_first() =~= digits@.skip(i as int + 1));
            lemma_rev_chars_unfold_front(tail);
        }
    }
    proof {
        assert(digits@.skip(0) =~= digits@);
    }
    out
}

/// A decimal digit character lies in the ASCII range.
proof fn lemma_digit_char_ascii(c: char)
    requires
        48 <= (c as u32) <= 57,
    ensures
        '\0' <= c && c <= '\u{7f}',
{
}

/// A string of decimal digits holds no character beyond the ASCII range.
proof fn lemma_digits_are_ascii(s: Seq<char>)
    requires
        all_digits(s),
    ensures
        vstd::utf8::is_ascii_chars(s),
{
    assert forall|i: int| 0 <= i < s.len() implies ('\0' <= #[trigger] s[i] && s[i]
        <= '\u{7f}') by {
        assert(is_digit(s[i]));
        lemma_digit_char_ascii(s[i]);
    }
}

/// Parses a string of decimal digits into a value; rejects an empty string,
/// any non-digit character (a sign among them), and any value above
/// `u128::MAX`.
pub fn parse_decimal(s: &str) -> (r: Result<u128, ParseError>)
    ensures
        s@.len() == 0 ==> r == Err::<u128, ParseError>(ParseError::Empty),
        s@.len() > 0 && !all_digits(s@) ==> r == Err::<u128, ParseError>(ParseError::InvalidDigit),
        s@.len() > 0 && all_digits(s@) && dec_val(s@) > u128::MAX ==> r == Err::<u128, ParseError>(
            ParseError::OutOfRange,
        ),
        s@.len() > 0 && all_digits(s@) && dec_val(s@) <= u128::MAX ==> (r matches Ok(v) && v
            == dec_val(s@)),
    {
    broadcast use vstd::string::is_ascii_spec_bytes;

    let len = s.unicode_len();
    if len == 0 {
        return Err(ParseError::Empty);
    }
    if !s.is_ascii() {
        proof {
            if all_digits(s@) {
                lemma_digits_are_ascii(s@);
            }
        }
        return Err(ParseError::InvalidDigit);
    }
    let mut i: usize = 0;
    while i < len
        invariant
            i <= len,
            len == s@.len(),
            vstd::string::is_ascii(s),
            forall|j: int| 0 <= j < i ==> is_digit(#[trigger] s@[j]),
        decreases len - i,
    {
        let b = s.get_ascii(i);
        proof {
            assert('\0' <= s@[i as int] && s@[i as int] <= '\u{7f}');
            assert((s@[i as int] as u32) < 128);
        }
        if b < 48 || b > 57 {
            proof {
                assert(!is_digit(s@[i as int]));
            }
            return Err(ParseError::InvalidDigit);
        }
        proof {
            assert(is_digit(s@[i as int]));
        }
        i = i + 1;
    }
    proof {
        assert(all_digits(s@));
        assert(s@.take(0) =~= Seq::<char>::empty());
    }
    let mut val: u128 = 0;
    let max_div: u128 = u128::MAX / 10;
    let max_mod: u128 = u128::MAX % 10;
    proof {
        vstd::arithmetic::div_mod::lemma_fundamental_div_mod(u128::MAX as int, 10);
    }
    i = 0;
    while i < len
        invariant
            i <= len,
            len == s@.len(),
            vstd::string::is_ascii(s),
            all_digits(s@),
            max_div == u128::MAX as int / 10,
            max_mod == u128::MAX as int % 10,
            u128::MAX as int == 10 * (max_div as int) + (max_mod as int),
            0 <= max_mod < 10,
            val == dec_val(s@.take(i as int)),
        decreases len - i,
    {
        let b = s.get_ascii(i);
        proof {
            assert('\0' <= s@[i as int] && s@[i as int] <= '\u{7f}');
            assert((s@[i as int] as u32) < 128);
            assert(is_digit(s@[i as int]));
        }
        let d = b - 48;
        proof {
            assert(d < 10);
            assert(digit_of(s@[i as int]) == d as int);
            assert(s@.take(i as int + 1).drop_last() =~= s@.take(i as int));
            assert(s@.take(i as int + 1).last() == s@[i as int]);
            assert(dec_val(s@.take(i as int + 1)) == 10 * dec_val(s@.take(i as int)) + digit_of(
                s@[i as int],
            ));
        }
        if val > max_div || (val == max_div && d as u128 > max_mod) {
            proof {
                assert(dec_val(s@.take(i as int + 1)) > u128::MAX);
                lemma_dec_val_take_le(s@, i as int + 1);
            }
            return Err(ParseError::OutOfRange);
        }
        val = val * 10 + (d as u128);
        i = i + 1;
    }
    proof {
        assert(s@.take(len as int) =~= s@);
    }
    Ok(val)
}

/// Extending a digit string on the right never lowers its value.
pub proof fn lemma_dec_val_take_le(s: Seq<char>, i: int)
    requires
        all_digits(s),
        0 <= i <= s.len(),
    ensures
        dec_val(s.take(i)) <= dec_val(s),
    decreases s.len() - i,
{
    if i == s.len() {
        assert(s.take(i) =~= s);
    } else {
        lemma_dec_val_take_le(s, i + 1);
        let t = s.take(i + 1);
        assert(t.drop_last() =~= s.take(i));
        assert(t.last() == s[i]);
        assert(all_digits(s.take(i))) by {
            assert(forall|j: int| 0 <= j < i ==> #[trigger] s.take(i)[j] == s[j]);
        }
        lemma_dec_val_nonneg(s.take(i));
        assert(is_digit(s[i]));
        assert(dec_val(t) == 10 * dec_val(s.take(i)) + digit_of(s[i]));
    }
}

} // verus!
