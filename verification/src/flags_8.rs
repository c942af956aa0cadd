//! Bit set over positions `0..8`, backed by a `u8`.

use vstd::prelude::*;

verus! {

use crate::arith::bit_len;
use crate::arith::highest_one;
use crate::arith::pop_count;
use crate::arith::lemma_bit_len_le;
use crate::arith::lemma_bit_len_bounds;
use crate::arith::lemma_highest_one_pow2;
use crate::arith::lemma_highest_one_properties;
use crate::arith::lemma_pop_count_le_bit_len;
use crate::arith::lemma_pop_count_pow2;
use vstd::arithmetic::power2::pow2;
use vstd::arithmetic::power2::lemma2_to64;
use crate::arith::bit_positions;
use crate::arith::nat_bit;
use crate::codec::DecodeError;
use crate::codec::ParseError;
use crate::codec::le_bytes_of;
use crate::codec::nat_of_le_bytes;
use crate::codec::dec_string_of;
use crate::codec::dec_val;
use crate::codec::all_digits;
use crate::codec::rev_chars;

/// 8-bit bit set, indexed from bit position `0` to `7`.
#[derive(Debug, Default, Clone, Copy, Hash, PartialEq, Eq, Structural)]
pub struct BitFlags8(pub u8);

/// The union of the singleton sets for the indexes of `s`, built left to
/// right; every index must be below `8`.
pub open spec fn spec_from_indices8(s: Seq<usize>) -> u8
    decreases s.len(),
{
    if s.len() == 0 {
        0u8
    } else {
        spec_from_indices8(s.drop_last()) | (1u8 << (s.last() as u8))
    }
}

/// What parsing a decimal digit string at this width yields: the denoted
/// value when the string is nonempty, all digits, and in range, and the
/// matching error otherwise.
pub open spec fn spec_from_decimal8(s: Seq<char>) -> Result<BitFlags8, ParseError> {
    if s.len() == 0 {
        Err(ParseError::Empty)
    } else if !all_digits(s) {
        Err(ParseError::InvalidDigit)
    } else if dec_val(s) > u8::MAX {
        Err(ParseError::OutOfRange)
    } else {
        Ok(BitFlags8(dec_val(s) as u8))
    }
}

/// `v` with every bit below its highest set bit also set.
pub open spec fn smear8(v: u8) -> u8 {
    let a = v | (v >> 1);
    let b = a | (a >> 2);
    let c = b | (b >> 4);
    c
}

proof fn lemma_bv_algebra_u8(a: u8, b: u8)
    by (bit_vector)
    ensures
        (a | a) == a,
        (a & a) == a,
        !(a | b) == (!a & !b),
        !(a & b) == (!a | !b),
        ((a & b) == b) <==> ((a | b) == a),
{
}

proof fn lemma_bv_set_ops_u8(a: u8, b: u8, j: u8)
    by (bit_vector)
    requires
        j < 8,
    ensures
        (((a | b) >> j) & 1 == 1) <==> (((a >> j) & 1 == 1) || ((b >> j) & 1 == 1)),
        (((a & b) >> j) & 1 == 1) <==> (((a >> j) & 1 == 1) && ((b >> j) & 1 == 1)),
        (((a & !b) >> j) & 1 == 1) <==> (((a >> j) & 1 == 1) && !((b >> j) & 1 == 1)),
        (((a ^ b) >> j) & 1 == 1) <==> (((a >> j) & 1 == 1) != ((b >> j) & 1 == 1)),
        (((!a) >> j) & 1 == 1) <==> !((a >> j) & 1 == 1),
{
}

proof fn lemma_bv_single_bit_u8(v: u8, i: u8, j: u8)
    by (bit_vector)
    requires
        i < 8,
        j < 8,
    ensures
        (((1u8 << i) >> j) & 1 == 1) <==> (j == i),
        (((v | (1u8 << i)) >> j) & 1 == 1) <==> (j == i || ((v >> j) & 1 == 1)),
        (((v & !(1u8 << i)) >> j) & 1 == 1) <==> (j != i && ((v >> j) & 1 == 1)),
        (((v ^ (1u8 << i)) >> j) & 1 == 1) <==> (if j == i {
            !((v >> j) & 1 == 1)
        } else {
            ((v >> j) & 1 == 1)
        }),
{
}

proof fn lemma_bv_smear_u8(v: u8, k: u8)
    by (bit_vector)
    ensures
        smear8(v) >= (smear8(v) >> 1),
        v == 0 ==> smear8(v) == 0,
        ((v >> k) == 1) ==> (smear8(v) - (smear8(v) >> 1)) == (1u8 << k),
{
}

proof fn lemma_bv_range_u8(s: u8, e: u8, j: u8)
    by (bit_vector)
    requires
        s < 8,
        e < 8,
        s <= e,
        j < 8,
    ensures
        (1u8 << s) <= (1u8 << e),
        ((((1u8 << e) | ((((1u8 << e) - (1u8 << s))) as u8)) >> j) & 1 == 1) <==> (s <= j
            <= e),
{
}

proof fn lemma_bv_first_n_u8(n: u8, j: u8)
    by (bit_vector)
    requires
        1 <= n <= 8,
        j < 8,
    ensures
        (1u8 << ((n - 1) as u8)) >= 1,
        ((((1u8 << ((n - 1) as u8)) | ((((1u8 << ((n - 1) as u8)) - 1)) as u8)) >> j) & 1
            == 1) <==> (j < n),
{
}

impl BitFlags8 {
    /// Whether bit `i` is a member of the set.
    pub open spec fn spec_bit(self, i: u8) -> bool {
        (self.0 >> i) & 1 == 1
    }

    /// Returns a new instance with all bits set to `0`.
    pub fn new() -> (r: Self)
        ensures
            r.0 == 0,
    {
        Self::empty()
    }

    /// Returns a new instance with all bits set to `0`.
    #[inline]
    pub fn empty() -> (r: Self)
        ensures
            r.0 == 0,
    {
        Self(0)
    }

    /// Returns a new instance with all bits set to `1`.
    #[inline]
    pub fn full() -> (r: Self)
        ensures
            r.0 == u8::MAX,
    {
        Self(u8::MAX)
    }

    /// Returns a new instance with bits in range `(start..=end)` set.
    ///
    /// Callers must pass `start <= end`, both below `8`.
    #[inline]
    pub fn with_set_bit_range(start: u8, end: u8) -> (r: Self)
        requires
            start < 8,
            end < 8,
            start <= end,
        ensures
            r.0 == ((1u8 << (end as u8)) | ((((1u8 << (end as u8)) - (1u8 << (start
                as u8)))) as u8)),
    {
        proof {
            lemma_bv_range_u8(start as u8, end as u8, 0);
        }
        let e = 1u8 << (end as u8);
        BitFlags8(e | (e - (1u8 << (start as u8))))
    }

    /// Returns a new instance with the first `n` (1-8) bits set.
    ///
    /// Callers must pass `n` from `1` to `8`.
    #[inline]
    pub fn with_first_n_set(n: u8) -> (r: Self)
        requires
            1 <= n <= 8,
        ensures
            r.0 == ((1u8 << ((n - 1) as u8)) | ((((1u8 << ((n - 1) as u8)) - 1)) as u8)),
    {
        proof {
            lemma_bv_first_n_u8(n as u8, 0);
        }
        let v = 1u8 << ((n - 1) as u8);
        BitFlags8(v | (v - 1))
    }

    /// Returns a new instance with all bits set to `1`.
    #[inline]
    pub fn all() -> (r: Self)
        ensures
            r.0 == u8::MAX,
    {
        Self(u8::MAX)
    }

    /// Returns `true` if _all_ bits are set.
    #[inline]
    pub fn is_all(&self) -> (r: bool)
        ensures
            r == (self.0 == u8::MAX),
    {
        self.0 == u8::MAX
    }

    /// Returns a new instance using specified bits.
    #[inline]
    pub fn from_bits(val: u8) -> (r: Self)
        ensures
            r.0 == val,
    {
        Self(val)
    }

    /// Returns a new instance from a `u8`.
    #[inline]
    pub fn from_u8(val: u8) -> (r: Self)
        ensures
            r.0 == val,
    {
        Self(val)
    }

    /// Returns the underlying `u8` value.
    #[inline]
    pub fn to_u8(&self) -> (r: u8)
        ensures
            r == self.0,
    {
        self.0
    }

    /// Converts an index (0-7) into a `BitFlags8` holding that single bit.
    ///
    /// Callers must pass an index below `8`.
    #[inline]
    pub fn from_index(index: usize) -> (r: Self)
        requires
            index < 8,
        ensures
            r.0 == (1u8 << (index as u8)),
    {
        Self(1u8 << (index as u8))
    }

    /// Converts a slice of indexes (0-7) into a `BitFlags8`: the union of
    /// the singletons, so order and repetition of indexes do not matter.
    ///
    /// Callers must pass indexes below `8`.
    #[inline]
    pub fn from_slice(s: &[usize]) -> (r: Self)
        requires
            forall|k: int| 0 <= k < s@.len() ==> (#[trigger] s@[k]) < 8,
        ensures
            r.0 == spec_from_indices8(s@),
    {
        let mut bits = Self(0);
        proof {
            assert(s@.take(0) =~= Seq::<usize>::empty());
        }
        let mut i: usize = 0;
        while i < s.len()
            invariant
                i <= s@.len(),
                forall|k: int| 0 <= k < s@.len() ==> (#[trigger] s@[k]) < 8,
                bits.0 == spec_from_indices8(s@.take(i as int)),
            decreases s@.len() - i,
        {
            let temp_bits = Self::from_index(s[i]);
            bits.insert(temp_bits);
            proof {
                assert(s@.take(i + 1).drop_last() =~= s@.take(i as int));
                assert(s@.take(i + 1).last() == s@[i as int]);
            }
            i = i + 1;
        }
        proof {
            assert(s@.take(s@.len() as int) =~= s@);
        }
        bits
    }

    /// Returns `true` if _no_ bits are set.
    #[inline]
    pub fn is_empty(&self) -> (r: bool)
        ensures
            r == (self.0 == 0),
    {
        self.0 == 0
    }

    /// Returns `true` if _all_ bits are set.
    #[inline]
    pub fn is_full(&self) -> (r: bool)
        ensures
            r == (self.0 == u8::MAX),
    {
        self.0 == u8::MAX
    }

    /// Returns `true` if `self` and `other` have _at least one_ matching set
    /// bit.
    #[inline]
    pub fn intersects(&self, other: Self) -> (r: bool)
        ensures
            r == ((self.0 & other.0) != 0),
    {
        (self.0 & other.0) > 0
    }

    /// Returns the bitwise `AND` (`&`) of two flags.
    #[inline]
    pub fn intersection(&self, other: Self) -> (r: Self)
        ensures
            r.0 == (self.0 & other.0),
    {
        BitFlags8(self.0 & other.0)
    }

    /// Returns the bits set in `self` that are _not_ set in `other`.
    #[inline]
    pub fn difference(&self, other: Self) -> (r: Self)
        ensures
            r.0 == (self.0 & !other.0),
    {
        BitFlags8(self.0 & !other.0)
    }

    /// Returns the bits set in `self` or `other`, but _not_ both, using
    /// bitwise `XOR` (`^`).
    #[inline]
    pub fn symmetric_difference(&self, other: Self) -> (r: Self)
        ensures
            r.0 == (self.0 ^ other.0),
    {
        BitFlags8(self.0 ^ other.0)
    }

    /// Returns the bitwise `OR` (`|`) of two flags.
    #[inline]
    pub fn union(&self, other: Self) -> (r: Self)
        ensures
            r.0 == (self.0 | other.0),
    {
        BitFlags8(self.0 | other.0)
    }

    /// Returns the bitwise negation (`!`) of given flags.
    #[inline]
    pub fn complement(&self) -> (r: Self)
        ensures
            r.0 == !self.0,
    {
        BitFlags8(!self.0)
    }

    /// Returns `true` if current flags contain _all_ incoming flags.
    #[inline]
    pub fn contains(&self, other: Self) -> (r: bool)
        ensures
            r == ((self.0 & other.0) == other.0),
    {
        (self.0 & other.0) == other.0
    }

    /// Inserts `other` flags into current flags using bitwise `OR` (`|`).
    #[inline]
    pub fn insert(&mut self, other: Self)
        ensures
            final(self).0 == (old(self).0 | other.0),
    {
        self.0 = self.0 | other.0;
    }

    /// Sets bit at given index (0-7).
    ///
    /// Callers must pass an index below `8`.
    #[inline]
    pub fn insert_at_index(&mut self, index: usize)
        requires
            index < 8,
        ensures
            final(self).0 == (old(self).0 | (1u8 << (index as u8))),
    {
        self.0 = self.0 | (1u8 << (index as u8));
    }

    /// Inserts `other` if `value` is `true`; removes `other` if `value` is
    /// `false`.
    #[inline]
    pub fn set(&mut self, other: Self, value: bool)
        ensures
            value ==> final(self).0 == (old(self).0 | other.0),
            !value ==> final(self).0 == (old(self).0 & !other.0),
    {
        if value {
            self.insert(other);
        } else {
            self.remove(other);
        }
    }

    /// Sets bit at given index (0-7) to specific value (`true` = `1`;
    /// `false` = `0`).
    ///
    /// Callers must pass an index below `8`.
    #[inline]
    pub fn set_at_index(&mut self, index: usize, value: bool)
        requires
            index < 8,
        ensures
            value ==> final(self).0 == (old(self).0 | (1u8 << (index as u8))),
            !value ==> final(self).0 == (old(self).0 & !(1u8 << (index as u8))),
    {
        if value {
            self.insert_at_index(index);
        } else {
            self.remove_at_index(index);
        }
    }

    /// Sets bits in range `(start..=end)`.
    ///
    /// Callers must pass `start <= end`, both below `8`.
    #[inline]
    pub fn set_bit_range(&mut self, start: u8, end: u8)
        requires
            start < 8,
            end < 8,
            start <= end,
        ensures
            final(self).0 == (old(self).0 | ((1u8 << (end as u8)) | ((((1u8 << (end
                as u8)) - (1u8 << (start as u8)))) as u8))),
    {
        proof {
            lemma_bv_range_u8(start as u8, end as u8, 0);
        }
        let e = 1u8 << (end as u8);
        self.0 = self.0 | (e | (e - (1u8 << (start as u8))));
    }

    /// Toggles bits based on mask (using bitwise `XOR`).
    #[inline]
    pub fn toggle(&mut self, mask: Self)
        ensures
            final(self).0 == (old(self).0 ^ mask.0),
    {
        self.0 = self.0 ^ mask.0;
    }

    /// Toggles bit at given index.
    ///
    /// Callers must pass an index below `8`.
    #[inline]
    pub fn toggle_at_index(&mut self, index: usize)
        requires
            index < 8,
        ensures
            final(self).0 == (old(self).0 ^ (1u8 << (index as u8))),
    {
        self.0 = self.0 ^ (1u8 << (index as u8));
    }

    /// Unsets bits that match those of incoming `BitFlags8` (bitwise
    /// `AND NOT`).
    #[inline]
    pub fn remove(&mut self, other: Self)
        ensures
            final(self).0 == (old(self).0 & !other.0),
    {
        self.0 = self.0 & !other.0;
    }

    /// Unsets bit at given index (0-7).
    ///
    /// Callers must pass an index below `8`.
    #[inline]
    pub fn remove_at_index(&mut self, index: usize)
        requires
            index < 8,
        ensures
            final(self).0 == (old(self).0 & !(1u8 << (index as u8))),
    {
        self.0 = self.0 & !(1u8 << (index as u8));
    }

    /// Returns the bits (internal value).
    #[inline]
    pub fn bits(&self) -> (r: u8)
        ensures
            r == self.0,
    {
        self.0
    }

    /// Returns the number of bits.
    #[inline]
    pub fn num_bits() -> (r: usize)
        ensures
            r == 8,
    {
        8
    }

    /// Returns value of bit at given index (`0` is `false`; `1` is `true`).
    ///
    /// Callers must pass an index below `8`.
    #[inline]
    pub fn bit_at_index(&self, index: usize) -> (r: bool)
        requires
            index < 8,
        ensures
            r == self.spec_bit(index as u8),
    {
        (self.0 >> (index as u8)) & 1 == 1
    }

    /// Returns value of bit at given index (`0` is `false`; `1` is `true`).
    /// Returns `None` if out of bounds.
    #[inline]
    pub fn get_bit_at_index(&self, index: usize) -> (r: Option<bool>)
        ensures
            r == if index < 8 {
                Some(self.spec_bit(index as u8))
            } else {
                None::<bool>
            },
    {
        if index < 8 {
            return Some((self.0 >> (index as u8)) & 1 == 1);
        }
        None
    }

    /// Returns the value of the highest set bit of the bitflag: the largest
    /// power of two at most the value, or `0` for the empty set.
    #[inline]
    pub fn highest_set_bit(&self) -> (r: Self)
        ensures
            r.0 == highest_one(self.0 as nat),
    {
        let mut n = self.0;
        n = n | (n >> 1);
        n = n | (n >> 2);
        n = n | (n >> 4);
        proof {
            lemma_highest_flags8(self.0, n);
        }
        BitFlags8(n - (n >> 1))
    }

    /// Returns the number of binary digits of the bitflag: one more than the
    /// zero-based position of its highest set bit, or `None` if no bit is
    /// set.
    #[inline]
    pub fn highest_set_bit_index(&self) -> (r: Option<usize>)
        ensures
            r == if self.0 == 0 {
                None::<usize>
            } else {
                Some(bit_len(self.0 as nat) as usize)
            },
    {
        if self.0 == 0 {
            return None;
        }
        let mut val = self.0;
        let mut bit_ix: usize = 0;
        proof {
            lemma_bit_len_fits8(self.0);
        }
        while val > 0
            invariant
                bit_ix + bit_len(val as nat) == bit_len(self.0 as nat),
                bit_len(self.0 as nat) <= 8,
            decreases val,
        {
            bit_ix = bit_ix + 1;
            val = val / 2;
        }
        Some(bit_ix)
    }

    /// Iterates over set bits of the structure, yielding the positions of
    /// set bits in ascending order.
    ///
    /// E.g. collecting the positions of `0b00001001` would produce
    /// `[0, 3]`, representing the 0th and 3rd indexes.
    #[inline]
    pub fn iter(&self) -> (r: BitFlagsIter8)
        ensures
            r.wf(),
            r.remaining() == crate::arith::bit_positions(self.0 as nat, 0),
    {
        proof {
            lemma_bit_len_fits8(self.0);
        }
        BitFlagsIter8 { current_bit: 0, bits: self.0 }
    }

    /// Encodes the value as exactly one byte, the width in bytes, in
    /// little-endian order.
    pub fn to_le_bytes(&self) -> (r: Vec<u8>)
        ensures
            r@ == le_bytes_of(self.0 as nat, 1),
            r@.len() == 1,
    {
        let mut out: Vec<u8> = Vec::new();
        out.push(self.0);
        proof {
            lemma_small_value_facts8(self.0);
            assert(le_bytes_of(0nat, 0) =~= Seq::<u8>::empty());
            assert(le_bytes_of(self.0 as nat, 1) =~= seq![self.0] + Seq::<u8>::empty());
            assert(out@ =~= le_bytes_of(self.0 as nat, 1));
        }
        out
    }

    /// Decodes a value from one byte of `bytes` at `*offset`, advancing the
    /// offset past it; fails without moving the offset when fewer than one
    /// byte remains.
    pub fn read_le_bytes(offset: &mut usize, bytes: &[u8]) -> (r: Result<Self, DecodeError>)
        ensures
            r is Ok <==> *old(offset) + 1 <= bytes@.len(),
            r matches Ok(f) ==> f.0 as nat == nat_of_le_bytes(
                bytes@.subrange(*old(offset) as int, *old(offset) + 1),
            ) && *final(offset) == *old(offset) + 1,
            r is Err ==> *final(offset) == *old(offset) && r == Err::<Self, DecodeError>(
                DecodeError { offset: *old(offset), needed: 1, available: bytes@.len() as usize },
            ),
    {
        if bytes.len() < 1 || *offset > bytes.len() - 1 {
            return Err(DecodeError { offset: *offset, needed: 1, available: bytes.len() });
        }
        let val = bytes[*offset];
        proof {
            let s = bytes@.subrange(*offset as int, *offset + 1);
            assert(s.len() == 1);
            assert(s[0] == val);
            assert(s.drop_first() =~= Seq::<u8>::empty());
            assert(nat_of_le_bytes(Seq::<u8>::empty()) == 0);
            assert(nat_of_le_bytes(s) == val as nat);
        }
        *offset = *offset + 1;
        Ok(BitFlags8(val))
    }

    /// Renders the value as a decimal digit string, the text encoding.
    pub fn to_decimal_string(&self) -> (r: String)
        ensures
            r@ == dec_string_of(self.0 as nat),
    {
        let mut digits: Vec<u8> = Vec::new();
        let mut x: u8 = self.0;
        proof {
            assert(rev_chars(Seq::<u8>::empty()) =~= Seq::<char>::empty());
            assert(dec_string_of(self.0 as nat) + rev_chars(Seq::<u8>::empty())
                =~= dec_string_of(self.0 as nat));
        }
        while x > 9
            invariant
                forall|k: int| 0 <= k < digits@.len() ==> (#[trigger] digits@[k]) < 10,
                dec_string_of(self.0 as nat) == dec_string_of(x as nat) + rev_chars(digits@),
            decreases x,
        {
            proof {
                let c = seq![crate::codec::char_of_digit((x % 10) as nat)];
                crate::codec::lemma_rev_chars_push(digits@, x % 10);
                assert(dec_string_of(x as nat) == dec_string_of((x / 10) as nat) + c);
                assert((dec_string_of((x / 10) as nat) + c) + rev_chars(digits@)
                    =~= dec_string_of((x / 10) as nat) + (c + rev_chars(digits@)));
                vstd::arithmetic::div_mod::lemma_div_decreases(x as int, 10);
            }
            digits.push(x % 10);
            x = x / 10;
        }
        proof {
            crate::codec::lemma_rev_chars_push(digits@, x);
            assert(dec_string_of(x as nat) == seq![crate::codec::char_of_digit(x as nat)]);
            assert(seq![crate::codec::char_of_digit(x as nat)] + rev_chars(digits@) =~= rev_chars(
                digits@.push(x),
            ));
        }
        digits.push(x);
        crate::codec::digits_to_string(&digits)
    }

    /// Parses a decimal digit string into a value, the inverse of the text
    /// encoding; rejects empty or non-digit input and any value above
    /// `u8::MAX`.
    pub fn from_decimal_str(s: &str) -> (r: Result<Self, ParseError>)
        ensures
            r == spec_from_decimal8(s@),
    {
        match crate::codec::parse_decimal(s) {
            Err(e) => Err(e),
            Ok(v) => {
                if v > u8::MAX as u128 {
                    Err(ParseError::OutOfRange)
                } else {
                    Ok(BitFlags8(v as u8))
                }
            },
        }
    }

    /// Renders the value as a `0b`-prefixed, zero-padded string of exactly
    /// eight binary digits, highest bit first.
    pub fn to_binary_string(&self) -> (r: String)
        ensures
            r@.len() == 10,
            r@[0] == '0',
            r@[1] == 'b',
            forall|j: int|
                0 <= j < 8 ==> #[trigger] r@[2 + j] == (if self.spec_bit((7 - j) as u8) {
                    '1'
                } else {
                    '0'
                }),
    {
        proof {
            reveal_strlit("0b");
            reveal_strlit("0");
            reveal_strlit("1");
        }
        let mut out = String::from_str("0b");
        let mut k: usize = 8;
        while k > 0
            invariant
                k <= 8,
                out@.len() == 2 + (8 - k),
                out@[0] == '0',
                out@[1] == 'b',
                forall|j: int|
                    0 <= j < 8 - k ==> #[trigger] out@[2 + j] == (if self.spec_bit((7 - j) as u8) {
                        '1'
                    } else {
                        '0'
                    }),
            decreases k,
        {
            proof {
                reveal_strlit("0");
                reveal_strlit("1");
            }
            k = k - 1;
            if (self.0 >> (k as u8)) & 1 == 1 {
                out.append("1");
            } else {
                out.append("0");
            }
        }
        out
    }

    /// Counts the number of ones in the bitflag.
    #[inline]
    pub fn count_ones(&self) -> (r: u32)
        ensures
            r == pop_count(self.0 as nat),
    {
        let mut val = self.0;
        let mut count: u32 = 0;
        proof {
            lemma_bit_len_fits8(self.0);
            lemma_pop_count_le_bit_len(self.0 as nat);
        }
        while val > 0
            invariant
                count + pop_count(val as nat) == pop_count(self.0 as nat),
                pop_count(self.0 as nat) <= 8,
            decreases val,
        {
            count = count + (val % 2) as u32;
            val = val / 2;
        }
        count
    }
}

/// A `u8` has at most eight binary digits.
proof fn lemma_bit_len_fits8(v: u8)
    ensures
        bit_len(v as nat) <= 8,
{
    assert(pow2(8) == 256) by {
        lemma2_to64();
    }
    lemma_bit_len_le(v as nat, 8);
}

/// A `u8` is one byte: it is its own remainder and has no quotient by 256.
proof fn lemma_small_value_facts8(v: u8)
    ensures
        (v as nat) % 256 == v as nat,
        (v as nat) / 256 == 0,
{
    vstd::arithmetic::div_mod::lemma_small_mod(v as nat, 256);
    vstd::arithmetic::div_mod::lemma_basic_div(v as int, 256);
}

/// The smear-and-subtract computation leaves exactly the highest set bit.
proof fn lemma_highest_flags8(v: u8, n: u8)
    requires
        n == smear8(v),
    ensures
        n >= (n >> 1),
        n - (n >> 1) == highest_one(v as nat),
{
    lemma_bv_smear_u8(v, 0);
    if v == 0 {
        assert(smear8(0u8) >> 1 == 0) by (bit_vector);
    } else {
        lemma_bit_len_bounds(v as nat);
        lemma_bit_len_fits8(v);
        let k = (bit_len(v as nat) - 1) as u8;
        assert(pow2(k as nat) <= v < pow2(k as nat + 1));
        assert((v >> k) == v as nat / pow2(k as nat)) by {
            vstd::bits::lemma_u8_shr_is_div(v, k);
        }
        assert(v as nat / pow2(k as nat) == 1) by {
            vstd::arithmetic::power2::lemma_pow2_unfold(k as nat + 1);
            vstd::arithmetic::power2::lemma_pow2_pos(k as nat);
            let p = pow2(k as nat) as int;
            vstd::arithmetic::div_mod::lemma_div_by_self(p);
            vstd::arithmetic::div_mod::lemma_div_is_ordered(p, v as int, p);
            assert(v as int / p >= 1);
            assert(v < 2 * p);
            vstd::arithmetic::div_mod::lemma_multiply_divide_lt(v as int, p, 2);
            assert(v as int / p < 2);
        }
        lemma_bv_smear_u8(v, k);
        assert((1u8 << k) == pow2(k as nat)) by {
            vstd::bits::lemma_u8_pow2_no_overflow(k as nat);
            vstd::bits::lemma_u8_shl_is_mul(1u8, k);
        }
        lemma_highest_one_pow2(v as nat);
    }
}

/// Union and intersection are idempotent: combining a set with itself gives
/// the set back.
pub proof fn lemma_union_intersection_idempotent(x: BitFlags8)
    ensures
        (x.0 | x.0) == x.0,
        (x.0 & x.0) == x.0,
{
    lemma_bv_algebra_u8(x.0, x.0);
}

/// De Morgan duality: the complement of a union is the intersection of the
/// complements, and dually for intersection.
pub proof fn lemma_de_morgan(a: BitFlags8, b: BitFlags8)
    ensures
        !(a.0 | b.0) == (!a.0 & !b.0),
        !(a.0 & b.0) == (!a.0 | !b.0),
{
    lemma_bv_algebra_u8(a.0, b.0);
}

/// Containment consistency: `a` contains `b` exactly when their union is
/// `a` again.
pub proof fn lemma_contains_union_consistency(a: BitFlags8, b: BitFlags8)
    ensures
        ((a.0 & b.0) == b.0) <==> ((a.0 | b.0) == a.0),
{
    lemma_bv_algebra_u8(a.0, b.0);
}

/// Membership reading of the set operations, bit by bit.
pub proof fn lemma_set_op_bits(a: BitFlags8, b: BitFlags8, j: u8)
    requires
        j < 8,
    ensures
        BitFlags8(a.0 | b.0).spec_bit(j) <==> (a.spec_bit(j) || b.spec_bit(j)),
        BitFlags8(a.0 & b.0).spec_bit(j) <==> (a.spec_bit(j) && b.spec_bit(j)),
        BitFlags8(a.0 & !b.0).spec_bit(j) <==> (a.spec_bit(j) && !b.spec_bit(j)),
        BitFlags8(a.0 ^ b.0).spec_bit(j) <==> (a.spec_bit(j) != b.spec_bit(j)),
        BitFlags8(!a.0).spec_bit(j) <==> !a.spec_bit(j),
{
    lemma_bv_set_ops_u8(a.0, b.0, j);
}

/// Membership reading of the single-bit operations: the singleton of `i`
/// holds exactly bit `i`, and inserting, removing or toggling bit `i`
/// changes that bit alone.
pub proof fn lemma_single_bit_ops(x: BitFlags8, i: u8, j: u8)
    requires
        i < 8,
        j < 8,
    ensures
        BitFlags8(1u8 << i).spec_bit(j) <==> (j == i),
        BitFlags8(x.0 | (1u8 << i)).spec_bit(j) <==> (j == i || x.spec_bit(j)),
        BitFlags8(x.0 & !(1u8 << i)).spec_bit(j) <==> (j != i && x.spec_bit(j)),
        BitFlags8(x.0 ^ (1u8 << i)).spec_bit(j) == (if j == i {
            !x.spec_bit(j)
        } else {
            x.spec_bit(j)
        }),
{
    lemma_bv_single_bit_u8(x.0, i, j);
}

/// Index/bit correspondence: the singleton made from index `i` has bit `i`
/// set and has exactly one set bit.
pub proof fn lemma_index_bit_correspondence(i: usize)
    requires
        i < 8,
    ensures
        BitFlags8(1u8 << (i as u8)).spec_bit(i as u8),
        pop_count((1u8 << (i as u8)) as nat) == 1,
{
    lemma_bv_single_bit_u8(0, i as u8, i as u8);
    assert((1u8 << (i as u8)) == pow2(i as nat)) by {
        vstd::bits::lemma_u8_pow2_no_overflow(i as nat);
        vstd::bits::lemma_u8_shl_is_mul(1u8, i as u8);
    }
    lemma_pop_count_pow2(i as nat);
}

/// Range construction: the range instance holds exactly the bit positions
/// from `start` through `end` inclusive.
pub proof fn lemma_range_membership(start: u8, end: u8, j: u8)
    requires
        start < 8,
        end < 8,
        start <= end,
        j < 8,
    ensures
        BitFlags8((1u8 << end) | ((((1u8 << end) - (1u8 << start))) as u8)).spec_bit(j)
            <==> (start <= j <= end),
{
    lemma_bv_range_u8(start, end, j);
}

/// First-n construction: the instance made from `n` holds exactly the bit
/// positions below `n`.
pub proof fn lemma_first_n_membership(n: u8, j: u8)
    requires
        1 <= n <= 8,
        j < 8,
    ensures
        BitFlags8((1u8 << ((n - 1) as u8)) | ((((1u8 << ((n - 1) as u8)) - 1)) as u8))
            .spec_bit(j) <==> (j < n),
{
    lemma_bv_first_n_u8(n, j);
}

/// Highest-bit law: a nonempty set's highest bit is a single bit, is at
/// most the value, and is the largest power of two not above it; the empty
/// set's highest bit is the empty set.
pub proof fn lemma_highest_bit(x: BitFlags8)
    ensures
        x.0 == 0 ==> highest_one(x.0 as nat) == 0,
        x.0 != 0 ==> pop_count(highest_one(x.0 as nat)) == 1,
        x.0 != 0 ==> highest_one(x.0 as nat) <= x.0,
        x.0 != 0 ==> x.0 < 2 * highest_one(x.0 as nat),
{
    if x.0 != 0 {
        lemma_highest_one_properties(x.0 as nat);
    }
}

proof fn lemma_bv_mod_two_u8(x: u8)
    by (bit_vector)
    ensures
        ((x & 1) == 1) <==> ((x % 2) == 1),
{
}

/// Iterator correspondence: the position list that `iter` walks holds a
/// position below the width exactly when that bit of the flags is set.
pub proof fn lemma_iter_bits(x: BitFlags8, j: u8)
    requires
        j < 8,
    ensures
        bit_positions(x.0 as nat, 0).contains(j as nat) <==> x.spec_bit(j),
{
    crate::arith::lemma_bit_positions_membership(x.0 as nat, 0);
    assert((x.0 >> j) == x.0 as nat / pow2(j as nat)) by {
        vstd::bits::lemma_u8_shr_is_div(x.0, j);
    }
    lemma_bv_mod_two_u8(x.0 >> j);
    assert(nat_bit(x.0 as nat, j as nat) == ((x.0 >> j) % 2 == 1));
}

/// Binary round-trip: decoding the little-endian encoding of any value
/// gives the value back.
pub proof fn lemma_binary_round_trip(x: BitFlags8)
    ensures
        nat_of_le_bytes(le_bytes_of(x.0 as nat, 1)) == x.0 as nat,
{
    assert(pow2(8) == 256) by {
        lemma2_to64();
    }
    crate::codec::lemma_le_bytes_round_trip(x.0 as nat, 1);
}

/// Text round-trip: parsing the decimal rendering of any value gives the
/// value back.
pub proof fn lemma_text_round_trip(x: BitFlags8)
    ensures
        spec_from_decimal8(dec_string_of(x.0 as nat)) == Ok::<BitFlags8, ParseError>(x),
{
    crate::codec::lemma_dec_string_of_digits(x.0 as nat);
    crate::codec::lemma_dec_round_trip(x.0 as nat);
}

/// Iterator over set bits of a `BitFlags8`, yielding their positions in
/// ascending order.
pub struct BitFlagsIter8 {
    current_bit: usize,
    bits: u8,
}

impl BitFlagsIter8 {
    /// The positions this iterator has yet to yield, in ascending order.
    pub closed spec fn remaining(self) -> Seq<nat> {
        bit_positions(self.bits as nat, self.current_bit as nat)
    }

    /// The pending positions all lie below the width of the flags the
    /// iterator was made from.
    pub closed spec fn wf(self) -> bool {
        self.current_bit + bit_len(self.bits as nat) <= 8
    }

    /// Yields the position of the lowest remaining set bit, or `None` when
    /// no set bits remain.
    pub fn next(&mut self) -> (r: Option<usize>)
        requires
            old(self).wf(),
        ensures
            final(self).wf(),
            old(self).remaining().len() == 0 ==> r is None && final(self).remaining().len() == 0,
            old(self).remaining().len() > 0 ==> r == Some(old(self).remaining()[0] as usize)
                && final(self).remaining() == old(self).remaining().drop_first(),
    {
        while self.bits != 0
            invariant
                self.current_bit + bit_len(self.bits as nat) <= 8,
                bit_positions(self.bits as nat, self.current_bit as nat) == old(self).remaining(),
            decreases self.bits,
        {
            proof {
                vstd::arithmetic::div_mod::lemma_div_decreases(self.bits as int, 2);
                assert(bit_len(self.bits as nat) == 1 + bit_len((self.bits / 2) as nat));
            }
            if self.bits % 2 == 1 {
                let ret = self.current_bit;
                proof {
                    let rest = bit_positions(
                        (self.bits / 2) as nat,
                        (self.current_bit + 1) as nat,
                    );
                    assert(old(self).remaining() == seq![self.current_bit as nat] + rest);
                    assert(old(self).remaining()[0] == self.current_bit as nat);
                    assert((seq![self.current_bit as nat] + rest).drop_first() =~= rest);
                }
                self.bits = self.bits / 2;
                self.current_bit = self.current_bit + 1;
                return Some(ret);
            }
            self.bits = self.bits / 2;
            self.current_bit = self.current_bit + 1;
        }
        proof {
            assert(bit_positions(0nat, self.current_bit as nat) =~= Seq::<nat>::empty());
        }
        None
    }
}

impl core::ops::BitOr<BitFlags8> for BitFlags8 {
    type Output = BitFlags8;

    /// Returns the union of the two operands.
    #[inline]
    fn bitor(self, rhs: BitFlags8) -> (r: BitFlags8)
        ensures
            r.0 == (self.0 | rhs.0),
    {
        BitFlags8(self.0 | rhs.0)
    }
}

impl vstd::std_specs::ops::BitOrSpecImpl<BitFlags8> for BitFlags8 {
    open spec fn obeys_bitor_spec() -> bool {
        true
    }

    open spec fn bitor_req(self, rhs: BitFlags8) -> bool {
        true
    }

    open spec fn bitor_spec(self, rhs: BitFlags8) -> BitFlags8 {
        BitFlags8(self.0 | rhs.0)
    }
}

impl core::ops::BitAnd<BitFlags8> for BitFlags8 {
    type Output = BitFlags8;

    /// Returns the intersection of the two operands.
    #[inline]
    fn bitand(self, rhs: BitFlags8) -> (r: BitFlags8)
        ensures
            r.0 == (self.0 & rhs.0),
    {
        BitFlags8(self.0 & rhs.0)
    }
}

impl vstd::std_specs::ops::BitAndSpecImpl<BitFlags8> for BitFlags8 {
    open spec fn obeys_bitand_spec() -> bool {
        true
    }

    open spec fn bitand_req(self, rhs: BitFlags8) -> bool {
        true
    }

    open spec fn bitand_spec(self, rhs: BitFlags8) -> BitFlags8 {
        BitFlags8(self.0 & rhs.0)
    }
}

impl core::ops::BitXor<BitFlags8> for BitFlags8 {
    type Output = BitFlags8;

    /// Returns the symmetric difference of the two operands.
    #[inline]
    fn bitxor(self, rhs: BitFlags8) -> (r: BitFlags8)
        ensures
            r.0 == (self.0 ^ rhs.0),
    {
        BitFlags8(self.0 ^ rhs.0)
    }
}

impl vstd::std_specs::ops::BitXorSpecImpl<BitFlags8> for BitFlags8 {
    open spec fn obeys_bitxor_spec() -> bool {
        true
    }

    open spec fn bitxor_req(self, rhs: BitFlags8) -> bool {
        true
    }

    open spec fn bitxor_spec(self, rhs: BitFlags8) -> BitFlags8 {
        BitFlags8(self.0 ^ rhs.0)
    }
}

impl core::ops::Not for BitFlags8 {
    type Output = BitFlags8;

    /// Toggles _all_ bits.
    #[inline]
    fn not(self) -> (r: BitFlags8)
        ensures
            r.0 == !self.0,
    {
        BitFlags8(!self.0)
    }
}

impl vstd::std_specs::ops::NotSpecImpl for BitFlags8 {
    open spec fn obeys_not_spec() -> bool {
        true
    }

    open spec fn not_req(self) -> bool {
        true
    }

    open spec fn not_spec(self) -> BitFlags8 {
        BitFlags8(!self.0)
    }
}

impl From<u8> for BitFlags8 {
    /// Wraps a raw `u8` value; the conversion is lossless and total.
    #[inline]
    fn from(value: u8) -> (r: BitFlags8)
        ensures
            r.0 == value,
    {
        BitFlags8(value)
    }
}

impl vstd::std_specs::convert::FromSpecImpl<u8> for BitFlags8 {
    open spec fn obeys_from_spec() -> bool {
        true
    }

    open spec fn from_spec(value: u8) -> BitFlags8 {
        BitFlags8(value)
    }
}

impl TryFrom<u32> for BitFlags8 {
    type Error = &'static str;

    /// Converts an index below `8` into the singleton set for that index;
    /// larger indexes are rejected.
    fn try_from(value: u32) -> (r: Result<Self, Self::Error>)
        ensures
            value < 8 <==> r is Ok,
            r matches Ok(f) ==> f.0 == (1u8 << (value as u8)),
    {
        if value < 8 {
            Ok(Self(1u8 << (value as u8)))
        } else {
            Err("BitFlags8 structs are indexed from 0 to 7")
        }
    }
}

impl vstd::std_specs::convert::TryFromSpecImpl<u32> for BitFlags8 {
    open spec fn obeys_try_from_spec() -> bool {
        false
    }

    open spec fn try_from_spec(value: u32) -> Result<BitFlags8, &'static str> {
        if value < 8 {
            Ok(BitFlags8(1u8 << (value as u8)))
        } else {
            Err("BitFlags8 structs are indexed from 0 to 7")
        }
    }
}

impl TryFrom<usize> for BitFlags8 {
    type Error = &'static str;

    /// Converts an index below `8` into the singleton set for that index;
    /// larger indexes are rejected.
    fn try_from(value: usize) -> (r: Result<Self, Self::Error>)
        ensures
            value < 8 <==> r is Ok,
            r matches Ok(f) ==> f.0 == (1u8 << (value as u8)),
    {
        if value < 8 {
            Ok(Self(1u8 << (value as u8)))
        } else {
            Err("BitFlags8 structs are indexed from 0 to 7")
        }
    }
}

impl vstd::std_specs::convert::TryFromSpecImpl<usize> for BitFlags8 {
    open spec fn obeys_try_from_spec() -> bool {
        false
    }

    open spec fn try_from_spec(value: usize) -> Result<BitFlags8, &'static str> {
        if value < 8 {
            Ok(BitFlags8(1u8 << (value as u8)))
        } else {
            Err("BitFlags8 structs are indexed from 0 to 7")
        }
    }
}

} // verus!
