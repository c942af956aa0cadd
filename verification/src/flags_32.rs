//! Bit set over positions `0..32`, backed by a `u32`.

use vstd::prelude::*;

verus! {

use crate::arith::bit_len;
use crate::arith::highest_one;
use crate::arith::pop_count;
use crate::arith::lemma_bit_len_le;
use crate::arith::lemma_bit_len_bounds;
use crate::arith::lemma_highest_one_pow2;
use crate::arith::lemma_highest_one_properties;
use crate::arith::lemma_pop_count_le_bit_len;
use crate::arith::lemma_pop_count_pow2;
use vstd::arithmetic::power2::pow2;
use vstd::arithmetic::power2::lemma2_to64;
use crate::arith::bit_positions;
use crate::arith::nat_bit;
use crate::codec::DecodeError;
use crate::codec::ParseError;
use crate::codec::le_bytes_of;
use crate::codec::nat_of_le_bytes;
use crate::codec::dec_string_of;
use crate::codec::dec_val;
use crate::codec::all_digits;
use crate::codec::rev_chars;

/// 32-bit bit set, indexed from bit position `0` to `31`.
#[derive(Debug, Default, Clone, Copy, Hash, PartialEq, Eq, Structural)]
pub struct BitFlags32(pub u32);

/// The union of the singleton sets for the indexes of `s`, built left to
/// right; every index must be below `32`.
pub open spec fn spec_from_indices32(s: Seq<usize>) -> u32
    decreases s.len(),
{
    if s.len() == 0 {
        0u32
    } else {
        spec_from_indices32(s.drop_last()) | (1u32 << (s.last() as u32))
    }
}

/// What parsing a decimal digit string at this width yields: the denoted
/// value when the string is nonempty, all digits, and in range, and the
/// matching error otherwise.
pub open spec fn spec_from_decimal32(s: Seq<char>) -> Result<BitFlags32, ParseError> {
    if s.len() == 0 {
        Err(ParseError::Empty)
    } else if !all_digits(s) {
        Err(ParseError::InvalidDigit)
    } else if dec_val(s) > u32::MAX {
        Err(ParseError::OutOfRange)
    } else {
        Ok(BitFlags32(dec_val(s) as u32))
    }
}

/// `v` with every bit below its highest set bit also set.
pub open spec fn smear32(v: u32) -> u32 {
    let a = v | (v >> 1);
    let b = a | (a >> 2);
    let c = b | (b >> 4);
    let d = c | (c >> 8);
    let e = d | (d >> 16);
    e
}

proof fn lemma_bv_algebra_u32(a: u32, b: u32)
    by (bit_vector)
    ensures
        (a | a) == a,
        (a & a) == a,
        !(a | b) == (!a & !b),
        !(a & b) == (!a | !b),
        ((a & b) == b) <==> ((a | b) == a),
{
}

proof fn lemma_bv_set_ops_u32(a: u32, b: u32, j: u32)
    by (bit_vector)
    requires
        j < 32,
    ensures
        (((a | b) >> j) & 1 == 1) <==> (((a >> j) & 1 == 1) || ((b >> j) & 1 == 1)),
        (((a & b) >> j) & 1 == 1) <==> (((a >> j) & 1 == 1) && ((b >> j) & 1 == 1)),
        (((a & !b) >> j) & 1 == 1) <==> (((a >> j) & 1 == 1) && !((b >> j) & 1 == 1)),
        (((a ^ b) >> j) & 1 == 1) <==> (((a >> j) & 1 == 1) != ((b >> j) & 1 == 1)),
        (((!a) >> j) & 1 == 1) <==> !((a >> j) & 1 == 1),
{
}

proof fn lemma_bv_single_bit_u32(v: u32, i: u32, j: u32)
    by (bit_vector)
    requires
        i < 32,
        j < 32,
    ensures
        (((1u32 << i) >> j) & 1 == 1) <==> (j == i),
        (((v | (1u32 << i)) >> j) & 1 == 1) <==> (j == i || ((v >> j) & 1 == 1)),
        (((v & !(1u32 << i)) >> j) & 1 == 1) <==> (j != i && ((v >> j) & 1 == 1)),
        (((v ^ (1u32 << i)) >> j) & 1 == 1) <==> (if j == i {
            !((v >> j) & 1 == 1)
        } else {
            ((v >> j) & 1 == 1)
        }),
{
}

proof fn lemma_bv_smear_u32(v: u32, k: u32)
    by (bit_vector)
    ensures
        smear32(v) >= (smear32(v) >> 1),
        v == 0 ==> smear32(v) == 0,
        ((v >> k) == 1) ==> (smear32(v) - (smear32(v) >> 1)) == (1u32 << k),
{
}

proof fn lemma_bv_first_n_u32(n: u32, j: u32)
    by (bit_vector)
    requires
        1 <= n <= 32,
        j < 32,
    ensures
        (1u32 << ((n - 1) as u32)) >= 1,
        ((((1u32 << ((n - 1) as u32)) | ((((1u32 << ((n - 1) as u32)) - 1)) as u32)) >> j) & 1
            == 1) <==> (j < n),
{
}

proof fn lemma_bv_range_u32(s: u32, e: u32, j: u32)
    by (bit_vector)
    requires
        s < 32,
        e < 32,
        s <= e,
        j < 32,
    ensures
        (1u32 << s) <= (1u32 << e),
        ((((1u32 << e) | ((((1u32 << e) - (1u32 << s))) as u32)) >> j) & 1 == 1) <==> (s <= j
            <= e),
{
}

impl BitFlags32 {
    /// Whether bit `i` is a member of the set.
    pub open spec fn spec_bit(self, i: u32) -> bool {
        (self.0 >> i) & 1 == 1
    }

    /// Returns a new instance with all bits set to `0`.
    pub fn new() -> (r: Self)
        ensures
            r.0 == 0,
    {
        Self::empty()
    }

    /// Returns a new instance with all bits set to `0`.
    #[inline]
    pub fn empty() -> (r: Self)
        ensures
            r.0 == 0,
    {
        Self(0)
    }

    /// Returns a new instance with all bits set to `1`.
    #[inline]
    pub fn full() -> (r: Self)
        ensures
            r.0 == u32::MAX,
    {
        Self(u32::MAX)
    }

    /// Returns a new instance with the first `n` (1-32) bits set.
    ///
    /// Callers must pass `n` from `1` to `32`.
    #[inline]
    pub fn with_first_n_set(n: u8) -> (r: Self)
        requires
            1 <= n <= 32,
        ensures
            r.0 == ((1u32 << ((n - 1) as u32)) | ((((1u32 << ((n - 1) as u32)) - 1)) as u32)),
    {
        proof {
            lemma_bv_first_n_u32(n as u32, 0);
        }
        let v = 1u32 << ((n - 1) as u32);
        BitFlags32(v | (v - 1))
    }

    /// Returns a new instance with bits in range `(start..=end)` set.
    ///
    /// Callers must pass `start <= end`, both below `32`.
    #[inline]
    pub fn with_set_bit_range(start: u8, end: u8) -> (r: Self)
        requires
            start < 32,
            end < 32,
            start <= end,
        ensures
            r.0 == ((1u32 << (end as u32)) | ((((1u32 << (end as u32)) - (1u32 << (start
                as u32)))) as u32)),
    {
        proof {
            lemma_bv_range_u32(start as u32, end as u32, 0);
        }
        let e = 1u32 << (end as u32);
        BitFlags32(e | (e - (1u32 << (start as u32))))
    }

    /// Returns a new instance with all bits set to `1`.
    #[inline]
    pub fn all() -> (r: Self)
        ensures
            r.0 == u32::MAX,
    {
        Self(u32::MAX)
    }

    /// Returns `true` if _all_ bits are set.
    #[inline]
    pub fn is_all(&self) -> (r: bool)
        ensures
            r == (self.0 == u32::MAX),
    {
        self.0 == u32::MAX
    }

    /// Returns a new instance using specified bits.
    #[inline]
    pub fn from_bits(val: u32) -> (r: Self)
        ensures
            r.0 == val,
    {
        Self(val)
    }

    /// Returns the bits (internal value).
    #[inline]
    pub fn bits(&self) -> (r: u32)
        ensures
            r == self.0,
    {
        self.0
    }

    /// Returns a new instance from a `u32`.
    #[inline]
    pub fn from_u32(val: u32) -> (r: Self)
        ensures
            r.0 == val,
    {
        Self(val)
    }

    /// Returns the underlying `u32` value.
    #[inline]
    pub fn to_u32(&self) -> (r: u32)
        ensures
            r == self.0,
    {
        self.0
    }

    /// Converts an index (0-31) into a `BitFlags32` holding that single bit.
    ///
    /// Callers must pass an index below `32`.
    #[inline]
    pub fn from_index(index: usize) -> (r: Self)
        requires
            index < 32,
        ensures
            r.0 == (1u32 << (index as u32)),
    {
        Self(1u32 << (index as u32))
    }

    /// Converts a slice of indexes (0-31) into a `BitFlags32`: the union of
    /// the singletons, so order and repetition of indexes do not matter.
    ///
    /// Callers must pass indexes below `32`.
    #[inline]
    pub fn from_slice(s: &[usize]) -> (r: Self)
        requires
            forall|k: int| 0 <= k < s@.len() ==> (#[trigger] s@[k]) < 32,
        ensures
            r.0 == spec_from_indices32(s@),
    {
        let mut bits = Self(0);
        proof {
            assert(s@.take(0) =~= Seq::<usize>::empty());
        }
        let mut i: usize = 0;
        while i < s.len()
            invariant
                i <= s@.len(),
                forall|k: int| 0 <= k < s@.len() ==> (#[trigger] s@[k]) < 32,
                bits.0 == spec_from_indices32(s@.take(i as int)),
            decreases s@.len() - i,
        {
            let temp_bits = Self::from_index(s[i]);
            bits.insert(temp_bits);
            proof {
                assert(s@.take(i + 1).drop_last() =~= s@.take(i as int));
                assert(s@.take(i + 1).last() == s@[i as int]);
            }
            i = i + 1;
        }
        proof {
            assert(s@.take(s@.len() as int) =~= s@);
        }
        bits
    }

    /// Returns `true` if _no_ bits are set.
    #[inline]
    pub fn is_empty(&self) -> (r: bool)
        ensures
            r == (self.0 == 0),
    {
        self.0 == 0
    }

    /// Returns `true` if _all_ bits are set.
    #[inline]
    pub fn is_full(&self) -> (r: bool)
        ensures
            r == (self.0 == u32::MAX),
    {
        self.0 == u32::MAX
    }

    /// Returns `true` if `self` and `other` have _at least one_ matching set
    /// bit.
    #[inline]
    pub fn intersects(&self, other: Self) -> (r: bool)
        ensures
            r == ((self.0 & other.0) != 0),
    {
        (self.0 & other.0) > 0
    }

    /// Returns the bitwise `AND` (`&`) of two flags.
    #[inline]
    pub fn intersection(&self, other: Self) -> (r: Self)
        ensures
            r.0 == (self.0 & other.0),
    {
        BitFlags32(self.0 & other.0)
    }

    /// Returns the bits set in `self` that are _not_ set in `other`.
    #[inline]
    pub fn difference(&self, other: Self) -> (r: Self)
        ensures
            r.0 == (self.0 & !other.0),
    {
        BitFlags32(self.0 & !other.0)
    }

    /// Returns the bits set in `self` or `other`, but _not_ both, using
    /// bitwise `XOR` (`^`).
    #[inline]
    pub fn symmetric_difference(&self, other: Self) -> (r: Self)
        ensures
            r.0 == (self.0 ^ other.0),
    {
        BitFlags32(self.0 ^ other.0)
    }

    /// Returns the bitwise `OR` (`|`) of two flags.
    #[inline]
    pub fn union(&self, other: Self) -> (r: Self)
        ensures
            r.0 == (self.0 | other.0),
    {
        BitFlags32(self.0 | other.0)
    }

    /// Returns the bitwise negation (`!`) of given flags.
    #[inline]
    pub fn complement(&self) -> (r: Self)
        ensures
            r.0 == !self.0,
    {
        BitFlags32(!self.0)
    }

    /// Returns `true` if current flags contain _all_ incoming flags.
    #[inline]
    pub fn contains(&self, other: Self) -> (r: bool)
        ensures
            r == ((self.0 & other.0) == other.0),
    {
        (self.0 & other.0) == other.0
    }

    /// Inserts `other` flags into current flags using bitwise `OR` (`|`).
    #[inline]
    pub fn insert(&mut self, other: Self)
        ensures
            final(self).0 == (old(self).0 | other.0),
    {
        self.0 = self.0 | other.0;
    }

    /// Sets bit at given index (0-31).
    ///
    /// Callers must pass an index below `32`.
    #[inline]
    pub fn insert_at_index(&mut self, index: usize)
        requires
            index < 32,
        ensures
            final(self).0 == (old(self).0 | (1u32 << (index as u32))),
    {
        self.0 = self.0 | (1u32 << (index as u32));
    }

    /// Inserts `other` if `value` is `true`; removes `other` if `value` is
    /// `false`.
    #[inline]
    pub fn set(&mut self, other: Self, value: bool)
        ensures
            value ==> final(self).0 == (old(self).0 | other.0),
            !value ==> final(self).0 == (old(self).0 & !other.0),
    {
        if value {
            self.insert(other);
        } else {
            self.remove(other);
        }
    }

    /// Sets bit at given index (0-31) to specific value (`true` = `1`;
    /// `false` = `0`).
    ///
    /// Callers must pass an index below `32`.
    #[inline]
    pub fn set_at_index(&mut self, index: usize, value: bool)
        requires
            index < 32,
        ensures
            value ==> final(self).0 == (old(self).0 | (1u32 << (index as u32))),
            !value ==> final(self).0 == (old(self).0 & !(1u32 << (index as u32))),
    {
        if value {
            self.insert_at_index(index);
        } else {
            self.remove_at_index(index);
        }
    }

    /// Sets bits in range `(start..=end)`.
    ///
    /// Callers must pass `start <= end`, both below `32`.
    #[inline]
    pub fn set_bit_range(&mut self, start: u8, end: u8)
        requires
            start < 32,
            end < 32,
            start <= end,
        ensures
            final(self).0 == (old(self).0 | ((1u32 << (end as u32)) | ((((1u32 << (end
                as u32)) - (1u32 << (start as u32)))) as u32))),
    {
        proof {
            lemma_bv_range_u32(start as u32, end as u32, 0);
        }
        let e = 1u32 << (end as u32);
        self.0 = self.0 | (e | (e - (1u32 << (start as u32))));
    }

    /// Toggles bits based on mask (using bitwise `XOR`).
    #[inline]
    pub fn toggle(&mut self, mask: Self)
        ensures
            final(self).0 == (old(self).0 ^ mask.0),
    {
        self.0 = self.0 ^ mask.0;
    }

    /// Toggles bit at given index.
    ///
    /// Callers must pass an index below `32`.
    #[inline]
    pub fn toggle_at_index(&mut self, index: usize)
        requires
            index < 32,
        ensures
            final(self).0 == (old(self).0 ^ (1u32 << (index as u32))),
    {
        self.0 = self.0 ^ (1u32 << (index as u32));
    }

    /// Unsets bits that match those of incoming `BitFlags32` (bitwise
    /// `AND NOT`).
    #[inline]
    pub fn remove(&mut self, other: Self)
        ensures
            final(self).0 == (old(self).0 & !other.0),
    {
        self.0 = self.0 & !other.0;
    }

    /// Unsets bit at given index (0-31).
    ///
    /// Callers must pass an index below `32`.
    #[inline]
    pub fn remove_at_index(&mut self, index: usize)
        requires
            index < 32,
        ensures
            final(self).0 == (old(self).0 & !(1u32 << (index as u32))),
    {
        self.0 = self.0 & !(1u32 << (index as u32));
    }

    /// Returns the number of bits.
    #[inline]
    pub fn num_bits() -> (r: usize)
        ensures
            r == 32,
    {
        32
    }

    /// Returns value of bit at given index (`0` is `false`; `1` is `true`).
    ///
    /// Callers must pass an index below `32`.
    #[inline]
    pub fn bit_at_index(&self, index: usize) -> (r: bool)
        requires
            index < 32,
        ensures
            r == self.spec_bit(index as u32),
    {
        (self.0 >> (index as u32)) & 1 == 1
    }

    /// Returns value of bit at given index (`0` is `false`; `1` is `true`).
    /// Returns `None` if out of bounds.
    #[inline]
    pub fn get_bit_at_index(&self, index: usize) -> (r: Option<bool>)
        ensures
            r == if index < 32 {
                Some(self.spec_bit(index as u32))
            } else {
                None::<bool>
            },
    {
        if index < 32 {
            return Some((self.0 >> (index as u32)) & 1 == 1);
        }
        None
    }

    /// Returns the value of the highest set bit of the bitflag: the largest
    /// power of two at most the value, or `0` for the empty set.
    #[inline]
    pub fn highest_set_bit(&self) -> (r: Self)
        ensures
            r.0 == highest_one(self.0 as nat),
    {
        let mut n = self.0;
        n = n | (n >> 1);
        n = n | (n >> 2);
        n = n | (n >> 4);
        n = n | (n >> 8);
        n = n | (n >> 16);
        proof {
            lemma_highest_flags32(self.0, n);
        }
        BitFlags32(n - (n >> 1))
    }

    /// Returns the number of binary digits of the bitflag: one more than the
    /// zero-based position of its highest set bit, or `None` if no bit is
    /// set.
    #[inline]
    pub fn highest_set_bit_index(&self) -> (r: Option<usize>)
        ensures
            r == if self.0 == 0 {
                None::<usize>
            } else {
                Some(bit_len(self.0 as nat) as usize)
            },
    {
        if self.0 == 0 {
            return None;
        }
        let mut val = self.0;
        let mut bit_ix: usize = 0;
        proof {
            lemma_bit_len_fits32(self.0);
        }
        while val > 0
            invariant
                bit_ix + bit_len(val as nat) == bit_len(self.0 as nat),
                bit_len(self.0 as nat) <= 32,
            decreases val,
        {
            bit_ix = bit_ix + 1;
            val = val / 2;
        }
        Some(bit_ix)
    }

    /// Iterates over set bits of the structure, yielding the positions of
    /// set bits in ascending order.
    ///
    /// E.g. collecting the positions of `0b00001001` would produce
    /// `[0, 3]`, representing the 0th and 3rd indexes.
    #[inline]
    pub fn iter(&self) -> (r: BitFlagsIter32)
        ensures
            r.wf(),
            r.remaining() == crate::arith::bit_positions(self.0 as nat, 0),
    {
        proof {
            lemma_bit_len_fits32(self.0);
        }
        BitFlagsIter32 { current_bit: 0, bits: self.0 }
    }

    /// Encodes the value as exactly 4 bytes, the width in bytes, in
    /// little-endian order.
    pub fn to_le_bytes(&self) -> (r: Vec<u8>)
        ensures
            r@ == le_bytes_of(self.0 as nat, 4),
            r@.len() == 4,
    {
        let mut out: Vec<u8> = Vec::new();
        let mut x: u32 = self.0;
        let mut k: usize = 0;
        proof {
            assert(out@ + le_bytes_of(self.0 as nat, 4) =~= le_bytes_of(self.0 as nat, 4));
        }
        while k < 4
            invariant
                k <= 4,
                out@.len() == k,
                le_bytes_of(self.0 as nat, 4) == out@ + le_bytes_of(x as nat, (4 - k) as nat),
            decreases 4 - k,
        {
            proof {
                let rest = le_bytes_of((x as nat) / 256, (4 - k - 1) as nat);
                assert(le_bytes_of(x as nat, (4 - k) as nat) == seq![(((x as nat) % 256) as u8)]
                    + rest);
                assert(out@ + (seq![(((x as nat) % 256) as u8)] + rest) =~= (out@ + seq![(((
                x as nat) % 256) as u8)]) + rest);
                assert(((x % 256) as u8) as nat == (x as nat) % 256) by {
                    vstd::arithmetic::div_mod::lemma_mod_division_less_than_divisor(x as int, 256);
                }
                assert((x / 256) as nat == (x as nat) / 256);
            }
            out.push((x % 256) as u8);
            x = x / 256;
            k = k + 1;
        }
        proof {
            assert(le_bytes_of(x as nat, 0) =~= Seq::<u8>::empty());
            assert(out@ + Seq::<u8>::empty() =~= out@);
        }
        out
    }

    /// Decodes a value from 4 bytes of `bytes` at `*offset`, advancing the
    /// offset past them; fails without moving the offset when fewer than 4
    /// bytes remain.
    pub fn read_le_bytes(offset: &mut usize, bytes: &[u8]) -> (r: Result<Self, DecodeError>)
        ensures
            r is Ok <==> *old(offset) + 4 <= bytes@.len(),
            r matches Ok(f) ==> f.0 as nat == nat_of_le_bytes(
                bytes@.subrange(*old(offset) as int, *old(offset) + 4),
            ) && *final(offset) == *old(offset) + 4,
            r is Err ==> *final(offset) == *old(offset) && r == Err::<Self, DecodeError>(
                DecodeError { offset: *old(offset), needed: 4, available: bytes@.len() as usize },
            ),
    {
        if bytes.len() < 4 || *offset > bytes.len() - 4 {
            return Err(DecodeError { offset: *offset, needed: 4, available: bytes.len() });
        }
        let off = *offset;
        let mut val: u32 = 0;
        let mut k: usize = 4;
        proof {
            assert(bytes@.subrange(off + 4, off + 4) =~= Seq::<u8>::empty());
            assert(nat_of_le_bytes(Seq::<u8>::empty()) == 0);
        }
        while k > 0
            invariant
                k <= 4,
                off + 4 <= bytes@.len(),
                off + 4 <= usize::MAX,
                val as nat == nat_of_le_bytes(bytes@.subrange(off + k, off + 4)),
            decreases k,
        {
            k = k - 1;
            proof {
                let tail = bytes@.subrange(off + k + 1, off + 4);
                let whole = bytes@.subrange(off + k, off + 4);
                assert(whole.drop_first() =~= tail);
                assert(whole[0] == bytes@[off + k]);
                crate::codec::lemma_nat_of_le_bytes_bound(tail);
                assert(pow2(8) == 256) by {
                    lemma2_to64();
                }
                vstd::arithmetic::power2::lemma_pow2_adds(8, (8 * (4 - k - 1)) as nat);
                assert(256 * pow2((8 * (4 - k - 1)) as nat) == pow2((8 * (4 - k)) as nat));
                if 8 * (4 - k) < 32 {
                    vstd::arithmetic::power2::lemma_pow2_strictly_increases(
                        (8 * (4 - k)) as nat,
                        32,
                    );
                }
                assert(pow2(32) == 0x100000000) by {
                    lemma2_to64();
                }
            }
            let b = bytes[off + k];
            val = (b as u32) + 256 * val;
        }
        *offset = *offset + 4;
        Ok(BitFlags32(val))
    }

    /// Renders the value as a decimal digit string, the text encoding.
    pub fn to_decimal_string(&self) -> (r: String)
        ensures
            r@ == dec_string_of(self.0 as nat),
    {
        let mut digits: Vec<u8> = Vec::new();
        let mut x: u32 = self.0;
        proof {
            assert(rev_chars(Seq::<u8>::empty()) =~= Seq::<char>::empty());
            assert(dec_string_of(self.0 as nat) + rev_chars(Seq::<u8>::empty())
                =~= dec_string_of(self.0 as nat));
        }
        while x > 9
            invariant
                forall|k: int| 0 <= k < digits@.len() ==> (#[trigger] digits@[k]) < 10,
                dec_string_of(self.0 as nat) == dec_string_of(x as nat) + rev_chars(digits@),
            decreases x,
        {
            proof {
                assert(((x % 10) as u8) as nat == (x as nat) % 10) by {
                    vstd::arithmetic::div_mod::lemma_mod_division_less_than_divisor(x as int, 10);
                }
                let c = seq![crate::codec::char_of_digit((x as nat) % 10)];
                crate::codec::lemma_rev_chars_push(digits@, (x % 10) as u8);
                assert(dec_string_of(x as nat) == dec_string_of((x / 10) as nat) + c);
                assert((dec_string_of((x / 10) as nat) + c) + rev_chars(digits@)
                    =~= dec_string_of((x / 10) as nat) + (c + rev_chars(digits@)));
                vstd::arithmetic::div_mod::lemma_div_decreases(x as int, 10);
            }
            digits.push((x % 10) as u8);
            x = x / 10;
        }
        proof {
            crate::codec::lemma_rev_chars_push(digits@, x as u8);
            assert((x as u8) as nat == x as nat);
            assert(dec_string_of(x as nat) == seq![crate::codec::char_of_digit(x as nat)]);
            assert(seq![crate::codec::char_of_digit(x as nat)] + rev_chars(digits@) =~= rev_chars(
                digits@.push(x as u8),
            ));
        }
        digits.push(x as u8);
        crate::codec::digits_to_string(&digits)
    }

    /// Parses a decimal digit string into a value, the inverse of the text
    /// encoding; rejects empty or non-digit input and any value above
    /// `u32::MAX`.
    pub fn from_decimal_str(s: &str) -> (r: Result<Self, ParseError>)
        ensures
            r == spec_from_decimal32(s@),
    {
        match crate::codec::parse_decimal(s) {
            Err(e) => Err(e),
            Ok(v) => {
                if v > u32::MAX as u128 {
                    Err(ParseError::OutOfRange)
                } else {
                    Ok(BitFlags32(v as u32))
                }
            },
        }
    }

    /// Renders the value as a `0b`-prefixed, zero-padded string of exactly
    /// thirty-two binary digits, highest bit first.
    pub fn to_binary_string(&self) -> (r: String)
        ensures
            r@.len() == 34,
            r@[0] == '0',
            r@[1] == 'b',
            forall|j: int|
                0 <= j < 32 ==> #[trigger] r@[2 + j] == (if self.spec_bit((31 - j) as u32) {
                    '1'
                } else {
                    '0'
                }),
    {
        proof {
            reveal_strlit("0b");
            reveal_strlit("0");
            reveal_strlit("1");
        }
        let mut out = String::from_str("0b");
        let mut k: usize = 32;
        while k > 0
            invariant
                k <= 32,
                out@.len() == 2 + (32 - k),
                out@[0] == '0',
                out@[1] == 'b',
                forall|j: int|
                    0 <= j < 32 - k ==> #[trigger] out@[2 + j] == (if self.spec_bit(
                        (31 - j) as u32,
                    ) {
                        '1'
                    } else {
                        '0'
                    }),
            decreases k,
        {
            proof {
                reveal_strlit("0");
                reveal_strlit("1");
            }
            k = k - 1;
            if (self.0 >> (k as u32)) & 1 == 1 {
                out.append("1");
            } else {
                out.append("0");
            }
        }
        out
    }

    /// Counts the number of ones in the bitflag.
    #[inline]
    pub fn count_ones(&self) -> (r: u32)
        ensures
            r == pop_count(self.0 as nat),
    {
        let mut val = self.0;
        let mut count: u32 = 0;
        proof {
            lemma_bit_len_fits32(self.0);
            lemma_pop_count_le_bit_len(self.0 as nat);
        }
        while val > 0
            invariant
                count + pop_count(val as nat) == pop_count(self.0 as nat),
                pop_count(self.0 as nat) <= 32,
            decreases val,
        {
            count = count + (val % 2) as u32;
            val = val / 2;
        }
        count
    }
}

/// A `u32` has at most thirty-two binary digits.
proof fn lemma_bit_len_fits32(v: u32)
    ensures
        bit_len(v as nat) <= 32,
{
    assert(pow2(32) == 0x100000000) by {
        lemma2_to64();
    }
    lemma_bit_len_le(v as nat, 32);
}

/// The smear-and-subtract computation leaves exactly the highest set bit.
proof fn lemma_highest_flags32(v: u32, n: u32)
    requires
        n == smear32(v),
    ensures
        n >= (n >> 1),
        n - (n >> 1) == highest_one(v as nat),
{
    lemma_bv_smear_u32(v, 0);
    if v == 0 {
        assert(smear32(0u32) >> 1 == 0) by (bit_vector);
    } else {
        lemma_bit_len_bounds(v as nat);
        lemma_bit_len_fits32(v);
        let k = (bit_len(v as nat) - 1) as u32;
        assert(pow2(k as nat) <= v < pow2(k as nat + 1));
        assert((v >> k) == v as nat / pow2(k as nat)) by {
            vstd::bits::lemma_u32_shr_is_div(v, k);
        }
        assert(v as nat / pow2(k as nat) == 1) by {
            vstd::arithmetic::power2::lemma_pow2_unfold(k as nat + 1);
            vstd::arithmetic::power2::lemma_pow2_pos(k as nat);
            let p = pow2(k as nat) as int;
            vstd::arithmetic::div_mod::lemma_div_by_self(p);
            vstd::arithmetic::div_mod::lemma_div_is_ordered(p, v as int, p);
            assert(v as int / p >= 1);
            assert(v < 2 * p);
            vstd::arithmetic::div_mod::lemma_multiply_divide_lt(v as int, p, 2);
            assert(v as int / p < 2);
        }
        lemma_bv_smear_u32(v, k);
        assert((1u32 << k) == pow2(k as nat)) by {
            vstd::bits::lemma_u32_pow2_no_overflow(k as nat);
            vstd::bits::lemma_u32_shl_is_mul(1u32, k);
        }
        lemma_highest_one_pow2(v as nat);
    }
}

/// Union and intersection are idempotent: combining a set with itself gives
/// the set back.
pub proof fn lemma_union_intersection_idempotent(x: BitFlags32)
    ensures
        (x.0 | x.0) == x.0,
        (x.0 & x.0) == x.0,
{
    lemma_bv_algebra_u32(x.0, x.0);
}

/// De Morgan duality: the complement of a union is the intersection of the
/// complements, and dually for intersection.
pub proof fn lemma_de_morgan(a: BitFlags32, b: BitFlags32)
    ensures
        !(a.0 | b.0) == (!a.0 & !b.0),
        !(a.0 & b.0) == (!a.0 | !b.0),
{
    lemma_bv_algebra_u32(a.0, b.0);
}

/// Containment consistency: `a` contains `b` exactly when their union is
/// `a` again.
pub proof fn lemma_contains_union_consistency(a: BitFlags32, b: BitFlags32)
    ensures
        ((a.0 & b.0) == b.0) <==> ((a.0 | b.0) == a.0),
{
    lemma_bv_algebra_u32(a.0, b.0);
}

/// Membership reading of the set operations, bit by bit.
pub proof fn lemma_set_op_bits(a: BitFlags32, b: BitFlags32, j: u32)
    requires
        j < 32,
    ensures
        BitFlags32(a.0 | b.0).spec_bit(j) <==> (a.spec_bit(j) || b.spec_bit(j)),
        BitFlags32(a.0 & b.0).spec_bit(j) <==> (a.spec_bit(j) && b.spec_bit(j)),
        BitFlags32(a.0 & !b.0).spec_bit(j) <==> (a.spec_bit(j) && !b.spec_bit(j)),
        BitFlags32(a.0 ^ b.0).spec_bit(j) <==> (a.spec_bit(j) != b.spec_bit(j)),
        BitFlags32(!a.0).spec_bit(j) <==> !a.spec_bit(j),
{
    lemma_bv_set_ops_u32(a.0, b.0, j);
}

/// Membership reading of the single-bit operations: the singleton of `i`
/// holds exactly bit `i`, and inserting, removing or toggling bit `i`
/// changes that bit alone.
pub proof fn lemma_single_bit_ops(x: BitFlags32, i: u32, j: u32)
    requires
        i < 32,
        j < 32,
    ensures
        BitFlags32(1u32 << i).spec_bit(j) <==> (j == i),
        BitFlags32(x.0 | (1u32 << i)).spec_bit(j) <==> (j == i || x.spec_bit(j)),
        BitFlags32(x.0 & !(1u32 << i)).spec_bit(j) <==> (j != i && x.spec_bit(j)),
        BitFlags32(x.0 ^ (1u32 << i)).spec_bit(j) == (if j == i {
            !x.spec_bit(j)
        } else {
            x.spec_bit(j)
        }),
{
    lemma_bv_single_bit_u32(x.0, i, j);
}

/// Index/bit correspondence: the singleton made from index `i` has bit `i`
/// set and has exactly one set bit.
pub proof fn lemma_index_bit_correspondence(i: usize)
    requires
        i < 32,
    ensures
        BitFlags32(1u32 << (i as u32)).spec_bit(i as u32),
        pop_count((1u32 << (i as u32)) as nat) == 1,
{
    lemma_bv_single_bit_u32(0, i as u32, i as u32);
    assert((1u32 << (i as u32)) == pow2(i as nat)) by {
        vstd::bits::lemma_u32_pow2_no_overflow(i as nat);
        vstd::bits::lemma_u32_shl_is_mul(1u32, i as u32);
    }
    lemma_pop_count_pow2(i as nat);
}

/// First-n construction: the instance made from `n` holds exactly the bit
/// positions below `n`.
pub proof fn lemma_first_n_membership(n: u32, j: u32)
    requires
        1 <= n <= 32,
        j < 32,
    ensures
        BitFlags32((1u32 << ((n - 1) as u32)) | ((((1u32 << ((n - 1) as u32)) - 1)) as u32))
            .spec_bit(j) <==> (j < n),
{
    lemma_bv_first_n_u32(n, j);
}

/// Range construction: the range instance holds exactly the bit positions
/// from `start` through `end` inclusive.
pub proof fn lemma_range_membership(start: u32, end: u32, j: u32)
    requires
        start < 32,
        end < 32,
        start <= end,
        j < 32,
    ensures
        BitFlags32((1u32 << end) | ((((1u32 << end) - (1u32 << start))) as u32)).spec_bit(j)
            <==> (start <= j <= end),
{
    lemma_bv_range_u32(start, end, j);
}

/// Highest-bit law: a nonempty set's highest bit is a single bit, is at
/// most the value, and is the largest power of two not above it; the empty
/// set's highest bit is the empty set.
pub proof fn lemma_highest_bit(x: BitFlags32)
    ensures
        x.0 == 0 ==> highest_one(x.0 as nat) == 0,
        x.0 != 0 ==> pop_count(highest_one(x.0 as nat)) == 1,
        x.0 != 0 ==> highest_one(x.0 as nat) <= x.0,
        x.0 != 0 ==> x.0 < 2 * highest_one(x.0 as nat),
{
    if x.0 != 0 {
        lemma_highest_one_properties(x.0 as nat);
    }
}

proof fn lemma_bv_mod_two_u32(x: u32)
    by (bit_vector)
    ensures
        ((x & 1) == 1) <==> ((x % 2) == 1),
{
}

/// Iterator correspondence: the position list that `iter` walks holds a
/// position below the width exactly when that bit of the flags is set.
pub proof fn lemma_iter_bits(x: BitFlags32, j: u32)
    requires
        j < 32,
    ensures
        bit_positions(x.0 as nat, 0).contains(j as nat) <==> x.spec_bit(j),
{
    crate::arith::lemma_bit_positions_membership(x.0 as nat, 0);
    assert((x.0 >> j) == x.0 as nat / pow2(j as nat)) by {
        vstd::bits::lemma_u32_shr_is_div(x.0, j);
    }
    lemma_bv_mod_two_u32(x.0 >> j);
    assert(nat_bit(x.0 as nat, j as nat) == ((x.0 >> j) % 2 == 1));
}

/// Binary round-trip: decoding the little-endian encoding of any value
/// gives the value back.
pub proof fn lemma_binary_round_trip(x: BitFlags32)
    ensures
        nat_of_le_bytes(le_bytes_of(x.0 as nat, 4)) == x.0 as nat,
{
    assert(pow2(32) == 0x100000000) by {
        lemma2_to64();
    }
    crate::codec::lemma_le_bytes_round_trip(x.0 as nat, 4);
}

/// Text round-trip: parsing the decimal rendering of any value gives the
/// value back.
pub proof fn lemma_text_round_trip(x: BitFlags32)
    ensures
        spec_from_decimal32(dec_string_of(x.0 as nat)) == Ok::<BitFlags32, ParseError>(x),
{
    crate::codec::lemma_dec_string_of_digits(x.0 as nat);
    crate::codec::lemma_dec_round_trip(x.0 as nat);
}

/// Iterator over set bits of a `BitFlags32`, yielding their positions in
/// ascending order.
pub struct BitFlagsIter32 {
    current_bit: usize,
    bits: u32,
}

impl BitFlagsIter32 {
    /// The positions this iterator has yet to yield, in ascending order.
    pub closed spec fn remaining(self) -> Seq<nat> {
        bit_positions(self.bits as nat, self.current_bit as nat)
    }

    /// The pending positions all lie below the width of the flags the
    /// iterator was made from.
    pub closed spec fn wf(self) -> bool {
        self.current_bit + bit_len(self.bits as nat) <= 32
    }

    /// Yields the position of the lowest remaining set bit, or `None` when
    /// no set bits remain.
    pub fn next(&mut self) -> (r: Option<usize>)
        requires
            old(self).wf(),
        ensures
            final(self).wf(),
            old(self).remaining().len() == 0 ==> r is None && final(self).remaining().len() == 0,
            old(self).remaining().len() > 0 ==> r == Some(old(self).remaining()[0] as usize)
                && final(self).remaining() == old(self).remaining().drop_first(),
    {
        while self.bits != 0
            invariant
                self.current_bit + bit_len(self.bits as nat) <= 32,
                bit_positions(self.bits as nat, self.current_bit as nat) == old(self).remaining(),
            decreases self.bits,
        {
            proof {
                vstd::arithmetic::div_mod::lemma_div_decreases(self.bits as int, 2);
                assert(bit_len(self.bits as nat) == 1 + bit_len((self.bits / 2) as nat));
            }
            if self.bits % 2 == 1 {
                let ret = self.current_bit;
                proof {
                    let rest = bit_positions(
                        (self.bits / 2) as nat,
                        (self.current_bit + 1) as nat,
                    );
                    assert(old(self).remaining() == seq![self.current_bit as nat] + rest);
                    assert(old(self).remaining()[0] == self.current_bit as nat);
                    assert((seq![self.current_bit as nat] + rest).drop_first() =~= rest);
                }
                self.bits = self.bits / 2;
                self.current_bit = self.current_bit + 1;
                return Some(ret);
            }
            self.bits = self.bits / 2;
            self.current_bit = self.current_bit + 1;
        }
        proof {
            assert(bit_positions(0nat, self.current_bit as nat) =~= Seq::<nat>::empty());
        }
        None
    }
}

impl core::ops::BitOr<BitFlags32> for BitFlags32 {
    type Output = BitFlags32;

    /// Returns the union of the two operands.
    #[inline]
    fn bitor(self, rhs: BitFlags32) -> (r: BitFlags32)
        ensures
            r.0 == (self.0 | rhs.0),
    {
        BitFlags32(self.0 | rhs.0)
    }
}

impl vstd::std_specs::ops::BitOrSpecImpl<BitFlags32> for BitFlags32 {
    open spec fn obeys_bitor_spec() -> bool {
        true
    }

    open spec fn bitor_req(self, rhs: BitFlags32) -> bool {
        true
    }

    open spec fn bitor_spec(self, rhs: BitFlags32) -> BitFlags32 {
        BitFlags32(self.0 | rhs.0)
    }
}

impl core::ops::BitAnd<BitFlags32> for BitFlags32 {
    type Output = BitFlags32;

    /// Returns the intersection of the two operands.
    #[inline]
    fn bitand(self, rhs: BitFlags32) -> (r: BitFlags32)
        ensures
            r.0 == (self.0 & rhs.0),
    {
        BitFlags32(self.0 & rhs.0)
    }
}

impl vstd::std_specs::ops::BitAndSpecImpl<BitFlags32> for BitFlags32 {
    open spec fn obeys_bitand_spec() -> bool {
        true
    }

    open spec fn bitand_req(self, rhs: BitFlags32) -> bool {
        true
    }

    open spec fn bitand_spec(self, rhs: BitFlags32) -> BitFlags32 {
        BitFlags32(self.0 & rhs.0)
    }
}

impl core::ops::BitXor<BitFlags32> for BitFlags32 {
    type Output = BitFlags32;

    /// Returns the symmetric difference of the two operands.
    #[inline]
    fn bitxor(self, rhs: BitFlags32) -> (r: BitFlags32)
        ensures
            r.0 == (self.0 ^ rhs.0),
    {
        BitFlags32(self.0 ^ rhs.0)
    }
}

impl vstd::std_specs::ops::BitXorSpecImpl<BitFlags32> for BitFlags32 {
    open spec fn obeys_bitxor_spec() -> bool {
        true
    }

    open spec fn bitxor_req(self, rhs: BitFlags32) -> bool {
        true
    }

    open spec fn bitxor_spec(self, rhs: BitFlags32) -> BitFlags32 {
        BitFlags32(self.0 ^ rhs.0)
    }
}

impl core::ops::Not for BitFlags32 {
    type Output = BitFlags32;

    /// Toggles _all_ bits.
    #[inline]
    fn not(self) -> (r: BitFlags32)
        ensures
            r.0 == !self.0,
    {
        BitFlags32(!self.0)
    }
}

impl vstd::std_specs::ops::NotSpecImpl for BitFlags32 {
    open spec fn obeys_not_spec() -> bool {
        true
    }

    open spec fn not_req(self) -> bool {
        true
    }

    open spec fn not_spec(self) -> BitFlags32 {
        BitFlags32(!self.0)
    }
}

impl From<u32> for BitFlags32 {
    /// Wraps a raw `u32` value; the conversion is lossless and total.
    #[inline]
    fn from(value: u32) -> (r: BitFlags32)
        ensures
            r.0 == value,
    {
        BitFlags32(value)
    }
}

impl vstd::std_specs::convert::FromSpecImpl<u32> for BitFlags32 {
    open spec fn obeys_from_spec() -> bool {
        true
    }

    open spec fn from_spec(value: u32) -> BitFlags32 {
        BitFlags32(value)
    }
}

impl TryFrom<usize> for BitFlags32 {
    type Error = &'static str;

    /// Converts an index below `32` into the singleton set for that index;
    /// larger indexes are rejected.
    fn try_from(value: usize) -> (r: Result<Self, Self::Error>)
        ensures
            value < 32 <==> r is Ok,
            r matches Ok(f) ==> f.0 == (1u32 << (value as u32)),
    {
        if value < 32 {
            Ok(Self(1u32 << (value as u32)))
        } else {
            Err("BitFlags32 structs are indexed from 0 to 31")
        }
    }
}

impl vstd::std_specs::convert::TryFromSpecImpl<usize> for BitFlags32 {
    open spec fn obeys_try_from_spec() -> bool {
        false
    }

    open spec fn try_from_spec(value: usize) -> Result<BitFlags32, &'static str> {
        if value < 32 {
            Ok(BitFlags32(1u32 << (value as u32)))
        } else {
            Err("BitFlags32 structs are indexed from 0 to 31")
        }
    }
}

} // verus!
