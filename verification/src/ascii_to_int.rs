//! Generic decimal ASCII-to-integer conversion with overflow detection,
//! parameterized over the target integer width.

use vstd::prelude::*;

verus! {

pub open spec fn spec_is_digit_char(b: u8) -> bool {
    48u8 <= b && b <= 57u8
}

pub open spec fn all_digits(s: Seq<u8>) -> bool {
    forall|k: int| 0 <= k < s.len() ==> spec_is_digit_char(s[k])
}

/// Value of a string of decimal ASCII digits, accumulated left to right.
pub open spec fn digits_value(s: Seq<u8>) -> int
    decreases s.len(),
{
    if s.len() == 0 {
        0
    } else {
        digits_value(s.drop_last()) * 10 + (s.last() - 48u8)
    }
}

pub proof fn lemma_digits_value_nonneg(s: Seq<u8>)
    requires
        all_digits(s),
    ensures
        0 <= digits_value(s),
    decreases s.len(),
{
    if s.len() > 0 {
        assert(all_digits(s.drop_last()));
        lemma_digits_value_nonneg(s.drop_last());
        assert(spec_is_digit_char(s[s.len() - 1]));
    }
}

/// The value of a digit string only grows as digits are appended.
pub proof fn lemma_digits_value_prefix(s: Seq<u8>, k: int)
    requires
        all_digits(s),
        0 <= k <= s.len(),
    ensures
        0 <= digits_value(s.subrange(0, k)),
        digits_value(s.subrange(0, k)) <= digits_value(s),
    decreases s.len(),
{
    if k == s.len() {
        assert(s.subrange(0, k) =~= s);
        lemma_digits_value_nonneg(s);
    } else {
        assert(all_digits(s.drop_last()));
        assert(s.subrange(0, k) =~= s.drop_last().subrange(0, k));
        lemma_digits_value_prefix(s.drop_last(), k);
        lemma_digits_value_nonneg(s.drop_last());
        assert(spec_is_digit_char(s[s.len() - 1]));
    }
}

/// Helper capabilities an unsigned integer type needs as the target of
/// decimal parsing: conversion from a small constant and overflow-checked
/// accumulation steps.
pub trait IntFromAsciiHelper: Sized {
    /// Mathematical value held by `self`.
    spec fn spec_as_int(&self) -> int;

    /// Largest value the type can hold.
    spec fn spec_max() -> int;

    fn from_u8(value: u8) -> (r: Self)
        ensures
            r.spec_as_int() == value as int,
    ;

    fn checked_mul(&self, other: u8) -> (r: Option<Self>)
        ensures
            match r {
                Some(v) => {
                    &&& self.spec_as_int() * (other as int) <= Self::spec_max()
                    &&& v.spec_as_int() == self.spec_as_int() * (other as int)
                },
                None => self.spec_as_int() * (other as int) > Self::spec_max(),
            },
    ;

    fn checked_add(&self, other: u8) -> (r: Option<Self>)
        ensures
            match r {
                Some(v) => {
                    &&& self.spec_as_int() + (other as int) <= Self::spec_max()
                    &&& v.spec_as_int() == self.spec_as_int() + (other as int)
                },
                None => self.spec_as_int() + (other as int) > Self::spec_max(),
            },
    ;
}

impl IntFromAsciiHelper for u64 {
    open spec fn spec_as_int(&self) -> int {
        *self as int
    }

    open spec fn spec_max() -> int {
        u64::MAX as int
    }

    #[inline]
    fn from_u8(value: u8) -> (r: Self) {
        value as u64
    }

    #[inline]
    fn checked_mul(&self, other: u8) -> (r: Option<Self>) {
        u64::checked_mul(*self, other as u64)
    }

    #[inline]
    fn checked_add(&self, other: u8) -> (r: Option<Self>) {
        u64::checked_add(*self, other as u64)
    }
}

impl IntFromAsciiHelper for usize {
    open spec fn spec_as_int(&self) -> int {
        *self as int
    }

    open spec fn spec_max() -> int {
        usize::MAX as int
    }

    #[inline]
    fn from_u8(value: u8) -> (r: Self) {
        value as usize
    }

    #[inline]
    fn checked_mul(&self, other: u8) -> (r: Option<Self>) {
        usize::checked_mul(*self, other as usize)
    }

    #[inline]
    fn checked_add(&self, other: u8) -> (r: Option<Self>) {
        usize::checked_add(*self, other as usize)
    }
}

/// Converts a byte string of decimal ASCII digits into an integer, reading
/// left to right with an overflow-checked multiply-then-add at each step.
///
/// Succeeds exactly when the input is non-empty, consists of digits only,
/// and its value fits the target width.
pub fn ascii_to_int<T: IntFromAsciiHelper>(bytes: &[u8]) -> (r: Option<T>)
    ensures
        (r is Some) <==> (bytes@.len() > 0 && all_digits(bytes@) && digits_value(bytes@)
            <= T::spec_max()),
        r matches Some(v) ==> v.spec_as_int() == digits_value(bytes@),
{
    if bytes.is_empty() {
        return None;
    }
    let mut result = T::from_u8(0);
    let mut i: usize = 0;
    while i < bytes.len()
        invariant
            0 <= i <= bytes@.len(),
            0 < bytes@.len(),
            all_digits(bytes@.subrange(0, i as int)),
            result.spec_as_int() == digits_value(bytes@.subrange(0, i as int)),
            0 <= result.spec_as_int(),
            i > 0 ==> result.spec_as_int() <= T::spec_max(),
        decreases bytes@.len() - i,
    {
        let byte = bytes[i];
        if !(48u8 <= byte && byte <= 57u8) {
            proof {
                assert(!spec_is_digit_char(bytes@[i as int]));
            }
            return None;
        }
        let digit = byte - 48u8;
        proof {
            assert(bytes@.subrange(0, i + 1).drop_last() =~= bytes@.subrange(0, i as int));
            assert(bytes@.subrange(0, i + 1).last() == bytes@[i as int]);
            assert(all_digits(bytes@.subrange(0, i + 1)));
        }
        let step = match result.checked_mul(10) {
            Some(x) => x,
            None => {
                proof {
                    if all_digits(bytes@) {
                        lemma_digits_value_prefix(bytes@, i + 1);
                        assert(digits_value(bytes@.subrange(0, i + 1)) > T::spec_max());
                    }
                }
                return None;
            },
        };
        result = match step.checked_add(digit) {
            Some(x) => x,
            None => {
                proof {
                    if all_digits(bytes@) {
                        lemma_digits_value_prefix(bytes@, i + 1);
                        assert(digits_value(bytes@.subrange(0, i + 1)) > T::spec_max());
                    }
                }
                return None;
            },
        };
        i = i + 1;
    }
    proof {
        assert(bytes@.subrange(0, bytes@.len() as int) =~= bytes@);
    }
    Some(result)
}

} // verus!
