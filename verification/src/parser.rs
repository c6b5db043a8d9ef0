//! Byte-level grammar for HTTP/1.x status lines and header lines, built on a
//! backtracking-free cursor over a borrowed byte slice.

use vstd::prelude::*;
use vstd::slice::slice_subrange;

use crate::ascii_to_int::{
    digits_value, lemma_digits_value_nonneg, lemma_digits_value_prefix, spec_is_digit_char,
};

verus! {

broadcast use vstd::slice::axiom_spec_len;

// --- character classes of the header grammar ---

pub open spec fn spec_is_control_char(b: u8) -> bool {
    b <= 31 || b == 0x7f
}

pub open spec fn spec_is_special_char(b: u8) -> bool {
    ||| b == 40u8 ||| b == 41u8 ||| b == 60u8 ||| b == 62u8 ||| b == 64u8
    ||| b == 44u8 ||| b == 59u8 ||| b == 58u8 ||| b == 92u8 ||| b == 34u8
    ||| b == 47u8 ||| b == 91u8 ||| b == 93u8 ||| b == 63u8 ||| b == 61u8
    ||| b == 123u8 ||| b == 125u8 ||| b == 32u8 ||| b == 9u8
}

pub open spec fn spec_is_token_char(b: u8) -> bool {
    !spec_is_control_char(b) && !spec_is_special_char(b)
}

pub open spec fn spec_is_whitespace_char(b: u8) -> bool {
    b == 32u8 || b == 9u8
}

pub open spec fn spec_is_linebreak_char(b: u8) -> bool {
    b == 10u8 || b == 13u8
}

#[verifier::when_used_as_spec(spec_is_control_char)]
pub fn is_control_char(b: u8) -> (r: bool)
    ensures
        r == spec_is_control_char(b),
{
    b <= 31 || b == 0x7f
}

#[verifier::when_used_as_spec(spec_is_special_char)]
pub fn is_special_char(b: u8) -> (r: bool)
    ensures
        r == spec_is_special_char(b),
{
    b == 40u8 || b == 41u8 || b == 60u8 || b == 62u8 || b == 64u8 || b == 44u8
        || b == 59u8 || b == 58u8 || b == 92u8 || b == 34u8 || b == 47u8
        || b == 91u8 || b == 93u8 || b == 63u8 || b == 61u8 || b == 123u8
        || b == 125u8 || b == 32u8 || b == 9u8
}

#[verifier::when_used_as_spec(spec_is_token_char)]
pub fn is_token_char(b: u8) -> (r: bool)
    ensures
        r == spec_is_token_char(b),
{
    !is_control_char(b) && !is_special_char(b)
}

#[verifier::when_used_as_spec(spec_is_whitespace_char)]
pub fn is_whitespace_char(b: u8) -> (r: bool)
    ensures
        r == spec_is_whitespace_char(b),
{
    b == 32u8 || b == 9u8
}

#[verifier::when_used_as_spec(spec_is_linebreak_char)]
pub fn is_linebreak_char(b: u8) -> (r: bool)
    ensures
        r == spec_is_linebreak_char(b),
{
    b == 10u8 || b == 13u8
}

// --- runs of bytes satisfying a predicate ---

/// Length of the maximal prefix of `s[i..]` whose bytes all satisfy `p`.
pub open spec fn run_len(s: Seq<u8>, i: int, p: spec_fn(u8) -> bool) -> int
    decreases s.len() - i,
{
    if i < 0 || i >= s.len() || !p(s[i]) {
        0
    } else {
        1 + run_len(s, i + 1, p)
    }
}

pub proof fn lemma_run_len_props(s: Seq<u8>, i: int, p: spec_fn(u8) -> bool)
    requires
        0 <= i <= s.len(),
    ensures
        0 <= run_len(s, i, p),
        i + run_len(s, i, p) <= s.len(),
        forall|k: int| i <= k < i + run_len(s, i, p) ==> p(s[k]),
        i + run_len(s, i, p) < s.len() ==> !p(s[i + run_len(s, i, p)]),
    decreases s.len() - i,
{
    if i < s.len() && p(s[i]) {
        lemma_run_len_props(s, i + 1, p);
    }
}

/// A stretch of bytes satisfying `p`, ended by the end of `s` or by a byte
/// that fails `p`, is exactly the maximal run.
pub proof fn lemma_run_len_exact(s: Seq<u8>, i: int, j: int, p: spec_fn(u8) -> bool)
    requires
        0 <= i <= j <= s.len(),
        forall|k: int| i <= k < j ==> p(s[k]),
        j == s.len() || !p(s[j]),
    ensures
        run_len(s, i, p) == j - i,
    decreases j - i,
{
    if i < j {
        lemma_run_len_exact(s, i + 1, j, p);
    }
}

/// Length of the maximal run of decimal digits starting at `i`.
pub open spec fn spec_digit_run_len(s: Seq<u8>, i: int) -> int {
    run_len(s, i, |b: u8| spec_is_digit_char(b))
}

/// Greedy bounded decimal accumulation: consumes digits from position `i`
/// into the accumulator, giving up as soon as the value exceeds `max`.
/// Returns the accumulated value (`None` past `max`) and the position
/// reached.
pub open spec fn spec_take_digits(s: Seq<u8>, i: int, acc: int, max: int) -> (Option<int>, int)
    decreases s.len() - i,
{
    if i < 0 || i >= s.len() || !spec_is_digit_char(s[i]) {
        (Some(acc), i)
    } else {
        let acc2 = acc * 10 + (s[i] - 48u8);
        if acc2 > max {
            (None, i + 1)
        } else {
            spec_take_digits(s, i + 1, acc2, max)
        }
    }
}

/// Bounded accumulation over the digit run starting at `i0` succeeds exactly
/// when the run's whole value stays within `max`, and then consumes the run.
pub proof fn lemma_take_digits_run(s: Seq<u8>, i0: int, j: int, acc: int, max: int)
    requires
        0 <= i0 <= j <= s.len(),
        forall|k: int| i0 <= k < j ==> spec_is_digit_char(s[k]),
        acc == digits_value(s.subrange(i0, j)),
        0 <= acc <= max,
    ensures
        ({
            let n = spec_digit_run_len(s, i0);
            let v = digits_value(s.subrange(i0, i0 + n));
            let out = spec_take_digits(s, j, acc, max);
            &&& (v <= max ==> out == (Some(v), i0 + n))
            &&& (v > max ==> out.0 is None)
        }),
    decreases s.len() - j,
{
    let p = |b: u8| spec_is_digit_char(b);
    let n = spec_digit_run_len(s, i0);
    lemma_run_len_props(s, i0, p);
    let run = s.subrange(i0, i0 + n);
    assert(crate::ascii_to_int::all_digits(run));
    if j >= s.len() || !spec_is_digit_char(s[j]) {
        lemma_run_len_exact(s, i0, j, p);
        assert(s.subrange(i0, i0 + n) =~= s.subrange(i0, j));
        lemma_digits_value_nonneg(run);
    } else {
        // the run extends past j, so the accumulator takes in s[j]
        assert(j + 1 <= i0 + n) by {
            if i0 + n < j + 1 {
                assert(spec_is_digit_char(s[i0 + n]));
            }
        }
        let acc2 = acc * 10 + (s[j] - 48u8);
        assert(s.subrange(i0, j + 1).drop_last() =~= s.subrange(i0, j));
        assert(s.subrange(i0, j + 1).last() == s[j]);
        assert(acc2 == digits_value(s.subrange(i0, j + 1)));
        assert(digits_value(run.subrange(0, j + 1 - i0)) <= digits_value(run)) by {
            lemma_digits_value_prefix(run, j + 1 - i0);
        }
        assert(run.subrange(0, j + 1 - i0) =~= s.subrange(i0, j + 1));
        if acc2 > max {
            // the run's value can only be larger still
        } else {
            lemma_take_digits_run(s, i0, j + 1, acc2, max);
        }
    }
}

// --- status-line and header-line grammars, as spec-level functions ---

/// HTTP protocol version recognized by the status-line grammar.
#[derive(Clone, Copy, Debug, PartialEq, Eq, Structural)]
pub enum Version {
    Http10,
    Http11,
}

/// The literal `"HTTP/1."` that every status line starts with.
pub open spec fn spec_status_line_prefix() -> Seq<u8> {
    seq![72u8, 84u8, 84u8, 80u8, 47u8, 49u8, 46u8]
}

/// A standard three-digit numeric status code: digits only, first one
/// nonzero, so the value lies in 100..=999.
pub open spec fn spec_status_code_from_bytes(s: Seq<u8>) -> Option<u16> {
    if s.len() == 3 && spec_is_digit_char(s[0]) && s[0] != 48u8 && spec_is_digit_char(s[1])
        && spec_is_digit_char(s[2]) {
        Some((((s[0] - 48u8) * 100 + (s[1] - 48u8) * 10 + (s[2] - 48u8))) as u16)
    } else {
        None
    }
}

/// `"HTTP/1." <digit> " " <3-digit code> " "`, anything after the second
/// space ignored. Any line shaped otherwise is simply not a status line.
pub open spec fn spec_parse_status_line(s: Seq<u8>) -> Option<(Version, u16)> {
    if s.len() >= 13 && s.subrange(0, 7) == spec_status_line_prefix() && (s[7] == 48u8 || s[7]
        == 49u8) && s[8] == 32u8 && spec_status_code_from_bytes(s.subrange(9, 12)) is Some && s[12]
        == 32u8 {
        let version = if s[7] == 48u8 {
            Version::Http10
        } else {
            Version::Http11
        };
        Some((version, spec_status_code_from_bytes(s.subrange(9, 12))->Some_0))
    } else {
        None
    }
}

/// Length of the maximal run of header-name token characters starting at `i`.
pub open spec fn spec_token_run_len(s: Seq<u8>, i: int) -> int {
    run_len(s, i, |b: u8| spec_is_token_char(b))
}

/// `<token>+ (":")? <space|tab>* <value up to CR/LF>`; the value may be
/// empty, and a missing colon is tolerated.
pub open spec fn spec_parse_header(s: Seq<u8>) -> Option<(Seq<u8>, Seq<u8>)> {
    let n = spec_token_run_len(s, 0);
    if n == 0 {
        None
    } else {
        let i = if n < s.len() && s[n] == 58u8 {
            n + 1
        } else {
            n
        };
        let j = i + run_len(s, i, |b: u8| spec_is_whitespace_char(b));
        let k = j + run_len(s, j, |b: u8| !spec_is_linebreak_char(b));
        Some((s.subrange(0, n), s.subrange(j, k)))
    }
}

/// A header line with an empty name — one that opens with a colon or any
/// other non-token byte — never parses as a header.
pub proof fn lemma_empty_name_fails(s: Seq<u8>)
    requires
        s.len() == 0 || !spec_is_token_char(s[0]),
    ensures
        spec_parse_header(s) is None,
{
    assert(spec_token_run_len(s, 0) == 0);
}

/// Parsing is a pure function of the input bytes: two independent cursors
/// over equal byte strings yield identical results, and a cursor only reads
/// its bytes, never writes them.
pub proof fn lemma_parse_deterministic(b1: Seq<u8>, b2: Seq<u8>)
    requires
        b1 == b2,
    ensures
        spec_parse_status_line(b1) == spec_parse_status_line(b2),
        spec_parse_header(b1) == spec_parse_header(b2),
{
}

// --- the cursor ---

/// An immutable view over a byte slice with a movable read position.
///
/// Every extraction operation either advances the position by exactly the
/// consumed length or, on failure, leaves it unchanged, so a grammar written
/// as a sequence of `take_*` calls never needs to backtrack.
pub struct ParserHelper<'a> {
    pub bytes: &'a [u8],
    pub index: usize,
}

impl<'a> ParserHelper<'a> {
    /// The position never runs past the end of the underlying bytes.
    pub open spec fn wf(&self) -> bool {
        self.index <= self.bytes@.len()
    }

    pub fn new(bytes: &'a [u8]) -> (r: Self)
        ensures
            r.wf(),
            r.bytes@ == bytes@,
            r.index == 0,
    {
        Self { bytes, index: 0 }
    }

    /// Takes the next `count` bytes, or fails without advancing when fewer
    /// than `count` bytes remain.
    pub fn take(&mut self, count: usize) -> (r: Option<&'a [u8]>)
        requires
            old(self).wf(),
        ensures
            final(self).wf(),
            final(self).bytes@ == old(self).bytes@,
            old(self).index + count > old(self).bytes@.len() ==> {
                &&& r is None
                &&& final(self).index == old(self).index
            },
            old(self).index + count <= old(self).bytes@.len() ==> {
                &&& r matches Some(s) && s@ == old(self).bytes@.subrange(
                    old(self).index as int,
                    old(self).index + count,
                )
                &&& final(self).index == old(self).index + count
            },
    {
        if count > self.bytes.len() - self.index {
            None
        } else {
            let s = slice_subrange(self.bytes, self.index, self.index + count);
            self.index = self.index + count;
            Some(s)
        }
    }

    /// Takes exactly `expected`, or fails without advancing when the next
    /// bytes differ from it.
    pub fn take_seq(&mut self, expected: &[u8]) -> (r: Option<&'a [u8]>)
        requires
            old(self).wf(),
        ensures
            final(self).wf(),
            final(self).bytes@ == old(self).bytes@,
            ({
                let fits = old(self).index + expected@.len() <= old(self).bytes@.len();
                let matched = fits && old(self).bytes@.subrange(
                    old(self).index as int,
                    old(self).index + expected@.len(),
                ) == expected@;
                if matched {
                    &&& r matches Some(s) && s@ == expected@
                    &&& final(self).index == old(self).index + expected@.len()
                } else {
                    &&& r is None
                    &&& final(self).index == old(self).index
                }
            }),
    {
        if expected.len() > self.bytes.len() - self.index {
            return None;
        }
        let mut i: usize = 0;
        while i < expected.len()
            invariant
                self == old(self),
                old(self).wf(),
                i <= expected@.len(),
                old(self).index + expected@.len() <= old(self).bytes@.len(),
                old(self).bytes@.len() <= usize::MAX,
                forall|k: int|
                    0 <= k < i ==> old(self).bytes@[old(self).index + k] == expected@[k],
            decreases expected@.len() - i,
        {
            if self.bytes[self.index + i] != expected[i] {
                proof {
                    assert(old(self).bytes@.subrange(
                        old(self).index as int,
                        old(self).index + expected@.len(),
                    )[i as int] != expected@[i as int]);
                }
                return None;
            }
            i = i + 1;
        }
        proof {
            assert(old(self).bytes@.subrange(
                old(self).index as int,
                old(self).index + expected@.len(),
            ) =~= expected@);
        }
        let s = slice_subrange(self.bytes, self.index, self.index + expected.len());
        self.index = self.index + expected.len();
        Some(s)
    }

    /// Hands the next `count` bytes to `f` and advances only when `f`
    /// accepts them; fails without advancing when fewer than `count` bytes
    /// remain or `f` declines.
    pub fn take_map<T, F: FnOnce(&'a [u8]) -> Option<T>>(&mut self, count: usize, f: F) -> (r:
        Option<T>)
        requires
            old(self).wf(),
            forall|s: &'a [u8]| #[trigger] call_requires(f, (s,)),
        ensures
            final(self).wf(),
            final(self).bytes@ == old(self).bytes@,
            old(self).index + count > old(self).bytes@.len() ==> {
                &&& r is None
                &&& final(self).index == old(self).index
            },
            old(self).index + count <= old(self).bytes@.len() ==> exists|s: &'a [u8]|
                {
                    &&& s@ == old(self).bytes@.subrange(
                        old(self).index as int,
                        old(self).index + count,
                    )
                    &&& #[trigger] call_ensures(f, (s,), r)
                    &&& (r is Some ==> final(self).index == old(self).index + count)
                    &&& (r is None ==> final(self).index == old(self).index)
                },
    {
        if count > self.bytes.len() - self.index {
            return None;
        }
        let s = slice_subrange(self.bytes, self.index, self.index + count);
        let result = f(s);
        if result.is_some() {
            self.index = self.index + count;
        }
        result
    }

    /// Takes the maximal (possibly empty) prefix of the remaining bytes
    /// whose bytes satisfy `predicate`; never fails.
    pub fn take_optional_while<F: Fn(u8) -> bool>(&mut self, predicate: F) -> (r: &'a [u8])
        requires
            old(self).wf(),
            forall|b: u8| #[trigger] call_requires(predicate, (b,)),
        ensures
            final(self).wf(),
            final(self).bytes@ == old(self).bytes@,
            old(self).index <= final(self).index,
            r@ == old(self).bytes@.subrange(old(self).index as int, final(self).index as int),
            forall|k: int|
                old(self).index <= k < final(self).index ==> call_ensures(
                    predicate,
                    (old(self).bytes@[k],),
                    true,
                ),
            final(self).index < old(self).bytes@.len() ==> call_ensures(
                predicate,
                (old(self).bytes@[final(self).index as int],),
                false,
            ),
    {
        let start_index = self.index;
        loop
            invariant
                self.wf(),
                self.bytes@ == old(self).bytes@,
                start_index == old(self).index,
                start_index <= self.index,
                forall|b: u8| #[trigger] call_requires(predicate, (b,)),
                forall|k: int|
                    start_index <= k < self.index ==> call_ensures(
                        predicate,
                        (old(self).bytes@[k],),
                        true,
                    ),
            ensures
                self.index == self.bytes@.len() || call_ensures(
                    predicate,
                    (self.bytes@[self.index as int],),
                    false,
                ),
            decreases self.bytes@.len() - self.index,
        {
            if self.index >= self.bytes.len() {
                break ;
            }
            let b = self.bytes[self.index];
            if !predicate(b) {
                break ;
            }
            self.index = self.index + 1;
        }
        slice_subrange(self.bytes, start_index, self.index)
    }

    /// Takes the maximal prefix of the remaining bytes whose bytes satisfy
    /// `predicate`; fails without advancing when that prefix is empty.
    pub fn take_while<F: Fn(u8) -> bool>(&mut self, predicate: F) -> (r: Option<&'a [u8]>)
        requires
            old(self).wf(),
            forall|b: u8| #[trigger] call_requires(predicate, (b,)),
        ensures
            final(self).wf(),
            final(self).bytes@ == old(self).bytes@,
            old(self).index <= final(self).index,
            match r {
                Some(s) => {
                    &&& old(self).index < final(self).index
                    &&& s@ == old(self).bytes@.subrange(
                        old(self).index as int,
                        final(self).index as int,
                    )
                    &&& forall|k: int|
                        old(self).index <= k < final(self).index ==> call_ensures(
                            predicate,
                            (old(self).bytes@[k],),
                            true,
                        )
                    &&& (final(self).index < old(self).bytes@.len() ==> call_ensures(
                        predicate,
                        (old(self).bytes@[final(self).index as int],),
                        false,
                    ))
                },
                None => {
                    &&& final(self).index == old(self).index
                    &&& (old(self).index == old(self).bytes@.len() || call_ensures(
                        predicate,
                        (old(self).bytes@[old(self).index as int],),
                        false,
                    ))
                },
            },
    {
        let taken = self.take_optional_while(predicate);
        if taken.is_empty() {
            None
        } else {
            Some(taken)
        }
    }

    /// Takes a single ASCII decimal digit, yielding its numeric value 0-9.
    pub fn take_digit(&mut self) -> (r: Option<u8>)
        requires
            old(self).wf(),
        ensures
            final(self).wf(),
            final(self).bytes@ == old(self).bytes@,
            ({
                let i = old(self).index as int;
                if i < old(self).bytes@.len() && spec_is_digit_char(old(self).bytes@[i]) {
                    &&& r matches Some(d) && d == old(self).bytes@[i] - 48u8
                    &&& final(self).index == old(self).index + 1
                } else {
                    &&& r is None
                    &&& final(self).index == old(self).index
                }
            }),
    {
        if self.index < self.bytes.len() {
            let b = self.bytes[self.index];
            if 48u8 <= b && b <= 57u8 {
                self.index = self.index + 1;
                return Some(b - 48u8);
            }
        }
        None
    }

    /// Greedily takes a run of decimal digits and accumulates their value
    /// with overflow checks. Fails without advancing when no digit is next;
    /// fails after consuming the offending prefix when the value overflows.
    pub fn take_usize(&mut self) -> (r: Option<usize>)
        requires
            old(self).wf(),
        ensures
            final(self).wf(),
            final(self).bytes@ == old(self).bytes@,
            ({
                let i0 = old(self).index as int;
                let s = old(self).bytes@;
                if i0 < s.len() && spec_is_digit_char(s[i0]) {
                    let out = spec_take_digits(s, i0 + 1, (s[i0] - 48u8) as int, usize::MAX as int);
                    &&& final(self).index == out.1
                    &&& (out.0 matches Some(v) ==> r == Some(v as usize))
                    &&& (out.0 is None ==> r is None)
                } else {
                    &&& r is None
                    &&& final(self).index == i0
                }
            }),
            ({
                let i0 = old(self).index as int;
                let s = old(self).bytes@;
                let n = spec_digit_run_len(s, i0);
                let v = digits_value(s.subrange(i0, i0 + n));
                &&& (n == 0 ==> r is None && final(self).index == i0)
                &&& (n > 0 && v <= usize::MAX ==> r == Some(v as usize) && final(self).index == i0
                    + n)
                &&& (n > 0 && v > usize::MAX ==> r is None)
            }),
    {
        let ghost s = self.bytes@;
        let ghost i0 = self.index as int;
        proof {
            lemma_run_len_props(s, i0, |b: u8| spec_is_digit_char(b));
        }
        let first = match self.take_digit() {
            Some(d) => d,
            None => {
                return None;
            },
        };
        proof {
            assert(s.subrange(i0, i0 + 1).drop_last() =~= Seq::<u8>::empty());
            assert(digits_value(Seq::<u8>::empty()) == 0);
            assert(s.subrange(i0, i0 + 1).last() == s[i0]);
            lemma_take_digits_run(s, i0, i0 + 1, (s[i0] - 48u8) as int, usize::MAX as int);
        }
        let mut result: usize = first as usize;
        loop
            invariant
                self.wf(),
                self.bytes@ == s,
                s == old(self).bytes@,
                i0 == old(self).index as int,
                0 <= i0 < s.len(),
                spec_is_digit_char(s[i0]),
                i0 < self.index <= s.len(),
                spec_take_digits(s, i0 + 1, (s[i0] - 48u8) as int, usize::MAX as int)
                    == spec_take_digits(s, self.index as int, result as int, usize::MAX as int),
            ensures
                self.wf(),
                self.bytes@ == s,
                i0 < self.index <= s.len(),
                spec_take_digits(s, i0 + 1, (s[i0] - 48u8) as int, usize::MAX as int) == (
                Some(result as int),
                self.index as int,
                ),
            decreases s.len() - self.index,
        {
            let digit = match self.take_digit() {
                Some(d) => d,
                None => {
                    break ;
                },
            };
            let step = match result.checked_mul(10) {
                Some(x) => x,
                None => {
                    proof {
                        assert(s.subrange(i0, i0 + 1).drop_last() =~= Seq::<u8>::empty());
                        assert(digits_value(Seq::<u8>::empty()) == 0);
                        assert(s.subrange(i0, i0 + 1).last() == s[i0]);
                        lemma_take_digits_run(s, i0, i0 + 1, (s[i0] - 48u8) as int, usize::MAX as int);
                    }
                    return None;
                },
            };
            result = match step.checked_add(digit as usize) {
                Some(x) => x,
                None => {
                    proof {
                        assert(s.subrange(i0, i0 + 1).drop_last() =~= Seq::<u8>::empty());
                        assert(digits_value(Seq::<u8>::empty()) == 0);
                        assert(s.subrange(i0, i0 + 1).last() == s[i0]);
                        lemma_take_digits_run(s, i0, i0 + 1, (s[i0] - 48u8) as int, usize::MAX as int);
                    }
                    return None;
                },
            };
        }
        Some(result)
    }
}

// --- the executable grammars ---

/// Reads a standard three-digit numeric status code out of exactly three
/// bytes.
fn status_code_from_bytes(src: &[u8]) -> (r: Option<u16>)
    ensures
        r == spec_status_code_from_bytes(src@),
{
    if src.len() != 3 {
        return None;
    }
    let a = src[0];
    let b = src[1];
    let c = src[2];
    if !(49u8 <= a && a <= 57u8) {
        return None;
    }
    if !(48u8 <= b && b <= 57u8) {
        return None;
    }
    if !(48u8 <= c && c <= 57u8) {
        return None;
    }
    Some(((a - 48u8) as u16) * 100 + ((b - 48u8) as u16) * 10 + ((c - 48u8) as u16))
}

/// Recognizes `"HTTP/1." <digit> " " <3-digit-code> " "` and yields the
/// protocol version together with the status code. A line that fails any
/// step is reported as "not a status line", never as a fatal error.
pub fn parse_status_line(bytes: &[u8]) -> (r: Option<(Version, u16)>)
    ensures
        r == spec_parse_status_line(bytes@),
        r matches Some((v, code)) ==> 100 <= code <= 999,
{
    let mut p = ParserHelper::new(bytes);
    let prefix: [u8; 7] = [72, 84, 84, 80, 47, 49, 46];
    if p.take_seq(prefix.as_slice()).is_none() {
        proof {
            assert(bytes@.len() >= 7 ==> bytes@.subrange(0, 7) != spec_status_line_prefix());
        }
        return None;
    }
    proof {
        assert(bytes@.subrange(0, 7) == spec_status_line_prefix());
    }
    let version = match p.take_digit() {
        Some(0) => Version::Http10,
        Some(1) => Version::Http11,
        _ => {
            return None;
        },
    };
    let space: [u8; 1] = [32];
    if p.take_seq(space.as_slice()).is_none() {
        proof {
            if bytes@.len() >= 9 && bytes@[8] == 32u8 {
                assert(bytes@.subrange(8, 9) =~= space@);
            }
        }
        return None;
    }
    proof {
        assert(bytes@[8] == 32u8) by {
            assert(bytes@.subrange(8, 9)[0] == 32u8);
        }
    }
    let code_bytes = match p.take(3) {
        Some(s) => s,
        None => {
            return None;
        },
    };
    let status = match status_code_from_bytes(code_bytes) {
        Some(c) => c,
        None => {
            return None;
        },
    };
    if p.take_seq(space.as_slice()).is_none() {
        proof {
            if bytes@.len() >= 13 && bytes@[12] == 32u8 {
                assert(bytes@.subrange(12, 13) =~= space@);
            }
        }
        return None;
    }
    proof {
        assert(bytes@[12] == 32u8) by {
            assert(bytes@.subrange(12, 13)[0] == 32u8);
        }
    }
    Some((version, status))
}

/// Recognizes `<token>+ (":")? <optional-whitespace> <value>` and yields the
/// header name (case preserved) and its value with leading whitespace
/// stripped and everything from the first CR or LF on excluded.
pub fn parse_header(bytes: &[u8]) -> (r: Option<(&[u8], &[u8])>)
    ensures
        r matches Some((name, value)) ==> spec_parse_header(bytes@) == Some((name@, value@)),
        r is None ==> spec_parse_header(bytes@) is None,
{
    let ghost s = bytes@;
    let mut p = ParserHelper::new(bytes);
    let name = match p.take_while(is_token_char) {
        Some(n) => n,
        None => {
            proof {
                if s.len() > 0 && spec_is_token_char(s[0]) {
                    assert(call_ensures(is_token_char, (s[0],), false));
                    assert(false);
                }
                assert(spec_token_run_len(s, 0) == 0);
            }
            return None;
        },
    };
    let ghost n = p.index as int;
    proof {
        assert forall|k: int| 0 <= k < n implies spec_is_token_char(s[k]) by {
            assert(call_ensures(is_token_char, (s[k],), true));
        }
        if n < s.len() {
            assert(call_ensures(is_token_char, (s[n],), false));
        }
        lemma_run_len_exact(s, 0, n, |b: u8| spec_is_token_char(b));
        assert(spec_token_run_len(s, 0) == n);
    }
    let colon: [u8; 1] = [58];
    p.take_seq(colon.as_slice());
    let ghost i = p.index as int;
    proof {
        if n < s.len() && s[n] == 58u8 {
            assert(s.subrange(n, n + 1) =~= colon@);
            assert(i == n + 1);
        } else {
            if n < s.len() {
                assert(s.subrange(n, n + 1)[0] == s[n]);
                assert(s.subrange(n, n + 1) != colon@);
            }
            assert(i == n);
        }
    }
    p.take_optional_while(is_whitespace_char);
    let ghost j = p.index as int;
    proof {
        assert forall|k: int| i <= k < j implies spec_is_whitespace_char(s[k]) by {
            assert(call_ensures(is_whitespace_char, (s[k],), true));
        }
        if j < s.len() {
            assert(call_ensures(is_whitespace_char, (s[j],), false));
        }
        lemma_run_len_exact(s, i, j, |b: u8| spec_is_whitespace_char(b));
    }
    let not_linebreak = |b: u8| -> (r: bool)
        ensures
            r == !spec_is_linebreak_char(b),
        { !is_linebreak_char(b) };
    let value = p.take_optional_while(not_linebreak);
    let ghost k = p.index as int;
    proof {
        assert forall|m: int| j <= m < k implies !spec_is_linebreak_char(s[m]) by {
            assert(call_ensures(not_linebreak, (s[m],), true));
        }
        if k < s.len() {
            assert(call_ensures(not_linebreak, (s[k],), false));
        }
        lemma_run_len_exact(s, j, k, |b: u8| !spec_is_linebreak_char(b));
    }
    Some((name, value))
}

} // verus!
