//! Numbers as decimal text.
//!
//! Numeric fields are stored as ASCII decimal digits. Reading accepts what
//! Rust's own integer parsing accepts: an optional sign (`+` always, `-` for
//! a signed type), then at least one digit, leading zeros allowed, and a
//! value inside the type's range. Anything else reads as no number.

use vstd::prelude::*;

verus! {

/// The byte `+`.
pub const PLUS: u8 = 43;

/// The byte `-`.
pub const MINUS: u8 = 45;

/// The byte `0`.
pub const ZERO: u8 = 48;

/// Whether `b` is one of the ASCII digits `0` to `9`.
pub open spec fn is_digit(b: u8) -> bool {
    48 <= b <= 57
}

/// Whether every byte of `s` is an ASCII digit.
pub open spec fn all_digits(s: Seq<u8>) -> bool {
    forall|i: int| 0 <= i < s.len() ==> is_digit(#[trigger] s[i])
}

/// The number that a string of digits denotes, most significant digit first.
pub open spec fn digits_value(s: Seq<u8>) -> nat
    decreases s.len(),
{
    if s.len() == 0 {
        0
    } else {
        digits_value(s.drop_last()) * 10 + (s.last() - 48) as nat
    }
}

/// The digits of `n`, without leading zeros; `0` is written `0`.
pub open spec fn digits_of(n: nat) -> Seq<u8>
    decreases n,
{
    if n < 10 {
        seq![(48 + n) as u8]
    } else {
        digits_of(n / 10).push((48 + n % 10) as u8)
    }
}

/// The value of a non-empty string of digits; nothing for any other string.
pub open spec fn magnitude(s: Seq<u8>) -> Option<nat> {
    if s.len() > 0 && all_digits(s) {
        Some(digits_value(s))
    } else {
        None
    }
}

/// `s` without one leading `+`.
pub open spec fn without_plus(s: Seq<u8>) -> Seq<u8> {
    if s.len() > 0 && s[0] == 43 {
        s.skip(1)
    } else {
        s
    }
}

/// What `s` reads as, as an unsigned 32-bit number.
pub open spec fn u32_of_text(s: Seq<u8>) -> Option<u32> {
    match magnitude(without_plus(s)) {
        Some(v) => if v <= u32::MAX {
            Some(v as u32)
        } else {
            None
        },
        None => None,
    }
}

/// What `s` reads as, as a signed 32-bit number.
pub open spec fn i32_of_text(s: Seq<u8>) -> Option<i32> {
    if s.len() > 0 && s[0] == 45 {
        match magnitude(s.skip(1)) {
            Some(v) => if v <= 2147483648 {
                Some((-(v as int)) as i32)
            } else {
                None
            },
            None => None,
        }
    } else {
        match magnitude(without_plus(s)) {
            Some(v) => if v <= i32::MAX {
                Some(v as i32)
            } else {
                None
            },
            None => None,
        }
    }
}

/// The text of a signed number: a `-` before the digits of a negative one.
pub open spec fn text_of_i32(v: i32) -> Seq<u8> {
    if v < 0 {
        seq![45u8] + digits_of((-(v as int)) as nat)
    } else {
        digits_of(v as nat)
    }
}

/// A prefix of a string of digits denotes no more than the whole string.
pub proof fn lemma_value_of_prefix(s: Seq<u8>, k: int)
    requires
        all_digits(s),
        0 <= k <= s.len(),
    ensures
        digits_value(s.take(k)) <= digits_value(s),
    decreases s.len() - k,
{
    if k == s.len() {
        assert(s.take(k) =~= s);
    } else {
        lemma_value_of_prefix(s, k + 1);
        let t = s.take(k + 1);
        assert(t.drop_last() =~= s.take(k));
        assert(is_digit(t.last()));
    }
}

/// The digits of a number are digits, do not start with a sign, and denote
/// that number.
pub proof fn lemma_digits_of(n: nat)
    ensures
        digits_of(n).len() > 0,
        all_digits(digits_of(n)),
        digits_value(digits_of(n)) == n,
        magnitude(digits_of(n)) == Some(n),
        without_plus(digits_of(n)) == digits_of(n),
        digits_of(n)[0] != 45,
    decreases n,
{
    if n < 10 {
        let s = seq![(48 + n) as u8];
        assert(s.drop_last() =~= Seq::<u8>::empty());
        assert(digits_value(s.drop_last()) == 0);
        assert(digits_value(s) == n);
    } else {
        lemma_digits_of(n / 10);
        let p = digits_of(n / 10);
        let s = p.push((48 + n % 10) as u8);
        assert(s.drop_last() =~= p);
        assert(s[0] == p[0]);
    }
}

/// Writing an unsigned number and reading the text gives the number back.
pub proof fn lemma_u32_round_trip(n: u32)
    ensures
        u32_of_text(digits_of(n as nat)) == Some(n),
{
    lemma_digits_of(n as nat);
}

/// Writing a signed number and reading the text gives the number back.
pub proof fn lemma_i32_round_trip(v: i32)
    ensures
        i32_of_text(text_of_i32(v)) == Some(v),
{
    if v < 0 {
        let m = (-(v as int)) as nat;
        lemma_digits_of(m);
        let s = seq![45u8] + digits_of(m);
        assert(s.skip(1) =~= digits_of(m));
    } else {
        lemma_digits_of(v as nat);
    }
}

/// Reads a non-empty run of digits whose value is at most `limit`.
fn read_magnitude(s: &[u8], start: usize, limit: u64) -> (r: Option<u64>)
    requires
        start <= s.len(),
        limit <= 0xffff_ffff,
    ensures
        r == match magnitude(s@.skip(start as int)) {
            Some(v) => if v <= limit {
                Some(v as u64)
            } else {
                None
            },
            None => None,
        },
{
    let ghost d = s@.skip(start as int);
    if start == s.len() {
        return None;
    }
    let mut acc: u64 = 0;
    let mut i: usize = start;
    while i < s.len()
        invariant
            start <= i <= s.len(),
            limit <= 0xffff_ffff,
            d == s@.skip(start as int),
            all_digits(d.take(i - start)),
            acc == digits_value(d.take(i - start)),
            acc <= limit,
        decreases s.len() - i,
    {
        let b = s[i];
        let ghost k = i - start;
        assert(d[k] == b);
        if b < 48 || b > 57 {
            assert(!is_digit(d[k]));
            return None;
        }
        let next: u64 = acc * 10 + (b - 48) as u64;
        proof {
            let t = d.take(k + 1);
            assert(t.drop_last() =~= d.take(k));
            assert(t.last() == b);
            assert forall|j: int| 0 <= j < t.len() implies is_digit(#[trigger] t[j]) by {
                if j < k {
                    assert(t[j] == d.take(k)[j]);
                }
            }
        }
        if next > limit {
            proof {
                if all_digits(d) {
                    lemma_value_of_prefix(d, k + 1);
                }
            }
            return None;
        }
        acc = next;
        i = i + 1;
    }
    assert(d.take(i - start) =~= d);
    Some(acc)
}

/// Reads decimal text as an unsigned 32-bit number.
pub fn parse_u32(s: &[u8]) -> (r: Option<u32>)
    ensures
        r == u32_of_text(s@),
{
    let start: usize = if s.len() > 0 && s[0] == PLUS {
        1
    } else {
        0
    };
    assert(s@.skip(start as int) =~= without_plus(s@));
    match read_magnitude(s, start, 0xffff_ffff) {
        Some(v) => Some(v as u32),
        None => None,
    }
}

/// Reads decimal text as a signed 32-bit number.
pub fn parse_i32(s: &[u8]) -> (r: Option<i32>)
    ensures
        r == i32_of_text(s@),
{
    if s.len() > 0 && s[0] == MINUS {
        match read_magnitude(s, 1, 2147483648) {
            Some(v) => {
                if v == 2147483648 {
                    Some(i32::MIN)
                } else {
                    Some(0 - (v as i32))
                }
            },
            None => None,
        }
    } else {
        let start: usize = if s.len() > 0 && s[0] == PLUS {
            1
        } else {
            0
        };
        assert(s@.skip(start as int) =~= without_plus(s@));
        match read_magnitude(s, start, 2147483647) {
            Some(v) => Some(v as i32),
            None => None,
        }
    }
}

/// Appends the digits of `n` to `out`.
fn push_digits(out: &mut Vec<u8>, n: u32)
    ensures
        final(out)@ == old(out)@ + digits_of(n as nat),
    decreases n,
{
    if n < 10 {
        out.push(ZERO + n as u8);
        assert(final(out)@ =~= old(out)@ + digits_of(n as nat));
    } else {
        push_digits(out, n / 10);
        out.push(ZERO + (n % 10) as u8);
        assert(out@ =~= old(out)@ + digits_of(n as nat));
    }
}

/// Writes an unsigned 32-bit number as decimal text.
pub fn format_u32(n: u32) -> (r: Vec<u8>)
    ensures
        r@ == digits_of(n as nat),
{
    let mut out: Vec<u8> = Vec::new();
    push_digits(&mut out, n);
    assert(out@ =~= digits_of(n as nat));
    out
}

/// Writes a signed 32-bit number as decimal text.
pub fn format_i32(v: i32) -> (r: Vec<u8>)
    ensures
        r@ == text_of_i32(v),
{
    let mut out: Vec<u8> = Vec::new();
    if v < 0 {
        out.push(MINUS);
        let m: u32 = if v == i32::MIN {
            2147483648
        } else {
            (0 - v) as u32
        };
        push_digits(&mut out, m);
        assert(out@ =~= text_of_i32(v));
    } else {
        push_digits(&mut out, v as u32);
        assert(out@ =~= text_of_i32(v));
    }
    out
}

} // verus!
