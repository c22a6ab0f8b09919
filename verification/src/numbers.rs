//! Numbers as they appear on the wire: decimal lengths, status codes and ports,
//! hexadecimal chunk sizes.

use crate::bytes::{MINUS, PLUS};
use vstd::prelude::*;

verus! {

/// The value of one digit in the given radix; letters count from ten, in either case.
pub open spec fn digit_value(b: u8, radix: nat) -> Option<nat> {
    let v: int = if 0x30 <= b <= 0x39 {
        b - 0x30
    } else if 0x61 <= b <= 0x7a {
        b - 0x61 + 10
    } else if 0x41 <= b <= 0x5a {
        b - 0x41 + 10
    } else {
        -1
    };
    if 0 <= v < radix {
        Some(v as nat)
    } else {
        None
    }
}

/// Whether every byte of `s` is a digit in the given radix.
pub open spec fn all_digits(s: Seq<u8>, radix: nat) -> bool {
    forall|i: int| 0 <= i < s.len() ==> (#[trigger] digit_value(s[i], radix)) is Some
}

/// The number that a run of digits denotes, most significant digit first.
pub open spec fn digits_value(s: Seq<u8>, radix: nat) -> nat
    decreases s.len(),
{
    if s.len() == 0 {
        0
    } else {
        digits_value(s.drop_last(), radix) * radix + match digit_value(s.last(), radix) {
            Some(d) => d,
            None => 0,
        }
    }
}

/// An unsigned number: an optional `+`, then one or more digits, the value at most `max`.
pub open spec fn parse_unsigned(s: Seq<u8>, radix: nat, max: nat) -> Option<nat> {
    let d = if s.len() > 0 && s[0] == PLUS {
        s.skip(1)
    } else {
        s
    };
    if d.len() > 0 && all_digits(d, radix) && digits_value(d, radix) <= max {
        Some(digits_value(d, radix))
    } else {
        None
    }
}

/// A signed decimal number of 32 bits: an optional `+` or `-`, then one or more digits.
pub open spec fn parse_signed32(s: Seq<u8>) -> Option<int> {
    if s.len() > 0 && s[0] == MINUS {
        let d = s.skip(1);
        if d.len() > 0 && all_digits(d, 10) && digits_value(d, 10) <= 0x8000_0000 {
            Some(-(digits_value(d, 10) as int))
        } else {
            None
        }
    } else {
        match parse_unsigned(s, 10, 0x7fff_ffff) {
            Some(n) => Some(n as int),
            None => None,
        }
    }
}

/// A longer run of digits denotes no smaller a number.
pub proof fn lemma_digits_value_monotonic(s: Seq<u8>, radix: nat, k: int)
    requires
        0 <= k <= s.len(),
        radix >= 1,
    ensures
        digits_value(s.take(k), radix) <= digits_value(s, radix),
    decreases s.len() - k,
{
    if k == s.len() {
        assert(s.take(k) =~= s);
    } else {
        lemma_digits_value_monotonic(s.drop_last(), radix, k);
        assert(s.drop_last().take(k) =~= s.take(k));
        let v = digits_value(s.drop_last(), radix);
        assert(v * radix >= v) by (nonlinear_arith)
            requires
                radix >= 1,
                v >= 0,
        ;
    }
}

/// The value of one digit.
pub fn digit_of(b: u8, radix: u8) -> (r: Option<u8>)
    requires
        2 <= radix <= 36,
    ensures
        match r {
            Some(d) => digit_value(b, radix as nat) == Some(d as nat),
            None => digit_value(b, radix as nat) is None,
        },
{
    let v: u8 = if 0x30 <= b && b <= 0x39 {
        b - 0x30
    } else if 0x61 <= b && b <= 0x7a {
        b - 0x61 + 10
    } else if 0x41 <= b && b <= 0x5a {
        b - 0x41 + 10
    } else {
        return None;
    };
    if v < radix {
        Some(v)
    } else {
        None
    }
}

/// Reads `s[from..]` as a run of digits whose value is at most `max`.
pub fn parse_digits(s: &[u8], from: usize, radix: u8, max: u64) -> (r: Option<u64>)
    requires
        from <= s.len(),
        2 <= radix <= 36,
    ensures
        r == ({
            let d = s@.skip(from as int);
            if d.len() > 0 && all_digits(d, radix as nat) && digits_value(d, radix as nat) <= max {
                Some(digits_value(d, radix as nat) as u64)
            } else {
                None
            }
        }),
{
    let ghost d = s@.skip(from as int);
    if from == s.len() {
        return None;
    }
    let mut acc: u64 = 0;
    let mut i: usize = from;
    while i < s.len()
        invariant
            from <= i <= s.len(),
            2 <= radix <= 36,
            d == s@.skip(from as int),
            acc == digits_value(d.take(i - from), radix as nat),
            acc <= max,
            all_digits(d.take(i - from), radix as nat),
        decreases s.len() - i,
    {
        let ghost k = i - from;
        assert(d[k] == s@[i as int]);
        let digit = match digit_of(s[i], radix) {
            Some(digit) => digit,
            None => {
                assert(digit_value(d[k], radix as nat) is None);
                return None;
            },
        };
        proof {
            assert(d.take(k + 1).drop_last() =~= d.take(k));
            assert(d.take(k + 1).last() == d[k]);
            assert(acc * radix <= 0xffff_ffff_ffff_ffff * 36) by (nonlinear_arith)
                requires
                    0 <= acc <= 0xffff_ffff_ffff_ffff,
                    0 <= radix <= 36,
            ;
        }
        let next: u128 = (acc as u128) * (radix as u128) + (digit as u128);
        if next > max as u128 {
            proof {
                if all_digits(d, radix as nat) {
                    lemma_digits_value_monotonic(d, radix as nat, k + 1);
                }
            }
            return None;
        }
        assert forall|j: int| 0 <= j < d.take(k + 1).len() implies (#[trigger] digit_value(
            d.take(k + 1)[j],
            radix as nat,
        )) is Some by {
            if j < k {
                assert(d.take(k + 1)[j] == d.take(k)[j]);
            }
        }
        acc = next as u64;
        i += 1;
    }
    assert(d.take(i - from) =~= d);
    Some(acc)
}

/// Reads an unsigned number in the given radix that fits `usize`.
pub fn parse_usize(s: &[u8], radix: u8) -> (r: Option<usize>)
    requires
        2 <= radix <= 36,
    ensures
        r == match parse_unsigned(s@, radix as nat, usize::MAX as nat) {
            Some(n) => Some(n as usize),
            None => None,
        },
{
    let from: usize = if s.len() > 0 && s[0] == PLUS {
        1
    } else {
        0
    };
    proof {
        if from == 0 {
            assert(s@.skip(0) =~= s@);
        }
    }
    match parse_digits(s, from, radix, usize::MAX as u64) {
        Some(n) => Some(n as usize),
        None => None,
    }
}

/// Reads an unsigned decimal number of at most 64 bits.
pub fn parse_u64(s: &[u8]) -> (r: Option<u64>)
    ensures
        r == match parse_unsigned(s@, 10, u64::MAX as nat) {
            Some(n) => Some(n as u64),
            None => None,
        },
{
    let from: usize = if s.len() > 0 && s[0] == PLUS {
        1
    } else {
        0
    };
    proof {
        if from == 0 {
            assert(s@.skip(0) =~= s@);
        }
    }
    parse_digits(s, from, 10, u64::MAX)
}

/// Reads an unsigned decimal number of at most 16 bits.
pub fn parse_u16(s: &[u8]) -> (r: Option<u16>)
    ensures
        r == match parse_unsigned(s@, 10, 0xffff) {
            Some(n) => Some(n as u16),
            None => None,
        },
{
    let from: usize = if s.len() > 0 && s[0] == PLUS {
        1
    } else {
        0
    };
    proof {
        if from == 0 {
            assert(s@.skip(0) =~= s@);
        }
    }
    match parse_digits(s, from, 10, 0xffff) {
        Some(n) => Some(n as u16),
        None => None,
    }
}

/// Reads a signed decimal number of 32 bits.
pub fn parse_i32(s: &[u8]) -> (r: Option<i32>)
    ensures
        r == match parse_signed32(s@) {
            Some(n) => Some(n as i32),
            None => None,
        },
{
    if s.len() > 0 && s[0] == MINUS {
        match parse_digits(s, 1, 10, 0x8000_0000) {
            Some(n) => {
                if n == 0x8000_0000 {
                    Some(i32::MIN)
                } else {
                    Some(-(n as i32))
                }
            },
            None => None,
        }
    } else {
        let from: usize = if s.len() > 0 && s[0] == PLUS {
            1
        } else {
            0
        };
        proof {
            if from == 0 {
                assert(s@.skip(0) =~= s@);
            }
        }
        match parse_digits(s, from, 10, 0x7fff_ffff) {
            Some(n) => Some(n as i32),
            None => None,
        }
    }
}

/// The decimal digits of `n`, without sign or leading zeros.
pub open spec fn decimal(n: nat) -> Seq<u8>
    decreases n,
{
    if n < 10 {
        seq![(0x30 + n) as u8]
    } else {
        decimal(n / 10).push((0x30 + n % 10) as u8)
    }
}

/// What `decimal` writes, a parser of decimal numbers reads back.
pub proof fn lemma_decimal_round_trip(n: nat, max: nat)
    requires
        n <= max,
    ensures
        decimal(n).len() > 0,
        all_digits(decimal(n), 10),
        digits_value(decimal(n), 10) == n,
        parse_unsigned(decimal(n), 10, max) == Some(n),
    decreases n,
{
    let s = decimal(n);
    if n < 10 {
        assert(s.drop_last() =~= Seq::<u8>::empty());
        assert(digit_value(s[0], 10) == Some(n));
        assert(digits_value(s.drop_last(), 10) == 0);
    } else {
        lemma_decimal_round_trip(n / 10, max);
        let p = decimal(n / 10);
        let last = (0x30 + n % 10) as u8;
        assert(s.drop_last() =~= p);
        assert(s.last() == last);
        assert(digit_value(last, 10) == Some(n % 10));
        assert forall|i: int| 0 <= i < s.len() implies (#[trigger] digit_value(s[i], 10)) is Some by {
            if i < p.len() {
                assert(s[i] == p[i]);
            }
        }
        assert(s[0] == p[0]);
    }
    assert(digit_value(s[0], 10) is Some);
    assert(s[0] != PLUS);
}

/// Appends the decimal digits of `n` to `out`.
pub fn push_decimal(out: &mut Vec<u8>, n: u64)
    ensures
        final(out)@ == old(out)@ + decimal(n as nat),
    decreases n,
{
    if n < 10 {
        out.push(0x30 + n as u8);
        assert(final(out)@ =~= old(out)@ + decimal(n as nat));
    } else {
        push_decimal(out, n / 10);
        out.push(0x30 + (n % 10) as u8);
        assert(out@ =~= old(out)@ + decimal(n as nat));
    }
}

/// The decimal digits of `n`.
pub fn to_decimal(n: u64) -> (r: Vec<u8>)
    ensures
        r@ == decimal(n as nat),
{
    let mut out: Vec<u8> = Vec::new();
    push_decimal(&mut out, n);
    assert(out@ =~= decimal(n as nat));
    out
}

} // verus!
