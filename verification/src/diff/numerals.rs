//! The value of an article number, written in Chinese numerals, in digits or
//! in both. It orders the changes of an alignment and is never used to
//! identify an article.

use vstd::prelude::*;

verus! {

/// The largest value that a number is given: larger ones count as this.
pub const NUMBER_LIMIT: u64 = 0xffff_ffff_ffff_ffff;

/// The value of a Chinese numeral character: a digit from zero to nine, or
/// one of the multipliers ten, hundred, thousand and ten thousand.
pub open spec fn numeral_value(c: char) -> Option<nat> {
    if c == '零' {
        Some(0)
    } else if c == '一' {
        Some(1)
    } else if c == '二' || c == '两' {
        Some(2)
    } else if c == '三' {
        Some(3)
    } else if c == '四' {
        Some(4)
    } else if c == '五' {
        Some(5)
    } else if c == '六' {
        Some(6)
    } else if c == '七' {
        Some(7)
    } else if c == '八' {
        Some(8)
    } else if c == '九' {
        Some(9)
    } else if c == '十' {
        Some(10)
    } else if c == '百' {
        Some(100)
    } else if c == '千' {
        Some(1000)
    } else if c == '万' {
        Some(10000)
    } else if 48 <= c as u32 <= 57 {
        Some((c as u32 - 48) as nat)
    } else {
        None
    }
}

/// `x`, or the limit where `x` is above it.
pub open spec fn capped(x: nat) -> nat {
    if x > NUMBER_LIMIT {
        NUMBER_LIMIT as nat
    } else {
        x
    }
}

/// What reading one more character does to the pair of the value of the
/// groups read so far and the digits not yet multiplied. A digit extends the
/// pending digits. A multiplier multiplies them, or one where there are none,
/// and adds the product to the value; ten thousand multiplies the value as
/// well. Any other character is skipped.
pub open spec fn read_numeral(state: (nat, nat), c: char) -> (nat, nat) {
    let (result, pending) = state;
    match numeral_value(c) {
        Some(v) => {
            if v >= 10 {
                let p = if pending == 0 {
                    1
                } else {
                    pending
                };
                if v == 10000 {
                    (capped((result + p) * 10000), 0)
                } else {
                    (capped(result + p * v), 0)
                }
            } else {
                (result, capped(pending * 10 + v))
            }
        },
        None => state,
    }
}

/// The pair after the first `k` characters of `s`.
pub open spec fn numeral_state(s: Seq<char>, k: nat) -> (nat, nat)
    decreases k,
{
    if k == 0 || k > s.len() {
        (0, 0)
    } else {
        read_numeral(numeral_state(s, (k - 1) as nat), s[k - 1])
    }
}

/// The value of the number `s`: `十二` is 12, `二十` is 20, `二百零一` is
/// 201, `15` is 15. A text without numerals, such as `root`, has the value 0.
pub open spec fn number_value(s: Seq<char>) -> nat {
    let (result, pending) = numeral_state(s, s.len());
    capped(result + pending)
}

fn numeral_digit(c: char) -> (r: Option<u64>)
    ensures
        match r {
            Some(v) => numeral_value(c) == Some(v as nat),
            None => numeral_value(c) is None,
        },
{
    if c == '零' {
        Some(0)
    } else if c == '一' {
        Some(1)
    } else if c == '二' || c == '两' {
        Some(2)
    } else if c == '三' {
        Some(3)
    } else if c == '四' {
        Some(4)
    } else if c == '五' {
        Some(5)
    } else if c == '六' {
        Some(6)
    } else if c == '七' {
        Some(7)
    } else if c == '八' {
        Some(8)
    } else if c == '九' {
        Some(9)
    } else if c == '十' {
        Some(10)
    } else if c == '百' {
        Some(100)
    } else if c == '千' {
        Some(1000)
    } else if c == '万' {
        Some(10000)
    } else {
        let n: u32 = c as u32;
        if 48 <= n && n <= 57 {
            Some((n - 48) as u64)
        } else {
            None
        }
    }
}

fn cap(x: u128) -> (r: u64)
    ensures
        r == capped(x as nat),
{
    if x > NUMBER_LIMIT as u128 {
        NUMBER_LIMIT
    } else {
        x as u64
    }
}

/// The value of a number given as characters.
pub fn number_of(s: &Vec<char>) -> (r: u64)
    ensures
        r == number_value(s@),
{
    let mut result: u64 = 0;
    let mut pending: u64 = 0;
    let mut i: usize = 0;
    while i < s.len()
        invariant
            i <= s@.len(),
            numeral_state(s@, i as nat) == (result as nat, pending as nat),
        decreases s.len() - i,
    {
        match numeral_digit(s[i]) {
            Some(v) => {
                if v >= 10 {
                    let p: u128 = if pending == 0 {
                        1
                    } else {
                        pending as u128
                    };
                    if v == 10000 {
                        result = cap((result as u128 + p) * 10000);
                    } else {
                        assert(p * (v as u128) <= 0xffff_ffff_ffff_ffff * 1000) by (nonlinear_arith)
                            requires
                                p <= 0xffff_ffff_ffff_ffff,
                                v <= 1000,
                        {
                        }
                        result = cap(result as u128 + p * (v as u128));
                    }
                    pending = 0;
                } else {
                    pending = cap(pending as u128 * 10 + v as u128);
                }
            },
            None => {},
        }
        i += 1;
    }
    cap(result as u128 + pending as u128)
}

/// The value of an article number.
pub fn chinese_to_int(s: &str) -> (r: u64)
    ensures
        r == number_value(s@),
{
    let chars = crate::text::to_chars(s);
    number_of(&chars)
}

} // verus!
