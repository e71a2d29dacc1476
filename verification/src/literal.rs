//! Integer literals, and the cutting of an operand into the tokens of an
//! expression.

use crate::text::texts;
use vstd::arithmetic::div_mod::{lemma_fundamental_div_mod, lemma_fundamental_div_mod_converse};
use vstd::prelude::*;

verus! {

/// Whether the character is one of the ten digits.
pub open spec fn is_digit(c: char) -> bool {
    0x30 <= c as u32 <= 0x39
}

/// The number that a run of digits stands for; of no digits, zero.
pub open spec fn digits_value(s: Seq<char>) -> int
    decreases s.len(),
{
    if s.len() == 0 {
        0
    } else {
        10 * digits_value(s.drop_last()) + (s.last() as u32 - 0x30)
    }
}

/// Whether every character is a digit.
pub open spec fn all_digits(s: Seq<char>) -> bool {
    forall|i: int| 0 <= i < s.len() ==> is_digit(#[trigger] s[i])
}

/// The integer that a text stands for: one or more digits, with or without
/// a sign before them, whose number a 128-bit signed integer can hold.
pub open spec fn integer(s: Seq<char>) -> Option<int> {
    if s.len() > 0 && s[0] == '-' {
        let digits = s.drop_first();
        if digits.len() > 0 && all_digits(digits) && -digits_value(digits) >= i128::MIN {
            Some(-digits_value(digits))
        } else {
            None
        }
    } else {
        let digits = if s.len() > 0 && s[0] == '+' {
            s.drop_first()
        } else {
            s
        };
        if digits.len() > 0 && all_digits(digits) && digits_value(digits) <= i128::MAX {
            Some(digits_value(digits))
        } else {
            None
        }
    }
}

/// A run of digits stands for no less than any run that it begins with.
pub proof fn lemma_digits_value_grows(s: Seq<char>, k: int)
    requires
        all_digits(s),
        0 <= k <= s.len(),
    ensures
        0 <= digits_value(s.take(k)) <= digits_value(s),
    decreases s.len() - k,
{
    if k == s.len() {
        assert(s.take(k) =~= s);
        lemma_digits_value_positive(s);
    } else {
        lemma_digits_value_grows(s, k + 1);
        assert(s.take(k + 1).drop_last() =~= s.take(k));
        assert(is_digit(s[k]));
        assert(s.take(k + 1).last() == s[k]);
        lemma_digits_value_positive(s.take(k));
    }
}

/// A run of digits stands for no negative number.
pub proof fn lemma_digits_value_positive(s: Seq<char>)
    requires
        all_digits(s),
    ensures
        0 <= digits_value(s),
    decreases s.len(),
{
    if s.len() > 0 {
        assert(is_digit(s.last()));
        lemma_digits_value_positive(s.drop_last());
    }
}

/// Reads an integer literal.
pub fn parse_integer(s: &str) -> (r: Option<i128>)
    ensures
        match r {
            Some(n) => integer(s@) == Some(n as int),
            None => integer(s@) is None,
        },
{
    let length = s.unicode_len();
    if length == 0 {
        return None;
    }
    let first = s.get_char(0);
    let negative = first == '-';
    let start: usize = if first == '-' || first == '+' {
        1
    } else {
        0
    };
    if start == length {
        return None;
    }
    let limit: u128 = if negative {
        0x8000_0000_0000_0000_0000_0000_0000_0000u128
    } else {
        0x7fff_ffff_ffff_ffff_ffff_ffff_ffff_ffffu128
    };
    let ghost digits = s@.skip(start as int);
    proof {
        assert(start == 1 ==> digits =~= s@.drop_first());
        assert(start == 0 ==> digits =~= s@);
        assert(digits.take(0) =~= Seq::<char>::empty());
    }
    let mut magnitude: u128 = 0;
    let mut at: usize = start;
    while at < length
        invariant
            length == s@.len(),
            start <= at <= length,
            digits == s@.skip(start as int),
            all_digits(digits.take(at - start)),
            magnitude == digits_value(digits.take(at - start)),
            magnitude <= limit,
            negative == (s@[0] == '-'),
            digits == (if s@[0] == '-' || s@[0] == '+' {
                s@.drop_first()
            } else {
                s@
            }),
            limit == (if negative {
                0x8000_0000_0000_0000_0000_0000_0000_0000u128
            } else {
                0x7fff_ffff_ffff_ffff_ffff_ffff_ffff_ffffu128
            }),
        decreases length - at,
    {
        let n: u32 = s.get_char(at) as u32;
        if n < 0x30 || n > 0x39 {
            proof {
                assert(!is_digit(digits[at - start]));
            }
            return None;
        }
        let digit: u128 = (n - 0x30) as u128;
        proof {
            assert(digits.take(at - start + 1).drop_last() =~= digits.take(at - start));
            assert(digits.take(at - start + 1).last() == s@[at as int]);
            assert forall|i: int| 0 <= i < at - start + 1 implies is_digit(
                #[trigger] digits.take(at - start + 1)[i],
            ) by {
                if i < at - start {
                    assert(digits.take(at - start + 1)[i] == digits.take(at - start)[i]);
                }
            }
        }
        if magnitude > (limit - digit) / 10 {
            proof {
                if all_digits(digits) {
                    lemma_digits_value_grows(digits, at - start + 1);
                }
            }
            return None;
        }
        magnitude = magnitude * 10 + digit;
        at += 1;
    }
    proof {
        assert(digits.take(length - start) =~= digits);
    }
    if negative {
        if magnitude == 0x8000_0000_0000_0000_0000_0000_0000_0000u128 {
            Some(i128::MIN)
        } else {
            Some(-(magnitude as i128))
        }
    } else {
        Some(magnitude as i128)
    }
}

/// The address of the core that an integer stands for.
pub fn to_core_size<const CORE_SIZE: usize>(n: i128) -> (r: usize)
    requires
        CORE_SIZE > 0,
    ensures
        r == n as int % CORE_SIZE as int,
        r < CORE_SIZE,
{
    let size: u128 = CORE_SIZE as u128;
    if n >= 0 {
        ((n as u128) % size) as usize
    } else {
        let magnitude: u128 = if n == i128::MIN {
            0x8000_0000_0000_0000_0000_0000_0000_0000u128
        } else {
            (-n) as u128
        };
        let rest: u128 = magnitude % size;
        proof {
            let q = magnitude as int / size as int;
            lemma_fundamental_div_mod(magnitude as int, size as int);
            if rest == 0 {
                assert(n as int == (-q) * size + 0) by (nonlinear_arith)
                    requires
                        n as int == -(magnitude as int),
                        magnitude as int == size * q,
                ;
                lemma_fundamental_div_mod_converse(n as int, size as int, -q, 0);
            } else {
                assert(n as int == (-q - 1) * size + (size - rest)) by (nonlinear_arith)
                    requires
                        n as int == -(magnitude as int),
                        magnitude as int == size * q + rest,
                ;
                lemma_fundamental_div_mod_converse(
                    n as int,
                    size as int,
                    -q - 1,
                    size as int - rest as int,
                );
            }
        }
        if rest == 0 {
            0
        } else {
            (size - rest) as usize
        }
    }
}

/// Whether the character is an operator or a parenthesis of an expression.
pub open spec fn is_breaker(c: char) -> bool {
    c == '+' || c == '-' || c == '*' || c == '/' || c == '%' || c == '(' || c == ')'
}

/// Tells the operators and parentheses from other characters.
pub fn breaker(c: char) -> (r: bool)
    ensures
        r == is_breaker(c),
{
    c == '+' || c == '-' || c == '*' || c == '/' || c == '%' || c == '(' || c == ')'
}

/// The tokens of an expression: each operator and each parenthesis is a
/// token of its own, and so is each longest run of other characters.
pub open spec fn tokens(s: Seq<char>) -> Seq<Seq<char>>
    decreases s.len(),
{
    if s.len() == 0 {
        Seq::empty()
    } else {
        let before = tokens(s.drop_last());
        if is_breaker(s.last()) || s.len() == 1 || is_breaker(s[s.len() - 2]) {
            before.push(seq![s.last()])
        } else {
            before.drop_last().push(before.last().push(s.last()))
        }
    }
}

/// Cuts an expression into its tokens.
pub fn split_into_tokens<'a>(s: &'a str) -> (res: Vec<&'a str>)
    ensures
        texts(res@) == tokens(s@),
{
    let length = s.unicode_len();
    let mut res: Vec<&'a str> = Vec::new();
    let mut start: usize = 0;
    let mut at: usize = 0;
    proof {
        assert(s@.take(0) =~= Seq::<char>::empty());
        assert(texts(res@) =~= tokens(s@.take(0)));
    }
    while at < length
        invariant
            length == s@.len(),
            start <= at <= length,
            forall|j: int| start <= j < at ==> !is_breaker(#[trigger] s@[j]),
            start == 0 || is_breaker(s@[start - 1]),
            tokens(s@.take(at as int)) == (if start < at {
                texts(res@).push(s@.subrange(start as int, at as int))
            } else {
                texts(res@)
            }),
        decreases length - at,
    {
        let c = s.get_char(at);
        let ghost prefix = s@.take(at as int + 1);
        let ghost before = tokens(s@.take(at as int));
        proof {
            assert(prefix.drop_last() =~= s@.take(at as int));
            assert(prefix.last() == c);
            assert(at > 0 ==> prefix[prefix.len() - 2] == s@[at - 1]);
        }
        if breaker(c) {
            if start != at {
                let ghost done = texts(res@);
                res.push(s.substring_char(start, at));
                proof {
                    assert(texts(res@) =~= done.push(s@.subrange(start as int, at as int)));
                }
            }
            let ghost done = texts(res@);
            res.push(s.substring_char(at, at + 1));
            proof {
                assert(s@.subrange(at as int, at as int + 1) =~= seq![c]);
                assert(texts(res@) =~= done.push(seq![c]));
            }
            start = at + 1;
        } else {
            proof {
                if start < at {
                    assert(!is_breaker(s@[at - 1]));
                    assert(before.drop_last() =~= texts(res@));
                    assert(before.last().push(c) =~= s@.subrange(start as int, at as int + 1));
                } else {
                    assert(s@.subrange(start as int, at as int + 1) =~= seq![c]);
                }
            }
        }
        at += 1;
    }
    proof {
        assert(s@.take(length as int) =~= s@);
    }
    if start < length {
        let ghost done = texts(res@);
        res.push(s.substring_char(start, length));
        proof {
            assert(texts(res@) =~= done.push(s@.subrange(start as int, length as int)));
        }
    }
    res
}

} // verus!
