//! Parsing trimmed lines of text into selection values: the "parse from
//! text" capability that the input parser is generic over, together with
//! its implementations for the integer types the menu uses.
use vstd::prelude::*;

use crate::text::{all_digits, dec_value, digit_of, digit_val, is_digit, lemma_dec_value_prefix};

verus! {

/// What `usize` parsing accepts: an optional leading `+`, then one or more
/// decimal digits whose value fits.
pub open spec fn parse_usize_spec(s: Seq<char>) -> Option<usize> {
    let body = if s.len() > 0 && s[0] == '+' {
        s.drop_first()
    } else {
        s
    };
    if body.len() > 0 && all_digits(body) && dec_value(body) <= usize::MAX {
        Some(dec_value(body) as usize)
    } else {
        None
    }
}

/// What `i32` parsing accepts: an optional sign, then one or more decimal
/// digits whose signed value fits.
pub open spec fn parse_i32_spec(s: Seq<char>) -> Option<i32> {
    if s.len() > 0 && s[0] == '-' {
        let body = s.drop_first();
        if body.len() > 0 && all_digits(body) && dec_value(body) <= 0x8000_0000 {
            Some((-dec_value(body)) as i32)
        } else {
            None
        }
    } else {
        let body = if s.len() > 0 && s[0] == '+' {
            s.drop_first()
        } else {
            s
        };
        if body.len() > 0 && all_digits(body) && dec_value(body) <= 0x7fff_ffff {
            Some(dec_value(body) as i32)
        } else {
            None
        }
    }
}

/// Reads the digits of `s` from position `from` on, returning their value
/// unless a non-digit appears or the value exceeds `limit`.
fn dec_accumulate(s: &str, from: usize, limit: u64) -> (r: Option<u64>)
    requires
        from <= s@.len(),
    ensures
        ({
            let body = s@.subrange(from as int, s@.len() as int);
            match r {
                Some(v) => all_digits(body) && v as int == dec_value(body) && v <= limit,
                None => !(all_digits(body) && dec_value(body) <= limit),
            }
        }),
{
    let ghost body = s@.subrange(from as int, s@.len() as int);
    let n = s.unicode_len();
    let mut acc: u64 = 0;
    let mut i: usize = from;
    while i < n
        invariant
            from <= i <= n,
            n == s@.len(),
            body == s@.subrange(from as int, n as int),
            all_digits(body.subrange(0, i - from)),
            acc as int == dec_value(body.subrange(0, i - from)),
            acc <= limit,
        decreases n - i,
    {
        let c = s.get_char(i);
        proof {
            assert(body[i - from] == s@[i as int]);
        }
        match digit_of(c) {
            None => {
                proof {
                    assert(!is_digit(body[i - from]));
                }
                return None;
            },
            Some(d) => {
                let ghost t = body.subrange(0, i - from + 1);
                proof {
                    assert(t.drop_last() =~= body.subrange(0, i - from));
                    assert(t.last() == body[i - from]);
                    assert(dec_value(t) == acc * 10 + digit_val(c));
                }
                let stepped = match acc.checked_mul(10) {
                    Some(m) => m.checked_add(d as u64),
                    None => None,
                };
                match stepped {
                    Some(v) => {
                        if v > limit {
                            proof {
                                lemma_dec_value_prefix(body, i - from + 1);
                            }
                            return None;
                        }
                        acc = v;
                    },
                    None => {
                        proof {
                            lemma_dec_value_prefix(body, i - from + 1);
                        }
                        return None;
                    },
                }
            },
        }
        i += 1;
    }
    proof {
        assert(body.subrange(0, i - from) =~= body);
    }
    Some(acc)
}

/// Parses a trimmed line as a `usize`, exactly as `parse_usize_spec` says.
pub fn parse_usize(s: &str) -> (r: Option<usize>)
    ensures
        r == parse_usize_spec(s@),
{
    let n = s.unicode_len();
    let plus = n > 0 && s.get_char(0) == '+';
    let from: usize = if plus {
        1
    } else {
        0
    };
    proof {
        if plus {
            assert(s@.subrange(1, n as int) =~= s@.drop_first());
        } else {
            assert(s@.subrange(0, n as int) =~= s@);
        }
    }
    if n == from {
        return None;
    }
    match dec_accumulate(s, from, usize::MAX as u64) {
        None => None,
        Some(v) => Some(v as usize),
    }
}

/// Parses a trimmed line as an `i32`, exactly as `parse_i32_spec` says.
pub fn parse_i32(s: &str) -> (r: Option<i32>)
    ensures
        r == parse_i32_spec(s@),
{
    let n = s.unicode_len();
    if n == 0 {
        return None;
    }
    let c0 = s.get_char(0);
    let neg = c0 == '-';
    let signed = neg || c0 == '+';
    let from: usize = if signed {
        1
    } else {
        0
    };
    proof {
        if signed {
            assert(s@.subrange(1, n as int) =~= s@.drop_first());
        } else {
            assert(s@.subrange(0, n as int) =~= s@);
        }
    }
    if n == from {
        return None;
    }
    let limit: u64 = if neg {
        0x8000_0000
    } else {
        0x7fff_ffff
    };
    match dec_accumulate(s, from, limit) {
        None => None,
        Some(v) => {
            if neg {
                if v == 0x8000_0000 {
                    Some(i32::MIN)
                } else {
                    Some(-(v as i32))
                }
            } else {
                Some(v as i32)
            }
        },
    }
}

/// A selection type the input parser can target: a value parseable from a
/// trimmed line of text, with a spec saying exactly which lines parse.
pub trait ParseFromText: Sized {
    spec fn parse_spec(s: Seq<char>) -> Option<Self>;

    fn parse_text(s: &str) -> (r: Option<Self>)
        ensures
            r == Self::parse_spec(s@),
    ;
}

impl ParseFromText for usize {
    open spec fn parse_spec(s: Seq<char>) -> Option<usize> {
        parse_usize_spec(s)
    }

    fn parse_text(s: &str) -> (r: Option<usize>) {
        parse_usize(s)
    }
}

impl ParseFromText for i32 {
    open spec fn parse_spec(s: Seq<char>) -> Option<i32> {
        parse_i32_spec(s)
    }

    fn parse_text(s: &str) -> (r: Option<i32>) {
        parse_i32(s)
    }
}

} // verus!
