use crate::strutil::{digit_val, is_digit};
use vstd::prelude::*;

verus! {

// Exact decimal parsing and rendering, shared by the metadata coercion
// rules and the query builder.

/// Whether every character of `s` is a decimal digit.
pub open spec fn all_digits(s: Seq<char>) -> bool {
    forall|i: int| 0 <= i < s.len() ==> is_digit(s[i])
}

/// The number denoted by a string of decimal digits, most significant
/// first.
pub open spec fn digits_value(s: Seq<char>) -> int
    decreases s.len(),
{
    if s.len() == 0 {
        0
    } else {
        digits_value(s.drop_last()) * 10 + digit_val(s.last())
    }
}

/// Whether `s` is a decimal integer literal: an optional leading minus
/// sign followed by at least one digit, and nothing else.
pub open spec fn is_int_literal(s: Seq<char>) -> bool {
    if s.len() == 0 {
        false
    } else if s[0] == '-' {
        s.len() >= 2 && all_digits(s.skip(1))
    } else {
        all_digits(s)
    }
}

/// The integer denoted by a decimal integer literal.
pub open spec fn int_literal_value(s: Seq<char>) -> int {
    if s.len() > 0 && s[0] == '-' {
        -digits_value(s.skip(1))
    } else {
        digits_value(s)
    }
}

/// A digit string denotes a non-negative number.
pub proof fn lemma_digits_value_nonneg(s: Seq<char>)
    requires
        all_digits(s),
    ensures
        digits_value(s) >= 0,
    decreases s.len(),
{
    if s.len() > 0 {
        assert(all_digits(s.drop_last()));
        lemma_digits_value_nonneg(s.drop_last());
        assert(is_digit(s.last()));
    }
}

/// Extending a digit string never shrinks the number it denotes.
pub proof fn lemma_digits_value_prefix_le(s: Seq<char>, i: int)
    requires
        all_digits(s),
        0 <= i <= s.len(),
    ensures
        digits_value(s.take(i)) <= digits_value(s),
    decreases s.len() - i,
{
    if i == s.len() {
        assert(s.take(i) =~= s);
    } else {
        assert(s.take(s.len() - 1) =~= s.drop_last());
        assert(all_digits(s.drop_last()));
        assert(s.drop_last().take(i) =~= s.take(i));
        lemma_digits_value_prefix_le(s.drop_last(), i);
        lemma_digits_value_nonneg(s.drop_last());
        assert(is_digit(s.last()));
        assert(digits_value(s) >= digits_value(s.drop_last()));
    }
}

/// Parses an unsigned digit string; yields the value exactly when the
/// string is non-empty, all digits, and the value fits in a `u32`.
pub fn parse_u32(s: &Vec<char>) -> (r: Option<u32>)
    ensures
        r is Some <==> s@.len() > 0 && all_digits(s@) && digits_value(s@) <= u32::MAX,
        r matches Some(v) ==> v == digits_value(s@),
{
    if s.len() == 0 {
        return Option::None;
    }
    let mut acc: u64 = 0;
    let mut i: usize = 0;
    while i < s.len()
        invariant
            0 <= i <= s@.len(),
            all_digits(s@.take(i as int)),
            acc == digits_value(s@.take(i as int)),
            acc <= u32::MAX,
        decreases s@.len() - i,
    {
        let c = s[i];
        let u = c as u32;
        proof {
            assert(s@.take(i + 1).drop_last() =~= s@.take(i as int));
            assert(s@.take(i + 1).last() == s@[i as int]);
        }
        if !(48 <= u && u <= 57) {
            assert(!is_digit(s@[i as int]));
            return Option::None;
        }
        let d: u64 = (u - 48) as u64;
        acc = acc * 10 + d;
        if acc > 0xFFFF_FFFF {
            proof {
                let t = s@.take(i + 1);
                assert(digits_value(t) == acc);
                if all_digits(s@) {
                    lemma_digits_value_prefix_le(s@, i + 1);
                }
            }
            return Option::None;
        }
        i = i + 1;
    }
    proof {
        assert(s@.take(s@.len() as int) =~= s@);
    }
    Some(acc as u32)
}

/// Parses a signed decimal integer literal; yields the value exactly when
/// the literal is well formed and its value fits in an `i32`.
pub fn parse_i32(s: &Vec<char>) -> (r: Option<i32>)
    ensures
        r is Some <==> is_int_literal(s@) && i32::MIN <= int_literal_value(s@) <= i32::MAX,
        r matches Some(v) ==> v == int_literal_value(s@),
{
    if s.len() == 0 {
        return Option::None;
    }
    if s[0] == '-' {
        let mut digits: Vec<char> = Vec::new();
        let mut i: usize = 1;
        while i < s.len()
            invariant
                1 <= i <= s@.len(),
                digits@ == s@.skip(1).take(i - 1),
            decreases s@.len() - i,
        {
            digits.push(s[i]);
            proof {
                assert(s@.skip(1).take(i as int) =~= s@.skip(1).take(i - 1).push(s@[i as int]));
            }
            i = i + 1;
        }
        proof {
            assert(digits@ =~= s@.skip(1));
        }
        match parse_u32(&digits) {
            Some(m) => {
                if m > 0x8000_0000u32 {
                    proof {
                        lemma_digits_value_nonneg(s@.skip(1));
                    }
                    Option::None
                } else if m == 0x8000_0000u32 {
                    Some(i32::MIN)
                } else {
                    Some(-(m as i32))
                }
            },
            Option::None => {
                proof {
                    if is_int_literal(s@) {
                        lemma_digits_value_nonneg(s@.skip(1));
                        if digits_value(s@.skip(1)) > u32::MAX {
                            assert(int_literal_value(s@) < i32::MIN);
                        }
                    }
                }
                Option::None
            },
        }
    } else {
        match parse_u32(s) {
            Some(m) => {
                if m > 0x7FFF_FFFFu32 {
                    Option::None
                } else {
                    Some(m as i32)
                }
            },
            Option::None => {
                proof {
                    if is_int_literal(s@) {
                        lemma_digits_value_nonneg(s@);
                    }
                }
                Option::None
            },
        }
    }
}

/// Whether `s` is a plain decimal number literal: an optional leading
/// minus sign, then digits with at most one decimal point and at least
/// one digit.
pub open spec fn decimal_body(s: Seq<char>) -> Seq<char> {
    if s.len() > 0 && s[0] == '-' {
        s.skip(1)
    } else {
        s
    }
}

pub open spec fn is_decimal_literal(s: Seq<char>) -> bool {
    &&& decimal_body(s).len() > 0
    &&& forall|i: int|
        0 <= i < decimal_body(s).len() ==> is_digit(decimal_body(s)[i]) || decimal_body(s)[i] == '.'
    &&& crate::strutil::count_char(decimal_body(s), '.') <= 1
    &&& exists|i: int| 0 <= i < decimal_body(s).len() && is_digit(decimal_body(s)[i])
}

/// Checks whether `s` is a well-formed decimal number literal.
pub fn is_decimal(s: &Vec<char>) -> (r: bool)
    ensures
        r == is_decimal_literal(s@),
{
    let neg = s.len() > 0 && s[0] == '-';
    let start: usize = if neg {
        1
    } else {
        0
    };
    let ghost body = decimal_body(s@);
    proof {
        assert(body =~= s@.skip(start as int));
    }
    if s.len() == start {
        assert(body.len() == 0);
        return false;
    }
    let mut dots: usize = 0;
    let mut has_digit = false;
    let mut i: usize = start;
    while i < s.len()
        invariant
            start <= i <= s@.len(),
            start == if neg {
                1int
            } else {
                0int
            },
            body == decimal_body(s@),
            body == s@.skip(start as int),
            forall|j: int| 0 <= j < i - start ==> is_digit(body[j]) || body[j] == '.',
            dots == crate::strutil::count_char(body.take(i - start), '.'),
            dots <= i,
            has_digit == exists|j: int| 0 <= j < i - start && is_digit(body[j]),
        decreases s@.len() - i,
    {
        let c = s[i];
        let u = c as u32;
        proof {
            assert(body.take(i - start + 1).drop_last() =~= body.take(i - start));
            assert(body.take(i - start + 1).last() == body[i - start]);
        }
        if 48 <= u && u <= 57 {
            has_digit = true;
        } else if c == '.' {
            dots = dots + 1;
        } else {
            proof {
                assert(body == decimal_body(s@));
                assert(body[i - start] == s@[i as int]);
                assert(!is_digit(s@[i as int]));
                assert(!is_digit(decimal_body(s@)[i - start]) && decimal_body(s@)[i - start]
                    != '.');
                assert(!is_decimal_literal(s@));
            }
            return false;
        }
        i = i + 1;
    }
    proof {
        assert(body.take(body.len() as int) =~= body);
    }
    dots <= 1 && has_digit
}

/// The decimal digits of a non-negative number, most significant first.
pub open spec fn dec_digits(n: int) -> Seq<char>
    decreases n,
{
    if n <= 0 {
        Seq::empty()
    } else {
        dec_digits(n / 10) + seq![crate::hashing::hex_digit(n % 10)]
    }
}

/// The decimal rendering of a non-negative number: "0" for zero, its
/// digits otherwise.
pub open spec fn dec_str(n: int) -> Seq<char> {
    if n == 0 {
        seq!['0']
    } else {
        dec_digits(n)
    }
}

/// Renders a number in decimal.
pub fn u64_to_dec(n: u64) -> (r: Vec<char>)
    ensures
        r@ == dec_str(n as int),
{
    if n == 0 {
        let mut out: Vec<char> = Vec::new();
        out.push('0');
        proof {
            assert(out@ =~= dec_str(0));
        }
        return out;
    }
    let mut rev: Vec<char> = Vec::new();
    let mut m = n;
    while m > 0
        invariant
            0 <= m <= n,
            dec_digits(n as int) == dec_digits(m as int) + rev@.reverse(),
        decreases m,
    {
        let d = (m % 10) as u8;
        let c = crate::strutil::char_from_code(48 + d as u32);
        proof {
            assert(c == crate::hashing::hex_digit(m as int % 10));
            assert((dec_digits(m as int / 10) + seq![c]) + rev@.reverse() =~= dec_digits(
                m as int / 10,
            ) + (rev@.push(c)).reverse());
        }
        rev.push(c);
        m = m / 10;
    }
    let mut out: Vec<char> = Vec::new();
    let mut i: usize = rev.len();
    while i > 0
        invariant
            0 <= i <= rev@.len(),
            out@ == rev@.skip(i as int).reverse(),
        decreases i,
    {
        i = i - 1;
        out.push(rev[i]);
        proof {
            assert(rev@.skip(i as int).reverse() =~= rev@.skip(i + 1).reverse().push(
                rev@[i as int],
            ));
        }
    }
    proof {
        assert(rev@.skip(0) =~= rev@);
        assert(dec_digits(n as int) == dec_digits(0) + rev@.reverse());
        assert(out@ =~= dec_str(n as int));
    }
    out
}

} // verus!
