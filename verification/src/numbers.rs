//! Integer coercion of configuration values.
//!
//! A value is coerced with standard decimal literal rules: an optional sign
//! (`+` for unsigned types, `+` or `-` for signed ones) followed by one or
//! more digits, and the denoted number must fit the target type.  Coercion
//! of a value outside these rules is a programming error, so the accessors
//! demand validity up front instead of failing at run time.

use vstd::prelude::*;

use crate::group::ConfigurationItem;

verus! {

/// True if `c` is a decimal digit.
pub open spec fn is_digit(c: char) -> bool {
    48 <= c as int <= 57
}

/// The numeric value of a digit character.
pub open spec fn digit_val(c: char) -> int {
    c as int - 48
}

/// True if every character of `s` is a decimal digit.
pub open spec fn all_digits(s: Seq<char>) -> bool {
    forall|i: int| 0 <= i < s.len() ==> is_digit(s[i])
}

/// The number denoted by a sequence of decimal digits.
pub open spec fn dec_value(s: Seq<char>) -> int
    decreases s.len(),
{
    if s.len() == 0 {
        0
    } else {
        dec_value(s.drop_last()) * 10 + digit_val(s.last())
    }
}

/// True if `s` starts with an explicit sign character.
pub open spec fn has_sign(s: Seq<char>) -> bool {
    s.len() > 0 && (s[0] == '+' || s[0] == '-')
}

/// True if `s` starts with a minus sign.
pub open spec fn is_negative(s: Seq<char>) -> bool {
    s.len() > 0 && s[0] == '-'
}

/// The digit characters of a numeral, the optional sign stripped.
pub open spec fn digits_part(s: Seq<char>) -> Seq<char> {
    if has_sign(s) {
        s.drop_first()
    } else {
        s
    }
}

/// True if `s` is a valid unsigned numeral whose value is at most `hi`.
pub open spec fn valid_unsigned(s: Seq<char>, hi: int) -> bool {
    &&& !is_negative(s)
    &&& digits_part(s).len() >= 1
    &&& all_digits(digits_part(s))
    &&& dec_value(digits_part(s)) <= hi
}

/// The number denoted by an unsigned numeral.
pub open spec fn unsigned_value(s: Seq<char>) -> int {
    dec_value(digits_part(s))
}

/// True if `s` is a valid signed numeral whose value lies in `[lo, hi]`.
pub open spec fn valid_signed(s: Seq<char>, lo: int, hi: int) -> bool {
    &&& digits_part(s).len() >= 1
    &&& all_digits(digits_part(s))
    &&& lo <= signed_value(s) <= hi
}

/// The number denoted by a signed numeral.
pub open spec fn signed_value(s: Seq<char>) -> int {
    if is_negative(s) {
        -dec_value(digits_part(s))
    } else {
        dec_value(digits_part(s))
    }
}

/// A digit sequence denotes a non-negative number.
proof fn lemma_dec_value_nonneg(s: Seq<char>)
    requires
        all_digits(s),
    ensures
        dec_value(s) >= 0,
    decreases s.len(),
{
    if s.len() > 0 {
        lemma_dec_value_nonneg(s.drop_last());
    }
}

/// Every prefix of a digit sequence denotes at most the whole sequence.
proof fn lemma_dec_value_prefix(s: Seq<char>, i: int)
    requires
        all_digits(s),
        0 <= i <= s.len(),
    ensures
        dec_value(s.subrange(0, i)) <= dec_value(s),
    decreases s.len() - i,
{
    if i == s.len() {
        assert(s.subrange(0, i) =~= s);
    } else {
        let p = s.subrange(0, i);
        let q = s.subrange(0, i + 1);
        assert(q.drop_last() =~= p);
        assert(forall|j: int| 0 <= j < p.len() ==> is_digit(p[j]));
        lemma_dec_value_nonneg(p);
        assert(dec_value(q) == dec_value(p) * 10 + digit_val(s[i]));
        lemma_dec_value_prefix(s, i + 1);
    }
}

/// Parses the digits of `s` from position `start` to the end.
fn parse_digits(s: &str, start: usize) -> (r: u64)
    requires
        start <= s@.len(),
        all_digits(s@.subrange(start as int, s@.len() as int)),
        dec_value(s@.subrange(start as int, s@.len() as int)) <= u64::MAX,
    ensures
        r == dec_value(s@.subrange(start as int, s@.len() as int)),
{
    let len = s.unicode_len();
    let ghost d = s@.subrange(start as int, len as int);
    let mut acc: u64 = 0;
    let mut i: usize = start;
    while i < len
        invariant
            start <= i <= len,
            len == s@.len(),
            d == s@.subrange(start as int, len as int),
            all_digits(d),
            dec_value(d) <= u64::MAX,
            acc == dec_value(s@.subrange(start as int, i as int)),
        decreases len - i,
    {
        let c = s.get_char(i);
        proof {
            let p = s@.subrange(start as int, i as int);
            let q = s@.subrange(start as int, i + 1);
            assert(q.drop_last() =~= p);
            assert(s@[i as int] == d[i - start]);
            assert(q =~= d.subrange(0, i + 1 - start));
            lemma_dec_value_prefix(d, i + 1 - start);
            lemma_dec_value_nonneg(q.drop_last());
            assert(dec_value(q) == dec_value(p) * 10 + digit_val(s@[i as int]));
        }
        let dig = (c as u32 - 48) as u64;
        acc = acc * 10 + dig;
        i = i + 1;
    }
    proof {
        assert(s@.subrange(start as int, i as int) == d);
    }
    acc
}

impl ConfigurationItem {
    /// Coerces the value to a `u64`.
    pub fn as_u64(&self) -> (r: u64)
        requires
            valid_unsigned(self.value@, u64::MAX as int),
        ensures
            r == unsigned_value(self.value@),
    {
        let v = self.value.as_str();
        let start: usize = if v.get_char(0) == '+' {
            1
        } else {
            0
        };
        proof {
            assert(self.value@.subrange(start as int, self.value@.len() as int)
                =~= digits_part(self.value@));
        }
        parse_digits(v, start)
    }

    /// Coerces the value to a `u32`.
    pub fn as_u32(&self) -> (r: u32)
        requires
            valid_unsigned(self.value@, u32::MAX as int),
        ensures
            r == unsigned_value(self.value@),
    {
        let v = self.value.as_str();
        let start: usize = if v.get_char(0) == '+' {
            1
        } else {
            0
        };
        proof {
            assert(self.value@.subrange(start as int, self.value@.len() as int)
                =~= digits_part(self.value@));
        }
        let wide = parse_digits(v, start);
        wide as u32
    }

    /// Coerces the value to an `i64`.
    pub fn as_i64(&self) -> (r: i64)
        requires
            valid_signed(self.value@, i64::MIN as int, i64::MAX as int),
        ensures
            r == signed_value(self.value@),
    {
        let v = self.value.as_str();
        let c0 = v.get_char(0);
        let start: usize = if c0 == '+' || c0 == '-' {
            1
        } else {
            0
        };
        proof {
            assert(self.value@.subrange(start as int, self.value@.len() as int)
                =~= digits_part(self.value@));
        }
        let mag = parse_digits(v, start);
        if c0 == '-' {
            if mag == 9223372036854775808u64 {
                i64::MIN
            } else {
                -(mag as i64)
            }
        } else {
            mag as i64
        }
    }

    /// Coerces the value to an `i32`.
    pub fn as_i32(&self) -> (r: i32)
        requires
            valid_signed(self.value@, i32::MIN as int, i32::MAX as int),
        ensures
            r == signed_value(self.value@),
    {
        let v = self.value.as_str();
        let c0 = v.get_char(0);
        let start: usize = if c0 == '+' || c0 == '-' {
            1
        } else {
            0
        };
        proof {
            assert(self.value@.subrange(start as int, self.value@.len() as int)
                =~= digits_part(self.value@));
        }
        let mag = parse_digits(v, start);
        if c0 == '-' {
            if mag == 2147483648u64 {
                i32::MIN
            } else {
                -(mag as i32)
            }
        } else {
            mag as i32
        }
    }
}

} // verus!
