//! Numbers in text: signed base-10 integers, and the grammar of decimal
//! floating-point numbers.

use crate::text::{chars_of, lower_chars, lowered, same_chars, slice_chars, trim, trim_chars};
use vstd::prelude::*;

verus! {

/// Whether `c` is one of the ASCII digits `0` to `9`.
pub open spec fn is_digit(c: char) -> bool {
    '0' <= c && c <= '9'
}

/// The number that the ASCII digit `c` stands for.
pub open spec fn digit_value(c: char) -> int {
    c as u32 - 48
}

/// Whether `s` holds ASCII digits only.
pub open spec fn all_digits(s: Seq<char>) -> bool {
    forall|i: int| 0 <= i < s.len() ==> is_digit(#[trigger] s[i])
}

/// The number that the digit string `s` spells in base 10; `0` for the empty string.
pub open spec fn digits_value(s: Seq<char>) -> int
    decreases s.len(),
{
    if s.len() == 0 {
        0
    } else {
        digits_value(s.drop_last()) * 10 + digit_value(s.last())
    }
}

/// Whether `s` starts with a plus or a minus sign.
pub open spec fn has_sign(s: Seq<char>) -> bool {
    s.len() > 0 && (s[0] == '-' || s[0] == '+')
}

/// The integer that `s` spells: an optional sign, then one or more digits and
/// nothing else. `None` for every other text.
pub open spec fn signed_value(s: Seq<char>) -> Option<int> {
    let body = if has_sign(s) {
        s.drop_first()
    } else {
        s
    };
    if body.len() == 0 || !all_digits(body) {
        None
    } else if s[0] == '-' {
        Some(-digits_value(body))
    } else {
        Some(digits_value(body))
    }
}

/// The 32-bit integer that a field spells once the white space around it is
/// removed; `None` where the field spells no integer or one out of range.
pub open spec fn int_field(s: Seq<char>) -> Option<i32> {
    match signed_value(trim(s)) {
        Some(v) => if i32::MIN <= v && v <= i32::MAX {
            Some(v as i32)
        } else {
            None
        },
        None => None,
    }
}

/// A digit string is worth at least as much as each of its prefixes, and
/// never less than zero.
pub proof fn lemma_prefix_value(s: Seq<char>, k: int)
    requires
        all_digits(s),
        0 <= k <= s.len(),
    ensures
        0 <= digits_value(s.take(k)) <= digits_value(s),
    decreases s.len(),
{
    if k == s.len() {
        assert(s.take(k) =~= s);
        if s.len() > 0 {
            let front = s.drop_last();
            lemma_prefix_value(front, k - 1);
            assert(front.take(k - 1) =~= front);
            assert(is_digit(s[s.len() - 1]));
        }
    } else {
        let front = s.drop_last();
        lemma_prefix_value(front, k);
        assert(front.take(k) =~= s.take(k));
        assert(is_digit(s[s.len() - 1]));
    }
}

/// Reads a field as a signed base-10 32-bit integer, ignoring white space
/// around it.
pub fn parse_int_chars(s: &Vec<char>) -> (r: Option<i32>)
    ensures
        r == int_field(s@),
{
    let t = trim_chars(s);
    let n: usize = t.len();
    if n == 0 {
        return None;
    }
    let negative: bool = t[0] == '-';
    let start: usize = if t[0] == '-' || t[0] == '+' {
        1
    } else {
        0
    };
    let ghost body = t@.subrange(start as int, n as int);
    proof {
        if start == 1 {
            assert(body =~= t@.drop_first());
        } else {
            assert(body =~= t@);
        }
    }
    if start == n {
        return None;
    }
    let mut acc: i64 = 0;
    let mut i: usize = start;
    while i < n
        invariant
            start <= i <= n == t.len(),
            t@ == trim(s@),
            body == t@.subrange(start as int, n as int),
            body == if has_sign(t@) { t@.drop_first() } else { t@ },
            all_digits(body.take(i - start)),
            acc == digits_value(body.take(i - start)),
            0 <= acc <= 2147483648,
        decreases n - i,
    {
        let c: char = t[i];
        if !(c >= '0' && c <= '9') {
            proof {
                assert(!is_digit(body[i - start]));
            }
            return None;
        }
        let digit: i64 = (c as u32 - 48) as i64;
        let next: i64 = acc * 10 + digit;
        proof {
            let upto = body.take(i + 1 - start);
            assert(upto.drop_last() =~= body.take(i - start));
            assert(upto.last() == c);
            assert(all_digits(upto)) by {
                assert forall|k: int| 0 <= k < upto.len() implies is_digit(#[trigger] upto[k]) by {
                    if k < upto.len() - 1 {
                        assert(upto[k] == body.take(i - start)[k]);
                    }
                }
            }
            assert(next == digits_value(upto));
            if all_digits(body) {
                lemma_prefix_value(body, i + 1 - start);
            }
        }
        if next > 2147483648 {
            return None;
        }
        acc = next;
        i += 1;
    }
    proof {
        assert(body.take(n - start) =~= body);
    }
    if negative {
        Some((-acc) as i32)
    } else if acc == 2147483648 {
        None
    } else {
        Some(acc as i32)
    }
}

/// Reads a field as a signed base-10 32-bit integer, ignoring white space
/// around it.
pub fn parse_int(s: &str) -> (r: Option<i32>)
    ensures
        r == int_field(s@),
{
    let chars = chars_of(s);
    parse_int_chars(&chars)
}

/// Whether `c` may stand in the mantissa of a decimal number: a digit or the
/// decimal point.
pub open spec fn is_mantissa_char(c: char) -> bool {
    is_digit(c) || c == '.'
}

/// How many decimal points `s` holds.
pub open spec fn count_dots(s: Seq<char>) -> nat
    decreases s.len(),
{
    if s.len() == 0 {
        0
    } else if s.last() == '.' {
        count_dots(s.drop_last()) + 1
    } else {
        count_dots(s.drop_last())
    }
}

/// Whether `m` is a mantissa: digits with at most one decimal point among
/// them, before them or after them, and at least one digit.
pub open spec fn is_mantissa(m: Seq<char>) -> bool {
    &&& forall|i: int| 0 <= i < m.len() ==> is_mantissa_char(#[trigger] m[i])
    &&& count_dots(m) <= 1
    &&& count_dots(m) < m.len()
}

/// Whether `e` is an exponent: the letter `e` in either case, an optional
/// sign, and one or more digits.
pub open spec fn is_exponent(e: Seq<char>) -> bool {
    &&& e.len() > 0
    &&& (e[0] == 'e' || e[0] == 'E')
    &&& ({
        let rest = e.drop_first();
        let digits = if has_sign(rest) {
            rest.drop_first()
        } else {
            rest
        };
        digits.len() > 0 && all_digits(digits)
    })
}

/// Whether the first `k` characters of `b` are a mantissa and the rest is
/// empty or an exponent.
pub open spec fn number_splits_at(b: Seq<char>, k: int) -> bool {
    &&& 0 <= k <= b.len()
    &&& is_mantissa(b.take(k))
    &&& (k == b.len() || is_exponent(b.skip(k)))
}

/// Whether `b` is an unsigned decimal number: a mantissa, optionally followed
/// by an exponent.
pub open spec fn is_number(b: Seq<char>) -> bool {
    exists|k: int| number_splits_at(b, k)
}

/// Whether `b` is, the case of ASCII letters aside, one of the words for
/// infinity and not-a-number.
pub open spec fn is_special(b: Seq<char>) -> bool {
    let w = lowered(b);
    w == seq!['i', 'n', 'f'] || w == seq!['i', 'n', 'f', 'i', 'n', 'i', 't', 'y'] || w
        == seq!['n', 'a', 'n']
}

/// Whether `s` spells a floating-point number: an optional sign, then a
/// decimal number or one of the words for infinity and not-a-number.
pub open spec fn is_float_text(s: Seq<char>) -> bool {
    let body = if has_sign(s) {
        s.drop_first()
    } else {
        s
    };
    is_special(body) || is_number(body)
}

/// Whether a field spells a floating-point number once the white space
/// around it is removed.
pub open spec fn is_float_field(s: Seq<char>) -> bool {
    is_float_text(trim(s))
}

/// Whether `c` is one of the ASCII digits `0` to `9`.
pub fn char_is_digit(c: char) -> (r: bool)
    ensures
        r == is_digit(c),
{
    c >= '0' && c <= '9'
}

/// Whether `b` is one of the words for infinity and not-a-number.
pub fn is_special_chars(b: &Vec<char>) -> (r: bool)
    ensures
        r == is_special(b@),
{
    let w = lower_chars(b);
    let inf: Vec<char> = vec!['i', 'n', 'f'];
    let infinity: Vec<char> = vec!['i', 'n', 'f', 'i', 'n', 'i', 't', 'y'];
    let nan: Vec<char> = vec!['n', 'a', 'n'];
    proof {
        assert(inf@ =~= seq!['i', 'n', 'f']);
        assert(infinity@ =~= seq!['i', 'n', 'f', 'i', 'n', 'i', 't', 'y']);
        assert(nan@ =~= seq!['n', 'a', 'n']);
    }
    same_chars(&w, &inf) || same_chars(&w, &infinity) || same_chars(&w, &nan)
}

/// Whether `b` is an unsigned decimal number.
#[verifier::loop_isolation(false)]
pub fn is_number_chars(b: &Vec<char>) -> (r: bool)
    ensures
        r == is_number(b@),
{
    let n: usize = b.len();
    let mut i: usize = 0;
    let mut dots: usize = 0;
    while i < n && (char_is_digit(b[i]) || b[i] == '.')
        invariant
            i <= n,
            dots <= i,
            dots == count_dots(b@.take(i as int)),
            forall|j: int| 0 <= j < i ==> is_mantissa_char(#[trigger] b@[j]),
        decreases n - i,
    {
        proof {
            assert(b@.take(i + 1).drop_last() =~= b@.take(i as int));
        }
        if b[i] == '.' {
            dots += 1;
        }
        i += 1;
    }
    proof {
        assert forall|k: int| number_splits_at(b@, k) implies k == i by {
            if k > i {
                assert(b@.take(k)[i as int] == b@[i as int]);
            } else if k < i {
                assert(b@.skip(k)[0] == b@[k]);
            }
        }
    }
    if !(dots <= 1 && dots < i) {
        return false;
    }
    if i == n {
        proof {
            assert(number_splits_at(b@, i as int));
        }
        return true;
    }
    let ghost tail = b@.skip(i as int);
    proof {
        assert(tail[0] == b@[i as int]);
    }
    if b[i] != 'e' && b[i] != 'E' {
        return false;
    }
    let mut j: usize = i + 1;
    if j < n && (b[j] == '+' || b[j] == '-') {
        j += 1;
    }
    let first: usize = j;
    let ghost rest = tail.drop_first();
    let ghost digits = if has_sign(rest) {
        rest.drop_first()
    } else {
        rest
    };
    proof {
        assert(rest =~= b@.skip(i + 1));
        assert(digits =~= b@.skip(first as int));
    }
    if j == n {
        return false;
    }
    while j < n
        invariant
            first <= j <= n,
            forall|k: int| first <= k < j ==> is_digit(#[trigger] b@[k]),
        decreases n - j,
    {
        if !char_is_digit(b[j]) {
            proof {
                assert(digits[j - first] == b@[j as int]);
            }
            return false;
        }
        j += 1;
    }
    proof {
        assert forall|k: int| 0 <= k < digits.len() implies is_digit(#[trigger] digits[k]) by {
            assert(digits[k] == b@[first + k]);
        }
        assert(number_splits_at(b@, i as int));
    }
    true
}

/// Whether `s` spells a floating-point number.
pub fn is_float_chars(s: &Vec<char>) -> (r: bool)
    ensures
        r == is_float_text(s@),
{
    let n: usize = s.len();
    let start: usize = if n > 0 && (s[0] == '-' || s[0] == '+') {
        1
    } else {
        0
    };
    let body = slice_chars(s, start, n);
    proof {
        if start == 1 {
            assert(body@ =~= s@.drop_first());
        } else {
            assert(body@ =~= s@);
        }
    }
    is_special_chars(&body) || is_number_chars(&body)
}

} // verus!
