use vstd::prelude::*;
use vstd::string::*;
use vstd::utf8::*;
use crate::text::ascii_at;

verus! {

/// Whether `c` is one of the ten decimal digits.
pub open spec fn is_digit(c: char) -> bool {
    '0' <= c <= '9'
}

/// Whether `c` is a plus or a minus sign.
pub open spec fn is_sign(c: char) -> bool {
    c == '+' || c == '-'
}

/// Whether `s` holds decimal digits and nothing else.
pub open spec fn all_digits(s: Seq<char>) -> bool {
    forall|i: int| 0 <= i < s.len() ==> is_digit(#[trigger] s[i])
}

/// The number that the digit `c` stands for.
pub open spec fn digit_value(c: char) -> nat
    recommends
        is_digit(c),
{
    (c as u32 - '0' as u32) as nat
}

/// The number that the digits of `s` write in base ten.
pub open spec fn decimal_value(s: Seq<char>) -> nat
    recommends
        all_digits(s),
    decreases s.len(),
{
    if s.len() == 0 {
        0
    } else {
        10 * decimal_value(s.drop_last()) + digit_value(s.last())
    }
}

/// How many digits `s` begins with.
pub open spec fn digit_run(s: Seq<char>) -> nat
    decreases s.len(),
{
    if s.len() > 0 && is_digit(s[0]) {
        1 + digit_run(s.drop_first())
    } else {
        0
    }
}

/// The digits that `s` begins with are digits, they end where `s` ends or at
/// a character that is no digit, and they are all of `s` exactly when `s`
/// holds nothing but digits.
pub proof fn lemma_digit_run(s: Seq<char>)
    ensures
        digit_run(s) <= s.len(),
        forall|i: int| 0 <= i < digit_run(s) ==> is_digit(#[trigger] s[i]),
        digit_run(s) < s.len() ==> !is_digit(s[digit_run(s) as int]),
        digit_run(s) == s.len() <==> all_digits(s),
    decreases s.len(),
{
    if s.len() > 0 && is_digit(s[0]) {
        let t = s.drop_first();
        lemma_digit_run(t);
        assert forall|i: int| 0 <= i < digit_run(s) implies is_digit(#[trigger] s[i]) by {
            if i > 0 {
                assert(s[i] == t[i - 1]);
            }
        }
        if digit_run(s) < s.len() {
            assert(s[digit_run(s) as int] == t[digit_run(t) as int]);
        }
        if all_digits(s) {
            assert forall|i: int| 0 <= i < t.len() implies is_digit(#[trigger] t[i]) by {
                assert(t[i] == s[i + 1]);
            }
        }
    } else if s.len() > 0 {
        assert(!is_digit(s[0]));
    }
}

/// The index at which the digits that start at `from` end.
pub(crate) fn skip_digits(s: &str, from: usize) -> (to: usize)
    requires
        is_ascii_chars(s@),
        from <= s@.len(),
    ensures
        to == from + digit_run(s@.skip(from as int)),
        to <= s@.len(),
{
    let n: usize = s.unicode_len();
    let mut i: usize = from;
    while i < n
        invariant
            n == s@.len(),
            is_ascii_chars(s@),
            from <= i <= n,
            i + digit_run(s@.skip(i as int)) == from + digit_run(s@.skip(from as int)),
        decreases n - i,
    {
        let c = ascii_at(s, i);
        proof {
            assert(s@.skip(i as int).drop_first() =~= s@.skip(i + 1));
        }
        if c < '0' || c > '9' {
            return i;
        }
        i = i + 1;
    }
    i
}

/// What `s` stands for as an unsigned integer of one byte: an optional plus
/// sign, then one digit or more, or nothing where `s` is not of that form or
/// the number is above 255.
pub open spec fn byte_of_text(s: Seq<char>) -> Option<u8> {
    let digits = if s.len() > 0 && s[0] == '+' {
        s.drop_first()
    } else {
        s
    };
    if digits.len() > 0 && all_digits(digits) && decimal_value(digits) <= u8::MAX {
        Some(decimal_value(digits) as u8)
    } else {
        None
    }
}

/// The first `k` digits of a digit string write no more than the whole
/// string does.
pub proof fn lemma_decimal_value_prefix(s: Seq<char>, k: int)
    requires
        all_digits(s),
        0 <= k <= s.len(),
    ensures
        decimal_value(s.take(k)) <= decimal_value(s),
    decreases s.len() - k,
{
    if k == s.len() {
        assert(s.take(k) =~= s);
    } else {
        lemma_decimal_value_prefix(s.drop_last(), k);
        assert(s.drop_last().take(k) =~= s.take(k));
    }
}

/// A text of digits holds ASCII only.
pub proof fn lemma_digits_are_ascii(s: Seq<char>)
    requires
        all_digits(s),
    ensures
        is_ascii_chars(s),
{
    assert forall|i: int| 0 <= i < s.len() implies '\0' <= #[trigger] s[i] <= '\u{7f}' by {
        assert(is_digit(s[i]));
    }
}

/// Reads an unsigned integer of one byte.
pub fn parse_byte(s: &str) -> (res: Option<u8>)
    ensures
        res == byte_of_text(s@),
{
    let ghost digits = if s@.len() > 0 && s@[0] == '+' {
        s@.drop_first()
    } else {
        s@
    };
    if !s.is_ascii() {
        proof {
            if all_digits(digits) {
                lemma_digits_are_ascii(digits);
                assert forall|i: int| 0 <= i < s@.len() implies '\0' <= #[trigger] s@[i]
                    <= '\u{7f}' by {
                    if digits.len() < s@.len() && i > 0 {
                        assert(s@[i] == digits[i - 1]);
                    }
                }
            }
        }
        return None;
    }
    let n: usize = s.unicode_len();
    let start: usize = if n > 0 && ascii_at(s, 0) == '+' {
        1
    } else {
        0
    };
    if start == n {
        return None;
    }
    proof {
        assert(digits =~= s@.skip(start as int));
        assert(digits.take(0) =~= Seq::<char>::empty());
    }
    let mut value: u32 = 0;
    let mut i: usize = start;
    while i < n
        invariant
            n == s@.len(),
            is_ascii_chars(s@),
            start <= i <= n,
            digits == s@.skip(start as int),
            digits == if s@.len() > 0 && s@[0] == '+' {
                s@.drop_first()
            } else {
                s@
            },
            all_digits(digits.take(i - start)),
            value == decimal_value(digits.take(i - start)),
            value <= u8::MAX,
        decreases n - i,
    {
        let c = ascii_at(s, i);
        proof {
            assert(digits[i - start] == c);
            assert(digits.take(i - start + 1).drop_last() =~= digits.take(i - start));
            assert(digits.take(i - start + 1).last() == c);
        }
        if c < '0' || c > '9' {
            return None;
        }
        value = value * 10 + (c as u32 - '0' as u32);
        proof {
            assert forall|j: int| 0 <= j < i - start + 1 implies is_digit(
                #[trigger] digits.take(i - start + 1)[j],
            ) by {
                if j < i - start {
                    assert(digits.take(i - start)[j] == digits[j]);
                }
            }
        }
        if value > 255 {
            proof {
                if all_digits(digits) {
                    lemma_decimal_value_prefix(digits, i - start + 1);
                }
            }
            return None;
        }
        i = i + 1;
    }
    proof {
        assert(digits.take(n - start) =~= digits);
    }
    Some(value as u8)
}

/// The lower-case form of an ASCII letter; any other character as it is.
pub open spec fn to_lower(c: char) -> char {
    if 'A' <= c <= 'Z' {
        ((c as u32) + 32) as char
    } else {
        c
    }
}

/// Whether `s` is the lower-case `word`, the case of its letters left aside.
pub open spec fn eq_ignore_case(s: Seq<char>, word: Seq<char>) -> bool {
    s.len() == word.len() && forall|i: int|
        0 <= i < s.len() ==> to_lower(#[trigger] s[i]) == word[i]
}

/// Whether `s` names a value that is no finite number: `inf`, `infinity` or
/// `nan`, in any mix of upper and lower case.
pub open spec fn is_special(s: Seq<char>) -> bool {
    ||| eq_ignore_case(s, seq!['i', 'n', 'f'])
    ||| eq_ignore_case(s, seq!['i', 'n', 'f', 'i', 'n', 'i', 't', 'y'])
    ||| eq_ignore_case(s, seq!['n', 'a', 'n'])
}

/// Whether `s` is an exponent: `e` or `E`, an optional sign, then one digit
/// or more.
pub open spec fn is_exponent(s: Seq<char>) -> bool {
    let digits = if s.len() > 1 && is_sign(s[1]) {
        s.skip(2)
    } else {
        s.skip(1)
    };
    s.len() > 0 && (s[0] == 'e' || s[0] == 'E') && digits.len() > 0 && all_digits(digits)
}

/// Whether `s` is an unsigned decimal number: digits, with at most one point
/// among them or at either end and at least one digit in all, and after them
/// an optional exponent.
pub open spec fn is_decimal(s: Seq<char>) -> bool {
    let whole = digit_run(s);
    let after_whole = s.skip(whole as int);
    let has_point = after_whole.len() > 0 && after_whole[0] == '.';
    let fraction = if has_point {
        digit_run(after_whole.skip(1))
    } else {
        0
    };
    let rest = if has_point {
        after_whole.skip(1 + fraction as int)
    } else {
        after_whole
    };
    whole + fraction > 0 && (rest.len() == 0 || is_exponent(rest))
}

/// Whether `s` writes a number: an optional sign, then an unsigned decimal
/// number or one of the names `inf`, `infinity`, `nan`. No other character may
/// stand before, between or after these. As a grammar, with the letters in
/// either case:
///
/// ```text
/// Number   ::= Sign? ( 'inf' | 'infinity' | 'nan' | Decimal )
/// Decimal  ::= ( Digit+ | Digit+ '.' Digit* | Digit* '.' Digit+ ) Exponent?
/// Exponent ::= 'e' Sign? Digit+
/// Sign     ::= [+-]
/// Digit    ::= [0-9]
/// ```
///
/// These are the texts that the standard library reads as floating-point
/// numbers.
pub open spec fn is_number_text(s: Seq<char>) -> bool {
    let body = if s.len() > 0 && is_sign(s[0]) {
        s.drop_first()
    } else {
        s
    };
    is_special(body) || is_decimal(body)
}

/// An exponent holds ASCII only.
proof fn lemma_exponent_is_ascii(s: Seq<char>)
    requires
        is_exponent(s),
    ensures
        is_ascii_chars(s),
{
    let digits = if s.len() > 1 && is_sign(s[1]) {
        s.skip(2)
    } else {
        s.skip(1)
    };
    assert forall|i: int| 0 <= i < s.len() implies '\0' <= #[trigger] s[i] <= '\u{7f}' by {
        let k = s.len() - digits.len();
        if i >= k {
            assert(is_digit(digits[i - k]));
        }
    }
}

/// An unsigned decimal number holds ASCII only.
proof fn lemma_decimal_is_ascii(s: Seq<char>)
    requires
        is_decimal(s),
    ensures
        is_ascii_chars(s),
{
    let whole = digit_run(s);
    let after_whole = s.skip(whole as int);
    let has_point = after_whole.len() > 0 && after_whole[0] == '.';
    lemma_digit_run(s);
    if has_point {
        lemma_digit_run(after_whole.skip(1));
    }
    let fraction = if has_point {
        digit_run(after_whole.skip(1))
    } else {
        0
    };
    let rest = if has_point {
        after_whole.skip(1 + fraction as int)
    } else {
        after_whole
    };
    if rest.len() > 0 {
        lemma_exponent_is_ascii(rest);
    }
    assert forall|i: int| 0 <= i < s.len() implies '\0' <= #[trigger] s[i] <= '\u{7f}' by {
        let k = s.len() - rest.len();
        if i < whole {
            assert(is_digit(s[i]));
        } else if i >= k {
            assert(s[i] == rest[i - k]);
        } else if i > whole {
            assert(is_digit(after_whole.skip(1)[i - whole - 1]));
        }
    }
}

/// A text that writes a number holds ASCII only.
pub proof fn lemma_number_text_is_ascii(s: Seq<char>)
    requires
        is_number_text(s),
    ensures
        is_ascii_chars(s),
{
    let body = if s.len() > 0 && is_sign(s[0]) {
        s.drop_first()
    } else {
        s
    };
    if is_decimal(body) {
        lemma_decimal_is_ascii(body);
    } else {
        assert forall|i: int| 0 <= i < body.len() implies '\0' <= #[trigger] body[i]
            <= '\u{7f}' by {
            let c = body[i];
            assert(to_lower(c) == 'i' || to_lower(c) == 'n' || to_lower(c) == 'f' || to_lower(c)
                == 't' || to_lower(c) == 'y' || to_lower(c) == 'a');
        }
    }
    assert forall|i: int| 0 <= i < s.len() implies '\0' <= #[trigger] s[i] <= '\u{7f}' by {
        if body.len() < s.len() && i > 0 {
            assert(s[i] == body[i - 1]);
        }
    }
}

/// The lower-case form of an ASCII letter; any other character as it is.
fn lower(c: char) -> (r: char)
    ensures
        r == to_lower(c),
{
    if c >= 'A' && c <= 'Z' {
        ((c as u8) + 32) as char
    } else {
        c
    }
}

/// Whether `s` is the lower-case `word`, the case of its letters left aside.
fn eq_ignoring_case(s: &str, word: &str) -> (same: bool)
    requires
        is_ascii_chars(s@),
        is_ascii_chars(word@),
    ensures
        same == eq_ignore_case(s@, word@),
{
    let n: usize = s.unicode_len();
    if n != word.unicode_len() {
        return false;
    }
    let mut i: usize = 0;
    while i < n
        invariant
            n == s@.len(),
            n == word@.len(),
            is_ascii_chars(s@),
            is_ascii_chars(word@),
            i <= n,
            forall|j: int| 0 <= j < i ==> to_lower(#[trigger] s@[j]) == word@[j],
        decreases n - i,
    {
        if lower(ascii_at(s, i)) != ascii_at(word, i) {
            return false;
        }
        i = i + 1;
    }
    true
}

/// Whether `s` names a value that is no finite number.
fn is_special_str(s: &str) -> (yes: bool)
    requires
        is_ascii_chars(s@),
    ensures
        yes == is_special(s@),
{
    proof {
        reveal_strlit("inf");
        reveal_strlit("infinity");
        reveal_strlit("nan");
        assert("inf"@ =~= seq!['i', 'n', 'f']);
        assert("infinity"@ =~= seq!['i', 'n', 'f', 'i', 'n', 'i', 't', 'y']);
        assert("nan"@ =~= seq!['n', 'a', 'n']);
    }
    eq_ignoring_case(s, "inf") || eq_ignoring_case(s, "infinity") || eq_ignoring_case(s, "nan")
}

/// Whether `s` is an exponent.
fn is_exponent_str(s: &str) -> (yes: bool)
    requires
        is_ascii_chars(s@),
    ensures
        yes == is_exponent(s@),
{
    let n: usize = s.unicode_len();
    if n == 0 {
        return false;
    }
    let mark = ascii_at(s, 0);
    if mark != 'e' && mark != 'E' {
        return false;
    }
    let first: usize = if n > 1 && (ascii_at(s, 1) == '+' || ascii_at(s, 1) == '-') {
        2
    } else {
        1
    };
    if first == n {
        return false;
    }
    proof {
        lemma_digit_run(s@.skip(first as int));
    }
    skip_digits(s, first) == n
}

/// Whether `s` is an unsigned decimal number.
fn is_decimal_str(s: &str) -> (yes: bool)
    requires
        is_ascii_chars(s@),
    ensures
        yes == is_decimal(s@),
{
    let n: usize = s.unicode_len();
    proof {
        assert(s@.skip(0) =~= s@);
    }
    let whole_end: usize = skip_digits(s, 0);
    let has_point: bool = whole_end < n && ascii_at(s, whole_end) == '.';
    let digits_end: usize = if has_point {
        skip_digits(s, whole_end + 1)
    } else {
        whole_end
    };
    let digits: usize = if has_point {
        digits_end - 1
    } else {
        digits_end
    };
    proof {
        let after_whole = s@.skip(whole_end as int);
        if has_point {
            assert(after_whole.skip(1) =~= s@.skip(whole_end + 1));
            assert(after_whole.skip(digits_end - whole_end) =~= s@.skip(digits_end as int));
        }
    }
    if digits == 0 {
        return false;
    }
    if digits_end == n {
        return true;
    }
    let rest = s.substring_ascii(digits_end, n);
    proof {
        assert(rest@ =~= s@.skip(digits_end as int));
    }
    is_exponent_str(rest)
}

/// Whether `s` writes a number.
pub fn is_number(s: &str) -> (yes: bool)
    ensures
        yes == is_number_text(s@),
{
    if !s.is_ascii() {
        proof {
            if is_number_text(s@) {
                lemma_number_text_is_ascii(s@);
            }
        }
        return false;
    }
    let n: usize = s.unicode_len();
    let start: usize = if n > 0 && (ascii_at(s, 0) == '+' || ascii_at(s, 0) == '-') {
        1
    } else {
        0
    };
    let body = s.substring_ascii(start, n);
    proof {
        if start == 1 {
            assert(body@ =~= s@.drop_first());
        } else {
            assert(body@ =~= s@);
        }
    }
    is_special_str(body) || is_decimal_str(body)
}

} // verus!
