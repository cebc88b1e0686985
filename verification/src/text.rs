//! Small pieces of text handling: building strings character by character,
//! decimal numbers in and out, upper case, and counting lines.

use vstd::prelude::*;

verus! {

/// Appends one character to a string.
///
/// Trusted: calls `String::push` of std, which the documentation describes
/// as appending the given char to the end of the string.
#[verifier::external_body]
pub(crate) fn push_char(s: &mut String, c: char)
    ensures
        final(s)@ == old(s)@.push(c),
{
    s.push(c);
}

/// The upper-case version of a string, as std computes it.
pub uninterp spec fn uppercase_of(s: Seq<char>) -> Seq<char>;

/// The upper-case ASCII letter for a lower-case one; every other character
/// stays as it is.
pub open spec fn ascii_upper_char(c: char) -> char {
    if 'a' <= c && c <= 'z' {
        ((c as u32) - 32) as char
    } else {
        c
    }
}

/// Upper case of an ASCII text, character by character.
pub open spec fn ascii_upper(s: Seq<char>) -> Seq<char> {
    s.map_values(|c: char| ascii_upper_char(c))
}

/// The upper-case version of `s`.
///
/// Trusted: calls `str::to_uppercase` of std. Its result is named
/// `uppercase_of`; for ASCII text std documents the mapping of `a`..`z` to
/// `A`..`Z` with every other character kept, which the contract states.
/// For other text the contract says no more than the name.
#[verifier::external_body]
pub(crate) fn to_uppercase(s: &str) -> (r: String)
    ensures
        r@ == uppercase_of(s@),
        vstd::utf8::is_ascii_chars(s@) ==> r@ == ascii_upper(s@),
{
    s.to_uppercase()
}

/// A string holding the given characters in order.
pub fn string_from_chars(chars: &[char]) -> (s: String)
    ensures
        s@ == chars@,
{
    let mut s = String::new();
    let mut i: usize = 0;
    while i < chars.len()
        invariant
            i <= chars.len(),
            s@ == chars@.subrange(0, i as int),
        decreases chars.len() - i,
    {
        push_char(&mut s, chars[i]);
        assert(chars@.subrange(0, i + 1) == chars@.subrange(0, i as int).push(chars@[i as int]));
        i = i + 1;
    }
    assert(chars@.subrange(0, chars.len() as int) == chars@);
    s
}

/// The character of a decimal digit.
pub open spec fn digit_char(d: nat) -> char {
    (('0' as u32) + d) as char
}

/// The decimal writing of a number, without leading zeros ("0" for zero).
pub open spec fn spec_decimal(n: nat) -> Seq<char>
    decreases n,
{
    if n < 10 {
        seq![digit_char(n)]
    } else {
        spec_decimal(n / 10).push(digit_char(n % 10))
    }
}

/// The value of a sequence of decimal digit characters.
pub open spec fn digits_value(s: Seq<char>) -> nat
    decreases s.len(),
{
    if s.len() == 0 {
        0
    } else {
        digits_value(s.drop_last()) * 10 + ((s.last() as u32) - ('0' as u32)) as nat
    }
}

/// Every character is a decimal digit.
pub open spec fn all_digits(s: Seq<char>) -> bool {
    forall|i: int| 0 <= i < s.len() ==> '0' <= #[trigger] s[i] && s[i] <= '9'
}

/// The text after an optional leading `+`.
pub open spec fn digits_part(s: Seq<char>) -> Seq<char> {
    if s.len() > 0 && s[0] == '+' {
        s.drop_first()
    } else {
        s
    }
}

/// What `str::parse::<usize>` gives: an optional leading `+`, then one or more
/// decimal digits whose value fits in a `usize`.
pub open spec fn spec_parse_decimal(s: Seq<char>) -> Option<nat> {
    let digits = digits_part(s);
    if digits.len() > 0 && all_digits(digits) && digits_value(digits) <= usize::MAX {
        Some(digits_value(digits))
    } else {
        None
    }
}

proof fn lemma_decimal_digits(n: nat)
    ensures
        all_digits(spec_decimal(n)),
        spec_decimal(n).len() > 0,
        digits_value(spec_decimal(n)) == n,
        spec_decimal(n)[0] != '+',
    decreases n,
{
    let d = n % 10;
    assert(digit_char(d) as u32 == 48 + d);
    if n >= 10 {
        lemma_decimal_digits(n / 10);
        let s = spec_decimal(n);
        assert(s.drop_last() == spec_decimal(n / 10));
        assert(s.last() == digit_char(d));
        assert(n == (n / 10) * 10 + d);
        assert(digits_value(s) == digits_value(s.drop_last()) * 10 + d);
    } else {
        let s = spec_decimal(n);
        assert(s.drop_last() =~= Seq::<char>::empty());
        assert(s.last() == digit_char(d));
        assert(digits_value(s.drop_last()) == 0);
        assert(digits_value(s) == digits_value(s.drop_last()) * 10 + d);
    }
}

/// Writing a number in decimal and parsing the text again gives the number
/// back.
pub proof fn lemma_parse_decimal_round_trip(n: usize)
    ensures
        spec_parse_decimal(spec_decimal(n as nat)) == Some(n as nat),
{
    lemma_decimal_digits(n as nat);
}

/// The decimal writing of `n`.
pub fn decimal(n: usize) -> (s: String)
    ensures
        s@ == spec_decimal(n as nat),
{
    let mut digits: Vec<char> = Vec::new();
    let mut m: usize = n;
    // digits holds the last digits of n, least significant first
    while m >= 10
        invariant
            spec_decimal(n as nat) == spec_decimal(m as nat) + digits@.reverse(),
        decreases m,
    {
        let c = char_of_digit(m % 10);
        let ghost old_digits = digits@;
        digits.push(c);
        proof {
            assert(spec_decimal(m as nat) == spec_decimal((m / 10) as nat).push(c));
            assert(digits@.reverse() =~= seq![c] + old_digits.reverse());
            assert(spec_decimal(n as nat) =~= spec_decimal((m / 10) as nat) + digits@.reverse());
        }
        m = m / 10;
    }
    let c = char_of_digit(m);
    let ghost old_digits = digits@;
    digits.push(c);
    proof {
        assert(spec_decimal(m as nat) == seq![c]);
        assert(digits@.reverse() =~= seq![c] + old_digits.reverse());
    }
    let mut s = String::new();
    let mut i: usize = digits.len();
    while i > 0
        invariant
            i <= digits.len(),
            s@ == digits@.reverse().subrange(0, digits.len() - i),
        decreases i,
    {
        i = i - 1;
        push_char(&mut s, digits[i]);
        assert(digits@.reverse().subrange(0, digits.len() - i) =~= digits@.reverse().subrange(
            0,
            digits.len() - i - 1,
        ).push(digits@[i as int]));
    }
    assert(digits@.reverse().subrange(0, digits.len() as int) =~= digits@.reverse());
    s
}

fn char_of_digit(d: usize) -> (c: char)
    requires
        d < 10,
    ensures
        c == digit_char(d as nat),
{
    if d == 0 { '0' }
    else if d == 1 { '1' }
    else if d == 2 { '2' }
    else if d == 3 { '3' }
    else if d == 4 { '4' }
    else if d == 5 { '5' }
    else if d == 6 { '6' }
    else if d == 7 { '7' }
    else if d == 8 { '8' }
    else { '9' }
}

/// Parses a decimal number as `str::parse::<usize>` does: an optional `+`,
/// then at least one digit, with a value that fits in `usize`.
pub fn parse_decimal(s: &str) -> (r: Option<usize>)
    ensures
        r matches Some(v) ==> spec_parse_decimal(s@) == Some(v as nat),
        r is None ==> spec_parse_decimal(s@) is None,
{
    let len = s.unicode_len();
    let mut start: usize = 0;
    if len > 0 && s.get_char(0) == '+' {
        start = 1;
    }
    let ghost digits = digits_part(s@);
    assert(digits =~= s@.subrange(start as int, len as int));
    if start == len {
        return None;
    }
    let mut value: usize = 0;
    let mut i: usize = start;
    while i < len
        invariant
            start <= i <= len,
            len == s@.len(),
            start < len,
            digits == s@.subrange(start as int, len as int),
            digits == digits_part(s@),
            all_digits(s@.subrange(start as int, i as int)),
            value == digits_value(s@.subrange(start as int, i as int)),
        decreases len - i,
    {
        let c = s.get_char(i);
        let ghost prefix = s@.subrange(start as int, i as int);
        let ghost next = s@.subrange(start as int, i + 1);
        assert(next.drop_last() == prefix);
        assert(next.last() == c);
        if c < '0' || c > '9' {
            assert(!all_digits(digits)) by {
                assert(digits[i - start] == c);
            }
            assert(!all_digits(digits_part(s@)));
            assert(spec_parse_decimal(s@) is None);
            return None;
        }
        let d = (c as u32 - '0' as u32) as usize;
        if value > (usize::MAX - d) / 10 {
            proof {
                if all_digits(digits) {
                    assert(digits.subrange(0, i + 1 - start) =~= next);
                    lemma_digits_value_prefix_monotone(digits, (i + 1 - start) as nat);
                }
                assert(value * 10 + d > usize::MAX) by (nonlinear_arith)
                    requires
                        value > (usize::MAX - d) / 10,
                        d <= 9,
                ;
            }
            return None;
        }
        assert(value * 10 + d <= usize::MAX) by (nonlinear_arith)
            requires
                value <= (usize::MAX - d) / 10,
                d <= 9,
        ;
        value = value * 10 + d;
        i = i + 1;
    }
    assert(s@.subrange(start as int, len as int) == digits);
    Some(value)
}

/// The value of a digit string is at least the value of any of its prefixes.
proof fn lemma_digits_value_prefix_monotone(s: Seq<char>, k: nat)
    requires
        k <= s.len(),
        all_digits(s.subrange(0, k as int)),
        all_digits(s),
    ensures
        digits_value(s.subrange(0, k as int)) <= digits_value(s),
    decreases s.len(),
{
    if k < s.len() {
        let t = s.drop_last();
        assert(t.subrange(0, k as int) == s.subrange(0, k as int));
        assert(all_digits(t));
        lemma_digits_value_prefix_monotone(t, k);
    } else {
        assert(s.subrange(0, k as int) == s);
    }
}

/// The number of lines in a text, as `str::lines().count()` gives it: a
/// line starts at the first character and after every `\n` that is not the
/// last character.
pub open spec fn spec_line_count(s: Seq<char>) -> nat
    decreases s.len(),
{
    if s.len() == 0 {
        0
    } else if s.len() == 1 || s[s.len() - 2] == '\n' {
        spec_line_count(s.drop_last()) + 1
    } else {
        spec_line_count(s.drop_last())
    }
}

/// Counts the lines of `s` as `str::lines().count()` does.
pub fn line_count(s: &str) -> (n: usize)
    ensures
        n == spec_line_count(s@),
{
    let len = s.unicode_len();
    let mut count: usize = 0;
    let mut i: usize = 0;
    let mut prev_newline = true;
    while i < len
        invariant
            i <= len,
            len == s@.len(),
            count == spec_line_count(s@.subrange(0, i as int)),
            count <= i,
            prev_newline == (i == 0 || s@[i - 1] == '\n'),
        decreases len - i,
    {
        let c = s.get_char(i);
        let ghost next = s@.subrange(0, i + 1);
        assert(next.drop_last() == s@.subrange(0, i as int));
        if prev_newline {
            count = count + 1;
        }
        prev_newline = c == '\n';
        i = i + 1;
    }
    assert(s@.subrange(0, len as int) == s@);
    count
}

/// The decimal writing of a number is ASCII and not empty.
pub proof fn lemma_decimal_ascii(n: nat)
    ensures
        vstd::utf8::is_ascii_chars(spec_decimal(n)),
        spec_decimal(n).len() > 0,
{
    lemma_decimal_digits(n);
}

/// The characters of a string, in order.
pub(crate) fn chars_of(s: &str) -> (v: Vec<char>)
    ensures
        v@ == s@,
{
    let len = s.unicode_len();
    let mut v: Vec<char> = Vec::new();
    let mut i: usize = 0;
    while i < len
        invariant
            i <= len,
            len == s@.len(),
            v@ == s@.subrange(0, i as int),
        decreases len - i,
    {
        v.push(s.get_char(i));
        assert(s@.subrange(0, i + 1) == s@.subrange(0, i as int).push(s@[i as int]));
        i = i + 1;
    }
    assert(s@.subrange(0, len as int) == s@);
    v
}

/// A string of one character.
pub(crate) fn one_char_string(c: char) -> (s: String)
    ensures
        s@ == seq![c],
{
    let mut s = String::new();
    push_char(&mut s, c);
    s
}

} // verus!
