//! Character-level text helpers: decimal rendering and parsing of integers, and the
//! conversions between `String`/`&str` and character vectors that the rest of the
//! library computes on.

use vstd::prelude::*;

verus! {

/// The ASCII digit for `d`, which must be below ten.
pub open spec fn digit_char(d: nat) -> char {
    if d == 0 { '0' }
    else if d == 1 { '1' }
    else if d == 2 { '2' }
    else if d == 3 { '3' }
    else if d == 4 { '4' }
    else if d == 5 { '5' }
    else if d == 6 { '6' }
    else if d == 7 { '7' }
    else if d == 8 { '8' }
    else { '9' }
}

/// Whether `c` is an ASCII decimal digit.
pub open spec fn is_digit(c: char) -> bool {
    '0' <= c && c <= '9'
}

/// The value of the ASCII digit `c`.
pub open spec fn digit_value(c: char) -> nat {
    (c as nat - '0' as nat) as nat
}

/// Shortest decimal rendering of `n`, most significant digit first.
pub open spec fn decimal(n: nat) -> Seq<char>
    decreases n,
{
    if n < 10 {
        seq![digit_char(n)]
    } else {
        decimal(n / 10).push(digit_char(n % 10))
    }
}

/// Decimal rendering of a signed integer: a leading `-` for negative values.
pub open spec fn signed_decimal(n: int) -> Seq<char> {
    if n < 0 {
        seq!['-'] + decimal((-n) as nat)
    } else {
        decimal(n as nat)
    }
}

/// Whether every character of `s` is a decimal digit.
pub open spec fn all_digits(s: Seq<char>) -> bool {
    forall|i: int| 0 <= i < s.len() ==> is_digit(#[trigger] s[i])
}

/// The value of a run of decimal digits (empty runs read as zero).
pub open spec fn digits_value(s: Seq<char>) -> nat
    decreases s.len(),
{
    if s.len() == 0 {
        0
    } else {
        digits_value(s.drop_last()) * 10 + digit_value(s.last())
    }
}

/// The magnitude part of an integer literal: everything after an optional leading `+`
/// (or, when `signed`, `-`). Rust rejects a lone sign.
pub open spec fn unsigned_body(s: Seq<char>) -> Seq<char> {
    if s.len() > 1 && s[0] == '+' { s.drop_first() } else { s }
}

/// What `str::parse` gives for an unsigned integer type whose largest value is `max`:
/// an optional `+`, then at least one digit, and a value that fits.
pub open spec fn parse_unsigned(s: Seq<char>, max: nat) -> Option<nat> {
    let body = unsigned_body(s);
    if body.len() > 0 && all_digits(body) && digits_value(body) <= max {
        Some(digits_value(body))
    } else {
        None
    }
}

/// What `str::parse::<i64>` gives: an optional sign, then at least one digit, with the
/// value in `i64`'s range.
pub open spec fn parse_i64_spec(s: Seq<char>) -> Option<int> {
    if s.len() > 1 && s[0] == '-' {
        let body = s.drop_first();
        if all_digits(body) && digits_value(body) <= 0x8000_0000_0000_0000 {
            Some(-(digits_value(body) as int))
        } else {
            None
        }
    } else {
        match parse_unsigned(s, 0x7fff_ffff_ffff_ffff) {
            Some(v) => Some(v as int),
            None => None,
        }
    }
}

proof fn lemma_digit_char_is_digit(d: nat)
    requires
        d < 10,
    ensures
        is_digit(digit_char(d)),
        digit_value(digit_char(d)) == d,
{
}

proof fn lemma_decimal_digits(n: nat)
    ensures
        decimal(n).len() > 0,
        all_digits(decimal(n)),
        digits_value(decimal(n)) == n,
        n > 0 ==> decimal(n)[0] != '0',
    decreases n,
{
    if n < 10 {
        lemma_digit_char_is_digit(n);
        assert(decimal(n).drop_last() =~= Seq::<char>::empty());
        assert(digits_value(Seq::<char>::empty()) == 0);
        assert(digits_value(decimal(n)) == digits_value(decimal(n).drop_last()) * 10
            + digit_value(decimal(n).last()));
    } else {
        lemma_decimal_digits(n / 10);
        lemma_digit_char_is_digit(n % 10);
        let d = decimal(n);
        assert(d[0] == decimal(n / 10)[0]);
        assert(d.last() == digit_char(n % 10));
        assert(d.drop_last() =~= decimal(n / 10));
        assert(digits_value(d) == digits_value(d.drop_last()) * 10 + digit_value(d.last()));
        assert(n == (n / 10) * 10 + n % 10);
        assert forall|i: int| 0 <= i < d.len() implies is_digit(#[trigger] d[i]) by {
            if i < d.len() - 1 {
                assert(d[i] == decimal(n / 10)[i]);
            }
        }
    }
}

/// Rendering a number and parsing it back gives the number.
pub proof fn lemma_parse_decimal(n: nat, max: nat)
    requires
        n <= max,
    ensures
        parse_unsigned(decimal(n), max) == Some(n),
{
    lemma_decimal_digits(n);
    assert(unsigned_body(decimal(n)) == decimal(n)) by {
        if decimal(n).len() > 1 {
            assert(is_digit(decimal(n)[0]));
        }
    }
}

/// Different numbers render differently.
pub proof fn lemma_decimal_injective(n: nat, m: nat)
    ensures
        decimal(n) == decimal(m) ==> n == m,
{
    lemma_decimal_digits(n);
    lemma_decimal_digits(m);
}

/// Different integers render differently, sign included.
pub proof fn lemma_signed_decimal_injective(n: int, m: int)
    ensures
        signed_decimal(n) == signed_decimal(m) ==> n == m,
{
    if signed_decimal(n) == signed_decimal(m) {
        if n < 0 {
            lemma_decimal_digits((-n) as nat);
        } else {
            lemma_decimal_digits(n as nat);
        }
        if m < 0 {
            lemma_decimal_digits((-m) as nat);
        } else {
            lemma_decimal_digits(m as nat);
        }
        if n < 0 && m < 0 {
            assert(decimal((-n) as nat) =~= signed_decimal(n).drop_first());
            assert(decimal((-m) as nat) =~= signed_decimal(m).drop_first());
            lemma_decimal_injective((-n) as nat, (-m) as nat);
        } else if n < 0 {
            assert(signed_decimal(n)[0] == '-');
            assert(is_digit(decimal(m as nat)[0]));
        } else if m < 0 {
            assert(signed_decimal(m)[0] == '-');
            assert(is_digit(decimal(n as nat)[0]));
        } else {
            lemma_decimal_injective(n as nat, m as nat);
        }
    }
}

/// The characters of a number's rendering: digits, and a leading `-` when negative.
pub open spec fn numeral_char(c: char) -> bool {
    is_digit(c) || c == '-'
}

/// A signed rendering is made of numeral characters.
pub proof fn lemma_signed_decimal_numeral(n: int)
    ensures
        forall|i: int| 0 <= i < signed_decimal(n).len() ==> numeral_char(#[trigger] signed_decimal(n)[i]),
{
    if n < 0 {
        lemma_decimal_digits((-n) as nat);
        assert forall|i: int| 0 <= i < signed_decimal(n).len() implies numeral_char(#[trigger] signed_decimal(n)[i]) by {
            if i > 0 {
                assert(signed_decimal(n)[i] == decimal((-n) as nat)[i - 1]);
            }
        }
    } else {
        lemma_decimal_digits(n as nat);
    }
}

/// Two numerals, each followed by text that starts with the same non-numeral character,
/// split the same way: if the wholes are equal, so are the numerals and the rests.
pub proof fn lemma_numeral_split(a: Seq<char>, b: Seq<char>, a2: Seq<char>, b2: Seq<char>)
    requires
        forall|i: int| 0 <= i < a.len() ==> numeral_char(#[trigger] a[i]),
        forall|i: int| 0 <= i < a2.len() ==> numeral_char(#[trigger] a2[i]),
        b.len() > 0,
        b2.len() > 0,
        !numeral_char(b[0]),
        !numeral_char(b2[0]),
        a + b == a2 + b2,
    ensures
        a == a2,
        b == b2,
{
    let w = a + b;
    if a.len() < a2.len() {
        assert(w[a.len() as int] == b[0]);
        assert((a2 + b2)[a.len() as int] == a2[a.len() as int]);
    } else if a2.len() < a.len() {
        assert(w[a2.len() as int] == a[a2.len() as int]);
        assert((a2 + b2)[a2.len() as int] == b2[0]);
    }
    assert(a =~= w.take(a.len() as int));
    assert(a2 =~= (a2 + b2).take(a2.len() as int));
    assert(b =~= w.skip(a.len() as int));
    assert(b2 =~= (a2 + b2).skip(a2.len() as int));
}

/// Each digit of an unsigned rendering is a numeral character.
pub proof fn lemma_decimal_numeral(n: nat)
    ensures
        forall|i: int| 0 <= i < decimal(n).len() ==> numeral_char(#[trigger] decimal(n)[i]),
{
    lemma_decimal_digits(n);
}

fn digit_to_char(d: u64) -> (c: char)
    requires
        d < 10,
    ensures
        c == digit_char(d as nat),
{
    if d == 0 { '0' }
    else if d == 1 { '1' }
    else if d == 2 { '2' }
    else if d == 3 { '3' }
    else if d == 4 { '4' }
    else if d == 5 { '5' }
    else if d == 6 { '6' }
    else if d == 7 { '7' }
    else if d == 8 { '8' }
    else { '9' }
}

/// Decimal rendering of `n`.
pub fn u64_to_decimal(n: u64) -> (out: Vec<char>)
    ensures
        out@ == decimal(n as nat),
{
    let mut digits: Vec<char> = Vec::new();
    let mut rest: u64 = n;
    // Collect least-significant digits first, then reverse.
    while rest >= 10
        invariant
            rest <= n,
            decimal(n as nat) == decimal(rest as nat) + digits@.reverse(),
        decreases rest,
    {
        let c = digit_to_char(rest % 10);
        let ghost old_digits = digits@;
        let ghost old_rest = rest;
        digits.push(c);
        rest = rest / 10;
        assert(digits@.reverse() =~= seq![c] + old_digits.reverse());
        assert(decimal(old_rest as nat) == decimal(rest as nat).push(c));
        assert(decimal(rest as nat) + digits@.reverse() =~= decimal(rest as nat).push(c)
            + old_digits.reverse());
    }
    let c = digit_to_char(rest);
    let ghost old_digits = digits@;
    digits.push(c);
    assert(digits@.reverse() =~= seq![c] + old_digits.reverse());
    assert(decimal(n as nat) =~= digits@.reverse());
    let ghost rev = digits@;
    let mut out: Vec<char> = Vec::new();
    let mut i: usize = digits.len();
    while i > 0
        invariant
            i <= digits.len(),
            digits@ == rev,
            out@ =~= rev.subrange(i as int, rev.len() as int).reverse(),
        decreases i,
    {
        i = i - 1;
        out.push(digits[i]);
        assert(rev.subrange(i as int, rev.len() as int).reverse() =~= rev.subrange(
            (i + 1) as int,
            rev.len() as int,
        ).reverse().push(rev[i as int]));
    }
    assert(rev.subrange(0, rev.len() as int) =~= rev);
    out
}


proof fn lemma_digits_value_take_step(s: Seq<char>, i: int)
    requires
        0 <= i < s.len(),
    ensures
        digits_value(s.take(i + 1)) == digits_value(s.take(i)) * 10 + digit_value(s[i]),
{
    assert(s.take(i + 1).drop_last() =~= s.take(i));
}

proof fn lemma_digits_value_monotone(s: Seq<char>, i: int, j: int)
    requires
        0 <= i <= j <= s.len(),
    ensures
        digits_value(s.take(i)) <= digits_value(s.take(j)),
    decreases j - i,
{
    if i < j {
        lemma_digits_value_monotone(s, i, j - 1);
        lemma_digits_value_take_step(s, j - 1);
    }
}

/// Value of the decimal digits `body[start..]`, or `None` once it exceeds `max`.
fn digits_to_u64(body: &[char], start: usize, max: u64) -> (out: Option<u64>)
    requires
        start <= body@.len(),
    ensures
        ({
            let b = body@.skip(start as int);
            match out {
                Some(v) => all_digits(b) && digits_value(b) <= max && v == digits_value(b),
                None => !all_digits(b) || digits_value(b) > max,
            }
        }),
{
    let ghost b = body@.skip(start as int);
    let mut acc: u64 = 0;
    let mut i: usize = start;
    assert(b.take(0) =~= Seq::<char>::empty());
    while i < body.len()
        invariant
            start <= i <= body@.len(),
            b == body@.skip(start as int),
            all_digits(b.take(i - start)),
            acc as nat == digits_value(b.take(i - start)),
            acc <= max,
        decreases body@.len() - i,
    {
        let c = body[i];
        if !('0' <= c && c <= '9') {
            assert(b[i - start] == c);
            return None;
        }
        let d: u64 = (c as u32 - '0' as u32) as u64;
        proof {
            lemma_digits_value_take_step(b, (i - start) as int);
            assert(b[i - start] == c);
        }
        if d > max || acc > (max - d) / 10 {
            proof {
                if d <= max {
                    assert(acc * 10 + d > max) by (nonlinear_arith)
                        requires
                            acc > (max - d) / 10,
                            d <= max,
                    ;
                }
                lemma_digits_value_monotone(b, (i - start + 1) as int, b.len() as int);
                assert(b.take(b.len() as int) =~= b);
            }
            return None;
        }
        assert(acc * 10 + d <= max) by (nonlinear_arith)
            requires
                acc <= (max - d) / 10,
                d <= max,
        ;
        acc = acc * 10 + d;
        i = i + 1;
        assert forall|k: int| 0 <= k < b.take(i - start).len() implies is_digit(
            #[trigger] b.take(i - start)[k],
        ) by {
            if k < i - start - 1 {
                assert(b.take(i - start)[k] == b.take(i - start - 1)[k]);
            }
        }
    }
    assert(b.take(i - start) =~= b);
    Some(acc)
}

/// `str::parse` for an unsigned integer type whose largest value is `max`.
pub fn parse_unsigned_chars(s: &[char], max: u64) -> (out: Option<u64>)
    ensures
        match parse_unsigned(s@, max as nat) {
            Some(v) => out == Some(v as u64),
            None => out is None,
        },
{
    let start: usize = if s.len() > 1 && s[0] == '+' { 1 } else { 0 };
    assert(s@.skip(start as int) =~= unsigned_body(s@));
    if start >= s.len() {
        return None;
    }
    digits_to_u64(s, start, max)
}

/// `str::parse::<i64>`.
pub fn parse_i64_chars(s: &[char]) -> (out: Option<i64>)
    ensures
        match parse_i64_spec(s@) {
            Some(v) => out == Some(v as i64),
            None => out is None,
        },
{
    if s.len() > 1 && s[0] == '-' {
        assert(s@.skip(1) =~= s@.drop_first());
        match digits_to_u64(s, 1, 0x8000_0000_0000_0000) {
            Some(v) => {
                if v == 0x8000_0000_0000_0000 {
                    Some(-0x8000_0000_0000_0000i64)
                } else {
                    Some(-(v as i64))
                }
            },
            None => None,
        }
    } else {
        match parse_unsigned_chars(s, 0x7fff_ffff_ffff_ffff) {
            Some(v) => Some(v as i64),
            None => None,
        }
    }
}

/// Decimal rendering of a signed integer.
pub fn i64_to_decimal(n: i64) -> (out: Vec<char>)
    ensures
        out@ == signed_decimal(n as int),
{
    if n < 0 {
        let magnitude: u64 = if n == i64::MIN { 0x8000_0000_0000_0000u64 } else { (-n) as u64 };
        let digits = u64_to_decimal(magnitude);
        let mut out: Vec<char> = Vec::new();
        out.push('-');
        let mut i: usize = 0;
        while i < digits.len()
            invariant
                i <= digits@.len(),
                out@ =~= seq!['-'] + digits@.take(i as int),
            decreases digits@.len() - i,
        {
            out.push(digits[i]);
            i = i + 1;
            assert(digits@.take(i as int) =~= digits@.take(i - 1).push(digits@[i - 1]));
        }
        assert(digits@.take(i as int) =~= digits@);
        out
    } else {
        u64_to_decimal(n as u64)
    }
}

/// The characters of `s`, in order.
pub fn chars_of(s: &str) -> (out: Vec<char>)
    ensures
        out@ == s@,
{
    let mut out: Vec<char> = Vec::new();
    for c in it: s.chars()
        invariant
            out@ == it.seq().take(it.index() as int),
    {
        assert(it.seq().take(it.index() + 1) =~= it.seq().take(it.index() as int).push(c));
        out.push(c);
    }
    assert(out@ =~= s@);
    out
}


/// Collects characters into a `String` (`String: FromIterator<char>`), which holds exactly
/// those characters in order.
#[verifier::external_body]
pub(crate) fn string_of(chars: &[char]) -> (out: String)
    ensures
        out@ == chars@,
{
    chars.iter().collect()
}

/// Whether a run of leading digits of `b` already exceeds `max`: reading left to right,
/// the value passes `max` before any character that is not a digit.
pub open spec fn leading_digits_exceed(b: Seq<char>, max: nat) -> bool {
    exists|k: int| 0 < k <= b.len() && all_digits(#[trigger] b.take(k)) && digits_value(b.take(k)) > max
}

/// The message of the error `from_str` gives for an unsigned integer type whose largest
/// value is `max`, by the first fault met reading left to right: empty text; a value
/// grown past `max`; otherwise a character that is not a digit (a lone `+` or a `-`
/// among them).
pub open spec fn unsigned_parse_error(s: Seq<char>, max: nat) -> Seq<char> {
    if s.len() == 0 {
        "cannot parse integer from empty string"@
    } else if leading_digits_exceed(unsigned_body(s), max) {
        "number too large to fit in target type"@
    } else {
        "invalid digit found in string"@
    }
}

/// The message for text that does not parse as an unsigned integer of largest value `max`.
fn unsigned_parse_message(s: &[char], max: u64) -> (out: String)
    requires
        9 <= max,
    ensures
        out@ == unsigned_parse_error(s@, max as nat),
{
    proof {
        reveal_strlit("cannot parse integer from empty string");
        reveal_strlit("number too large to fit in target type");
        reveal_strlit("invalid digit found in string");
    }
    if s.len() == 0 {
        return string_of(&chars_of("cannot parse integer from empty string"));
    }
    let start: usize = if s.len() > 1 && s[0] == '+' { 1 } else { 0 };
    let ghost b = s@.skip(start as int);
    assert(b =~= unsigned_body(s@));
    let mut acc: u64 = 0;
    let mut i: usize = start;
    assert(b.take(0) =~= Seq::<char>::empty());
    while i < s.len() && '0' <= s[i] && s[i] <= '9'
        invariant
            start <= i <= s@.len(),
            b == s@.skip(start as int),
            b == unsigned_body(s@),
            s@.len() > 0,
            9 <= max,
            all_digits(b.take(i - start)),
            acc as nat == digits_value(b.take(i - start)),
            forall|k: int| 0 < k <= i - start ==> digits_value(#[trigger] b.take(k)) <= max,
        decreases s@.len() - i,
    {
        let c = s[i];
        let d: u64 = (c as u32 - '0' as u32) as u64;
        proof {
            lemma_digits_value_take_step(b, (i - start) as int);
            assert(b[i - start] == c);
            assert forall|m: int| 0 <= m < b.take(i - start + 1).len() implies is_digit(
                #[trigger] b.take(i - start + 1)[m],
            ) by {
                if m < i - start {
                    assert(b.take(i - start + 1)[m] == b.take(i - start)[m]);
                }
            }
        }
        if acc > (max - d) / 10 {
            proof {
                assert(acc * 10 + d > max) by (nonlinear_arith)
                    requires
                        acc > (max - d) / 10,
                        d <= max,
                ;
                let k: int = i - start + 1;
                assert(0 < k <= b.len());
                assert(all_digits(b.take(k)));
                assert(digits_value(b.take(k)) == acc * 10 + d);
                assert(leading_digits_exceed(b, max as nat));
                assert(b == unsigned_body(s@));
            }
            return string_of(&chars_of("number too large to fit in target type"));
        }
        assert(acc * 10 + d <= max) by (nonlinear_arith)
            requires
                acc <= (max - d) / 10,
                d <= max,
        ;
        acc = acc * 10 + d;
        i = i + 1;
    }
    proof {
        assert forall|k: int| 0 < k <= b.len() && all_digits(#[trigger] b.take(k)) implies digits_value(b.take(k)) <= max by {
            if k > i - start {
                assert(i < s@.len());
                assert(b.take(k)[i - start] == s@[i as int]);
                assert(!is_digit(s@[i as int]));
            }
        }
    }
    string_of(&chars_of("invalid digit found in string"))
}

/// `u32::from_str`: an optional `+` followed by decimal digits whose value fits in a
/// `u32` gives that value; any other text gives the error's message.
pub(crate) fn parse_u32(s: &str) -> (out: Result<u32, String>)
    ensures
        match parse_unsigned(s@, u32::MAX as nat) {
            Some(v) => out == Ok::<u32, String>(v as u32),
            None => out matches Err(m) && m@ == unsigned_parse_error(s@, u32::MAX as nat),
        },
{
    let chars = chars_of(s);
    match parse_unsigned_chars(&chars, 0xffff_ffff) {
        Some(v) => Ok(v as u32),
        None => Err(unsigned_parse_message(&chars, 0xffff_ffff)),
    }
}

/// `u16::from_str`: an optional `+` followed by decimal digits whose value fits in a
/// `u16` gives that value; any other text gives the error's message.
pub(crate) fn parse_u16(s: &str) -> (out: Result<u16, String>)
    ensures
        match parse_unsigned(s@, u16::MAX as nat) {
            Some(v) => out == Ok::<u16, String>(v as u16),
            None => out matches Err(m) && m@ == unsigned_parse_error(s@, u16::MAX as nat),
        },
{
    let chars = chars_of(s);
    match parse_unsigned_chars(&chars, 0xffff) {
        Some(v) => Ok(v as u16),
        None => Err(unsigned_parse_message(&chars, 0xffff)),
    }
}

/// Unicode lower-case mapping of a string, as `str::to_lowercase` computes it.
pub uninterp spec fn lowercase(s: Seq<char>) -> Seq<char>;

/// Unicode upper-case mapping of a string, as `str::to_uppercase` computes it.
pub uninterp spec fn uppercase(s: Seq<char>) -> Seq<char>;

/// `str::to_lowercase`: the result is the Unicode lower-case mapping of `s`.
#[verifier::external_body]
pub(crate) fn to_lowercase(s: &str) -> (out: String)
    ensures
        out@ == lowercase(s@),
{
    s.to_lowercase()
}

/// `str::to_uppercase`: the result is the Unicode upper-case mapping of `s`.
#[verifier::external_body]
pub(crate) fn to_uppercase(s: &str) -> (out: String)
    ensures
        out@ == uppercase(s@),
{
    s.to_uppercase()
}

/// Lower-case mapping of a character sequence.
pub fn lowercase_chars(s: &[char]) -> (out: Vec<char>)
    ensures
        out@ == lowercase(s@),
{
    let owned = string_of(s);
    let lowered = to_lowercase(owned.as_str());
    chars_of(lowered.as_str())
}

/// Upper-case mapping of a character sequence.
pub fn uppercase_chars(s: &[char]) -> (out: Vec<char>)
    ensures
        out@ == uppercase(s@),
{
    let owned = string_of(s);
    let raised = to_uppercase(owned.as_str());
    chars_of(raised.as_str())
}

/// Characters with the Unicode `White_Space` property, which is what `char::is_whitespace`
/// tests and what `str::trim` and `str::split_whitespace` split on.
pub open spec fn is_whitespace(c: char) -> bool {
    ||| ('\u{9}' <= c && c <= '\u{d}')
    ||| c == ' '
    ||| c == '\u{85}'
    ||| c == '\u{a0}'
    ||| c == '\u{1680}'
    ||| ('\u{2000}' <= c && c <= '\u{200a}')
    ||| c == '\u{2028}'
    ||| c == '\u{2029}'
    ||| c == '\u{202f}'
    ||| c == '\u{205f}'
    ||| c == '\u{3000}'
}

/// Whether `c` is Unicode white space.
pub fn char_is_whitespace(c: char) -> (b: bool)
    ensures
        b == is_whitespace(c),
{
    ('\u{9}' <= c && c <= '\u{d}') || c == ' ' || c == '\u{85}' || c == '\u{a0}'
        || c == '\u{1680}' || ('\u{2000}' <= c && c <= '\u{200a}') || c == '\u{2028}'
        || c == '\u{2029}' || c == '\u{202f}' || c == '\u{205f}' || c == '\u{3000}'
}

/// `s` with leading white space removed.
pub open spec fn trim_start(s: Seq<char>) -> Seq<char>
    decreases s.len(),
{
    if s.len() > 0 && is_whitespace(s[0]) {
        trim_start(s.drop_first())
    } else {
        s
    }
}

/// `s` with trailing white space removed.
pub open spec fn trim_end(s: Seq<char>) -> Seq<char>
    decreases s.len(),
{
    if s.len() > 0 && is_whitespace(s.last()) {
        trim_end(s.drop_last())
    } else {
        s
    }
}

/// `s` with white space removed from both ends, as `str::trim` gives.
pub open spec fn trim(s: Seq<char>) -> Seq<char> {
    trim_start(trim_end(s))
}

proof fn lemma_trim_start_skip(s: Seq<char>, i: int)
    requires
        0 <= i <= s.len(),
        forall|k: int| 0 <= k < i ==> is_whitespace(#[trigger] s[k]),
    ensures
        trim_start(s) == trim_start(s.skip(i)),
    decreases i,
{
    if i > 0 {
        assert(is_whitespace(s[0]));
        assert(s.skip(1) =~= s.drop_first());
        assert forall|k: int| 0 <= k < i - 1 implies is_whitespace(#[trigger] s.skip(1)[k]) by {
            assert(s.skip(1)[k] == s[k + 1]);
        }
        lemma_trim_start_skip(s.skip(1), i - 1);
        assert(s.skip(1).skip(i - 1) =~= s.skip(i));
        assert(trim_start(s) == trim_start(s.drop_first()));
    } else {
        assert(s.skip(0) =~= s);
    }
}

proof fn lemma_trim_end_take(s: Seq<char>, j: int)
    requires
        0 <= j <= s.len(),
        forall|k: int| j <= k < s.len() ==> is_whitespace(#[trigger] s[k]),
    ensures
        trim_end(s) == trim_end(s.take(j)),
    decreases s.len() - j,
{
    if j < s.len() {
        assert(s.drop_last() =~= s.take(s.len() - 1));
        lemma_trim_end_take(s.drop_last(), j);
        assert(s.drop_last().take(j) =~= s.take(j));
    } else {
        assert(s.take(j) =~= s);
    }
}

/// `s` with white space removed from both ends.
pub fn trim_chars(s: &[char]) -> (out: Vec<char>)
    ensures
        out@ == trim(s@),
{
    let mut end: usize = s.len();
    while end > 0 && char_is_whitespace(s[end - 1])
        invariant
            end <= s@.len(),
            forall|k: int| end <= k < s@.len() ==> is_whitespace(#[trigger] s@[k]),
        decreases end,
    {
        end = end - 1;
    }
    proof {
        lemma_trim_end_take(s@, end as int);
        if end > 0 {
            assert(s@.take(end as int).last() == s@[end - 1]);
        }
        assert(trim_end(s@.take(end as int)) == s@.take(end as int));
    }
    let ghost t = s@.take(end as int);
    let mut start: usize = 0;
    while start < end && char_is_whitespace(s[start])
        invariant
            start <= end <= s@.len(),
            t == s@.take(end as int),
            forall|k: int| 0 <= k < start ==> is_whitespace(#[trigger] t[k]),
        decreases end - start,
    {
        start = start + 1;
    }
    proof {
        lemma_trim_start_skip(t, start as int);
        if start < end {
            assert(t.skip(start as int)[0] == s@[start as int]);
        }
        assert(trim_start(t.skip(start as int)) == t.skip(start as int));
    }
    let mut out: Vec<char> = Vec::new();
    let mut i: usize = start;
    while i < end
        invariant
            start <= i <= end <= s@.len(),
            out@ =~= s@.subrange(start as int, i as int),
        decreases end - i,
    {
        out.push(s[i]);
        i = i + 1;
    }
    assert(out@ =~= t.skip(start as int));
    out
}

/// `s` with every trailing `c` removed (`str::trim_end_matches` with a character).
pub open spec fn strip_end(s: Seq<char>, c: char) -> Seq<char>
    decreases s.len(),
{
    if s.len() > 0 && s.last() == c {
        strip_end(s.drop_last(), c)
    } else {
        s
    }
}

/// Whether `c` is a curly brace.
pub open spec fn is_brace(c: char) -> bool {
    c == '{' || c == '}'
}

/// `s` with leading braces removed.
pub open spec fn strip_braces_start(s: Seq<char>) -> Seq<char>
    decreases s.len(),
{
    if s.len() > 0 && is_brace(s[0]) {
        strip_braces_start(s.drop_first())
    } else {
        s
    }
}

/// `s` with trailing braces removed.
pub open spec fn strip_braces_end(s: Seq<char>) -> Seq<char>
    decreases s.len(),
{
    if s.len() > 0 && is_brace(s.last()) {
        strip_braces_end(s.drop_last())
    } else {
        s
    }
}

/// `s` with braces removed from both ends (`str::trim_matches` with `{` and `}`).
pub open spec fn strip_braces(s: Seq<char>) -> Seq<char> {
    strip_braces_start(strip_braces_end(s))
}

proof fn lemma_strip_end_take(s: Seq<char>, c: char, j: int)
    requires
        0 <= j <= s.len(),
        forall|k: int| j <= k < s.len() ==> #[trigger] s[k] == c,
    ensures
        strip_end(s, c) == strip_end(s.take(j), c),
    decreases s.len() - j,
{
    if j < s.len() {
        assert(s.drop_last() =~= s.take(s.len() - 1));
        lemma_strip_end_take(s.drop_last(), c, j);
        assert(s.drop_last().take(j) =~= s.take(j));
    } else {
        assert(s.take(j) =~= s);
    }
}

proof fn lemma_braces_end_take(s: Seq<char>, j: int)
    requires
        0 <= j <= s.len(),
        forall|k: int| j <= k < s.len() ==> is_brace(#[trigger] s[k]),
    ensures
        strip_braces_end(s) == strip_braces_end(s.take(j)),
    decreases s.len() - j,
{
    if j < s.len() {
        assert(s.drop_last() =~= s.take(s.len() - 1));
        lemma_braces_end_take(s.drop_last(), j);
        assert(s.drop_last().take(j) =~= s.take(j));
    } else {
        assert(s.take(j) =~= s);
    }
}

proof fn lemma_braces_start_skip(s: Seq<char>, i: int)
    requires
        0 <= i <= s.len(),
        forall|k: int| 0 <= k < i ==> is_brace(#[trigger] s[k]),
    ensures
        strip_braces_start(s) == strip_braces_start(s.skip(i)),
    decreases i,
{
    if i > 0 {
        assert(is_brace(s[0]));
        assert(s.skip(1) =~= s.drop_first());
        assert forall|k: int| 0 <= k < i - 1 implies is_brace(#[trigger] s.skip(1)[k]) by {
            assert(s.skip(1)[k] == s[k + 1]);
        }
        lemma_braces_start_skip(s.skip(1), i - 1);
        assert(s.skip(1).skip(i - 1) =~= s.skip(i));
    } else {
        assert(s.skip(0) =~= s);
    }
}

/// `s` without its trailing run of `c`.
pub fn strip_end_chars(s: &[char], c: char) -> (out: Vec<char>)
    ensures
        out@ == strip_end(s@, c),
{
    let mut end: usize = s.len();
    while end > 0 && s[end - 1] == c
        invariant
            end <= s@.len(),
            forall|k: int| end <= k < s@.len() ==> #[trigger] s@[k] == c,
        decreases end,
    {
        end = end - 1;
    }
    proof {
        lemma_strip_end_take(s@, c, end as int);
        if end > 0 {
            assert(s@.take(end as int).last() == s@[end - 1]);
        }
    }
    let mut out: Vec<char> = Vec::new();
    let mut i: usize = 0;
    while i < end
        invariant
            i <= end <= s@.len(),
            out@ =~= s@.take(i as int),
        decreases end - i,
    {
        out.push(s[i]);
        i = i + 1;
    }
    out
}

/// `s` without the braces at either end.
pub fn strip_braces_chars(s: &[char]) -> (out: Vec<char>)
    ensures
        out@ == strip_braces(s@),
{
    let mut end: usize = s.len();
    while end > 0 && (s[end - 1] == '{' || s[end - 1] == '}')
        invariant
            end <= s@.len(),
            forall|k: int| end <= k < s@.len() ==> is_brace(#[trigger] s@[k]),
        decreases end,
    {
        end = end - 1;
    }
    proof {
        lemma_braces_end_take(s@, end as int);
        if end > 0 {
            assert(s@.take(end as int).last() == s@[end - 1]);
        }
        assert(strip_braces_end(s@.take(end as int)) == s@.take(end as int));
    }
    let ghost t = s@.take(end as int);
    let mut start: usize = 0;
    while start < end && (s[start] == '{' || s[start] == '}')
        invariant
            start <= end <= s@.len(),
            t == s@.take(end as int),
            forall|k: int| 0 <= k < start ==> is_brace(#[trigger] t[k]),
        decreases end - start,
    {
        start = start + 1;
    }
    proof {
        lemma_braces_start_skip(t, start as int);
        if start < end {
            assert(t.skip(start as int)[0] == s@[start as int]);
        }
        assert(strip_braces_start(t.skip(start as int)) == t.skip(start as int));
    }
    let mut out: Vec<char> = Vec::new();
    let mut i: usize = start;
    while i < end
        invariant
            start <= i <= end <= s@.len(),
            out@ =~= s@.subrange(start as int, i as int),
        decreases end - i,
    {
        out.push(s[i]);
        i = i + 1;
    }
    assert(out@ =~= t.skip(start as int));
    out
}

/// The white-space separated words of `s` after the partial word `cur`, as
/// `str::split_whitespace` yields them.
pub open spec fn split_words(s: Seq<char>, cur: Seq<char>) -> Seq<Seq<char>>
    decreases s.len(),
{
    if s.len() == 0 {
        if cur.len() > 0 { seq![cur] } else { seq![] }
    } else if is_whitespace(s[0]) {
        (if cur.len() > 0 { seq![cur] } else { seq![] }) + split_words(s.drop_first(), seq![])
    } else {
        split_words(s.drop_first(), cur.push(s[0]))
    }
}

/// The white-space separated words of `s`.
pub open spec fn words(s: Seq<char>) -> Seq<Seq<char>> {
    split_words(s, seq![])
}

/// The character sequences of a list of character vectors.
pub open spec fn char_views(ws: Seq<Vec<char>>) -> Seq<Seq<char>> {
    ws.map_values(|w: Vec<char>| w@)
}

/// The views of a list of strings.
pub open spec fn string_views(s: Seq<String>) -> Seq<Seq<char>> {
    s.map_values(|x: String| x@)
}

/// `str::split_whitespace`, collected.
pub fn split_whitespace_chars(s: &[char]) -> (out: Vec<Vec<char>>)
    ensures
        char_views(out@) == words(s@),
{
    let mut out: Vec<Vec<char>> = Vec::new();
    let mut cur: Vec<char> = Vec::new();
    let mut i: usize = 0;
    proof {
        assert(s@.skip(0) =~= s@);
        assert(char_views(out@) =~= Seq::<Seq<char>>::empty());
        assert(cur@ =~= Seq::<char>::empty());
        assert(char_views(out@) + split_words(s@, cur@) =~= words(s@));
    }
    while i < s.len()
        invariant
            i <= s@.len(),
            char_views(out@) + split_words(s@.skip(i as int), cur@) == words(s@),
        decreases s@.len() - i,
    {
        let ghost rest = s@.skip(i as int);
        proof {
            assert(rest.drop_first() =~= s@.skip(i + 1));
            assert(rest[0] == s@[i as int]);
        }
        if char_is_whitespace(s[i]) {
            if cur.len() > 0 {
                let ghost before = char_views(out@);
                let w = cur;
                out.push(w);
                cur = Vec::new();
                proof {
                    assert(char_views(out@) =~= before.push(w@));
                    assert(before + (seq![w@] + split_words(s@.skip(i + 1), seq![])) =~= before.push(w@) + split_words(s@.skip(i + 1), seq![]));
                    assert(cur@ =~= Seq::<char>::empty());
                }
            } else {
                proof {
                    assert(seq![] + split_words(s@.skip(i + 1), seq![]) =~= split_words(s@.skip(i + 1), seq![]));
                    assert(cur@ =~= Seq::<char>::empty());
                }
            }
        } else {
            cur.push(s[i]);
        }
        i = i + 1;
    }
    proof {
        assert(s@.skip(i as int) =~= Seq::<char>::empty());
    }
    if cur.len() > 0 {
        let ghost before = char_views(out@);
        let w = cur;
        out.push(w);
        proof {
            assert(char_views(out@) =~= before.push(w@));
            assert(before + seq![w@] =~= before.push(w@));
        }
    } else {
        proof {
            assert(char_views(out@) + seq![] =~= char_views(out@));
        }
    }
    out
}

/// The words of `ws` joined by single spaces.
pub open spec fn join_spaced(ws: Seq<Seq<char>>) -> Seq<char>
    decreases ws.len(),
{
    if ws.len() == 0 {
        seq![]
    } else if ws.len() == 1 {
        ws[0]
    } else {
        join_spaced(ws.drop_last()) + seq![' '] + ws.last()
    }
}

/// `s` with every `+` replaced by a space.
pub open spec fn plus_to_space(s: Seq<char>) -> Seq<char> {
    s.map_values(|c: char| if c == '+' { ' ' } else { c })
}

/// `cur` without one trailing carriage return.
pub open spec fn strip_cr(cur: Seq<char>) -> Seq<char> {
    if cur.len() > 0 && cur.last() == '\r' { cur.drop_last() } else { cur }
}

/// The lines of `s` after the partial line `cur`, as `str::lines` yields them: split at
/// `\n`, a `\r` before the `\n` dropped, and no empty line after a final `\n`.
pub open spec fn split_lines(s: Seq<char>, cur: Seq<char>) -> Seq<Seq<char>>
    decreases s.len(),
{
    if s.len() == 0 {
        if cur.len() > 0 { seq![cur] } else { seq![] }
    } else if s[0] == '\n' {
        seq![strip_cr(cur)] + split_lines(s.drop_first(), seq![])
    } else {
        split_lines(s.drop_first(), cur.push(s[0]))
    }
}

/// The lines of `s`.
pub open spec fn text_lines(s: Seq<char>) -> Seq<Seq<char>> {
    split_lines(s, seq![])
}

/// `str::lines`, collected.
pub fn lines_chars(s: &[char]) -> (out: Vec<Vec<char>>)
    ensures
        char_views(out@) == text_lines(s@),
{
    let mut out: Vec<Vec<char>> = Vec::new();
    let mut cur: Vec<char> = Vec::new();
    let mut i: usize = 0;
    proof {
        assert(s@.skip(0) =~= s@);
        assert(char_views(out@) + split_lines(s@, cur@) =~= text_lines(s@));
    }
    while i < s.len()
        invariant
            i <= s@.len(),
            char_views(out@) + split_lines(s@.skip(i as int), cur@) == text_lines(s@),
        decreases s@.len() - i,
    {
        let ghost rest = s@.skip(i as int);
        proof {
            assert(rest.drop_first() =~= s@.skip(i + 1));
            assert(rest[0] == s@[i as int]);
        }
        if s[i] == '\n' {
            let ghost before = char_views(out@);
            let mut line = cur;
            if line.len() > 0 && line[line.len() - 1] == '\r' {
                line.pop();
            }
            proof {
                assert(line@ =~= strip_cr(cur@));
            }
            let ghost lv = line@;
            out.push(line);
            cur = Vec::new();
            proof {
                assert(char_views(out@) =~= before.push(lv));
                assert(before + (seq![lv] + split_lines(s@.skip(i + 1), seq![])) =~= before.push(lv)
                    + split_lines(s@.skip(i + 1), seq![]));
                assert(cur@ =~= Seq::<char>::empty());
            }
        } else {
            cur.push(s[i]);
        }
        i = i + 1;
    }
    proof {
        assert(s@.skip(i as int) =~= Seq::<char>::empty());
    }
    if cur.len() > 0 {
        let ghost before = char_views(out@);
        let w = cur;
        out.push(w);
        proof {
            assert(char_views(out@) =~= before.push(w@));
            assert(before + seq![w@] =~= before.push(w@));
        }
    } else {
        proof {
            assert(char_views(out@) + seq![] =~= char_views(out@));
        }
    }
    out
}

/// `s` preceded by spaces up to `width` characters (`{:>width}`).
pub open spec fn pad_left(s: Seq<char>, width: int) -> Seq<char> {
    if s.len() < width { Seq::new((width - s.len()) as nat, |i: int| ' ') + s } else { s }
}

/// `s` followed by spaces up to `width` characters (`{:<width}`).
pub open spec fn pad_right(s: Seq<char>, width: int) -> Seq<char> {
    if s.len() < width { s + Seq::new((width - s.len()) as nat, |i: int| ' ') } else { s }
}

/// `s` right-aligned in `width` characters.
pub fn pad_left_chars(s: &[char], width: usize) -> (out: Vec<char>)
    ensures
        out@ == pad_left(s@, width as int),
{
    let mut out: Vec<char> = Vec::new();
    let mut k: usize = s.len();
    while k < width
        invariant
            s@.len() <= k <= width || (k == s@.len() && k >= width),
            out@ =~= Seq::new((k - s@.len()) as nat, |i: int| ' '),
        decreases width - k,
    {
        out.push(' ');
        k = k + 1;
    }
    append_chars(&mut out, s);
    out
}

/// `s` left-aligned in `width` characters.
pub fn pad_right_chars(s: &[char], width: usize) -> (out: Vec<char>)
    ensures
        out@ == pad_right(s@, width as int),
{
    let mut out: Vec<char> = Vec::new();
    append_chars(&mut out, s);
    let mut k: usize = s.len();
    while k < width
        invariant
            s@.len() <= k <= width || (k == s@.len() && k >= width),
            out@ =~= s@ + Seq::new((k - s@.len()) as nat, |i: int| ' '),
        decreases width - k,
    {
        out.push(' ');
        k = k + 1;
    }
    out
}

/// The parts joined with `sep` between neighbours (`[..].join(sep)`).
pub open spec fn join_with(parts: Seq<Seq<char>>, sep: Seq<char>) -> Seq<char>
    decreases parts.len(),
{
    if parts.len() == 0 {
        seq![]
    } else if parts.len() == 1 {
        parts[0]
    } else {
        join_with(parts.drop_last(), sep) + sep + parts.last()
    }
}

/// The parts joined with `sep` between neighbours.
pub fn join_chars(parts: &Vec<Vec<char>>, sep: &[char]) -> (out: Vec<char>)
    ensures
        out@ == join_with(char_views(parts@), sep@),
{
    let ghost all = char_views(parts@);
    let mut out: Vec<char> = Vec::new();
    let mut k: usize = 0;
    while k < parts.len()
        invariant
            k <= parts@.len(),
            all == char_views(parts@),
            out@ == join_with(all.take(k as int), sep@),
        decreases parts@.len() - k,
    {
        let ghost before = out@;
        proof {
            assert(all.take(k + 1).drop_last() =~= all.take(k as int));
            assert(all.take(k + 1).last() == parts@[k as int]@);
        }
        if k > 0 {
            append_chars(&mut out, sep);
        }
        append_chars(&mut out, &parts[k]);
        proof {
            if k == 0 {
                assert(all.take(1).len() == 1);
                assert(out@ =~= parts@[0]@);
            }
        }
        k = k + 1;
    }
    proof {
        assert(all.take(k as int) =~= all);
    }
    out
}

/// `x` millionths of a point rounded to tenths, halves away from zero: what
/// `(points * 10.0).round() / 10.0` keeps of `points = x / 1_000_000`.
pub open spec fn tenths_of_millionths(x: int) -> int {
    if x >= 0 {
        (x + 50000) / 100000
    } else {
        -((-x + 50000) / 100000)
    }
}

/// Round millionths of a point to tenths, halves away from zero.
pub fn round_to_tenths(x: i128) -> (out: i128)
    requires
        -0x1000_0000_0000_0000_0000_0000_0000_0000 < x < 0x1000_0000_0000_0000_0000_0000_0000_0000,
    ensures
        out == tenths_of_millionths(x as int),
        x >= 0 ==> 0 <= out <= x / 100000 + 1,
        x < 0 ==> x / 100000 - 1 <= out <= 0,
{
    if x >= 0 {
        (x + 50000) / 100000
    } else {
        -((-x + 50000) / 100000)
    }
}

/// Round millionths of a point (an `i64`) to tenths, halves away from zero.
pub fn round_i64_to_tenths(x: i64) -> (out: i64)
    ensures
        out == tenths_of_millionths(x as int),
{
    round_to_tenths(x as i128) as i64
}

/// A fixed-point tenths value written with one decimal place (`{:.1}` of `v / 10`).
pub open spec fn tenths_text(v: int) -> Seq<char> {
    let a = if v < 0 { -v } else { v };
    (if v < 0 { seq!['-'] } else { seq![] }) + decimal((a / 10) as nat) + seq!['.', digit_char((a % 10) as nat)]
}

/// `v` tenths written with one decimal place.
pub fn tenths_chars(v: i64) -> (out: Vec<char>)
    ensures
        out@ == tenths_text(v as int),
{
    let a: u64 = if v < 0 {
        if v == i64::MIN { 0x8000_0000_0000_0000u64 } else { (-v) as u64 }
    } else {
        v as u64
    };
    let mut out: Vec<char> = Vec::new();
    if v < 0 {
        out.push('-');
    }
    let whole = u64_to_decimal(a / 10);
    append_chars(&mut out, &whole);
    out.push('.');
    let d = (a % 10) as u8;
    let c = digit_of(d);
    out.push(c);
    proof {
        assert(out@ =~= tenths_text(v as int));
    }
    out
}

fn digit_of(d: u8) -> (c: char)
    requires
        d < 10,
    ensures
        c == digit_char(d as nat),
{
    if d == 0 { '0' } else if d == 1 { '1' } else if d == 2 { '2' } else if d == 3 { '3' }
    else if d == 4 { '4' } else if d == 5 { '5' } else if d == 6 { '6' } else if d == 7 { '7' }
    else if d == 8 { '8' } else { '9' }
}

/// Decimal rendering of a 128-bit `n`.
pub fn u128_to_decimal(n: u128) -> (out: Vec<char>)
    ensures
        out@ == decimal(n as nat),
{
    let mut digits: Vec<char> = Vec::new();
    let mut rest: u128 = n;
    // Collect least-significant digits first, then reverse.
    while rest >= 10
        invariant
            rest <= n,
            decimal(n as nat) == decimal(rest as nat) + digits@.reverse(),
        decreases rest,
    {
        let c = digit_to_char((rest % 10) as u64);
        let ghost old_digits = digits@;
        let ghost old_rest = rest;
        digits.push(c);
        rest = rest / 10;
        assert(digits@.reverse() =~= seq![c] + old_digits.reverse());
        assert(decimal(old_rest as nat) == decimal(rest as nat).push(c));
        assert(decimal(rest as nat) + digits@.reverse() =~= decimal(rest as nat).push(c)
            + old_digits.reverse());
    }
    let c = digit_to_char(rest as u64);
    let ghost old_digits = digits@;
    digits.push(c);
    assert(digits@.reverse() =~= seq![c] + old_digits.reverse());
    assert(decimal(n as nat) =~= digits@.reverse());
    let ghost rev = digits@;
    let mut out: Vec<char> = Vec::new();
    let mut i: usize = digits.len();
    while i > 0
        invariant
            i <= digits.len(),
            digits@ == rev,
            out@ =~= rev.subrange(i as int, rev.len() as int).reverse(),
        decreases i,
    {
        i = i - 1;
        out.push(digits[i]);
        assert(rev.subrange(i as int, rev.len() as int).reverse() =~= rev.subrange(
            (i + 1) as int,
            rev.len() as int,
        ).reverse().push(rev[i as int]));
    }
    assert(rev.subrange(0, rev.len() as int) =~= rev);
    out
}


/// A signed tenths value written with one decimal place (128-bit).
pub fn tenths_wide_chars(v: i128) -> (out: Vec<char>)
    ensures
        out@ == tenths_text(v as int),
{
    let a: u128 = if v < 0 {
        if v == i128::MIN { 0x8000_0000_0000_0000_0000_0000_0000_0000u128 } else { (-v) as u128 }
    } else {
        v as u128
    };
    let mut out: Vec<char> = Vec::new();
    if v < 0 {
        out.push('-');
    }
    let whole = u128_to_decimal(a / 10);
    append_chars(&mut out, &whole);
    out.push('.');
    let d = (a % 10) as u8;
    out.push(digit_of(d));
    proof {
        assert(out@ =~= tenths_text(v as int));
    }
    out
}

/// A tenths value rounded to a whole number, ties to even (as `{:.0}` rounds).
pub open spec fn rounded_whole(v: int) -> nat {
    let a = if v < 0 { -v } else { v };
    let q = a / 10;
    let r = a % 10;
    (if r > 5 || (r == 5 && q % 2 == 1) { q + 1 } else { q }) as nat
}

/// A tenths value written as a whole number (`{:.0}`).
pub open spec fn whole_text(v: int) -> Seq<char> {
    (if v < 0 { seq!['-'] } else { seq![] }) + decimal(rounded_whole(v))
}

/// A tenths value written as a signed whole number (`{:+.0}`).
pub open spec fn signed_whole_text(v: int) -> Seq<char> {
    (if v < 0 { seq!['-'] } else { seq!['+'] }) + decimal(rounded_whole(v))
}

fn rounded_whole_of(v: i128) -> (out: u128)
    ensures
        out == rounded_whole(v as int),
{
    let a: u128 = if v < 0 {
        if v == i128::MIN { 0x8000_0000_0000_0000_0000_0000_0000_0000u128 } else { (-v) as u128 }
    } else {
        v as u128
    };
    let q = a / 10;
    let r = a % 10;
    if r > 5 || (r == 5 && q % 2 == 1) { q + 1 } else { q }
}

/// `v` tenths written as a whole number.
pub fn whole_chars(v: i128) -> (out: Vec<char>)
    ensures
        out@ == whole_text(v as int),
{
    let mut out: Vec<char> = Vec::new();
    if v < 0 {
        out.push('-');
    }
    append_chars(&mut out, &u128_to_decimal(rounded_whole_of(v)));
    proof {
        assert(out@ =~= whole_text(v as int));
    }
    out
}

/// `v` tenths written as a signed whole number.
pub fn signed_whole_chars(v: i128) -> (out: Vec<char>)
    ensures
        out@ == signed_whole_text(v as int),
{
    let mut out: Vec<char> = Vec::new();
    if v < 0 {
        out.push('-');
    } else {
        out.push('+');
    }
    append_chars(&mut out, &u128_to_decimal(rounded_whole_of(v)));
    proof {
        assert(out@ =~= signed_whole_text(v as int));
    }
    out
}

/// The first `n` characters of `s` (all of them when it is shorter).
pub open spec fn first_chars(s: Seq<char>, n: int) -> Seq<char> {
    if s.len() <= n { s } else { s.take(n) }
}

/// At most the first `n` characters of `s`.
pub fn first_chars_of(s: &[char], n: usize) -> (out: Vec<char>)
    ensures
        out@ == first_chars(s@, n as int),
{
    let mut out: Vec<char> = Vec::new();
    let mut i: usize = 0;
    while i < s.len() && i < n
        invariant
            i <= s@.len(),
            i <= n,
            out@ =~= s@.take(i as int),
        decreases s@.len() - i,
    {
        out.push(s[i]);
        i = i + 1;
    }
    proof {
        if s@.len() <= n {
            assert(s@.take(i as int) =~= s@);
        }
    }
    out
}

/// `n` copies of `c`.
pub fn repeat_char(c: char, n: usize) -> (out: Vec<char>)
    ensures
        out@ == Seq::new(n as nat, |i: int| c),
{
    let mut out: Vec<char> = Vec::new();
    let mut i: usize = 0;
    while i < n
        invariant
            i <= n,
            out@ =~= Seq::new(i as nat, |k: int| c),
        decreases n - i,
    {
        out.push(c);
        i = i + 1;
    }
    out
}

/// Whether `needle` occurs in `hay` starting at `at`.
pub open spec fn occurs_at(hay: Seq<char>, needle: Seq<char>, at: int) -> bool {
    0 <= at && at + needle.len() <= hay.len() && hay.subrange(at, at + needle.len()) == needle
}

/// Whether `needle` occurs anywhere in `hay` (`str::contains` with a string pattern).
pub open spec fn contains_seq(hay: Seq<char>, needle: Seq<char>) -> bool {
    exists|at: int| occurs_at(hay, needle, at)
}

/// Whether `needle` occurs in `hay`.
pub fn contains_chars(hay: &[char], needle: &[char]) -> (b: bool)
    ensures
        b == contains_seq(hay@, needle@),
{
    let hay_len = hay.len();
    let mut at: usize = 0;
    while at <= hay_len && needle.len() <= hay_len - at
        invariant
            hay_len == hay@.len(),
            at <= hay@.len() + 1,
            forall|k: int| 0 <= k < at ==> !occurs_at(hay@, needle@, k),
        decreases hay@.len() + 1 - at,
    {
        let mut j: usize = 0;
        let mut same = true;
        while j < needle.len()
            invariant
                hay_len == hay@.len(),
                at + needle@.len() <= hay@.len(),
                j <= needle@.len(),
                same == (forall|k: int| 0 <= k < j ==> hay@[at + k] == needle@[k]),
            decreases needle@.len() - j,
        {
            assert(at + j < hay@.len());
            if hay[at + j] != needle[j] {
                same = false;
            }
            j = j + 1;
        }
        if same {
            assert(hay@.subrange(at as int, at + needle@.len()) =~= needle@);
            assert(occurs_at(hay@, needle@, at as int));
            return true;
        }
        assert(!occurs_at(hay@, needle@, at as int)) by {
            let k = choose|k: int| 0 <= k < needle@.len() && hay@[at + k] != needle@[k];
            if hay@.subrange(at as int, at + needle@.len()) == needle@ {
                assert(hay@.subrange(at as int, at + needle@.len())[k] == hay@[at + k]);
            }
        }
        at = at + 1;
    }
    assert forall|k: int| !occurs_at(hay@, needle@, k) by {
        if k >= at {
            assert(k + needle@.len() > hay@.len());
        }
    }
    false
}


/// Whether every character of `s` is ASCII.
pub open spec fn all_ascii(s: Seq<char>) -> bool {
    forall|i: int| 0 <= i < s.len() ==> (#[trigger] s[i] as u32) < 128
}

/// ASCII upper-case of one character; other characters are unchanged.
pub open spec fn ascii_upper_char(c: char) -> char {
    if 'a' <= c && c <= 'z' { ((c as u32) - 32) as char } else { c }
}

/// ASCII lower-case of one character; other characters are unchanged.
pub open spec fn ascii_lower_char(c: char) -> char {
    if 'A' <= c && c <= 'Z' { ((c as u32) + 32) as char } else { c }
}

/// Upper-case form of `s`: ASCII text is mapped letter by letter, anything else by the
/// Unicode mapping. (For ASCII text the two agree.)
pub open spec fn upper_key(s: Seq<char>) -> Seq<char> {
    if all_ascii(s) {
        s.map_values(|c: char| ascii_upper_char(c))
    } else {
        uppercase(s)
    }
}

/// `s` with ASCII letters lower-cased (`str::to_ascii_lowercase`).
pub open spec fn ascii_lower(s: Seq<char>) -> Seq<char> {
    s.map_values(|c: char| ascii_lower_char(c))
}

fn ascii_upper_of(c: char) -> (out: char)
    ensures
        out == ascii_upper_char(c),
{
    if 'a' <= c && c <= 'z' {
        let code: u8 = (c as u32 - 32) as u8;
        code as char
    } else {
        c
    }
}

fn ascii_lower_of(c: char) -> (out: char)
    ensures
        out == ascii_lower_char(c),
{
    if 'A' <= c && c <= 'Z' {
        let code: u8 = (c as u32 + 32) as u8;
        code as char
    } else {
        c
    }
}

/// `s` with ASCII letters lower-cased.
pub fn ascii_lowercase_chars(s: &[char]) -> (out: Vec<char>)
    ensures
        out@ == ascii_lower(s@),
{
    let mut out: Vec<char> = Vec::new();
    let mut i: usize = 0;
    while i < s.len()
        invariant
            i <= s@.len(),
            out@ =~= s@.take(i as int).map_values(|c: char| ascii_lower_char(c)),
        decreases s@.len() - i,
    {
        out.push(ascii_lower_of(s[i]));
        i = i + 1;
    }
    assert(s@.take(i as int) =~= s@);
    out
}

/// Upper-case form of `s` (see [`upper_key`]).
pub fn upper_key_chars(s: &[char]) -> (out: Vec<char>)
    ensures
        out@ == upper_key(s@),
{
    let mut ascii = true;
    let mut i: usize = 0;
    while i < s.len()
        invariant
            i <= s@.len(),
            ascii == (forall|k: int| 0 <= k < i ==> (#[trigger] s@[k] as u32) < 128),
        decreases s@.len() - i,
    {
        if (s[i] as u32) >= 128 {
            ascii = false;
        }
        i = i + 1;
    }
    if !ascii {
        return uppercase_chars(s);
    }
    let mut out: Vec<char> = Vec::new();
    let mut j: usize = 0;
    while j < s.len()
        invariant
            j <= s@.len(),
            out@ =~= s@.take(j as int).map_values(|c: char| ascii_upper_char(c)),
        decreases s@.len() - j,
    {
        out.push(ascii_upper_of(s[j]));
        j = j + 1;
    }
    assert(s@.take(j as int) =~= s@);
    out
}

/// Whether `a` and `b` hold the same characters.
pub fn chars_equal(a: &[char], b: &[char]) -> (eq: bool)
    ensures
        eq == (a@ == b@),
{
    if a.len() != b.len() {
        return false;
    }
    let mut i: usize = 0;
    while i < a.len()
        invariant
            a@.len() == b@.len(),
            i <= a@.len(),
            forall|k: int| 0 <= k < i ==> a@[k] == b@[k],
        decreases a@.len() - i,
    {
        if a[i] != b[i] {
            return false;
        }
        i = i + 1;
    }
    assert(a@ =~= b@);
    true
}

/// `a` followed by `b`.
pub fn concat_chars(a: &[char], b: &[char]) -> (out: Vec<char>)
    ensures
        out@ == a@ + b@,
{
    let mut out: Vec<char> = Vec::new();
    let mut i: usize = 0;
    while i < a.len()
        invariant
            i <= a@.len(),
            out@ =~= a@.take(i as int),
        decreases a@.len() - i,
    {
        out.push(a[i]);
        i = i + 1;
    }
    let mut j: usize = 0;
    while j < b.len()
        invariant
            i == a@.len(),
            j <= b@.len(),
            out@ =~= a@ + b@.take(j as int),
        decreases b@.len() - j,
    {
        out.push(b[j]);
        j = j + 1;
    }
    assert(a@.take(i as int) =~= a@);
    assert(b@.take(j as int) =~= b@);
    out
}

/// Appends `b` to `out`.
pub fn append_chars(out: &mut Vec<char>, b: &[char])
    ensures
        final(out)@ == old(out)@ + b@,
{
    let ghost start = out@;
    let mut j: usize = 0;
    while j < b.len()
        invariant
            j <= b@.len(),
            out@ =~= start + b@.take(j as int),
        decreases b@.len() - j,
    {
        out.push(b[j]);
        j = j + 1;
    }
    assert(b@.take(j as int) =~= b@);
}

} // verus!
