//! The two kinds of number that cursor metadata holds: unsigned decimal
//! integers (sizes and delays) and decimal floating-point literals
//! (hotspots).

use crate::text::to_chars;
use vstd::prelude::*;

verus! {

/// Whether `c` is one of the ten ASCII digits.
pub open spec fn is_digit(c: char) -> bool {
    0x30 <= c as u32 && c as u32 <= 0x39
}

/// The number that an ASCII digit stands for.
pub open spec fn digit_value(c: char) -> nat {
    if is_digit(c) {
        (c as u32 - 0x30) as nat
    } else {
        0
    }
}

/// Whether `s` holds digits only.
pub open spec fn all_digits(s: Seq<char>) -> bool {
    forall|i: int| 0 <= i < s.len() ==> is_digit(#[trigger] s[i])
}

/// The number that a run of digits writes in base ten.
pub open spec fn decimal_value(s: Seq<char>) -> nat
    decreases s.len(),
{
    if s.len() == 0 {
        0
    } else {
        decimal_value(s.drop_last()) * 10 + digit_value(s.last())
    }
}

/// `s` without one leading `+`.
pub open spec fn without_plus(s: Seq<char>) -> Seq<char> {
    if s.len() > 0 && s[0] == '+' {
        s.drop_first()
    } else {
        s
    }
}

/// The unsigned 32-bit integer that a text writes: an optional `+`, then one
/// or more digits whose value fits. Anything else, the empty text and
/// surrounding whitespace included, writes none.
pub open spec fn parse_u32(s: Seq<char>) -> Option<u32> {
    let d = without_plus(s);
    if d.len() > 0 && all_digits(d) && decimal_value(d) <= u32::MAX {
        Some(decimal_value(d) as u32)
    } else {
        None
    }
}

/// The number of digits that `s` starts with.
pub open spec fn digits_prefix(s: Seq<char>) -> int
    decreases s.len(),
{
    if s.len() == 0 || !is_digit(s[0]) {
        0
    } else {
        1 + digits_prefix(s.drop_first())
    }
}

/// `s` without one leading `+` or `-`.
pub open spec fn without_sign(s: Seq<char>) -> Seq<char> {
    if s.len() > 0 && (s[0] == '+' || s[0] == '-') {
        s.drop_first()
    } else {
        s
    }
}

/// Whether `c` is the lower-case letter `l` or its upper-case form.
pub open spec fn is_letter(c: char, l: char) -> bool {
    c == l || (0x41 <= c as u32 && c as u32 <= 0x5A && c as u32 + 0x20 == l as u32)
}

/// Whether `s` is the lower-case word `w`, whatever the case of its letters.
pub open spec fn is_word(s: Seq<char>, w: Seq<char>) -> bool {
    s.len() == w.len() && forall|i: int| 0 <= i < s.len() ==> is_letter(#[trigger] s[i], w[i])
}

/// Whether `s` is an exponent: `e` or `E`, an optional sign, and one or more
/// digits.
pub open spec fn is_exponent(s: Seq<char>) -> bool {
    s.len() > 0 && is_letter(s[0], 'e') && {
        let d = without_sign(s.drop_first());
        d.len() > 0 && all_digits(d)
    }
}

/// Whether `s` is an unsigned decimal number: digits, optionally a point
/// and more digits, with at least one digit before or after the point, and
/// optionally an exponent.
pub open spec fn is_decimal(s: Seq<char>) -> bool {
    let whole = digits_prefix(s);
    let after = s.skip(whole);
    let point = after.len() > 0 && after[0] == '.';
    let fraction = if point {
        digits_prefix(after.drop_first())
    } else {
        0
    };
    let rest = if point {
        after.drop_first().skip(fraction)
    } else {
        after
    };
    whole + fraction > 0 && (rest.len() == 0 || is_exponent(rest))
}

/// Whether a text is a floating-point literal: an optional sign, then
/// `inf`, `infinity` or `nan` in any case, or a decimal number.
pub open spec fn is_float_literal(s: Seq<char>) -> bool {
    let u = without_sign(s);
    is_word(u, seq!['i', 'n', 'f']) || is_word(u, seq!['i', 'n', 'f', 'i', 'n', 'i', 't', 'y'])
        || is_word(u, seq!['n', 'a', 'n']) || is_decimal(u)
}

/// A run of digits is worth at least as much as any of its prefixes.
pub proof fn lemma_decimal_value_grows(s: Seq<char>, k: int)
    requires
        0 <= k <= s.len(),
    ensures
        decimal_value(s.take(k)) <= decimal_value(s),
    decreases s.len() - k,
{
    if k == s.len() {
        assert(s.take(k) =~= s);
    } else {
        lemma_decimal_value_grows(s.drop_last(), k);
        assert(s.drop_last().take(k) =~= s.take(k));
    }
}

/// A count of leading digits that stops at the end or at a character that
/// is no digit is the one `digits_prefix` gives.
pub proof fn lemma_digits_prefix_is(s: Seq<char>, k: int)
    requires
        0 <= k <= s.len(),
        forall|j: int| 0 <= j < k ==> is_digit(s[j]),
        k < s.len() ==> !is_digit(s[k]),
    ensures
        digits_prefix(s) == k,
    decreases s.len(),
{
    if s.len() == 0 || !is_digit(s[0]) {
    } else {
        let rest = s.drop_first();
        assert forall|j: int| 0 <= j < k - 1 implies is_digit(rest[j]) by {
            assert(rest[j] == s[j + 1]);
        }
        lemma_digits_prefix_is(rest, k - 1);
    }
}

/// The value of an ASCII digit, or nothing for any other character.
pub fn digit_of(c: char) -> (d: Option<u32>)
    ensures
        d is Some <==> is_digit(c),
        d matches Some(v) ==> v == digit_value(c) && v <= 9,
{
    let n: u32 = c as u32;
    if 0x30 <= n && n <= 0x39 {
        Some(n - 0x30)
    } else {
        None
    }
}

/// Reads an unsigned 32-bit integer: an optional `+`, then digits.
pub fn parse_unsigned(text: &str) -> (value: Option<u32>)
    ensures
        value == parse_u32(text@),
{
    let chars = to_chars(text);
    let n: usize = chars.len();
    let start: usize = if n > 0 && chars[0] == '+' {
        1
    } else {
        0
    };
    let ghost d = without_plus(text@);
    assert(d =~= chars@.subrange(start as int, n as int));
    if start == n {
        return None;
    }
    let mut acc: u64 = 0;
    let mut i: usize = start;
    assert(d.take(0) =~= Seq::<char>::empty());
    while i < n
        invariant
            start <= i <= n,
            n == chars.len(),
            d == chars@.subrange(start as int, n as int),
            d == without_plus(text@),
            all_digits(d.take(i - start)),
            acc == decimal_value(d.take(i - start)),
            acc <= u32::MAX,
        decreases n - i,
    {
        let ghost k = i - start;
        proof {
            assert(d.take(k + 1).drop_last() =~= d.take(k));
            assert(d.take(k + 1).last() == chars@[i as int]);
        }
        match digit_of(chars[i]) {
            None => {
                assert(!is_digit(d[k]));
                return None;
            },
            Some(v) => {
                acc = acc * 10 + v as u64;
                proof {
                    assert forall|j: int| 0 <= j < k + 1 implies is_digit(
                        #[trigger] d.take(k + 1)[j],
                    ) by {
                        if j < k {
                            assert(d.take(k + 1)[j] == d.take(k)[j]);
                        }
                    }
                }
                if acc > 0xFFFF_FFFF {
                    proof {
                        lemma_decimal_value_grows(d, k + 1);
                    }
                    return None;
                }
            },
        }
        i += 1;
    }
    assert(d.take(n - start) =~= d);
    Some(acc as u32)
}

/// The index at which the run of digits that starts at `from` ends, within
/// `chars[from..to]`.
fn skip_digits(chars: &Vec<char>, from: usize, to: usize) -> (at: usize)
    requires
        from <= to <= chars.len(),
    ensures
        from <= at <= to,
        at - from == digits_prefix(chars@.subrange(from as int, to as int)),
        all_digits(chars@.subrange(from as int, at as int)),
{
    let mut i: usize = from;
    while i < to && digit_of(chars[i]).is_some()
        invariant
            from <= i <= to <= chars.len(),
            forall|j: int| from <= j < i ==> is_digit(chars@[j]),
        decreases to - i,
    {
        i += 1;
    }
    proof {
        lemma_digits_prefix_is(chars@.subrange(from as int, to as int), i - from);
    }
    i
}

/// Whether `c` is the lower-case letter `l` or its upper-case form.
fn letter_is(c: char, l: char) -> (b: bool)
    ensures
        b == is_letter(c, l),
{
    let n: u32 = c as u32;
    c == l || (0x41 <= n && n <= 0x5A && n + 0x20 == l as u32)
}

/// Whether `chars[from..]` is the lower-case word `word` in any case.
fn word_is(chars: &Vec<char>, from: usize, word: &str) -> (b: bool)
    requires
        from <= chars.len(),
    ensures
        b == is_word(chars@.subrange(from as int, chars.len() as int), word@),
{
    let w = to_chars(word);
    let n: usize = chars.len();
    let ghost s = chars@.subrange(from as int, n as int);
    if n - from != w.len() {
        return false;
    }
    let mut i: usize = 0;
    while i < w.len()
        invariant
            i <= w.len(),
            from <= n,
            n == chars.len(),
            n - from == w.len(),
            w@ == word@,
            s == chars@.subrange(from as int, n as int),
            forall|j: int| 0 <= j < i ==> is_letter(#[trigger] s[j], w@[j]),
        decreases w.len() - i,
    {
        if !letter_is(chars[from + i], w[i]) {
            assert(!is_letter(s[i as int], w@[i as int]));
            return false;
        }
        i += 1;
    }
    true
}

/// Whether `chars[from..]` is an exponent.
fn exponent_is(chars: &Vec<char>, from: usize) -> (b: bool)
    requires
        from <= chars.len(),
    ensures
        b == is_exponent(chars@.subrange(from as int, chars.len() as int)),
{
    let n: usize = chars.len();
    let ghost s = chars@.subrange(from as int, n as int);
    if from == n || !letter_is(chars[from], 'e') {
        return false;
    }
    let mut i: usize = from + 1;
    assert(s.drop_first() =~= chars@.subrange(from + 1, n as int));
    if i < n && (chars[i] == '+' || chars[i] == '-') {
        i += 1;
    }
    let ghost d = without_sign(s.drop_first());
    assert(d =~= chars@.subrange(i as int, n as int));
    let end: usize = skip_digits(chars, i, n);
    proof {
        if end < n {
            assert(digits_prefix(d) < d.len());
            if all_digits(d) {
                lemma_digits_prefix_is(d, d.len() as int);
            }
        }
    }
    i < n && end == n
}

/// Whether a text is a floating-point literal.
pub fn is_float(text: &str) -> (b: bool)
    ensures
        b == is_float_literal(text@),
{
    let chars = to_chars(text);
    let n: usize = chars.len();
    let start: usize = if n > 0 && (chars[0] == '+' || chars[0] == '-') {
        1
    } else {
        0
    };
    let ghost u = without_sign(text@);
    assert(u =~= chars@.subrange(start as int, n as int));
    proof {
        reveal_strlit("inf");
        reveal_strlit("infinity");
        reveal_strlit("nan");
        assert("inf"@ =~= seq!['i', 'n', 'f']);
        assert("infinity"@ =~= seq!['i', 'n', 'f', 'i', 'n', 'i', 't', 'y']);
        assert("nan"@ =~= seq!['n', 'a', 'n']);
    }
    if word_is(&chars, start, "inf") || word_is(&chars, start, "infinity") || word_is(
        &chars,
        start,
        "nan",
    ) {
        return true;
    }
    let whole_end: usize = skip_digits(&chars, start, n);
    let ghost after = u.skip(whole_end - start);
    assert(after =~= chars@.subrange(whole_end as int, n as int));
    let point: bool = whole_end < n && chars[whole_end] == '.';
    let mut rest: usize = whole_end;
    let mut fraction: usize = 0;
    if point {
        assert(after.drop_first() =~= chars@.subrange(whole_end + 1, n as int));
        rest = skip_digits(&chars, whole_end + 1, n);
        fraction = rest - (whole_end + 1);
        assert(after.drop_first().skip(fraction as int) =~= chars@.subrange(rest as int, n as int));
    }
    if (whole_end - start) + fraction == 0 {
        return false;
    }
    rest == n || exponent_is(&chars, rest)
}

} // verus!
