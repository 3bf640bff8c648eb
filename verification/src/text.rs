//! Characters and strings: the character classes the stylesheet grammar is
//! written in, scanning of maximal runs, and the few string operations of the
//! standard library that the crate relies on without proof.

use vstd::prelude::*;
use vstd::std_specs::iter::IteratorSpec;

verus! {

/// Whether `c` is white space as Unicode defines it (the property
/// `White_Space`): what `char::is_whitespace` answers.
pub uninterp spec fn is_whitespace_char(c: char) -> bool;

/// Whether `c` is a number as Unicode defines it (the general categories
/// `Nd`, `Nl` and `No`): what `char::is_numeric` answers.
pub uninterp spec fn is_numeric_char(c: char) -> bool;

/// `s` in lower case as Unicode defines it: what `str::to_lowercase`
/// returns.
pub uninterp spec fn lowercase(s: Seq<char>) -> Seq<char>;

/// `s` as `{:?}` formats a string: between double quotes, with the
/// characters escaped that would not show as themselves.
pub uninterp spec fn debug_text(s: Seq<char>) -> Seq<char>;

/// Formats `s` with `{:?}`. What `format!` returns for a string depends on
/// the characters of the string alone: [`debug_text`] of them.
#[verifier::external_body]
pub(crate) fn quoted(s: &str) -> (r: String)
    ensures
        r@ == debug_text(s@),
{
    format!("{:?}", s)
}

/// `char::is_whitespace` decides by the character alone; its answer is
/// [`is_whitespace_char`].
pub assume_specification[ char::is_whitespace ](c: char) -> (b: bool)
    ensures
        b == is_whitespace_char(c),
;

/// `char::is_numeric` decides by the character alone; its answer is
/// [`is_numeric_char`].
pub assume_specification[ char::is_numeric ](c: char) -> (b: bool)
    ensures
        b == is_numeric_char(c),
;

/// `str::to_lowercase` returns a new string that depends on the characters
/// of `s` alone: [`lowercase`] of them.
pub assume_specification[ str::to_lowercase ](s: &str) -> (r: String)
    ensures
        r@ == lowercase(s@),
;

/// `String::push` appends `c` to the end of the string.
pub assume_specification[ String::push ](s: &mut String, c: char)
    ensures
        final(s)@ == old(s)@.push(c),
;

/// White-space characters.
pub open spec fn whitespace() -> spec_fn(char) -> bool {
    |c: char| is_whitespace_char(c)
}

/// Numeric characters.
pub open spec fn numeric() -> spec_fn(char) -> bool {
    |c: char| is_numeric_char(c)
}

/// The end of the longest run of characters of class `p` that starts at
/// position `i` of `s`: the first position from `i` on whose character is not
/// of class `p`, or the length of `s`.
pub open spec fn scan_while(s: Seq<char>, i: int, p: spec_fn(char) -> bool) -> int
    decreases s.len() - i,
{
    if 0 <= i < s.len() && p(s[i]) {
        scan_while(s, i + 1, p)
    } else {
        i
    }
}

/// A run ends inside the text and not before its start.
pub proof fn lemma_scan_while_bounds(s: Seq<char>, i: int, p: spec_fn(char) -> bool)
    requires
        0 <= i <= s.len(),
    ensures
        i <= scan_while(s, i, p) <= s.len(),
    decreases s.len() - i,
{
    if i < s.len() && p(s[i]) {
        lemma_scan_while_bounds(s, i + 1, p);
    }
}

/// A run that starts on a character of the class holds that character.
pub proof fn lemma_scan_while_progress(s: Seq<char>, i: int, p: spec_fn(char) -> bool)
    requires
        0 <= i < s.len(),
        p(s[i]),
    ensures
        i < scan_while(s, i, p) <= s.len(),
{
    lemma_scan_while_bounds(s, i + 1, p);
}

/// A run is told by its end: every character before `j` is of the class and
/// the one at `j`, if there is one, is not.
pub proof fn lemma_scan_while_end(s: Seq<char>, i: int, j: int, p: spec_fn(char) -> bool)
    requires
        0 <= i <= j <= s.len(),
        forall|k: int| i <= k < j ==> p(#[trigger] s[k]),
        j < s.len() ==> !p(s[j]),
    ensures
        scan_while(s, i, p) == j,
    decreases j - i,
{
    if i < j {
        lemma_scan_while_end(s, i + 1, j, p);
    }
}

/// What a run holds and where it stops.
pub proof fn lemma_scan_while_run(s: Seq<char>, i: int, p: spec_fn(char) -> bool)
    requires
        0 <= i <= s.len(),
    ensures
        forall|k: int| i <= k < scan_while(s, i, p) ==> p(#[trigger] s[k]),
        scan_while(s, i, p) < s.len() ==> !p(s[scan_while(s, i, p)]),
    decreases s.len() - i,
{
    if i < s.len() && p(s[i]) {
        lemma_scan_while_run(s, i + 1, p);
    }
}

/// `c` in lower case where it is an upper-case ASCII letter, `c` itself
/// otherwise.
pub open spec fn ascii_lower(c: char) -> char {
    if 'A' <= c <= 'Z' {
        ((c as u8) + 32) as char
    } else {
        c
    }
}

/// `s` with its upper-case ASCII letters in lower case.
pub open spec fn ascii_lowercase(s: Seq<char>) -> Seq<char> {
    s.map_values(|c: char| ascii_lower(c))
}

/// `s` with its upper-case ASCII letters in lower case.
pub fn to_ascii_lowercase(s: &str) -> (r: String)
    ensures
        r@ == ascii_lowercase(s@),
        no_ascii_uppercase(r@),
{
    let mut r = String::new();
    for c in it: s.chars()
        invariant
            it.seq() == s@,
            r@ == ascii_lowercase(s@.take(it.index() as int)),
    {
        let lower = if c >= 'A' && c <= 'Z' {
            ((c as u8) + 32) as char
        } else {
            c
        };
        r.push(lower);
    }
    r
}

/// No character of `s` is an upper-case ASCII letter.
pub open spec fn no_ascii_uppercase(s: Seq<char>) -> bool {
    forall|k: int| 0 <= k < s.len() ==> !('A' <= #[trigger] s[k] <= 'Z')
}

/// Whether two strings hold the same characters.
pub fn str_eq(a: &str, b: &str) -> (r: bool)
    ensures
        r == (a@ == b@),
{
    let mut ia = a.chars();
    let mut ib = b.chars();
    let ghost mut k: int = 0;
    loop
        invariant
            0 <= k <= a@.len(),
            k <= b@.len(),
            ia.remaining() == a@.skip(k),
            ib.remaining() == b@.skip(k),
            a@.take(k) == b@.take(k),
        decreases a@.len() - k,
    {
        let x = ia.next();
        let y = ib.next();
        match x {
            None => {
                proof {
                    assert(a@.take(k) =~= a@);
                    if y.is_none() {
                        assert(b@.take(k) =~= b@);
                    }
                }
                return y.is_none();
            },
            Some(cx) => {
                match y {
                    None => {
                        return false;
                    },
                    Some(cy) => {
                        if cx != cy {
                            return false;
                        }
                        proof {
                            k = k + 1;
                        }
                    },
                }
            },
        }
    }
}

/// `c` is one of `0` to `9`.
pub open spec fn is_ascii_digit(c: char) -> bool {
    '0' <= c <= '9'
}

/// The number that the digit `c` stands for; 0 for any other character.
pub open spec fn digit_value(c: char) -> nat {
    if is_ascii_digit(c) {
        (c as int - '0' as int) as nat
    } else {
        0
    }
}

/// Every character of `s` is an ASCII digit.
pub open spec fn all_ascii_digits(s: Seq<char>) -> bool {
    forall|k: int| 0 <= k < s.len() ==> is_ascii_digit(#[trigger] s[k])
}

/// The number written by the decimal digits `digits`, read left to right.
pub open spec fn decimal(digits: Seq<char>) -> nat
    decreases digits.len(),
{
    if digits.len() == 0 {
        0
    } else {
        decimal(digits.drop_last()) * 10 + digit_value(digits.last())
    }
}

/// The number written by `s` where `s` is one or more ASCII digits.
pub open spec fn unsigned_of(s: Seq<char>) -> Option<nat> {
    if s.len() > 0 && all_ascii_digits(s) {
        Some(decimal(s))
    } else {
        None
    }
}

/// The part of `s` after an optional leading sign.
pub open spec fn unsigned_part(s: Seq<char>) -> Seq<char> {
    if s.len() > 0 && (s[0] == '-' || s[0] == '+') {
        s.skip(1)
    } else {
        s
    }
}

/// The whole number written by `s`: an optional `+` or `-`, then one or more
/// ASCII digits, the value within the range of `i64`. `None` for any other
/// text.
pub open spec fn integer_of(s: Seq<char>) -> Option<i64> {
    match unsigned_of(unsigned_part(s)) {
        Some(n) => {
            let v: int = if s[0] == '-' {
                -n
            } else {
                n as int
            };
            if i64::MIN <= v <= i64::MAX {
                Some(v as i64)
            } else {
                None
            }
        },
        None => None,
    }
}

/// A longer digit string does not write a smaller number.
pub proof fn lemma_decimal_grows(digits: Seq<char>, k: int)
    requires
        all_ascii_digits(digits),
        0 <= k <= digits.len(),
    ensures
        decimal(digits.take(k)) <= decimal(digits),
    decreases digits.len() - k,
{
    if k < digits.len() {
        lemma_decimal_grows(digits, k + 1);
        assert(digits.take(k + 1).drop_last() =~= digits.take(k));
    } else {
        assert(digits.take(k) =~= digits);
    }
}

/// The first `n` of `parts` put together, `separator` standing before each
/// part that does not come first in the text.
pub open spec fn joined(parts: Seq<Seq<char>>, n: int, separator: Seq<char>) -> Seq<char>
    decreases n,
{
    if n <= 0 || n > parts.len() {
        Seq::empty()
    } else {
        let before = joined(parts, n - 1, separator);
        if before.len() > 0 {
            before + separator + parts[n - 1]
        } else {
            parts[n - 1]
        }
    }
}

/// The character that writes the digit `d`.
pub open spec fn digit_char(d: int) -> char
    recommends
        0 <= d <= 9,
{
    (d + 48) as char
}

/// The decimal digits of `n`, without leading zeros.
pub open spec fn decimal_digits(n: nat) -> Seq<char>
    decreases n,
{
    if n < 10 {
        seq![digit_char(n as int)]
    } else {
        decimal_digits(n / 10).push(digit_char((n % 10) as int))
    }
}

/// `n` in decimal: its digits, behind `-` where it is negative.
pub open spec fn integer_text(n: int) -> Seq<char> {
    if n < 0 {
        seq!['-'] + decimal_digits((-n) as nat)
    } else {
        decimal_digits(n as nat)
    }
}

/// `n` in decimal.
pub fn to_decimal(n: i64) -> (text: String)
    ensures
        text@ == integer_text(n as int),
{
    let magnitude: u64 = if n < 0 {
        (-(n as i128)) as u64
    } else {
        n as u64
    };
    // The digits from the last to the first.
    let mut reversed: Vec<char> = Vec::new();
    let mut rest: u64 = magnitude;
    reversed.push(((rest % 10) as u8 + 48u8) as char);
    rest = rest / 10;
    while rest > 0
        invariant
            reversed@.len() > 0,
            decimal_digits(magnitude as nat) == (if rest > 0 {
                decimal_digits(rest as nat)
            } else {
                Seq::<char>::empty()
            }) + reversed@.reverse(),
        decreases rest,
    {
        let digit = ((rest % 10) as u8 + 48u8) as char;
        reversed.push(digit);
        rest = rest / 10;
    }
    let mut text = String::new();
    if n < 0 {
        text.push('-');
    }
    let ghost sign = text@;
    let mut i: usize = reversed.len();
    while i > 0
        invariant
            0 <= i <= reversed@.len(),
            text@ == sign + reversed@.reverse().take(reversed@.len() - i),
        decreases i,
    {
        i -= 1;
        text.push(reversed[i]);
    }
    text
}

/// The characters of `s`, in order.
pub fn chars_of(s: &str) -> (v: Vec<char>)
    ensures
        v@ == s@,
{
    let mut v: Vec<char> = Vec::new();
    for c in it: s.chars()
        invariant
            it.seq() == s@,
            v@ == s@.take(it.index() as int),
    {
        v.push(c);
    }
    v
}

/// The characters of `v` from `from` up to `to` as a string.
pub fn string_of(v: &Vec<char>, from: usize, to: usize) -> (s: String)
    requires
        from <= to <= v@.len(),
    ensures
        s@ == v@.subrange(from as int, to as int),
{
    let mut s = String::new();
    let mut i: usize = from;
    while i < to
        invariant
            from <= i <= to <= v@.len(),
            s@ == v@.subrange(from as int, i as int),
        decreases to - i,
    {
        s.push(v[i]);
        i += 1;
    }
    s
}

/// The number written by the characters of `v` from `from` up to `to`, where
/// they are one or more ASCII digits and the number is at most `limit`.
pub fn decimal_value(v: &Vec<char>, from: usize, to: usize, limit: u64) -> (r: Option<u64>)
    requires
        from <= to <= v@.len(),
    ensures
        r == match unsigned_of(v@.subrange(from as int, to as int)) {
            Some(n) => if n <= limit {
                Some(n as u64)
            } else {
                None
            },
            None => None,
        },
{
    let ghost digits = v@.subrange(from as int, to as int);
    if from == to {
        return None;
    }
    let mut acc: u64 = 0;
    let mut i: usize = from;
    while i < to
        invariant
            from <= i <= to <= v@.len(),
            digits == v@.subrange(from as int, to as int),
            all_ascii_digits(digits.take(i - from)),
            acc as int == decimal(digits.take(i - from)),
            acc <= limit,
        decreases to - i,
    {
        let c = v[i];
        let ghost before = digits.take(i - from);
        let ghost after = digits.take(i - from + 1);
        assert(after.drop_last() =~= before);
        assert(after.last() == c);
        if !(c >= '0' && c <= '9') {
            return None;
        }
        let d: u64 = (c as u8 - 48u8) as u64;
        if d > limit || acc > (limit - d) / 10 {
            proof {
                if all_ascii_digits(digits) {
                    lemma_decimal_grows(digits, i - from + 1);
                }
            }
            return None;
        }
        acc = acc * 10 + d;
        i += 1;
    }
    assert(digits.take(to - from) =~= digits);
    Some(acc)
}

/// Reads a whole number: an optional sign, then decimal digits. `None` where
/// `s` is anything else, or the number does not fit.
pub fn parse_integer(s: &str) -> (r: Option<i64>)
    ensures
        r == integer_of(s@),
{
    let v = chars_of(s);
    let signed = v.len() > 0 && (v[0] == '-' || v[0] == '+');
    let start: usize = if signed {
        1
    } else {
        0
    };
    assert(v@.subrange(start as int, v@.len() as int) =~= unsigned_part(s@));
    // 2^63 is the largest magnitude of an `i64`, reached by `i64::MIN` alone.
    let magnitude = decimal_value(&v, start, v.len(), 9223372036854775808u64);
    match magnitude {
        None => None,
        Some(m) => {
            if v[0] == '-' {
                if m == 9223372036854775808u64 {
                    Some(i64::MIN)
                } else {
                    let n: i64 = m as i64;
                    Some(-n)
                }
            } else if m == 9223372036854775808u64 {
                None
            } else {
                Some(m as i64)
            }
        },
    }
}

} // verus!
