use vstd::prelude::*;

verus! {

/// Compares a sequence of characters with a string, character by character.
pub fn chars_eq_str(a: &Vec<char>, s: &str) -> (res: bool)
    ensures
        res == (a@ == s@),
{
    let n = s.unicode_len();
    if a.len() != n {
        return false;
    }
    let mut i: usize = 0;
    while i < n
        invariant
            n == s@.len(),
            a@.len() == n,
            i <= n,
            forall|j: int| 0 <= j < i ==> a@[j] == s@[j],
        decreases n - i,
    {
        if a[i] != s.get_char(i) {
            return false;
        }
        i = i + 1;
    }
    assert(a@ =~= s@);
    true
}

/// The characters of a string, in order.
pub fn str_to_chars(s: &str) -> (res: Vec<char>)
    ensures
        res@ == s@,
{
    let n = s.unicode_len();
    let mut res: Vec<char> = Vec::new();
    let mut i: usize = 0;
    while i < n
        invariant
            n == s@.len(),
            i <= n,
            res@ == s@.subrange(0, i as int),
        decreases n - i,
    {
        res.push(s.get_char(i));
        i = i + 1;
        assert(res@ =~= s@.subrange(0, i as int));
    }
    assert(s@.subrange(0, n as int) =~= s@);
    res
}

/// Appends one character to a string.
#[verifier::external_body]
pub(crate) fn push_char(s: &mut String, c: char)
    ensures
        final(s)@ == old(s)@.push(c),
{
    s.push(c)
}

/// A string holding the given characters.
pub fn string_from_chars(chars: &Vec<char>, from: usize, to: usize) -> (res: String)
    requires
        from <= to <= chars@.len(),
    ensures
        res@ == chars@.subrange(from as int, to as int),
{
    let ghost v = chars@;
    let mut res = String::new();
    let mut i: usize = from;
    while i < to
        invariant
            from <= i <= to,
            to <= chars@.len(),
            v == chars@,
            res@ == v.subrange(from as int, i as int),
        decreases to - i,
    {
        push_char(&mut res, chars[i]);
        i = i + 1;
        assert(res@ =~= v.subrange(from as int, i as int));
    }
    res
}

/// The characters with the Unicode `White_Space` property.
pub open spec fn spec_is_whitespace(c: char) -> bool {
    ('\u{9}' <= c <= '\u{d}') || c == ' ' || c == '\u{85}' || c == '\u{a0}' || c == '\u{1680}'
        || ('\u{2000}' <= c <= '\u{200a}') || c == '\u{2028}' || c == '\u{2029}' || c == '\u{202f}'
        || c == '\u{205f}' || c == '\u{3000}'
}

/// Whether `c` has the Unicode `White_Space` property (as `char::is_whitespace`).
pub fn is_whitespace(c: char) -> (res: bool)
    ensures
        res == spec_is_whitespace(c),
{
    ('\u{9}' <= c && c <= '\u{d}') || c == ' ' || c == '\u{85}' || c == '\u{a0}' || c == '\u{1680}'
        || ('\u{2000}' <= c && c <= '\u{200a}') || c == '\u{2028}' || c == '\u{2029}' || c == '\u{202f}'
        || c == '\u{205f}' || c == '\u{3000}'
}

/// An ASCII decimal digit (what `char::is_digit(10)` accepts).
pub open spec fn spec_is_digit(c: char) -> bool {
    '0' <= c <= '9'
}

pub open spec fn digit_value(c: char) -> nat {
    (c as int - '0' as int) as nat
}

/// The number that a string of decimal digits denotes.
pub open spec fn decimal_value(digits: Seq<char>) -> nat
    decreases digits.len(),
{
    if digits.len() == 0 {
        0
    } else {
        decimal_value(digits.drop_last()) * 10 + digit_value(digits.last())
    }
}

/// The value of a non-empty string of decimal digits, when it fits in a byte
/// (what `str::parse::<u8>` gives for such a string).
pub fn parse_digits_u8(digits: &Vec<char>) -> (res: Option<u8>)
    requires
        forall|k: int| 0 <= k < digits@.len() ==> spec_is_digit(#[trigger] digits@[k]),
    ensures
        res matches Some(v) ==> v == decimal_value(digits@),
        res is None <==> decimal_value(digits@) > 255,
{
    let mut value: u16 = 0;
    let mut too_large = false;
    let mut i: usize = 0;
    while i < digits.len()
        invariant
            i <= digits@.len(),
            forall|k: int| 0 <= k < digits@.len() ==> spec_is_digit(#[trigger] digits@[k]),
            too_large <==> decimal_value(digits@.subrange(0, i as int)) > 255,
            !too_large ==> value == decimal_value(digits@.subrange(0, i as int)),
        decreases digits@.len() - i,
    {
        let c = digits[i];
        let d = (c as u32 - '0' as u32) as u16;
        let ghost prefix = digits@.subrange(0, i as int);
        let ghost next = digits@.subrange(0, i + 1);
        assert(next.drop_last() =~= prefix);
        assert(next.last() == c);
        if !too_large {
            let v = value * 10 + d;
            if v > 255 {
                too_large = true;
            } else {
                value = v;
            }
        }
        i = i + 1;
    }
    assert(digits@.subrange(0, digits@.len() as int) =~= digits@);
    if too_large {
        None
    } else {
        Some(value as u8)
    }
}

/// Whether `c` is alphabetic in the sense of Unicode's `Alphabetic`
/// property, as `char::is_alphabetic` decides it.
pub uninterp spec fn char_is_alphabetic(c: char) -> bool;

/// Calls `char::is_alphabetic`. Its result is named `char_is_alphabetic`;
/// beyond that, the contract states what its documentation gives for ASCII:
/// of the ASCII characters exactly the letters `a`-`z` and `A`-`Z` have the
/// `Alphabetic` property. Which other characters have it is left unsaid.
#[verifier::external_body]
pub(crate) fn is_alphabetic(c: char) -> (res: bool)
    ensures
        res == char_is_alphabetic(c),
        c <= '\u{7f}' ==> (res <==> ('a' <= c <= 'z' || 'A' <= c <= 'Z')),
{
    c.is_alphabetic()
}

/// The decimal numeral of `n`, without leading zeros.
pub open spec fn decimal(n: nat) -> Seq<char>
    decreases n,
{
    if n < 10 {
        seq![digit_char(n)]
    } else {
        decimal(n / 10).push(digit_char(n % 10))
    }
}

pub open spec fn digit_char(d: nat) -> char {
    ('0' as int + d) as char
}

fn digit_str(d: usize) -> (res: &'static str)
    requires
        d < 10,
    ensures
        res@ == seq![digit_char(d as nat)],
{
    proof {
        reveal_strlit("0");
        reveal_strlit("1");
        reveal_strlit("2");
        reveal_strlit("3");
        reveal_strlit("4");
        reveal_strlit("5");
        reveal_strlit("6");
        reveal_strlit("7");
        reveal_strlit("8");
        reveal_strlit("9");
    }
    let res = match d {
        0 => "0",
        1 => "1",
        2 => "2",
        3 => "3",
        4 => "4",
        5 => "5",
        6 => "6",
        7 => "7",
        8 => "8",
        _ => "9",
    };
    assert(res@ =~= seq![digit_char(d as nat)]);
    res
}

/// Appends the decimal numeral of `n` (what `format!("{}", n)` writes).
pub fn push_decimal(s: &mut String, n: usize)
    ensures
        final(s)@ == old(s)@ + decimal(n as nat),
    decreases n,
{
    if n >= 10 {
        push_decimal(s, n / 10);
    }
    s.append(digit_str(n % 10));
    assert(n < 10 ==> n % 10 == n);
}

/// The text without the whitespace at either end (as `str::trim`).
pub open spec fn trim_seq(s: Seq<char>) -> Seq<char>
    decreases s.len(),
{
    if s.len() == 0 {
        s
    } else if spec_is_whitespace(s[0]) {
        trim_seq(s.drop_first())
    } else if spec_is_whitespace(s.last()) {
        trim_seq(s.drop_last())
    } else {
        s
    }
}

/// Whether every character is a decimal digit.
pub open spec fn all_digits(s: Seq<char>) -> bool {
    forall|k: int| 0 <= k < s.len() ==> spec_is_digit(#[trigger] s[k])
}

/// What `str::parse::<u8>` gives: an optional `+` (not alone), then one or
/// more decimal digits whose value is at most 255.
pub open spec fn parsed_u8(s: Seq<char>) -> Option<u8> {
    let body = if s.len() > 1 && s[0] == '+' {
        s.drop_first()
    } else {
        s
    };
    if body.len() > 0 && all_digits(body) && decimal_value(body) <= 255 {
        Some(decimal_value(body) as u8)
    } else {
        None
    }
}

/// The byte that a line of input denotes: the line is trimmed of whitespace
/// and read as a decimal number from 0 to 255.
pub fn parse_input_value(line: &str) -> (res: Option<u8>)
    ensures
        res == parsed_u8(trim_seq(line@)),
{
    let chars = str_to_chars(line);
    let mut lo: usize = 0;
    let mut hi: usize = chars.len();
    assert(chars@.subrange(0, hi as int) =~= chars@);
    loop
        invariant
            lo <= hi <= chars@.len(),
            chars@ == line@,
            trim_seq(line@) == trim_seq(chars@.subrange(lo as int, hi as int)),
        ensures
            lo <= hi <= chars@.len(),
            chars@ == line@,
            trim_seq(line@) == trim_seq(chars@.subrange(lo as int, hi as int)),
            lo == hi || (!spec_is_whitespace(chars@[lo as int]) && !spec_is_whitespace(chars@[hi - 1])),
        decreases hi - lo,
    {
        let ghost sub = chars@.subrange(lo as int, hi as int);
        if lo < hi && is_whitespace(chars[lo]) {
            assert(sub.drop_first() =~= chars@.subrange(lo + 1, hi as int));
            lo = lo + 1;
        } else if lo < hi && is_whitespace(chars[hi - 1]) {
            assert(sub.drop_last() =~= chars@.subrange(lo as int, hi - 1));
            hi = hi - 1;
        } else {
            break;
        }
    }
    let ghost t = chars@.subrange(lo as int, hi as int);
    assert(trim_seq(t) == t) by {
        if t.len() > 0 {
            assert(t[0] == chars@[lo as int]);
            assert(t.last() == chars@[hi - 1]);
        }
    }
    if hi - lo > 1 && chars[lo] == '+' {
        lo = lo + 1;
    }
    let ghost body = chars@.subrange(lo as int, hi as int);
    assert(body =~= if t.len() > 1 && t[0] == '+' {
        t.drop_first()
    } else {
        t
    });
    if lo == hi {
        return None;
    }
    let mut digits: Vec<char> = Vec::new();
    let mut i: usize = lo;
    while i < hi
        invariant
            lo <= i <= hi <= chars@.len(),
            body == chars@.subrange(lo as int, hi as int),
            trim_seq(line@) == t,
            body == (if t.len() > 1 && t[0] == '+' {
                t.drop_first()
            } else {
                t
            }),
            digits@ =~= chars@.subrange(lo as int, i as int),
            forall|k: int| 0 <= k < digits@.len() ==> spec_is_digit(#[trigger] digits@[k]),
        decreases hi - i,
    {
        let c = chars[i];
        if !('0' <= c && c <= '9') {
            assert(body[i - lo] == c);
            assert(!spec_is_digit(body[i - lo]));
            assert(!all_digits(body));
            return None;
        }
        digits.push(c);
        i = i + 1;
    }
    assert(digits@ =~= body);
    parse_digits_u8(&digits)
}

} // verus!
