//! The small text grammar that the manifest is written in: separated fields,
//! blank lines and decimal integers, over sequences of characters.

use vstd::prelude::*;
use vstd::string::*;

verus! {

/// Whether `c` is white space: the characters that Unicode gives the
/// `White_Space` property.
pub open spec fn spec_is_whitespace(c: char) -> bool {
    let u = c as u32;
    ||| 0x9 <= u <= 0xd
    ||| u == 0x20
    ||| u == 0x85
    ||| u == 0xa0
    ||| u == 0x1680
    ||| 0x2000 <= u <= 0x200a
    ||| u == 0x2028
    ||| u == 0x2029
    ||| u == 0x202f
    ||| u == 0x205f
    ||| u == 0x3000
}

/// Whether every character of `s` is white space; the empty text is blank.
pub open spec fn blank(s: Seq<char>) -> bool {
    forall|i: int| 0 <= i < s.len() ==> spec_is_whitespace(#[trigger] s[i])
}

/// The index of the first `sep` in `s` at or after `from`, or the length of
/// `s` where there is none.
pub open spec fn find(s: Seq<char>, sep: char, from: int) -> int
    decreases s.len() - from,
{
    if from >= s.len() {
        s.len() as int
    } else if s[from] == sep {
        from
    } else {
        find(s, sep, from + 1)
    }
}

/// The pieces of `s` from index `from` on that lie between occurrences of
/// `sep`. There is always at least one piece; a piece may be empty.
pub open spec fn split_from(s: Seq<char>, sep: char, from: int) -> Seq<Seq<char>>
    decreases s.len() - from,
{
    let p = find(s, sep, from);
    if from > s.len() || p < from {
        Seq::empty()
    } else if p >= s.len() {
        seq![s.subrange(from, s.len() as int)]
    } else {
        seq![s.subrange(from, p)] + split_from(s, sep, p + 1)
    }
}

/// The pieces of `s` that lie between occurrences of `sep`.
pub open spec fn split(s: Seq<char>, sep: char) -> Seq<Seq<char>> {
    split_from(s, sep, 0)
}

/// Whether `c` is one of the digits `0` to `9`.
pub open spec fn is_digit(c: char) -> bool {
    0x30 <= c as u32 <= 0x39
}

/// Whether `s` consists of decimal digits only.
pub open spec fn all_digits(s: Seq<char>) -> bool {
    forall|i: int| 0 <= i < s.len() ==> is_digit(#[trigger] s[i])
}

/// The number that the decimal digits `s` spell; 0 for the empty text.
pub open spec fn decimal(s: Seq<char>) -> int
    decreases s.len(),
{
    if s.len() == 0 {
        0
    } else {
        10 * decimal(s.drop_last()) + (s.last() as u32 - 0x30)
    }
}

/// The 32-bit integer that `s` spells: an optional `+` or `-`, then one or
/// more decimal digits, with the value in the range of `i32`. Anything else
/// spells no integer.
pub open spec fn spec_parse_i32(s: Seq<char>) -> Option<i32> {
    let signed = s.len() > 0 && (s[0] == '-' || s[0] == '+');
    let digits = if signed {
        s.subrange(1, s.len() as int)
    } else {
        s
    };
    let value = if s.len() > 0 && s[0] == '-' {
        -decimal(digits)
    } else {
        decimal(digits)
    };
    if digits.len() > 0 && all_digits(digits) && -0x8000_0000 <= value <= 0x7fff_ffff {
        Some(value as i32)
    } else {
        None
    }
}

/// `find` lands in `from..=s.len()`, on a separator unless at the end, and
/// passes over none.
pub proof fn lemma_find(s: Seq<char>, sep: char, from: int)
    requires
        0 <= from <= s.len(),
    ensures
        from <= find(s, sep, from) <= s.len(),
        find(s, sep, from) < s.len() ==> s[find(s, sep, from)] == sep,
        forall|i: int| from <= i < find(s, sep, from) ==> s[i] != sep,
    decreases s.len() - from,
{
    if from < s.len() && s[from] != sep {
        lemma_find(s, sep, from + 1);
    }
}

/// A position that holds the first separator at or after `from` is what
/// `find` returns.
pub proof fn lemma_find_is(s: Seq<char>, sep: char, from: int, p: int)
    requires
        0 <= from <= p <= s.len(),
        p < s.len() ==> s[p] == sep,
        forall|i: int| from <= i < p ==> s[i] != sep,
    ensures
        find(s, sep, from) == p,
    decreases p - from,
{
    if from < p {
        lemma_find_is(s, sep, from + 1, p);
    }
}

/// Splitting yields at least one piece.
pub proof fn lemma_split_nonempty(s: Seq<char>, sep: char, from: int)
    requires
        0 <= from <= s.len(),
    ensures
        split_from(s, sep, from).len() >= 1,
{
    lemma_find(s, sep, from);
}

/// More digits never spell a smaller number.
pub proof fn lemma_decimal_grows(s: Seq<char>, k: int)
    requires
        all_digits(s),
        0 <= k <= s.len(),
    ensures
        0 <= decimal(s.take(k)) <= decimal(s),
    decreases s.len(),
{
    if s.len() == 0 {
        assert(s.take(k) =~= s);
    } else if k == s.len() {
        assert(s.take(k) =~= s);
        lemma_decimal_grows(s.drop_last(), 0);
        assert(is_digit(s.last()));
    } else {
        assert(s.drop_last().take(k) =~= s.take(k));
        assert forall|i: int| 0 <= i < s.drop_last().len() implies is_digit(
            #[trigger] s.drop_last()[i],
        ) by {
            assert(s.drop_last()[i] == s[i]);
        }
        lemma_decimal_grows(s.drop_last(), k);
        assert(is_digit(s.last()));
    }
}

/// Whether `c` is white space.
pub fn is_whitespace(c: char) -> (b: bool)
    ensures
        b == spec_is_whitespace(c),
{
    let u: u32 = c as u32;
    (0x9 <= u && u <= 0xd) || u == 0x20 || u == 0x85 || u == 0xa0 || u == 0x1680 || (0x2000 <= u
        && u <= 0x200a) || u == 0x2028 || u == 0x2029 || u == 0x202f || u == 0x205f || u
        == 0x3000
}

/// Whether every character of `s` is white space.
pub fn is_blank(s: &[char]) -> (b: bool)
    ensures
        b == blank(s@),
{
    let mut i: usize = 0;
    while i < s.len()
        invariant
            i <= s.len(),
            forall|j: int| 0 <= j < i ==> spec_is_whitespace(#[trigger] s@[j]),
        decreases s.len() - i,
    {
        if !is_whitespace(s[i]) {
            return false;
        }
        i += 1;
    }
    true
}

/// The index of the first `sep` in `s` at or after `from`, or the length of
/// `s` where there is none.
pub fn find_char(s: &[char], sep: char, from: usize) -> (p: usize)
    requires
        from <= s@.len(),
    ensures
        p == find(s@, sep, from as int),
        from <= p <= s@.len(),
        p < s@.len() ==> s@[p as int] == sep,
{
    let mut p: usize = from;
    while p < s.len() && s[p] != sep
        invariant
            from <= p <= s@.len(),
            forall|i: int| from <= i < p ==> s@[i] != sep,
        decreases s@.len() - p,
    {
        p += 1;
    }
    proof {
        lemma_find_is(s@, sep, from as int, p as int);
    }
    p
}

/// The 32-bit integer that `s` spells in decimal, with an optional sign.
pub fn parse_i32(s: &[char]) -> (v: Option<i32>)
    ensures
        v == spec_parse_i32(s@),
{
    let n = s.len();
    if n == 0 {
        return None;
    }
    let negative = s[0] == '-';
    let start: usize = if negative || s[0] == '+' {
        1
    } else {
        0
    };
    if start == n {
        return None;
    }
    let ghost digits = s@.subrange(start as int, n as int);
    assert(s@.subrange(0, n as int) =~= s@);
    let mut magnitude: i64 = 0;
    let mut i: usize = start;
    while i < n
        invariant
            start <= i <= n,
            n == s@.len(),
            n > 0,
            start as int == (if s@[0] == '-' || s@[0] == '+' {
                1int
            } else {
                0int
            }),
            digits == s@.subrange(start as int, n as int),
            start == 0 ==> digits == s@,
            all_digits(digits.take(i - start)),
            magnitude == decimal(digits.take(i - start)),
            0 <= magnitude <= 0x8000_0000,
        decreases n - i,
    {
        let u: u32 = s[i] as u32;
        if u < 0x30 || u > 0x39 {
            assert(!is_digit(digits[i - start]));
            return None;
        }
        let ghost before = digits.take(i - start);
        let ghost after = digits.take(i + 1 - start);
        assert(after.drop_last() =~= before);
        assert(after.last() == s@[i as int]);
        magnitude = magnitude * 10 + (u - 0x30) as i64;
        assert(magnitude == decimal(after));
        assert forall|j: int| 0 <= j < after.len() implies is_digit(#[trigger] after[j]) by {
            if j < before.len() {
                assert(before[j] == after[j]);
            }
        }
        if magnitude > 0x8000_0000 {
            proof {
                if all_digits(digits) {
                    lemma_decimal_grows(digits, i + 1 - start);
                    assert(decimal(digits) > 0x8000_0000);
                }
            }
            return None;
        }
        i += 1;
    }
    assert(digits.take(n - start) =~= digits);
    if negative {
        Some((-magnitude) as i32)
    } else if magnitude <= 0x7fff_ffff {
        Some(magnitude as i32)
    } else {
        None
    }
}

/// Whether `text` begins with the characters `prefix`.
pub fn starts_with(text: &str, prefix: &[char]) -> (b: bool)
    ensures
        b == prefix@.is_prefix_of(text@),
{
    let mut i: usize = 0;
    for c in it: text.chars()
        invariant
            it.seq() == text@,
            i == it.index(),
            i <= prefix@.len(),
            forall|j: int| 0 <= j < i ==> text@[j] == prefix@[j],
    {
        if i == prefix.len() {
            assert(text@.subrange(0, i as int) =~= prefix@);
            return true;
        }
        if c != prefix[i] {
            assert(text@[i as int] != prefix@[i as int]);
            return false;
        }
        i += 1;
    }
    if i == prefix.len() {
        assert(text@.subrange(0, i as int) =~= prefix@);
        true
    } else {
        false
    }
}

/// `String::push`: appends one character to the text.
#[verifier::external_body]
pub(crate) fn push_char(text: &mut String, c: char)
    ensures
        final(text)@ == old(text)@.push(c),
{
    text.push(c);
}

/// The decimal digits of `n`, the most significant first, with no leading
/// zero.
pub open spec fn digits(n: nat) -> Seq<char>
    decreases n,
{
    if n < 10 {
        seq![(0x30 + n) as char]
    } else {
        digits(n / 10).push((0x30 + n % 10) as char)
    }
}

/// The decimal form of `v`: its digits, after a `-` where it is negative.
pub open spec fn decimal_text(v: int) -> Seq<char> {
    if v < 0 {
        seq!['-'] + digits((-v) as nat)
    } else {
        digits(v as nat)
    }
}

/// The digits of a number are digits, at least one, and spell the number.
pub proof fn lemma_digits_spell(n: nat)
    ensures
        digits(n).len() >= 1,
        all_digits(digits(n)),
        decimal(digits(n)) == n,
    decreases n,
{
    if n < 10 {
        let d = digits(n);
        assert(d.drop_last() =~= Seq::<char>::empty());
        assert(d.last() as u32 == 0x30 + n);
        assert(decimal(d.drop_last()) == 0);
        assert(decimal(d) == 10 * decimal(d.drop_last()) + (d.last() as u32 - 0x30));
    } else {
        lemma_digits_spell(n / 10);
        let shorter = digits(n / 10);
        let last = (0x30 + n % 10) as char;
        assert(digits(n).drop_last() =~= shorter);
        assert(digits(n).last() == last);
        assert(last as u32 == 0x30 + n % 10);
        assert(decimal(digits(n)) == 10 * decimal(shorter) + (last as u32 - 0x30));
        assert forall|i: int| 0 <= i < digits(n).len() implies is_digit(
            #[trigger] digits(n)[i],
        ) by {
            if i < shorter.len() {
                assert(digits(n)[i] == shorter[i]);
            }
        }
    }
}

/// The decimal form of a 32-bit integer spells that integer.
pub proof fn lemma_decimal_text_parses(v: i32)
    ensures
        spec_parse_i32(decimal_text(v as int)) == Some(v),
{
    if v < 0 {
        let magnitude = (-(v as int)) as nat;
        lemma_digits_spell(magnitude);
        let text = decimal_text(v as int);
        assert(text[0] == '-');
        assert(text.subrange(1, text.len() as int) =~= digits(magnitude));
    } else {
        lemma_digits_spell(v as nat);
        let text = decimal_text(v as int);
        assert(is_digit(text[0]));
    }
}

/// Appends the decimal digits of `n` to `text`.
pub fn push_digits(text: &mut String, n: u32)
    ensures
        final(text)@ == old(text)@ + digits(n as nat),
    decreases n,
{
    if n >= 10 {
        push_digits(text, n / 10);
    }
    let digit: u8 = 0x30 + (n % 10) as u8;
    push_char(text, digit as char);
    assert(text@ =~= old(text)@ + digits(n as nat));
}

/// The decimal form of `v`.
pub fn i32_text(v: i32) -> (text: String)
    ensures
        text@ == decimal_text(v as int),
{
    let mut text = String::new();
    if v < 0 {
        push_char(&mut text, '-');
        push_digits(&mut text, (-(v as i64)) as u32);
    } else {
        push_digits(&mut text, v as u32);
    }
    assert(text@ =~= decimal_text(v as int));
    text
}

/// The text made of the characters `chars`.
pub fn string_of(chars: &[char]) -> (text: String)
    ensures
        text@ == chars@,
{
    let mut text = String::new();
    let mut i: usize = 0;
    while i < chars.len()
        invariant
            i <= chars@.len(),
            text@ == chars@.take(i as int),
        decreases chars@.len() - i,
    {
        push_char(&mut text, chars[i]);
        assert(chars@.take(i + 1) =~= chars@.take(i as int).push(chars@[i as int]));
        i += 1;
    }
    assert(chars@.take(chars@.len() as int) =~= chars@);
    text
}

/// The characters of `text`, in order.
pub fn chars_of(text: &str) -> (chars: Vec<char>)
    ensures
        chars@ == text@,
{
    let mut chars: Vec<char> = Vec::new();
    for c in it: text.chars()
        invariant
            chars@ == it.seq().take(it.index() as int),
            it.seq() == text@,
    {
        chars.push(c);
        assert(it.seq().take(it.index() + 1) =~= it.seq().take(it.index() as int).push(c));
    }
    assert(text@.take(text@.len() as int) =~= text@);
    chars
}

} // verus!
