//! Text helpers: ASCII case folding, trimming, and decimal rendering.

use vstd::prelude::*;

verus! {

/// The ASCII lower-case form of a character; every other character is itself.
pub open spec fn ascii_lower(c: char) -> char {
    if 'A' <= c <= 'Z' {
        ((c as u32) + 32) as char
    } else {
        c
    }
}

/// A text with each of its characters in ASCII lower case.
pub open spec fn lowered(s: Seq<char>) -> Seq<char> {
    s.map_values(|c: char| ascii_lower(c))
}

/// The code point of the ASCII lower-case form of `c`.
fn lower_code(c: char) -> (k: u32)
    ensures
        k == ascii_lower(c) as u32,
{
    let k: u32 = c as u32;
    if 65 <= k && k <= 90 {
        k + 32
    } else {
        k
    }
}

/// Whether `s`, put in ASCII lower case, is the text `lower`.
pub fn is_text_ignoring_case(s: &str, lower: &str) -> (r: bool)
    ensures
        r == (lowered(s@) == lower@),
{
    let n: usize = s.unicode_len();
    if n != lower.unicode_len() {
        return false;
    }
    let mut i: usize = 0;
    while i < n
        invariant
            i <= n,
            n == s@.len(),
            n == lower@.len(),
            forall|j: int| 0 <= j < i ==> ascii_lower(s@[j]) == #[trigger] lower@[j],
        decreases n - i,
    {
        if lower_code(s.get_char(i)) != lower.get_char(i) as u32 {
            assert(lowered(s@)[i as int] != lower@[i as int]);
            return false;
        }
        i += 1;
    }
    assert(lowered(s@) =~= lower@);
    true
}

/// Whether two texts are the same.
pub fn same_text(a: &str, b: &str) -> (r: bool)
    ensures
        r == (a@ == b@),
{
    a.to_owned() == b.to_owned()
}

/// A copy of a text.
pub fn copy_text(s: &str) -> (r: String)
    ensures
        r@ == s@,
{
    s.to_owned()
}

/// The characters that Unicode gives the property `White_Space`.
pub open spec fn is_white_space(c: char) -> bool {
    let k = c as u32;
    ||| 0x9 <= k <= 0xd
    ||| k == 0x20
    ||| k == 0x85
    ||| k == 0xa0
    ||| k == 0x1680
    ||| 0x2000 <= k <= 0x200a
    ||| k == 0x2028
    ||| k == 0x2029
    ||| k == 0x202f
    ||| k == 0x205f
    ||| k == 0x3000
}

fn check_white_space(c: char) -> (r: bool)
    ensures
        r == is_white_space(c),
{
    let k: u32 = c as u32;
    (0x9 <= k && k <= 0xd) || k == 0x20 || k == 0x85 || k == 0xa0 || k == 0x1680 || (0x2000 <= k
        && k <= 0x200a) || k == 0x2028 || k == 0x2029 || k == 0x202f || k == 0x205f || k == 0x3000
}

/// `t` is `s` without the white space at its two ends.
pub open spec fn is_trimmed(t: Seq<char>, s: Seq<char>) -> bool {
    exists|from: int, to: int|
        {
            &&& 0 <= from <= to <= s.len()
            &&& #[trigger] s.subrange(from, to) == t
            &&& forall|i: int| 0 <= i < from ==> is_white_space(#[trigger] s[i])
            &&& forall|i: int| to <= i < s.len() ==> is_white_space(#[trigger] s[i])
            &&& t.len() > 0 ==> !is_white_space(t[0]) && !is_white_space(t.last())
        }
}

/// A text without the white space at its two ends.
pub fn trimmed(s: &str) -> (t: String)
    ensures
        is_trimmed(t@, s@),
{
    let n: usize = s.unicode_len();
    let mut from: usize = 0;
    while from < n && check_white_space(s.get_char(from))
        invariant
            from <= n,
            n == s@.len(),
            forall|i: int| 0 <= i < from ==> is_white_space(#[trigger] s@[i]),
        decreases n - from,
    {
        from += 1;
    }
    let mut to: usize = n;
    while to > from && check_white_space(s.get_char(to - 1))
        invariant
            from <= to <= n,
            n == s@.len(),
            forall|i: int| to <= i < n ==> is_white_space(#[trigger] s@[i]),
        decreases to,
    {
        to -= 1;
    }
    let t = copy_text(s.substring_char(from, to));
    assert(t@ == s@.subrange(from as int, to as int));
    t
}

/// The character of a decimal digit.
pub open spec fn digit_char(d: nat) -> char {
    (('0' as u32) + d) as char
}

/// A number in decimal, without leading zeros.
pub open spec fn decimal(n: nat) -> Seq<char>
    decreases n,
{
    if n < 10 {
        seq![digit_char(n)]
    } else {
        decimal(n / 10).push(digit_char(n % 10))
    }
}

/// A number in decimal with at least two digits.
pub open spec fn two_digits(n: nat) -> Seq<char> {
    if n < 10 {
        seq!['0', digit_char(n)]
    } else {
        decimal(n)
    }
}

fn digit_text(d: u64) -> (r: &'static str)
    requires
        d < 10,
    ensures
        r@ == seq![digit_char(d as nat)],
{
    proof {
        reveal_strlit("0");
        reveal_strlit("1");
        reveal_strlit("2");
        reveal_strlit("3");
        reveal_strlit("4");
        reveal_strlit("5");
        reveal_strlit("6");
        reveal_strlit("7");
        reveal_strlit("8");
        reveal_strlit("9");
    }
    let r = match d {
        0 => "0",
        1 => "1",
        2 => "2",
        3 => "3",
        4 => "4",
        5 => "5",
        6 => "6",
        7 => "7",
        8 => "8",
        _ => "9",
    };
    assert(r@ =~= seq![digit_char(d as nat)]);
    r
}

/// Renders a number in decimal.
pub fn decimal_text(n: u64) -> (r: String)
    ensures
        r@ == decimal(n as nat),
    decreases n,
{
    if n < 10 {
        copy_text(digit_text(n))
    } else {
        let mut r = decimal_text(n / 10);
        let ghost front = r@;
        r.append(digit_text(n % 10));
        assert(r@ =~= front.push(digit_char((n % 10) as nat)));
        r
    }
}

/// Renders a number in decimal with at least two digits.
pub fn two_digit_text(n: u64) -> (r: String)
    ensures
        r@ == two_digits(n as nat),
{
    if n < 10 {
        proof {
            reveal_strlit("0");
        }
        let mut r = copy_text("0");
        r.append(digit_text(n));
        assert(r@ =~= seq!['0', digit_char(n as nat)]);
        r
    } else {
        decimal_text(n)
    }
}

} // verus!
