//! Text as the library needs it: decimal numbers, concatenation, comparison and
//! splitting at a slash.

use vstd::prelude::*;
use vstd::string::*;

verus! {

/// The character that stands for the decimal digit `d`.
pub open spec fn digit(d: nat) -> char
    recommends
        d < 10,
{
    (48 + d) as char
}

/// The decimal notation of `n`: no sign, no leading zero.
pub open spec fn decimal(n: nat) -> Seq<char>
    decreases n,
{
    if n < 10 {
        seq![digit(n)]
    } else {
        decimal(n / 10).push(digit(n % 10))
    }
}

/// Whether `c` is one of the ten decimal digits.
pub open spec fn is_digit(c: char) -> bool {
    '0' <= c <= '9'
}

/// The number that a sequence of digits denotes.
pub open spec fn digits_value(s: Seq<char>) -> nat
    decreases s.len(),
{
    if s.len() == 0 {
        0
    } else {
        digits_value(s.drop_last()) * 10 + (s.last() as nat - 48) as nat
    }
}

/// The number in decimal notation that `s` is, where it is one.
pub open spec fn decimal_number(s: Seq<char>) -> Option<nat> {
    if s.len() > 0 && (forall|i: int| 0 <= i < s.len() ==> is_digit(#[trigger] s[i])) {
        Some(digits_value(s))
    } else {
        None
    }
}

/// Whether the text denotes a number in decimal notation that is at most `max`.
pub open spec fn is_number_up_to(s: Seq<char>, max: nat) -> bool {
    decimal_number(s) matches Some(n) && n <= max
}

fn digit_text(d: u64) -> (text: &'static str)
    requires
        d < 10,
    ensures
        text@ == seq![digit(d as nat)],
{
    proof {
        reveal_strlit("0");
        reveal_strlit("1");
        reveal_strlit("2");
        reveal_strlit("3");
        reveal_strlit("4");
        reveal_strlit("5");
        reveal_strlit("6");
        reveal_strlit("7");
        reveal_strlit("8");
        reveal_strlit("9");
    }
    match d {
        0 => "0",
        1 => "1",
        2 => "2",
        3 => "3",
        4 => "4",
        5 => "5",
        6 => "6",
        7 => "7",
        8 => "8",
        _ => "9",
    }
}

/// Writes a number in decimal notation.
pub fn decimal_text(n: u64) -> (text: String)
    ensures
        text@ == decimal(n as nat),
    decreases n,
{
    if n < 10 {
        digit_text(n).to_owned()
    } else {
        let mut text = decimal_text(n / 10);
        text.append(digit_text(n % 10));
        assert(text@ =~= decimal(n as nat));
        text
    }
}

/// Reads a number in decimal notation. `None` where the text is not one or
/// where the number is larger than `u64::MAX`.
pub fn parse_decimal(text: &str) -> (number: Option<u64>)
    ensures
        number is Some <==> is_number_up_to(text@, u64::MAX as nat),
        number matches Some(n) ==> decimal_number(text@) == Some(n as nat),
{
    let len = text.unicode_len();
    if len == 0 {
        return None;
    }
    let mut value: u64 = 0;
    let mut fits: bool = true;
    let mut i: usize = 0;
    while i < len
        invariant
            i <= len,
            len == text@.len(),
            forall|k: int| 0 <= k < i ==> is_digit(#[trigger] text@[k]),
            fits ==> value == digits_value(text@.take(i as int)),
            !fits ==> digits_value(text@.take(i as int)) > u64::MAX,
        decreases len - i,
    {
        let c = text.get_char(i);
        if !('0' <= c && c <= '9') {
            assert(!is_digit(text@[i as int]));
            return None;
        }
        let d: u64 = (c as u32 - 48) as u64;
        proof {
            assert(text@.take(i + 1).drop_last() =~= text@.take(i as int));
        }
        if fits {
            if value > (u64::MAX - d) / 10 {
                fits = false;
            } else {
                value = value * 10 + d;
            }
        }
        i = i + 1;
    }
    assert(text@.take(len as int) =~= text@);
    if fits {
        Some(value)
    } else {
        None
    }
}

/// Whether two texts hold the same characters.
pub fn same_text(a: &str, b: &str) -> (same: bool)
    ensures
        same == (a@ == b@),
{
    a.to_owned() == b.to_owned()
}

/// One text after the other.
pub fn concat(a: &str, b: &str) -> (text: String)
    ensures
        text@ == a@ + b@,
{
    let mut text = a.to_owned();
    text.append(b);
    text
}

/// A text and a number after it.
pub fn numbered(before: &str, n: u64) -> (text: String)
    ensures
        text@ == before@ + decimal(n as nat),
{
    concat(before, decimal_text(n).as_str())
}

/// The position of the first slash, or the length where there is none.
pub open spec fn first_slash(s: Seq<char>) -> int
    decreases s.len(),
{
    if s.len() == 0 || s[0] == '/' {
        0
    } else {
        1 + first_slash(s.skip(1))
    }
}

/// What stands before the first slash, where there is a slash.
pub open spec fn before_slash(s: Seq<char>) -> Option<Seq<char>> {
    if s.contains('/') {
        Some(s.take(first_slash(s)))
    } else {
        None
    }
}

proof fn lemma_first_slash(s: Seq<char>, k: int)
    requires
        0 <= k <= s.len(),
        forall|i: int| 0 <= i < k ==> s[i] != '/',
        k < s.len() ==> s[k] == '/',
    ensures
        first_slash(s) == k,
    decreases s.len(),
{
    if k > 0 {
        let rest = s.skip(1);
        assert forall|i: int| 0 <= i < k - 1 implies rest[i] != '/' by {
            assert(rest[i] == s[i + 1]);
        }
        lemma_first_slash(rest, k - 1);
    }
}

/// The part of a text that stands before its first slash; `None` where the
/// text holds no slash.
pub fn text_before_slash(text: &str) -> (part: Option<&str>)
    ensures
        part is Some <==> before_slash(text@) is Some,
        part matches Some(p) ==> before_slash(text@) == Some(p@),
{
    let len = text.unicode_len();
    let mut i: usize = 0;
    while i < len
        invariant
            i <= len,
            len == text@.len(),
            forall|k: int| 0 <= k < i ==> text@[k] != '/',
        decreases len - i,
    {
        if text.get_char(i) == '/' {
            proof {
                lemma_first_slash(text@, i as int);
                assert(text@.contains('/'));
                assert(text@.subrange(0, i as int) =~= text@.take(i as int));
            }
            return Some(text.substring_char(0, i));
        }
        i = i + 1;
    }
    assert(!text@.contains('/'));
    None
}

/// Decimal notation has at least one character, and each is a digit.
pub proof fn lemma_decimal_digits(n: nat)
    ensures
        decimal(n).len() > 0,
        forall|i: int| 0 <= i < decimal(n).len() ==> is_digit(#[trigger] decimal(n)[i]),
    decreases n,
{
    if n >= 10 {
        lemma_decimal_digits(n / 10);
    }
}

/// Reading the decimal notation of a number gives the number back.
pub proof fn lemma_decimal_value(n: nat)
    ensures
        digits_value(decimal(n)) == n,
        decimal_number(decimal(n)) == Some(n),
    decreases n,
{
    lemma_decimal_digits(n);
    reveal_with_fuel(digits_value, 2);
    if n < 10 {
        assert(decimal(n).drop_last() =~= Seq::<char>::empty());
    } else {
        lemma_decimal_value(n / 10);
        assert(decimal(n).drop_last() =~= decimal(n / 10));
    }
}

/// Decimal notation is written digit by digit: a number with one more digit
/// is written as the number, and then the digit.
pub proof fn lemma_decimal_grows_by_digits(n: nat, d: nat)
    requires
        d < 10,
    ensures
        n == 0 ==> decimal(10 * n + d) == seq![(48 + d) as char],
        n > 0 ==> decimal(10 * n + d) == decimal(n).push((48 + d) as char),
        n > 0 ==> decimal(10 * n + d)[0] != '0',
        digits_value(decimal(n).push((48 + d) as char)) == 10 * n + d,
{
    lemma_decimal_value(n);
    let digits = decimal(n).push((48 + d) as char);
    assert(digits.drop_last() =~= decimal(n));
    if n > 0 {
        lemma_no_leading_zero(n);
        lemma_decimal_digits(n);
    }
}

proof fn lemma_no_leading_zero(n: nat)
    requires
        n > 0,
    ensures
        decimal(n)[0] != '0',
    decreases n,
{
    if n >= 10 {
        lemma_no_leading_zero(n / 10);
        lemma_decimal_digits(n / 10);
    }
}

/// A text is a number in decimal notation where it has digits, and nothing
/// else. Leading zeros do not count.
pub proof fn lemma_digits_make_numbers(s: Seq<char>)
    ensures
        decimal_number(s) is Some <==> s.len() > 0 && forall|i: int|
            0 <= i < s.len() ==> '0' <= #[trigger] s[i] <= '9',
        decimal_number(s) is Some ==> decimal_number(seq!['0'] + s) == decimal_number(s),
{
    if decimal_number(s) is Some {
        let longer = seq!['0'] + s;
        assert forall|i: int| 0 <= i < longer.len() implies is_digit(#[trigger] longer[i]) by {
            if i > 0 {
                assert(longer[i] == s[i - 1]);
            }
        }
        lemma_leading_zero(s);
    }
}

proof fn lemma_leading_zero(s: Seq<char>)
    ensures
        digits_value(seq!['0'] + s) == digits_value(s),
    decreases s.len(),
{
    let longer = seq!['0'] + s;
    if s.len() == 0 {
        assert(longer.drop_last() =~= s);
        assert(longer.last() == '0');
    } else {
        lemma_leading_zero(s.drop_last());
        assert(longer.drop_last() =~= seq!['0'] + s.drop_last());
    }
}

/// What stands before the first slash holds no slash, and is followed by one.
/// There is nothing only where there is no slash at all.
pub proof fn lemma_text_is_split_at_the_first_slash(s: Seq<char>, part: Seq<char>, rest: Seq<char>)
    requires
        !part.contains('/'),
    ensures
        before_slash(part + seq!['/'] + rest) == Some(part),
        before_slash(part) is None,
        before_slash(s) matches Some(p) ==> !p.contains('/') && p.len() < s.len() && s.take(
            p.len() as int,
        ) == p && s[p.len() as int] == '/',
{
    let whole = part + seq!['/'] + rest;
    let n = part.len() as int;
    assert forall|i: int| 0 <= i < n implies whole[i] != '/' by {
        assert(whole[i] == part[i]);
        assert(part.contains(part[i]));
    }
    assert(whole[n] == '/');
    lemma_first_slash(whole, n);
    assert(whole.take(n) =~= part);
    if s.contains('/') {
        lemma_slash_is_found(s);
        let p = s.take(first_slash(s));
        assert forall|i: int| 0 <= i < p.len() implies p[i] != '/' by {
            assert(p[i] == s[i]);
        }
    }
}

proof fn lemma_slash_is_found(s: Seq<char>)
    requires
        s.contains('/'),
    ensures
        0 <= first_slash(s) < s.len(),
        s[first_slash(s)] == '/',
        forall|i: int| 0 <= i < first_slash(s) ==> s[i] != '/',
    decreases s.len(),
{
    if s[0] != '/' {
        let rest = s.skip(1);
        let k = s.index_of('/');
        assert(rest[k - 1] == '/');
        lemma_slash_is_found(rest);
        assert forall|i: int| 0 <= i < first_slash(s) implies s[i] != '/' by {
            if i > 0 {
                assert(rest[i - 1] == s[i]);
            }
        }
        assert(rest[first_slash(rest)] == s[first_slash(rest) + 1]);
    }
}

} // verus!
