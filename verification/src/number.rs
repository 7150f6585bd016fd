//! Numbers as text: decimal and hexadecimal digits, and the reading of unsigned numbers.
use vstd::prelude::*;

use crate::text;
use crate::text::chars_of;

verus! {

/// The digit for a value below sixteen, in lower case.
pub open spec fn digit(n: int) -> char {
    if n < 10 {
        (48 + n) as char
    } else {
        (87 + n) as char
    }
}

/// The digit for a value below sixteen, in lower case.
pub fn digit_char(n: u8) -> (r: char)
    requires
        n < 16,
    ensures
        r == digit(n as int),
{
    if n < 10 {
        (48 + n) as char
    } else {
        (87 + n) as char
    }
}

/// A number in decimal digits, without leading zeros.
pub open spec fn decimal(n: nat) -> Seq<char>
    decreases n,
{
    if n < 10 {
        seq![digit(n as int)]
    } else {
        decimal(n / 10).push(digit((n % 10) as int))
    }
}

/// A number in decimal digits, without leading zeros.
pub fn decimal_text(n: u64) -> (r: String)
    ensures
        r@ == decimal(n as nat),
    decreases n,
{
    if n < 10 {
        let mut r: String = String::new();
        r.push(digit_char(n as u8));
        assert(r@ =~= seq![digit(n as int)]);
        r
    } else {
        let mut r: String = decimal_text(n / 10);
        r.push(digit_char((n % 10) as u8));
        r
    }
}

/// A number in lower-case hexadecimal digits, without leading zeros.
pub open spec fn hexadecimal(n: nat) -> Seq<char>
    decreases n,
{
    if n < 16 {
        seq![digit(n as int)]
    } else {
        hexadecimal(n / 16).push(digit((n % 16) as int))
    }
}

/// A number in lower-case hexadecimal digits, without leading zeros.
pub fn hexadecimal_text(n: u64) -> (r: String)
    ensures
        r@ == hexadecimal(n as nat),
    decreases n,
{
    if n < 16 {
        let mut r: String = String::new();
        r.push(digit_char(n as u8));
        assert(r@ =~= seq![digit(n as int)]);
        r
    } else {
        let mut r: String = hexadecimal_text(n / 16);
        r.push(digit_char((n % 16) as u8));
        r
    }
}

/// Whether a character is a decimal digit.
pub open spec fn is_digit(c: char) -> bool {
    '0' <= c <= '9'
}

/// Whether a text is made of decimal digits, and of at least one.
pub open spec fn all_digits(s: Seq<char>) -> bool {
    s.len() > 0 && forall|i: int| 0 <= i < s.len() ==> is_digit(#[trigger] s[i])
}

/// The number that decimal digits write.
pub open spec fn digits_value(s: Seq<char>) -> nat
    decreases s.len(),
{
    if s.len() == 0 {
        0
    } else {
        (digits_value(s.drop_last()) * 10 + (s.last() as u32 - 48)) as nat
    }
}

/// The number that decimal digits write, where there are only digits and it is at most `max`.
pub open spec fn digits_within(s: Seq<char>, max: nat) -> Option<nat> {
    if all_digits(s) && digits_value(s) <= max {
        Some(digits_value(s))
    } else {
        None
    }
}

/// A number of at most `max`: decimal digits, after at most one plus sign.
pub open spec fn unsigned_within(s: Seq<char>, max: nat) -> Option<nat> {
    if s.len() > 0 && s[0] == '+' {
        digits_within(s.skip(1), max)
    } else {
        digits_within(s, max)
    }
}

/// More digits never write a smaller number.
proof fn lemma_digits_grow(s: Seq<char>, k: int)
    requires
        0 <= k <= s.len(),
        forall|i: int| 0 <= i < s.len() ==> is_digit(#[trigger] s[i]),
    ensures
        digits_value(s.take(k)) <= digits_value(s),
    decreases s.len(),
{
    if k < s.len() {
        assert(is_digit(s[s.len() - 1]));
        let shorter = s.drop_last();
        assert forall|i: int| 0 <= i < shorter.len() implies is_digit(#[trigger] shorter[i]) by {
            assert(is_digit(s[i]));
        }
        lemma_digits_grow(shorter, k);
        assert(shorter.take(k) =~= s.take(k));
    } else {
        assert(s.take(k) =~= s);
    }
}

/// The number that the digits of `text` from `from` on write, up to `max`.
pub fn read_digits(text: &Vec<char>, from: usize, max: u64) -> (r: Option<u64>)
    requires
        from <= text@.len(),
    ensures
        match r {
            Some(n) => digits_within(text@.skip(from as int), max as nat) == Some(n as nat),
            None => digits_within(text@.skip(from as int), max as nat) is None,
        },
{
    let ghost all = text@.skip(from as int);
    if from == text.len() {
        return None;
    }
    let mut i: usize = from;
    let mut value: u64 = 0;
    assert(all.take(0) =~= Seq::<char>::empty());
    while i < text.len()
        invariant
            from <= i <= text@.len(),
            all == text@.skip(from as int),
            forall|j: int| 0 <= j < i - from ==> is_digit(#[trigger] all[j]),
            value == digits_value(all.take(i - from)),
            value <= max,
        decreases text@.len() - i,
    {
        let c: char = text[i];
        assert(all[i - from] == c);
        assert(all.take(i + 1 - from).drop_last() =~= all.take(i - from));
        assert(all.take(i + 1 - from).last() == c);
        if !('0' <= c && c <= '9') {
            return None;
        }
        let d: u64 = (c as u32) as u64 - 48;
        if value > max / 10 || value * 10 > max - d.min(max) || d > max {
            proof {
                assert(digits_value(all.take(i + 1 - from)) > max);
                if all_digits(all) {
                    lemma_digits_grow(all, i + 1 - from);
                }
            }
            return None;
        }
        value = value * 10 + d;
        i = i + 1;
    }
    assert(all.take(i - from) =~= all);
    Some(value)
}

/// A number of at most `max`: decimal digits, after at most one plus sign.
pub fn parse_unsigned(s: &str, max: u64) -> (r: Option<u64>)
    ensures
        match r {
            Some(n) => unsigned_within(s@, max as nat) == Some(n as nat),
            None => unsigned_within(s@, max as nat) is None,
        },
{
    let text: Vec<char> = chars_of(s);
    assert(s@.skip(0) =~= s@);
    if text.len() > 0 && text[0] == '+' {
        read_digits(&text, 1, max)
    } else {
        read_digits(&text, 0, max)
    }
}

/// The digits of a number read back as the number. There is no zero before them.
pub proof fn numbers_read_back(n: nat)
    ensures
        all_digits(decimal(n)),
        digits_value(decimal(n)) == n,
        n > 0 ==> decimal(n)[0] != '0',
        n < 10 ==> decimal(n).len() == 1,
        10 <= n < 100 ==> decimal(n).len() == 2,
        100 <= n < 1000 ==> decimal(n).len() == 3,
    decreases n,
{
    if n >= 10 {
        numbers_read_back(n / 10);
        let before = decimal(n / 10);
        let last = digit((n % 10) as int);
        assert(decimal(n).drop_last() =~= before);
        assert(decimal(n)[0] == before[0]);
        assert forall|i: int| 0 <= i < decimal(n).len() implies is_digit(
            #[trigger] decimal(n)[i],
        ) by {
            if i < before.len() {
                assert(decimal(n)[i] == before[i]);
            }
        }
    } else {
        let d = decimal(n);
        assert(d.drop_last() =~= Seq::<char>::empty());
        assert(digits_value(d.drop_last()) == 0);
    }
}

/// A number is read from its digits up to the greatest one that is allowed, and no more.
pub proof fn numbers_are_read_within_their_bound(n: nat, max: nat, s: Seq<char>)
    ensures
        n <= max ==> digits_within(decimal(n), max) == Some(n) && unsigned_within(decimal(n), max)
            == Some(n),
        n > max ==> digits_within(decimal(n), max) is None,
        digits_within(s, max) is Some ==> digits_within(s, max)->0 <= max && s.len() > 0
            && forall|i: int| 0 <= i < s.len() ==> '0' <= (#[trigger] s[i]) <= '9',
        digits_within(seq!['+'] + s, max) is None,
        unsigned_within(seq!['+'] + s, max) == digits_within(s, max),
{
    numbers_read_back(n);
    assert(is_digit(decimal(n)[0]));
    assert((seq!['+'] + s)[0] == '+');
    assert(!is_digit('+'));
    assert((seq!['+'] + s).skip(1) =~= s);
    if digits_within(s, max) is Some {
        assert forall|i: int| 0 <= i < s.len() implies '0' <= (#[trigger] s[i]) <= '9' by {
            assert(is_digit(s[i]));
        }
    }
}

/// A digit stands for its value: zero to nine, then the small letters.
pub proof fn digits_stand_for_their_value(n: int)
    requires
        0 <= n < 16,
    ensures
        n < 10 ==> '0' <= digit(n) <= '9' && digit(n) as int - '0' as int == n,
        n >= 10 ==> 'a' <= digit(n) <= 'f' && digit(n) as int - 'a' as int == n - 10,
{
}

} // verus!
