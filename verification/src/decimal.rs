//! Whole numbers in decimal digits: writing them and reading them back.

use vstd::prelude::*;
use vstd::string::*;

use crate::text::chars_of;

verus! {

// ---------------------------------------------------------------- models

/// The character of a digit between zero and nine.
pub open spec fn digit(d: nat) -> char {
    (48 + d) as char
}

/// Whether `c` is a decimal digit.
pub open spec fn is_digit(c: char) -> bool {
    '0' <= c <= '9'
}

/// What a digit is worth.
pub open spec fn digit_value(c: char) -> nat {
    (c as u32 - 48) as nat
}

/// `n` in decimal digits, without leading zeros.
pub open spec fn digits(n: nat) -> Seq<char>
    decreases n,
{
    if n < 10 {
        seq![digit(n)]
    } else {
        digits(n / 10).push(digit(n % 10))
    }
}

/// `n` in decimal digits, behind a minus sign when it is negative.
pub open spec fn signed_digits(n: int) -> Seq<char> {
    if n < 0 {
        seq!['-'] + digits((-n) as nat)
    } else {
        digits(n as nat)
    }
}

/// Whether `s` is made of digits alone, at least one of them.
pub open spec fn all_digits(s: Seq<char>) -> bool {
    s.len() > 0 && forall|i: int| 0 <= i < s.len() ==> is_digit(#[trigger] s[i])
}

/// What a row of digits is worth.
pub open spec fn value(s: Seq<char>) -> nat
    decreases s.len(),
{
    if s.len() == 0 {
        0
    } else {
        value(s.drop_last()) * 10 + digit_value(s.last())
    }
}

/// The number that a row of digits names.
pub open spec fn magnitude(s: Seq<char>) -> Option<nat> {
    if all_digits(s) {
        Some(value(s))
    } else {
        None
    }
}

/// The number that `s` names: digits, behind at most one plus sign.
pub open spec fn unsigned(s: Seq<char>) -> Option<nat> {
    if s.len() > 0 && s[0] == '+' {
        magnitude(s.drop_first())
    } else {
        magnitude(s)
    }
}

/// The number that `s` names: digits, behind at most one sign.
pub open spec fn signed(s: Seq<char>) -> Option<int> {
    if s.len() > 0 && s[0] == '-' {
        match magnitude(s.drop_first()) {
            Some(n) => Some(-(n as int)),
            None => None,
        }
    } else {
        match unsigned(s) {
            Some(n) => Some(n as int),
            None => None,
        }
    }
}

/// The number of at most `max` that `s` names.
pub open spec fn unsigned_up_to(s: Seq<char>, max: nat) -> Option<nat> {
    match unsigned(s) {
        Some(n) if n <= max => Some(n),
        _ => None,
    }
}

/// The 64-bit signed number that `s` names.
pub open spec fn signed_i64(s: Seq<char>) -> Option<int> {
    match signed(s) {
        Some(n) if i64::MIN <= n <= i64::MAX => Some(n),
        _ => None,
    }
}

// ---------------------------------------------------------------- lemmas

/// A row of digits is worth at least as much as any row it starts with.
proof fn lemma_value_grows(s: Seq<char>, k: int)
    requires
        0 <= k <= s.len(),
    ensures
        value(s.take(k)) <= value(s),
    decreases s.len(),
{
    if k == s.len() {
        assert(s.take(k) =~= s);
    } else {
        lemma_value_grows(s.drop_last(), k);
        assert(s.drop_last().take(k) =~= s.take(k));
    }
}

/// The digits of `n` are digits, and name `n`.
pub proof fn lemma_digits(n: nat)
    ensures
        all_digits(digits(n)),
        value(digits(n)) == n,
    decreases n,
{
    if n < 10 {
        assert(digits(n).drop_last() =~= Seq::empty());
        assert(value(Seq::empty()) == 0);
    } else {
        lemma_digits(n / 10);
        let s = digits(n);
        assert(s.drop_last() =~= digits(n / 10));
        assert forall|i: int| 0 <= i < s.len() implies is_digit(#[trigger] s[i]) by {
            if i < s.len() - 1 {
                assert(s[i] == digits(n / 10)[i]);
            }
        }
    }
}

/// Reading back the digits of `n` gives `n`.
pub proof fn lemma_digits_round_trip(n: nat)
    ensures
        unsigned(digits(n)) == Some(n),
        signed(digits(n)) == Some(n as int),
{
    lemma_digits(n);
    assert(is_digit(digits(n)[0]));
}

/// A character that is no digit does not occur in the digits of `n`.
pub proof fn lemma_digits_only(n: nat, c: char)
    requires
        !is_digit(c),
    ensures
        !digits(n).contains(c),
{
    lemma_digits(n);
    assert forall|i: int| 0 <= i < digits(n).len() implies digits(n)[i] != c by {
        assert(is_digit(digits(n)[i]));
    }
}

// ---------------------------------------------------------------- code

/// The character of a digit.
fn digit_char(d: u8) -> (c: char)
    requires
        d < 10,
    ensures
        c == digit(d as nat),
{
    (48u8 + d) as char
}

/// Appends the digits of `n` to `out`.
pub fn push_digits(out: &mut String, n: u64)
    ensures
        final(out)@ == old(out)@ + digits(n as nat),
    decreases n,
{
    if n >= 10 {
        push_digits(out, n / 10);
    }
    out.push(digit_char((n % 10) as u8));
}

/// `n` in decimal digits.
pub fn write_unsigned(n: u64) -> (out: String)
    ensures
        out@ == digits(n as nat),
{
    let mut out = String::new();
    push_digits(&mut out, n);
    out
}

/// `n` in decimal digits, behind a minus sign when it is negative.
pub fn write_signed(n: i64) -> (out: String)
    ensures
        out@ == signed_digits(n as int),
{
    let mut out = String::new();
    if n < 0 {
        out.push('-');
        let rest: u64 = (-(n + 1)) as u64 + 1;
        push_digits(&mut out, rest);
    } else {
        push_digits(&mut out, n as u64);
    }
    out
}

/// The number of at most `max` that the digits from `from` on name.
fn read_magnitude(chars: &Vec<char>, from: usize, max: u64) -> (n: Option<u64>)
    requires
        from <= chars@.len(),
    ensures
        match n {
            Some(n) => magnitude(chars@.skip(from as int)) == Some(n as nat) && n <= max,
            None => match magnitude(chars@.skip(from as int)) {
                Some(n) => n > max,
                None => true,
            },
        },
{
    let ghost s = chars@.skip(from as int);
    if from == chars.len() {
        return None;
    }
    let mut n: u64 = 0;
    let mut i: usize = from;
    assert(s.take(0) =~= Seq::empty());
    while i < chars.len()
        invariant
            from <= i <= chars@.len(),
            s == chars@.skip(from as int),
            n == value(s.take(i - from)),
            n <= max,
            forall|j: int| 0 <= j < i - from ==> is_digit(#[trigger] s[j]),
        decreases chars@.len() - i,
    {
        let c: char = chars[i];
        assert(s[i - from] == c);
        if !('0' <= c && c <= '9') {
            return None;
        }
        let d: u64 = (c as u32 - 48) as u64;
        proof {
            let t = s.take(i - from + 1);
            assert(t.drop_last() =~= s.take(i - from));
            assert(t.last() == c);
            lemma_value_grows(s, i - from + 1);
        }
        match n.checked_mul(10) {
            Some(tens) => match tens.checked_add(d) {
                Some(sum) => {
                    if sum > max {
                        return None;
                    }
                    n = sum;
                },
                None => {
                    return None;
                },
            },
            None => {
                return None;
            },
        }
        i = i + 1;
    }
    assert(s.take(s.len() as int) =~= s);
    Some(n)
}

/// The number of at most `max` that `s` names.
pub fn read_unsigned(s: &str, max: u64) -> (n: Option<u64>)
    ensures
        match n {
            Some(n) => unsigned_up_to(s@, max as nat) == Some(n as nat),
            None => unsigned_up_to(s@, max as nat) is None,
        },
{
    let chars = chars_of(s);
    assert(s@.skip(0) =~= s@);
    if chars.len() > 0 && chars[0] == '+' {
        assert(s@.skip(1) =~= s@.drop_first());
        read_magnitude(&chars, 1, max)
    } else {
        read_magnitude(&chars, 0, max)
    }
}

/// The 64-bit signed number that `s` names.
pub fn read_signed(s: &str) -> (n: Option<i64>)
    ensures
        match n {
            Some(n) => signed_i64(s@) == Some(n as int),
            None => signed_i64(s@) is None,
        },
{
    let chars = chars_of(s);
    if chars.len() > 0 && chars[0] == '-' {
        assert(s@.skip(1) =~= s@.drop_first());
        match read_magnitude(&chars, 1, 0x8000_0000_0000_0000) {
            Some(n) => {
                if n == 0x8000_0000_0000_0000 {
                    Some(i64::MIN)
                } else {
                    Some(-(n as i64))
                }
            },
            None => None,
        }
    } else {
        match read_unsigned(s, 0x7fff_ffff_ffff_ffff) {
            Some(n) => Some(n as i64),
            None => None,
        }
    }
}

// ---------------------------------------------------------------- laws

/// One more digit behind a number makes it ten times as large, and adds what the
/// digit is worth.
pub proof fn law_digits_count_in_tens(s: Seq<char>, d: nat)
    requires
        d < 10,
    ensures
        digit(d) as int == 48 + d,
        value(s.push(digit(d))) == 10 * value(s) + d,
        value(Seq::empty()) == 0,
        digits(d) == seq![digit(d)],
{
    assert(s.push(digit(d)).drop_last() =~= s);
}

/// A number in writing is made of digits, without a leading zero, and reads back
/// as itself; so does one behind a sign.
pub proof fn law_numbers_read_back(n: nat, z: int)
    ensures
        all_digits(digits(n)),
        n > 0 ==> digits(n)[0] != '0',
        unsigned(digits(n)) == Some(n),
        unsigned(seq!['+'] + digits(n)) == Some(n),
        signed(seq!['+'] + digits(n)) == Some(n as int),
        signed(seq!['-'] + digits(n)) == Some(-(n as int)),
        signed(signed_digits(z)) == Some(z),
        z >= 0 ==> signed_digits(z) == digits(z as nat),
        z < 0 ==> signed_digits(z) == seq!['-'] + digits((-z) as nat),
{
    lemma_digits_round_trip(n);
    lemma_digits(n);
    lemma_first_digit(n);
    assert((seq!['+'] + digits(n)).drop_first() =~= digits(n));
    assert((seq!['-'] + digits(n)).drop_first() =~= digits(n));
    if z < 0 {
        lemma_digits((-z) as nat);
        assert((seq!['-'] + digits((-z) as nat)).drop_first() =~= digits((-z) as nat));
    } else {
        lemma_digits_round_trip(z as nat);
    }
}

/// A number above zero starts with no zero.
proof fn lemma_first_digit(n: nat)
    ensures
        n > 0 ==> digits(n)[0] != '0',
    decreases n,
{
    if n >= 10 {
        lemma_first_digit(n / 10);
        lemma_digits(n / 10);
    }
}

/// Only digits, behind at most one sign, are a number: an empty text is none, nor
/// is one that holds anything else. A row of digits is worth what it says, with
/// leading zeros or without, and an unsigned number has no minus sign.
pub proof fn law_only_digits_are_a_number(s: Seq<char>, i: int)
    ensures
        unsigned(Seq::empty()) is None,
        signed(Seq::empty()) is None,
        all_digits(s) ==> unsigned(s) == Some(value(s)) && signed(s) == Some(value(s) as int),
        0 < i < s.len() && !is_digit(s[i]) ==> unsigned(s) is None && signed(s) is None,
        s.len() > 0 && !is_digit(s[0]) && s[0] != '+' ==> unsigned(s) is None,
        s.len() > 0 && !is_digit(s[0]) && s[0] != '+' && s[0] != '-' ==> signed(s) is None,
        s.len() == 1 && !is_digit(s[0]) ==> unsigned(s) is None && signed(s) is None,
{
    if 0 < i < s.len() {
        assert(s.drop_first()[i - 1] == s[i]);
    }
    if all_digits(s) {
        assert(is_digit(s[0]));
    }
}

/// A number that is too large is none.
pub proof fn law_numbers_have_bounds(s: Seq<char>, max: nat)
    ensures
        unsigned(s) matches Some(n) ==> unsigned_up_to(s, max) == (if n <= max {
            Some(n)
        } else {
            None::<nat>
        }),
        unsigned(s) is None ==> unsigned_up_to(s, max) is None,
        signed(s) matches Some(z) ==> signed_i64(s) == (if -0x8000_0000_0000_0000 <= z
            <= 0x7fff_ffff_ffff_ffff {
            Some(z)
        } else {
            None::<int>
        }),
        signed(s) is None ==> signed_i64(s) is None,
{
}

/// The ten digits are the characters from `0` to `9`, each worth one more than
/// the one before, and no other character is one.
pub proof fn law_the_ten_digits(c: char)
    ensures
        is_digit(c) <==> 48 <= c as int <= 57,
        is_digit(c) ==> digit_value(c) == c as int - 48,
        forall|s: Seq<char>| #[trigger]
            all_digits(s) <==> s.len() > 0 && forall|i: int|
                0 <= i < s.len() ==> 48 <= #[trigger] s[i] as int <= 57,
{
    assert forall|s: Seq<char>| #[trigger] all_digits(s) <==> s.len() > 0 && forall|i: int|
        0 <= i < s.len() ==> 48 <= #[trigger] s[i] as int <= 57 by {
        if s.len() > 0 && forall|i: int| 0 <= i < s.len() ==> 48 <= #[trigger] s[i] as int <= 57 {
            assert forall|i: int| 0 <= i < s.len() implies is_digit(#[trigger] s[i]) by {
                assert(48 <= s[i] as int <= 57);
            }
        }
    }
}

} // verus!
