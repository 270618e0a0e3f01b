//! Decimal numbers, read and printed.

use vstd::prelude::*;

use crate::text::{all_digits, chars, has_class, is_digit, CharClass};

verus! {

/// The value of a digit.
pub open spec fn digit_value(c: char) -> nat
    recommends
        is_digit(c),
{
    (c as u32 - '0' as u32) as nat
}

/// The number that a sequence of digits denotes.
pub open spec fn digits_value(s: Seq<char>) -> nat
    recommends
        all_digits(s),
    decreases s.len(),
{
    if s.len() == 0 {
        0
    } else {
        10 * digits_value(s.drop_last()) + digit_value(s.last())
    }
}

/// The digits of a number without the plus sign that may stand in front.
pub open spec fn unsigned(s: Seq<char>) -> Seq<char> {
    if s.len() > 0 && s[0] == '+' {
        s.skip(1)
    } else {
        s
    }
}

/// The number a text denotes: one or more digits, a plus sign in front allowed,
/// at most `max`.
pub open spec fn number(s: Seq<char>, max: nat) -> Option<nat> {
    let t = unsigned(s);
    if t.len() > 0 && all_digits(t) && digits_value(t) <= max {
        Some(digits_value(t))
    } else {
        None
    }
}

/// A longer number is no smaller.
proof fn lemma_digits_value_grows(s: Seq<char>, n: int)
    requires
        0 <= n <= s.len(),
    ensures
        digits_value(s.take(n)) <= digits_value(s),
    decreases s.len(),
{
    if n == s.len() {
        assert(s.take(n) =~= s);
    } else {
        lemma_digits_value_grows(s.drop_last(), n);
        assert(s.drop_last().take(n) =~= s.take(n));
    }
}

fn parse_number(s: &str, max: u64) -> (r: Option<u64>)
    ensures
        match r {
            Some(n) => number(s@, max as nat) == Some(n as nat),
            None => number(s@, max as nat) is None,
        },
{
    let v = chars(s);
    let n: usize = v.len();
    let from: usize = if n > 0 && v[0] == '+' {
        1
    } else {
        0
    };
    let ghost t = unsigned(s@);
    assert(t =~= v@.skip(from as int));
    if from == n {
        return None;
    }
    let mut acc: u64 = 0;
    let mut i: usize = from;
    while i < n
        invariant
            from <= i <= n,
            n == v@.len(),
            v@ == s@,
            t == v@.skip(from as int),
            t == unsigned(s@),
            acc <= max,
            acc as nat == digits_value(t.take(i - from)),
            forall|j: int| 0 <= j < i - from ==> is_digit(#[trigger] t[j]),
        decreases n - i,
    {
        let c = v[i];
        let ghost next = t.take(i + 1 - from);
        assert(t[i - from] == c);
        if !has_class(c, CharClass::Digit) {
            assert(!is_digit(t[i - from]));
            return None;
        }
        let d: u64 = (c as u32 - '0' as u32) as u64;
        assert(next.drop_last() =~= t.take(i - from));
        assert(digits_value(next) == 10 * acc + d);
        proof {
            lemma_digits_value_grows(t, i + 1 - from);
        }
        if acc > max / 10 {
            assert(10 * acc + d > max);
            return None;
        }
        let tens: u64 = acc * 10;
        if d > max - tens {
            return None;
        }
        acc = tens + d;
        i += 1;
    }
    assert(t.take(n - from) =~= t);
    Some(acc)
}

pub fn parse_u64(s: &str) -> (r: Option<u64>)
    ensures
        match r {
            Some(n) => number(s@, u64::MAX as nat) == Some(n as nat),
            None => number(s@, u64::MAX as nat) is None,
        },
{
    parse_number(s, u64::MAX)
}

pub fn parse_u32(s: &str) -> (r: Option<u32>)
    ensures
        match r {
            Some(n) => number(s@, u32::MAX as nat) == Some(n as nat),
            None => number(s@, u32::MAX as nat) is None,
        },
{
    match parse_number(s, u32::MAX as u64) {
        Some(n) => Some(n as u32),
        None => None,
    }
}

/// The number a text denotes, or zero.
pub open spec fn number_or_zero(s: Seq<char>) -> nat {
    match number(s, u64::MAX as nat) {
        Some(n) => n,
        None => 0,
    }
}

pub fn parse_or_zero(s: &str) -> (r: u64)
    ensures
        r == number_or_zero(s@),
{
    match parse_u64(s) {
        Some(n) => n,
        None => 0,
    }
}

/// The decimal digits of a number, without leading zeros.
pub open spec fn decimal(n: nat) -> Seq<char>
    decreases n,
{
    let last = ('0' as u32 + n % 10) as char;
    if n < 10 {
        seq![last]
    } else {
        decimal(n / 10).push(last)
    }
}

pub fn show(n: u64) -> (r: String)
    ensures
        r@ == decimal(n as nat),
    decreases n,
{
    let last: char = (48u8 + (n % 10) as u8) as char;
    let mut r = if n < 10 {
        String::new()
    } else {
        show(n / 10)
    };
    r.push(last);
    assert(r@ =~= decimal(n as nat));
    r
}

/// Reading a printed number gives the number back.
pub proof fn law_decimal_reads_back(n: nat, max: nat)
    requires
        n <= max,
    ensures
        number(decimal(n), max) == Some(n),
{
    lemma_decimal(n);
    assert(unsigned(decimal(n)) == decimal(n)) by {
        assert(is_digit(decimal(n)[0]));
    }
}

proof fn lemma_decimal(n: nat)
    ensures
        decimal(n).len() > 0,
        all_digits(decimal(n)),
        digits_value(decimal(n)) == n,
    decreases n,
{
    let last = ('0' as u32 + n % 10) as char;
    if n < 10 {
        assert(decimal(n) =~= seq![last]);
        assert(decimal(n).drop_last() =~= Seq::<char>::empty());
        assert(digits_value(Seq::<char>::empty()) == 0);
    } else {
        lemma_decimal(n / 10);
        assert(decimal(n).drop_last() =~= decimal(n / 10));
    }
}

/// A number above the limit is none, and what holds anything but digits, a plus sign
/// in front apart, is none either.
pub proof fn law_no_number(n: nat, max: nat, s: Seq<char>, i: int)
    ensures
        n > max ==> number(decimal(n), max) is None,
        0 <= i < s.len() && !is_digit(s[i]) && !(i == 0 && s[0] == '+') ==> number(s, max) is None,
        number(Seq::empty(), max) is None,
{
    lemma_decimal(n);
    assert(is_digit(decimal(n)[0]));
    assert(unsigned(decimal(n)) == decimal(n));
    if 0 <= i < s.len() && !is_digit(s[i]) && !(i == 0 && s[0] == '+') {
        let t = unsigned(s);
        if s[0] == '+' {
            assert(t[i - 1] == s[i]);
        } else {
            assert(t[i] == s[i]);
        }
    }
}

/// A plus sign in front of a number changes nothing.
pub proof fn law_plus_sign(n: nat, max: nat)
    requires
        n <= max,
    ensures
        number(seq!['+'] + decimal(n), max) == Some(n),
{
    lemma_decimal(n);
    assert((seq!['+'] + decimal(n)).skip(1) =~= decimal(n));
}

/// Each number has one printed form, and it has no leading zero.
pub proof fn law_decimal_unique(m: nat, n: nat)
    ensures
        decimal(m) == decimal(n) ==> m == n,
        n > 0 ==> decimal(n)[0] != '0',
        decimal(0) == seq!['0'],
{
    lemma_decimal(m);
    lemma_decimal(n);
    lemma_no_leading_zero(n);
    assert(decimal(0) =~= seq!['0']);
}

proof fn lemma_no_leading_zero(n: nat)
    ensures
        n > 0 ==> decimal(n)[0] != '0',
    decreases n,
{
    if n >= 10 {
        lemma_no_leading_zero(n / 10);
        lemma_decimal(n / 10);
        assert(decimal(n)[0] == decimal(n / 10)[0]);
    } else if n > 0 {
        assert(decimal(n)[0] == ('0' as u32 + n % 10) as char);
    }
}

/// A printed number that fits in 64 bits is read as itself, any other text without a
/// number as zero.
pub proof fn law_number_or_zero(n: nat, s: Seq<char>)
    ensures
        n <= u64::MAX ==> number_or_zero(decimal(n)) == n,
        n > u64::MAX ==> number_or_zero(decimal(n)) == 0,
        number(s, u64::MAX as nat) is None ==> number_or_zero(s) == 0,
{
    if n <= u64::MAX {
        law_decimal_reads_back(n, u64::MAX as nat);
    } else {
        law_no_number(n, u64::MAX as nat, s, -1);
    }
}

/// A printed number is made of digits.
pub proof fn law_decimal_digits(n: nat)
    ensures
        decimal(n).len() > 0,
        forall|i: int| 0 <= i < decimal(n).len() ==> is_digit(#[trigger] decimal(n)[i]),
{
    lemma_decimal(n);
}

} // verus!
