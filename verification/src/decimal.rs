//! Decimal numerals: printing a number and reading one back.

use vstd::prelude::*;
use vstd::string::*;

use crate::text::{slice_of, string_of};

verus! {

/// The character of a digit below ten.
pub open spec fn digit(d: nat) -> char {
    (48 + d) as char
}

/// The decimal numeral of `n`, without leading zeros.
pub open spec fn decimal(n: nat) -> Seq<char>
    decreases n,
{
    if n < 10 {
        seq![digit(n)]
    } else {
        decimal(n / 10).push(digit(n % 10))
    }
}

/// A decimal digit.
pub open spec fn is_digit(c: char) -> bool {
    '0' <= c <= '9'
}

/// Nothing but decimal digits.
pub open spec fn all_digits(s: Seq<char>) -> bool {
    forall|i: int| 0 <= i < s.len() ==> is_digit(#[trigger] s[i])
}

/// The number that a sequence of decimal digits stands for.
pub open spec fn numeral_value(s: Seq<char>) -> nat
    decreases s.len(),
{
    if s.len() == 0 {
        0
    } else {
        numeral_value(s.drop_last()) * 10 + (s.last() as nat - 48) as nat
    }
}

/// `s` without a leading plus sign.
pub open spec fn unsigned(s: Seq<char>) -> Seq<char> {
    if s.len() > 0 && s[0] == '+' {
        s.skip(1)
    } else {
        s
    }
}

/// The number that `s` stands for, read as an unsigned integer of at most
/// `max`: one or more decimal digits, with at most one plus sign before them.
pub open spec fn parsed(s: Seq<char>, max: nat) -> Option<nat> {
    let digits = unsigned(s);
    if digits.len() > 0 && all_digits(digits) && numeral_value(digits) <= max {
        Some(numeral_value(digits))
    } else {
        None
    }
}

/// Reading a printed number gives the number back.
pub proof fn decimal_reads_back(n: nat, max: nat)
    requires
        n <= max,
    ensures
        parsed(decimal(n), max) == Some(n),
{
    lemma_decimal(n);
}

pub(crate) proof fn lemma_decimal(n: nat)
    ensures
        decimal(n).len() > 0,
        all_digits(decimal(n)),
        numeral_value(decimal(n)) == n,
    decreases n,
{
    if n < 10 {
        assert(seq![digit(n)].drop_last() =~= Seq::empty());
        assert(numeral_value(seq![digit(n)].drop_last()) == 0);
    } else {
        lemma_decimal(n / 10);
        let s = decimal(n);
        assert(s.drop_last() =~= decimal(n / 10));
        assert forall|i: int| 0 <= i < s.len() implies is_digit(#[trigger] s[i]) by {
            if i < s.len() - 1 {
                assert(is_digit(decimal(n / 10)[i]));
            }
        }
    }
}

/// A longer numeral stands for no smaller a number.
proof fn lemma_numeral_prefix(s: Seq<char>, k: int)
    requires
        0 <= k <= s.len(),
        all_digits(s),
    ensures
        numeral_value(s.take(k)) <= numeral_value(s),
    decreases s.len(),
{
    if k == s.len() {
        assert(s.take(k) =~= s);
    } else {
        let t = s.drop_last();
        assert forall|i: int| 0 <= i < t.len() implies is_digit(#[trigger] t[i]) by {
            assert(is_digit(s[i]));
        }
        lemma_numeral_prefix(t, k);
        assert(t.take(k) =~= s.take(k));
    }
}

/// The decimal numeral of `n`.
pub fn decimal_string(n: u64) -> (r: String)
    ensures
        r@ == decimal(n as nat),
{
    let mut reversed: Vec<char> = Vec::new();
    let mut rest: u64 = n;
    while rest >= 10
        invariant
            decimal(n as nat) == decimal(rest as nat) + reversed@.reverse(),
        decreases rest,
    {
        let ghost before = reversed@;
        let ghost r = rest;
        reversed.push((48 + (rest % 10) as u8) as char);
        rest = rest / 10;
        assert(reversed@.reverse() =~= seq![digit((r % 10) as nat)] + before.reverse());
        assert(decimal(r as nat) == decimal(rest as nat).push(digit((r % 10) as nat)));
        assert(decimal(n as nat) =~= decimal(rest as nat) + reversed@.reverse());
    }
    reversed.push((48 + rest as u8) as char);
    let mut out: Vec<char> = Vec::new();
    let mut i: usize = reversed.len();
    while i > 0
        invariant
            i <= reversed@.len(),
            out@ == reversed@.reverse().take(reversed@.len() - i),
        decreases i,
    {
        i -= 1;
        out.push(reversed[i]);
        assert(out@ =~= reversed@.reverse().take(reversed@.len() - i));
    }
    assert(out@ =~= reversed@.reverse());
    assert(out@ =~= decimal(n as nat));
    string_of(&out)
}

/// The unsigned integer that `s` stands for, or `None` where it stands for
/// none or for one that is too large.
pub fn parse_usize(s: &[char]) -> (r: Option<usize>)
    ensures
        match r {
            Some(n) => parsed(s@, usize::MAX as nat) == Some(n as nat),
            None => parsed(s@, usize::MAX as nat) is None,
        },
{
    let digits: Vec<char> = if s.len() > 0 && s[0] == '+' {
        slice_of(s, 1, s.len())
    } else {
        slice_of(s, 0, s.len())
    };
    assert(s@.len() > 0 ==> s@.subrange(1, s@.len() as int) =~= s@.skip(1));
    assert(s@.subrange(0, s@.len() as int) =~= s@);
    if digits.len() == 0 {
        return None;
    }
    let mut value: usize = 0;
    let mut i: usize = 0;
    assert(digits@.take(0) =~= Seq::empty());
    while i < digits.len()
        invariant
            i <= digits@.len(),
            digits@ == unsigned(s@),
            forall|j: int| 0 <= j < i ==> is_digit(#[trigger] digits@[j]),
            value == numeral_value(digits@.take(i as int)),
        decreases digits@.len() - i,
    {
        let c: char = digits[i];
        if !('0' <= c && c <= '9') {
            assert(!is_digit(digits@[i as int]));
            return None;
        }
        let d: usize = (c as u8 - 48) as usize;
        proof {
            let t = digits@.take(i + 1);
            assert(t.drop_last() =~= digits@.take(i as int));
            assert(t.last() == c);
            if all_digits(digits@) {
                lemma_numeral_prefix(digits@, i + 1);
            }
        }
        let tens: usize = match value.checked_mul(10) {
            Some(v) => v,
            None => {
                return None;
            },
        };
        value = match tens.checked_add(d) {
            Some(v) => v,
            None => {
                return None;
            },
        };
        i += 1;
    }
    assert(digits@.take(i as int) =~= digits@);
    Some(value)
}

/// The decimal numeral of an integer, with a minus sign where it is negative.
pub open spec fn signed_decimal(n: int) -> Seq<char> {
    if n < 0 {
        seq!['-'] + decimal((-n) as nat)
    } else {
        decimal(n as nat)
    }
}

/// The decimal numeral of `n`, with a minus sign where it is negative.
pub fn signed_string(n: i32) -> (r: String)
    ensures
        r@ == signed_decimal(n as int),
{
    if n < 0 {
        let mut out = String::new();
        out.push('-');
        out.append(decimal_string((-(n as i64)) as u64).as_str());
        assert(out@ =~= signed_decimal(n as int));
        out
    } else {
        decimal_string(n as u64)
    }
}

// ---- Laws ----

/// Printing a numeral that was read gives it back, where it has no needless
/// zero at its start.
pub proof fn a_numeral_prints_back(s: Seq<char>)
    requires
        s.len() > 0,
        forall|i: int| 0 <= i < s.len() ==> '0' <= #[trigger] s[i] <= '9',
        s[0] != '0' || s.len() == 1,
    ensures
        decimal(numeral_value(s)) == s,
        s.len() > 1 ==> numeral_value(s) >= 10,
    decreases s.len(),
{
    let d = (s.last() as nat - 48) as nat;
    let t = s.drop_last();
    assert('0' <= s[s.len() - 1] <= '9');
    assert(digit(d) == s.last());
    if s.len() == 1 {
        assert(t =~= Seq::empty());
        assert(numeral_value(t) == 0);
        assert(s =~= seq![digit(d)]);
    } else {
        a_numeral_prints_back(t);
        let v = numeral_value(t);
        assert(v >= 1) by {
            if t.len() == 1 {
                assert(t.drop_last() =~= Seq::empty());
                assert(numeral_value(t.drop_last()) == 0);
                assert(t[0] == s[0]);
            }
        }
        assert((v * 10 + d) / 10 == v && (v * 10 + d) % 10 == d);
        assert(s =~= t.push(s.last()));
    }
}

/// A number is printed digit by digit, the highest first: below ten it is one
/// digit, and a digit more stands for ten times the number and that digit.
pub proof fn a_number_is_printed_digit_by_digit(n: nat, d: nat)
    requires
        d < 10,
    ensures
        decimal(d).len() == 1,
        decimal(d)[0] as int == '0' as int + d,
        n > 0 ==> decimal(n * 10 + d) == decimal(n) + decimal(d),
{
    if n > 0 {
        assert((n * 10 + d) / 10 == n && (n * 10 + d) % 10 == d);
        assert(decimal(n).push(digit(d)) =~= decimal(n) + decimal(d));
    }
}

/// A printed number has no needless zero at its start and nothing but digits.
pub proof fn a_numeral_is_plain(n: nat)
    ensures
        decimal(n).len() > 0,
        forall|i: int| 0 <= i < decimal(n).len() ==> '0' <= #[trigger] decimal(n)[i] <= '9',
        decimal(n)[0] == '0' ==> n == 0,
    decreases n,
{
    lemma_decimal(n);
    assert forall|i: int| 0 <= i < decimal(n).len() implies '0' <= #[trigger] decimal(n)[i] <= '9' by {
        assert(is_digit(decimal(n)[i]));
    }
    if n >= 10 {
        a_numeral_is_plain(n / 10);
        assert(decimal(n)[0] == decimal(n / 10)[0]);
    }
}

/// Zeros at the start of a numeral make no difference to its value.
pub proof fn leading_zeros_count_for_nothing(s: Seq<char>)
    ensures
        numeral_value(seq!['0'] + s) == numeral_value(s),
    decreases s.len(),
{
    let t = seq!['0'] + s;
    if s.len() == 0 {
        assert(t =~= seq!['0']);
        assert(t.drop_last() =~= Seq::empty());
        assert(numeral_value(t.drop_last()) == 0);
    } else {
        leading_zeros_count_for_nothing(s.drop_last());
        assert(t.drop_last() =~= seq!['0'] + s.drop_last());
        assert(t.last() == s.last());
    }
}

/// A number is read where there is nothing but digits, at least one, behind at
/// most one plus sign, and its value is not too large.
pub proof fn only_numerals_are_read(s: Seq<char>, max: nat)
    ensures
        parsed(seq!['+'] + s, max) == if s.len() > 0 && s[0] == '+' {
            None
        } else {
            parsed(s, max)
        },
        s.len() == 0 ==> parsed(s, max) is None,
        s.len() > 0 && s[0] != '+' ==> (parsed(s, max) is Some <==> {
            &&& forall|i: int| 0 <= i < s.len() ==> '0' <= #[trigger] s[i] <= '9'
            &&& numeral_value(s) <= max
        }),
        s.len() > 0 && s[0] != '+' && parsed(s, max) is Some ==> parsed(s, max) == Some(
            numeral_value(s),
        ),
{
    assert((seq!['+'] + s).skip(1) =~= s);
    if s.len() > 0 && s[0] == '+' {
        assert(!is_digit(s[0]));
    }
    if s.len() > 0 && all_digits(s) {
        assert forall|i: int| 0 <= i < s.len() implies '0' <= #[trigger] s[i] <= '9' by {
            assert(is_digit(s[i]));
        }
    }
}

/// A negative number is printed as a minus sign and its opposite.
pub proof fn a_minus_sign_marks_the_negative(n: nat)
    ensures
        signed_decimal(n as int) == decimal(n),
        n > 0 ==> signed_decimal(-(n as int)) == seq!['-'] + decimal(n),
{
}

// ---- What the functions give ----

/// A printed number is its plain numeral, and reads back as the number.
pub proof fn printing_and_reading_agree(
    n: u64,
    printed: String,
    signed: i32,
    signed_printed: String,
    chars: &[char],
    read: Option<usize>,
)
    requires
        call_ensures(decimal_string, (n,), printed),
        call_ensures(signed_string, (signed,), signed_printed),
        call_ensures(parse_usize, (chars,), read),
    ensures
        numeral_value(printed@) == n,
        printed@.len() > 0,
        forall|i: int| 0 <= i < printed@.len() ==> '0' <= #[trigger] printed@[i] <= '9',
        printed@[0] == '0' ==> n == 0,
        signed >= 0 ==> signed_printed@ == decimal(signed as nat),
        signed < 0 ==> signed_printed@ == seq!['-'] + decimal((-signed) as nat),
        chars@.len() > 0 && chars@[0] != '+' ==> (read is Some <==> {
            &&& forall|i: int| 0 <= i < chars@.len() ==> '0' <= #[trigger] chars@[i] <= '9'
            &&& numeral_value(chars@) <= usize::MAX
        }),
        chars@.len() > 0 && chars@[0] != '+' ==> (read matches Some(value) ==> value
            == numeral_value(chars@)),
        chars@.len() == 0 ==> read is None,
{
    lemma_decimal(n as nat);
    a_numeral_is_plain(n as nat);
    only_numerals_are_read(chars@, usize::MAX as nat);
}

} // verus!
