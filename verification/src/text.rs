//! Text: comparison with literals, and numbers in decimal notation.

use vstd::prelude::*;

use crate::seqs::{lemma_take_one_more, views};

verus! {

/// True if the two texts are the same.
pub fn same_text(a: &str, b: &str) -> (r: bool)
    ensures
        r == (a@ == b@),
{
    a.to_owned() == b.to_owned()
}

/// True if one of the texts is `text`.
pub fn contains_text(texts: &[String], text: &str) -> (r: bool)
    ensures
        r == views(texts@).contains(text@),
{
    let mut i: usize = 0;
    while i < texts.len()
        invariant
            0 <= i <= texts@.len(),
            forall|j: int| 0 <= j < i ==> (#[trigger] views(texts@)[j]) != text@,
        decreases texts@.len() - i,
    {
        assert(views(texts@)[i as int] == texts@[i as int]@);
        if same_text(texts[i].as_str(), text) {
            return true;
        }
        i = i + 1;
    }
    false
}

pub open spec fn is_digit(c: char) -> bool {
    '0' <= c <= '9'
}

pub open spec fn digit_value(c: char) -> int {
    c as int - '0' as int
}

/// `n` in decimal notation, without leading zeros.
pub open spec fn decimal(n: nat) -> Seq<char>
    decreases n,
{
    let digit = (n % 10 + '0' as int) as char;
    if n < 10 {
        seq![digit]
    } else {
        decimal(n / 10).push(digit)
    }
}

/// The number that a row of digits stands for.
pub open spec fn digits_value(s: Seq<char>) -> int
    decreases s.len(),
{
    if s.len() == 0 {
        0
    } else {
        digits_value(s.drop_last()) * 10 + digit_value(s.last())
    }
}

pub open spec fn all_digits(s: Seq<char>) -> bool {
    forall|i: int| 0 <= i < s.len() ==> is_digit(#[trigger] s[i])
}

/// The digits of an unsigned number: one `+` may stand before them.
pub open spec fn unsigned_digits(s: Seq<char>) -> Seq<char> {
    if s.len() > 0 && s[0] == '+' {
        s.drop_first()
    } else {
        s
    }
}

/// The unsigned number that a text spells, if it spells one: an optional `+`, then digits and
/// nothing else.
pub open spec fn unsigned_number(s: Seq<char>) -> Option<int> {
    let digits = unsigned_digits(s);
    if digits.len() > 0 && all_digits(digits) {
        Some(digits_value(digits))
    } else {
        None
    }
}

fn digit_text(d: u64) -> (r: &'static str)
    requires
        d < 10,
    ensures
        r@ == seq![(d + '0' as int) as char],
{
    proof {
        reveal_strlit("0");
        reveal_strlit("1");
        reveal_strlit("2");
        reveal_strlit("3");
        reveal_strlit("4");
        reveal_strlit("5");
        reveal_strlit("6");
        reveal_strlit("7");
        reveal_strlit("8");
        reveal_strlit("9");
    }
    let r = match d {
        0 => "0",
        1 => "1",
        2 => "2",
        3 => "3",
        4 => "4",
        5 => "5",
        6 => "6",
        7 => "7",
        8 => "8",
        _ => "9",
    };
    assert(r@ =~= seq![(d + '0' as int) as char]);
    r
}

/// `n` in decimal notation.
pub fn decimal_text(n: u64) -> (r: String)
    ensures
        r@ == decimal(n as nat),
    decreases n,
{
    if n < 10 {
        digit_text(n).to_owned()
    } else {
        let mut r = decimal_text(n / 10);
        r.append(digit_text(n % 10));
        proof {
            assert(r@ =~= decimal((n / 10) as nat).push((n % 10 + '0' as int) as char));
        }
        r
    }
}

/// The unsigned number that `s` spells, if it spells one of at most `max`.
pub fn parse_unsigned(s: &str, max: u64) -> (r: Option<u64>)
    ensures
        r is Some <==> (unsigned_number(s@) matches Some(n) && n <= max),
        r matches Some(n) ==> unsigned_number(s@) == Some(n as int),
{
    let len: usize = s.unicode_len();
    let start: usize = if len > 0 && s.get_char(0) == '+' {
        1
    } else {
        0
    };
    let ghost digits = unsigned_digits(s@);
    assert(digits =~= s@.skip(start as int));
    if start == len {
        return None;
    }
    let mut value: u64 = 0;
    let mut i: usize = start;
    assert(digits.take(0) =~= Seq::<char>::empty());
    while i < len
        invariant
            len == s@.len(),
            start <= i <= len,
            digits == s@.skip(start as int),
            digits == unsigned_digits(s@),
            digits.len() > 0,
            all_digits(digits.take(i - start)),
            value == digits_value(digits.take(i - start)),
            value <= max,
        decreases len - i,
    {
        let c = s.get_char(i);
        let ghost k = i - start;
        assert(digits[k] == c);
        proof {
            lemma_take_one_more(digits, k);
        }
        if c < '0' || c > '9' {
            return None;
        }
        let digit: u64 = c as u64 - 48;
        proof {
            assert forall|j: int| 0 <= j < k + 1 implies is_digit(#[trigger] digits.take(k + 1)[j]) by {
                if j < k {
                    assert(digits.take(k)[j] == digits.take(k + 1)[j]);
                }
            }
            lemma_prefix_value(digits, k + 1);
        }
        if value > max / 10 || digit > max - value * 10 {
            return None;
        }
        value = value * 10 + digit;
        i = i + 1;
    }
    assert(digits.take(len - start) =~= digits);
    Some(value)
}

/// Further digits never make a number smaller.
proof fn lemma_prefix_value(s: Seq<char>, k: int)
    requires
        0 <= k <= s.len(),
    ensures
        all_digits(s) ==> digits_value(s.take(k)) <= digits_value(s),
        all_digits(s) ==> 0 <= digits_value(s.take(k)),
    decreases s.len() - k, k,
{
    if all_digits(s) {
        if k < s.len() {
            lemma_take_one_more(s, k);
            lemma_prefix_value(s, k + 1);
            lemma_value_not_negative(s.take(k));
        } else {
            assert(s.take(k) =~= s);
            lemma_value_not_negative(s);
        }
    }
}

proof fn lemma_value_not_negative(s: Seq<char>)
    ensures
        all_digits(s) ==> 0 <= digits_value(s),
    decreases s.len(),
{
    if s.len() > 0 && all_digits(s) {
        assert(all_digits(s.drop_last()));
        lemma_value_not_negative(s.drop_last());
        assert(is_digit(s.last()));
    }
}

/// Reading a number back from its decimal notation gives the number.
pub proof fn decimal_reads_back(n: nat)
    ensures
        unsigned_number(decimal(n)) == Some(n as int),
{
    lemma_decimal_digits(n);
    assert(decimal(n).len() > 0);
    assert(is_digit(decimal(n)[0]));
}

proof fn lemma_decimal_digits(n: nat)
    ensures
        decimal(n).len() > 0,
        all_digits(decimal(n)),
        digits_value(decimal(n)) == n,
    decreases n,
{
    let digit = (n % 10 + '0' as int) as char;
    assert(is_digit(digit));
    assert(digit_value(digit) == n % 10);
    if n < 10 {
        assert(seq![digit].drop_last() =~= Seq::<char>::empty());
        assert(digits_value(Seq::<char>::empty()) == 0);
        assert(seq![digit].last() == digit);
    } else {
        lemma_decimal_digits(n / 10);
        assert(decimal(n / 10).push(digit).drop_last() =~= decimal(n / 10));
    }
}

/// A text spells a number digit by digit: one more digit makes it ten times as much and adds the
/// digit, anything else makes it no number at all.
pub proof fn numbers_are_read_digit_by_digit(s: Seq<char>, c: char)
    ensures
        unsigned_number(Seq::empty()) is None,
        unsigned_number(seq!['+']) is None,
        '0' <= c <= '9' ==> unsigned_number(seq![c]) == Some(c as int - 48),
        unsigned_number(s) matches Some(n) ==> if '0' <= c <= '9' {
            unsigned_number(s.push(c)) == Some(10 * n + (c as int - 48))
        } else {
            unsigned_number(s.push(c)) is None
        },
        s.len() > 0 && s[0] != '+' ==> unsigned_number(seq!['+'] + s) == unsigned_number(s),
        s.len() > 0 && s[0] == '+' ==> unsigned_number(seq!['+'] + s) is None,
        s.len() > 0 && s != seq!['+'] && unsigned_number(s) is None ==> unsigned_number(s.push(c))
            is None,
{
    let none = Seq::<char>::empty();
    assert(unsigned_digits(seq!['+']) =~= none);
    if '0' <= c <= '9' {
        assert(unsigned_digits(seq![c]) =~= seq![c]);
        assert(seq![c].drop_last() =~= none);
        assert(digits_value(none) == 0);
        assert(seq![c].last() == c);
    }
    let digits = unsigned_digits(s);
    let more = unsigned_digits(s.push(c));
    if s.len() > 0 {
        assert(more =~= digits.push(c));
        assert(more.drop_last() =~= digits);
        assert(more.last() == c);
        assert forall|i: int| 0 <= i < digits.len() implies digits[i] == #[trigger] more[i] by {}
        if all_digits(more) {
            assert forall|i: int| 0 <= i < digits.len() implies is_digit(#[trigger] digits[i]) by {
                assert(is_digit(more[i]));
            }
        }
        if all_digits(digits) && is_digit(c) {
            assert forall|i: int| 0 <= i < more.len() implies is_digit(#[trigger] more[i]) by {
                if i < digits.len() {
                    assert(is_digit(digits[i]));
                }
            }
        }
        if !is_digit(c) {
            assert(!is_digit(more[more.len() - 1]));
        }
        assert(digits.len() == 0 ==> s =~= seq!['+']);
        assert(unsigned_digits(seq!['+'] + s) =~= s);
        if s[0] == '+' {
            assert(!is_digit(s[0]));
        }
    }
}

/// Decimal notation holds digits alone and does not start with a zero, but for the number zero.
pub proof fn decimal_has_no_leading_zeros(n: nat)
    ensures
        decimal(n).len() > 0,
        forall|i: int| 0 <= i < decimal(n).len() ==> '0' <= #[trigger] decimal(n)[i] <= '9',
        decimal(n)[0] == '0' <==> n == 0,
    decreases n,
{
    lemma_decimal_digits(n);
    assert forall|i: int| 0 <= i < decimal(n).len() implies '0' <= #[trigger] decimal(n)[i]
        <= '9' by {
        assert(is_digit(decimal(n)[i]));
    }
    if n >= 10 {
        decimal_has_no_leading_zeros(n / 10);
    }
}

} // verus!
