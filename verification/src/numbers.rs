//! Numbers written out as text, and read back.

use vstd::prelude::*;

verus! {

/// The value of a digit character, up to base 16.
pub open spec fn digit_value(c: char) -> Option<nat> {
    if '0' <= c <= '9' {
        Some((c as int - '0' as int) as nat)
    } else if 'a' <= c <= 'f' {
        Some((c as int - 'a' as int + 10) as nat)
    } else if 'A' <= c <= 'F' {
        Some((c as int - 'A' as int + 10) as nat)
    } else {
        None
    }
}

/// Whether `c` is a digit of the given base.
pub open spec fn is_digit(c: char, base: nat) -> bool {
    digit_value(c) matches Some(v) && v < base
}

/// Whether `s` consists of digits of the given base.
pub open spec fn all_digits(s: Seq<char>, base: nat) -> bool {
    forall|i: int| 0 <= i < s.len() ==> #[trigger] is_digit(s[i], base)
}

/// The number that the digits `s` stand for, most significant digit first.
pub open spec fn digits_value(s: Seq<char>, base: nat) -> nat
    decreases s.len(),
{
    if s.len() == 0 {
        0
    } else {
        digits_value(s.drop_last(), base) * base + digit_value(s.last())->0
    }
}

/// `s` without one leading plus sign.
pub open spec fn without_plus(s: Seq<char>) -> Seq<char> {
    if s.len() > 0 && s[0] == '+' {
        s.skip(1)
    } else {
        s
    }
}

/// What the text `s` means as a number of at most `max`: an optional plus sign
/// and then at least one digit, nothing else, and no more than `max`.
pub open spec fn parsed(s: Seq<char>, base: nat, max: nat) -> Option<nat> {
    let d = without_plus(s);
    if d.len() > 0 && all_digits(d, base) && digits_value(d, base) <= max {
        Some(digits_value(d, base))
    } else {
        None
    }
}

/// The value of a hexadecimal digit.
pub fn digit(c: char) -> (r: Option<u8>)
    ensures
        r matches Some(v) ==> digit_value(c) == Some(v as nat) && v < 16,
        r is None <==> digit_value(c) is None,
{
    if '0' <= c && c <= '9' {
        Some((c as u8) - 48)
    } else if 'a' <= c && c <= 'f' {
        Some((c as u8) - 87)
    } else if 'A' <= c && c <= 'F' {
        Some((c as u8) - 55)
    } else {
        None
    }
}

proof fn lemma_value_grows(s: Seq<char>, n: int, base: nat)
    requires
        0 <= n <= s.len(),
        base >= 1,
    ensures
        digits_value(s.take(n), base) <= digits_value(s, base),
    decreases s.len() - n,
{
    if n == s.len() {
        assert(s.take(n) == s);
    } else {
        lemma_value_grows(s, n + 1, base);
        let t = s.take(n + 1);
        assert(t.drop_last() == s.take(n));
        let a = digits_value(s.take(n), base);
        assert(a * base >= a) by (nonlinear_arith)
            requires
                base >= 1,
                a >= 0,
        ;
    }
}

/// Reads the number that `s` stands for; see [`parsed`].
pub fn parse_number(s: &Vec<char>, base: u8, max: u64) -> (r: Option<u64>)
    requires
        base == 10 || base == 16,
    ensures
        r is Some <==> parsed(s@, base as nat, max as nat) is Some,
        r matches Some(v) ==> parsed(s@, base as nat, max as nat) == Some(v as nat),
{
    let from: usize = if s.len() > 0 && s[0] == '+' {
        1
    } else {
        0
    };
    let ghost d = without_plus(s@);
    proof {
        assert(d == s@.skip(from as int));
    }
    if from >= s.len() {
        return None;
    }
    let mut value: u128 = 0;
    let mut i: usize = from;
    proof {
        assert(d.take(0) == Seq::<char>::empty());
    }
    while i < s.len()
        invariant
            from <= i <= s@.len(),
            d == s@.skip(from as int),
            d == without_plus(s@),
            base == 10 || base == 16,
            value <= max,
            value as nat == digits_value(d.take(i - from), base as nat),
            all_digits(d.take(i - from), base as nat),
        decreases s.len() - i,
    {
        let ghost k = i - from;
        proof {
            assert(d[k] == s@[i as int]);
            assert(d.take(k + 1).drop_last() == d.take(k));
            assert(d.take(k + 1).last() == d[k]);
        }
        match digit(s[i]) {
            Some(v) if v < base => {
                let next: u128 = if base == 16 {
                    value * 16 + v as u128
                } else {
                    value * 10 + v as u128
                };
                proof {
                    assert(digits_value(d.take(k + 1), base as nat) == next);
                    assert(d.take(k + 1) == d.take(k).push(d[k]));
                    assert(all_digits(d.take(k + 1), base as nat));
                }
                if next > max as u128 {
                    proof {
                        lemma_value_grows(d, k + 1, base as nat);
                    }
                    return None;
                }
                value = next;
            },
            _ => {
                proof {
                    assert(!is_digit(d[k], base as nat));
                }
                return None;
            },
        }
        i += 1;
    }
    proof {
        assert(d.take(i - from) == d);
    }
    Some(value as u64)
}

/// What is wrong with the digits `d` from position `i` on: the first that is no
/// digit, or the first with which the number gets too large.
pub open spec fn digits_error(d: Seq<char>, base: nat, max: nat, i: int) -> Seq<char>
    decreases d.len() - i,
{
    if i < 0 || i >= d.len() || !is_digit(d[i], base) {
        "invalid digit found in string"@
    } else if digits_value(d.take(i + 1), base) > max {
        "number too large to fit in target type"@
    } else {
        digits_error(d, base, max, i + 1)
    }
}

/// What is wrong with a text that is no number of at most `max`.
pub open spec fn number_error(s: Seq<char>, base: nat, max: nat) -> Seq<char> {
    if s.len() == 0 {
        "cannot parse integer from empty string"@
    } else {
        digits_error(without_plus(s), base, max, 0)
    }
}

/// What is wrong with a text that is no number of at most `max`.
pub fn explain_error(s: &Vec<char>, base: u8, max: u64) -> (r: &'static str)
    requires
        base == 10 || base == 16,
        parsed(s@, base as nat, max as nat) is None,
    ensures
        r@ == number_error(s@, base as nat, max as nat),
{
    if s.len() == 0 {
        return "cannot parse integer from empty string";
    }
    let from: usize = if s[0] == '+' {
        1
    } else {
        0
    };
    let ghost d = without_plus(s@);
    let mut value: u128 = 0;
    let mut i: usize = from;
    proof {
        assert(d =~= s@.skip(from as int));
        assert(d.take(0) == Seq::<char>::empty());
    }
    while i < s.len()
        invariant
            from <= i <= s@.len(),
            d == s@.skip(from as int),
            base == 10 || base == 16,
            value <= max,
            value as nat == digits_value(d.take(i - from), base as nat),
            number_error(s@, base as nat, max as nat) == digits_error(
                d,
                base as nat,
                max as nat,
                i - from,
            ),
        decreases s.len() - i,
    {
        let ghost k = i - from;
        proof {
            assert(d[k] == s@[i as int]);
            assert(d.take(k + 1).drop_last() == d.take(k));
            assert(d.take(k + 1).last() == d[k]);
        }
        match digit(s[i]) {
            Some(v) if v < base => {
                value = if base == 16 {
                    value * 16 + v as u128
                } else {
                    value * 10 + v as u128
                };
                if value > max as u128 {
                    return "number too large to fit in target type";
                }
            },
            _ => {
                return "invalid digit found in string";
            },
        }
        i += 1;
    }
    "invalid digit found in string"
}

/// The character for a digit below 16, letters in lower case.
pub open spec fn digit_char(d: nat) -> char {
    if d < 10 {
        ('0' as int + d) as char
    } else {
        ('a' as int + d - 10) as char
    }
}

/// The character for a digit below 16.
pub fn digit_to_char(d: u8) -> (r: char)
    requires
        d < 16,
    ensures
        r == digit_char(d as nat),
{
    if d < 10 {
        (48 + d) as char
    } else {
        (87 + d) as char
    }
}

/// A digit character stands for the digit it was made of.
pub proof fn lemma_digit_char(d: nat)
    requires
        d < 16,
    ensures
        digit_value(digit_char(d)) == Some(d),
{
}

/// `n` in decimal, without leading zeros.
pub open spec fn decimal(n: nat) -> Seq<char>
    decreases n,
{
    if n < 10 {
        seq![digit_char(n)]
    } else {
        decimal(n / 10).push(digit_char(n % 10))
    }
}

/// `n` in decimal.
pub fn decimal_chars(n: u64) -> (r: Vec<char>)
    ensures
        r@ == decimal(n as nat),
    decreases n,
{
    let mut out: Vec<char> = if n < 10 {
        Vec::new()
    } else {
        decimal_chars(n / 10)
    };
    out.push(digit_to_char((n % 10) as u8));
    out
}

proof fn lemma_decimal(n: nat)
    ensures
        decimal(n).len() > 0,
        all_digits(decimal(n), 10),
        digits_value(decimal(n), 10) == n,
    decreases n,
{
    let s = decimal(n);
    if n < 10 {
        assert(s.drop_last() == Seq::<char>::empty());
        lemma_digit_char(n);
        reveal_with_fuel(digits_value, 2);
    } else {
        lemma_decimal(n / 10);
        lemma_digit_char(n % 10);
        assert(s.drop_last() == decimal(n / 10));
        assert(s.last() == digit_char(n % 10));
    }
}

/// A number written in decimal reads back as itself.
pub proof fn lemma_decimal_reads_back(n: nat, max: nat)
    requires
        n <= max,
    ensures
        parsed(decimal(n), 10, max) == Some(n),
{
    lemma_decimal(n);
    let s = decimal(n);
    assert(is_digit(s[0], 10));
    assert(without_plus(s) == s);
}

/// A number written in decimal is made of decimal digits.
pub proof fn lemma_decimal_digits(n: nat)
    ensures
        decimal(n).len() > 0,
        all_digits(decimal(n), 10),
{
    lemma_decimal(n);
}

/// The digit characters stand for their own values, letters in either case.
pub proof fn law_digits(c: char)
    ensures
        '0' <= c <= '9' ==> digit_value(c) == Some((c as int - 48) as nat),
        'a' <= c <= 'f' ==> digit_value(c) == Some((c as int - 97 + 10) as nat),
        'A' <= c <= 'F' ==> digit_value(c) == digit_value((c as int + 32) as char),
        digit_value(c) matches Some(v) ==> v < 16 && (digit_char(v) == c || ('A' <= c <= 'F'
            && digit_char(v) as int == c as int + 32)),
{
}

/// Different numbers are written differently, and one digit more at the end means
/// ten times the number and the digit.
pub proof fn law_decimal(a: nat, b: nat, d: nat)
    requires
        d < 10,
    ensures
        decimal(a) == decimal(b) ==> a == b,
        a > 0 ==> decimal(a * 10 + d) == decimal(a).push(digit_char(d)),
        a >= 10 ==> decimal(a)[0] != '0',
    decreases a,
{
    lemma_decimal(a);
    lemma_decimal(b);
    if a > 0 {
        assert((a * 10 + d) / 10 == a);
        assert((a * 10 + d) % 10 == d);
    }
    if a >= 10 {
        law_decimal(a / 10, 0, 0);
        lemma_decimal(a / 10);
        assert(decimal(a)[0] == decimal(a / 10)[0]);
    }
}

/// A text is a number exactly when it has nothing but digits in it, after at most
/// one plus sign, and what one digit more makes of the number is ten times it and
/// the digit.
pub proof fn law_parsed(s: Seq<char>, c: char, max: nat, i: int)
    ensures
        parsed(s, 10, max) matches Some(n) ==> n <= max && s.len() > 0,
        parsed(s, 10, max) is Some && 0 < i < s.len() ==> '0' <= s[i] <= '9',
        parsed(s, 10, max) matches Some(n) ==> ('0' <= c <= '9' && n * 10 + (c as int - 48) <= max
            ==> parsed(s.push(c), 10, max) == Some((n * 10 + (c as int - 48)) as nat)),
        '0' <= c <= '9' && (c as int - 48) <= max ==> parsed(seq![c], 10, max) == Some(
            (c as int - 48) as nat,
        ),
        parsed(s, 10, max) is Some && s[0] != '+' ==> parsed(seq!['+'] + s, 10, max) == parsed(
            s,
            10,
            max,
        ),
{
    let d = without_plus(s);
    if parsed(s, 10, max) is Some {
        let from: int = if s[0] == '+' {
            1
        } else {
            0
        };
        assert(d =~= s.skip(from));
        if 0 < i < s.len() {
            assert(d[i - from] == s[i]);
            assert(is_digit(d[i - from], 10));
        }
        if '0' <= c <= '9' {
            let e = without_plus(s.push(c));
            assert(e =~= d.push(c));
            assert(e.drop_last() =~= d);
            assert(is_digit(c, 10));
            assert forall|k: int| 0 <= k < e.len() implies #[trigger] is_digit(e[k], 10) by {
                if k < d.len() {
                    assert(e[k] == d[k]);
                }
            }
        }
        if s[0] != '+' {
            let p = seq!['+'] + s;
            assert(p.skip(1) =~= s);
        }
    }
    if '0' <= c <= '9' {
        let one = seq![c];
        assert(without_plus(one) == one);
        assert(one.drop_last() =~= Seq::<char>::empty());
        assert(is_digit(one[0], 10));
        reveal_with_fuel(digits_value, 2);
    }
}

} // verus!
