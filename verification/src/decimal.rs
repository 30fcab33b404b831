use vstd::prelude::*;

verus! {

pub open spec fn is_digit(c: char) -> bool {
    '0' <= c <= '9'
}

pub open spec fn digit_value(c: char) -> int {
    c as int - '0' as int
}

pub open spec fn all_digits(s: Seq<char>) -> bool {
    forall|i: int| 0 <= i < s.len() ==> is_digit(#[trigger] s[i])
}

/// The number that the decimal digits `s` write, most significant first.
pub open spec fn decimal_value(s: Seq<char>) -> nat
    decreases s.len(),
{
    if s.len() == 0 {
        0
    } else {
        (decimal_value(s.drop_last()) * 10 + digit_value(s.last())) as nat
    }
}

/// `s` starts with a minus sign that the type accepts.
pub open spec fn minus_sign(s: Seq<char>, min: int) -> bool {
    s.len() > 0 && s[0] == '-' && min < 0
}

/// `s` without the sign that the type accepts.
pub open spec fn integer_digits(s: Seq<char>, min: int) -> Seq<char> {
    if s.len() > 0 && (s[0] == '+' || minus_sign(s, min)) {
        s.drop_first()
    } else {
        s
    }
}

/// What `FromStr` for an integer type with range `min..=max` reads from `s`: an optional
/// `+` (or `-` where `min` is negative), then one or more ASCII digits, in range.
pub open spec fn parse_integer(s: Seq<char>, min: int, max: int) -> Option<int> {
    let negative = minus_sign(s, min);
    let digits = integer_digits(s, min);
    if digits.len() == 0 || !all_digits(digits) {
        None
    } else {
        let value = if negative {
            -decimal_value(digits)
        } else {
            decimal_value(digits) as int
        };
        if min <= value <= max {
            Some(value)
        } else {
            None
        }
    }
}

pub open spec fn digit_char(d: nat) -> char {
    (d + '0' as nat) as char
}

/// The shortest decimal writing of `n`, as `Display` writes it.
pub open spec fn decimal_digits(n: nat) -> Seq<char>
    decreases n,
{
    if n < 10 {
        seq![digit_char(n)]
    } else {
        decimal_digits(n / 10).push(digit_char(n % 10))
    }
}

/// `n` as `Display` writes a signed integer.
pub open spec fn signed_digits(n: int) -> Seq<char> {
    if n < 0 {
        seq!['-'] + decimal_digits((-n) as nat)
    } else {
        decimal_digits(n as nat)
    }
}

proof fn lemma_decimal_value_grows(s: Seq<char>, i: int)
    requires
        0 <= i <= s.len(),
        all_digits(s),
    ensures
        decimal_value(s) >= decimal_value(s.take(i)),
    decreases s.len() - i,
{
    if i < s.len() {
        lemma_decimal_value_grows(s, i + 1);
        assert(s.take(i + 1).drop_last() =~= s.take(i));
        assert(is_digit(s[i]));
    }
    assert(s.take(s.len() as int) =~= s);
}

proof fn lemma_digit_char(d: nat)
    requires
        d < 10,
    ensures
        is_digit(digit_char(d)),
        digit_value(digit_char(d)) == d,
{
}

pub proof fn lemma_decimal_round_trip(n: nat)
    ensures
        all_digits(decimal_digits(n)),
        decimal_digits(n).len() >= 1,
        is_digit(decimal_digits(n)[0]),
        decimal_value(decimal_digits(n)) == n,
    decreases n,
{
    lemma_digit_char((n % 10) as nat);
    if n < 10 {
        assert(seq![digit_char(n)].drop_last() =~= Seq::<char>::empty());
        assert(decimal_value(Seq::<char>::empty()) == 0);
        assert(decimal_value(decimal_digits(n)) == n);
    } else {
        lemma_decimal_round_trip(n / 10);
        let d = decimal_digits(n);
        assert(d.drop_last() =~= decimal_digits(n / 10));
        assert(decimal_value(d) == decimal_value(decimal_digits(n / 10)) * 10 + (n % 10));
        assert(decimal_value(d) == n);
        assert forall|i: int| 0 <= i < d.len() implies is_digit(#[trigger] d[i]) by {
            if i < d.len() - 1 {
                assert(d[i] == decimal_digits(n / 10)[i]);
            }
        }
    }
}

pub proof fn lemma_parse_signed_digits(n: int, min: int, max: int)
    requires
        min <= n <= max,
        min <= 0,
    ensures
        parse_integer(signed_digits(n), min, max) == Some(n),
{
    if n < 0 {
        lemma_decimal_round_trip((-n) as nat);
        let s = signed_digits(n);
        assert(s.drop_first() =~= decimal_digits((-n) as nat));
    } else {
        lemma_decimal_round_trip(n as nat);
    }
}

/// Reads an integer in `min..=max` from `text` as `FromStr` reads one.
pub fn parse_integer_in(text: &[char], min: i128, max: i128) -> (result: Option<i128>)
    requires
        -0x1_0000_0000_0000_0000 <= min <= 0 <= max <= 0x1_0000_0000_0000_0000,
    ensures
        match result {
            Some(value) => parse_integer(text@, min as int, max as int) == Some(value as int),
            None => parse_integer(text@, min as int, max as int) is None,
        },
{
    let negative = text.len() > 0 && text[0] == '-' && min < 0;
    let start: usize = if text.len() > 0 && (text[0] == '+' || negative) {
        1
    } else {
        0
    };
    let ghost digits = integer_digits(text@, min as int);
    assert(negative == minus_sign(text@, min as int));
    assert(digits =~= text@.skip(start as int));
    if start >= text.len() {
        return None;
    }
    let mut magnitude: u128 = 0;
    let mut i: usize = start;
    while i < text.len()
        invariant
            start <= i <= text@.len(),
            digits == text@.skip(start as int),
            digits == integer_digits(text@, min as int),
            all_digits(digits.take(i - start)),
            magnitude == decimal_value(digits.take(i - start)),
            magnitude <= 0x1_0000_0000_0000_0000,
            -0x1_0000_0000_0000_0000 <= min <= 0 <= max <= 0x1_0000_0000_0000_0000,
        decreases text@.len() - i,
    {
        let c = text[i];
        assert(digits[i - start] == c);
        if c < '0' || c > '9' {
            assert(!all_digits(digits));
            assert(digits == integer_digits(text@, min as int));
            assert(!all_digits(integer_digits(text@, min as int)));
            assert(parse_integer(text@, min as int, max as int) is None);
            return None;
        }
        magnitude = magnitude * 10 + (c as u32 - '0' as u32) as u128;
        i = i + 1;
        assert(digits.take(i - start).drop_last() =~= digits.take(i - start - 1));
        assert(all_digits(digits.take(i - start)));
        if magnitude > 0x1_0000_0000_0000_0000 {
            proof {
                if all_digits(digits) {
                    lemma_decimal_value_grows(digits, i - start);
                }
            }
            return None;
        }
    }
    assert(digits.take(i - start) =~= digits);
    let value: i128 = if negative {
        -(magnitude as i128)
    } else {
        magnitude as i128
    };
    if min <= value && value <= max {
        Some(value)
    } else {
        None
    }
}

/// Appends the decimal writing of `n` to `out`.
pub fn push_decimal(out: &mut Vec<char>, n: u64)
    ensures
        final(out)@ == old(out)@ + decimal_digits(n as nat),
    decreases n,
{
    if n >= 10 {
        push_decimal(out, n / 10);
    }
    let d = (n % 10) as u8;
    let c = (48u8 + d) as char;
    out.push(c);
    assert(c == digit_char((n % 10) as nat));
    assert(n < 10 ==> n % 10 == n);
}

/// Appends the decimal writing of the signed `n` to `out`.
pub fn push_signed(out: &mut Vec<char>, n: i64)
    ensures
        final(out)@ == old(out)@ + signed_digits(n as int),
{
    if n < 0 {
        out.push('-');
        let magnitude: u64 = if n == i64::MIN {
            0x8000_0000_0000_0000
        } else {
            (-n) as u64
        };
        push_decimal(out, magnitude);
    } else {
        push_decimal(out, n as u64);
    }
}

} // verus!
