//! Integers as decimal text.
use vstd::prelude::*;
use crate::text::{is_space, is_unbroken, to_chars};

verus! {

/// The decimal digit `d`.
pub open spec fn digit(d: int) -> char {
    ('0' as int + d) as char
}

/// `n` in decimal digits, without leading zeros.
pub open spec fn decimal(n: nat) -> Seq<char>
    decreases n,
{
    if n < 10 {
        seq![digit(n as int)]
    } else {
        decimal(n / 10).push(digit((n % 10) as int))
    }
}

/// `n` in decimal digits, with a minus sign where it is negative.
pub open spec fn int_text(n: int) -> Seq<char> {
    if n < 0 {
        seq!['-'] + decimal((-n) as nat)
    } else {
        decimal(n as nat)
    }
}

/// `c` is one of the ten decimal digits.
pub open spec fn is_digit(c: char) -> bool {
    '0' <= c && c <= '9'
}

/// The number that the decimal digits of `s` write; zero for no digits.
pub open spec fn digits_value(s: Seq<char>) -> nat
    decreases s.len(),
{
    if s.len() == 0 {
        0
    } else {
        10 * digits_value(s.drop_last()) + (s.last() as int - '0' as int) as nat
    }
}

/// `s` is made of decimal digits, at least one.
pub open spec fn all_digits(s: Seq<char>) -> bool {
    &&& s.len() > 0
    &&& forall|i: int| 0 <= i < s.len() ==> is_digit(#[trigger] s[i])
}

/// The number that `s` writes: decimal digits behind an optional sign.
pub open spec fn int_value(s: Seq<char>) -> Option<int> {
    if s.len() > 0 && (s[0] == '-' || s[0] == '+') {
        if all_digits(s.skip(1)) {
            Some(
                if s[0] == '-' {
                    -(digits_value(s.skip(1)) as int)
                } else {
                    digits_value(s.skip(1)) as int
                },
            )
        } else {
            None
        }
    } else if all_digits(s) {
        Some(digits_value(s) as int)
    } else {
        None
    }
}

/// The number that `s` writes, where it lies between `low` and `high`.
pub open spec fn int_value_within(s: Seq<char>, low: int, high: int) -> Option<int> {
    match int_value(s) {
        Some(v) => if low <= v <= high {
            Some(v)
        } else {
            None
        },
        None => None,
    }
}

/// The number that `s` writes as an `i64`.
pub open spec fn i64_value(s: Seq<char>) -> Option<i64> {
    match int_value_within(s, i64::MIN as int, i64::MAX as int) {
        Some(v) => Some(v as i64),
        None => None,
    }
}

/// The number that `s` writes as an `i32`.
pub open spec fn i32_value(s: Seq<char>) -> Option<i32> {
    match int_value_within(s, i32::MIN as int, i32::MAX as int) {
        Some(v) => Some(v as i32),
        None => None,
    }
}

/// The digits of a number are digits and write that number.
pub proof fn lemma_decimal(n: nat)
    ensures
        all_digits(decimal(n)),
        digits_value(decimal(n)) == n,
    decreases n,
{
    if n < 10 {
        let s = decimal(n);
        assert(s.drop_last() =~= Seq::<char>::empty());
        assert(digits_value(s.drop_last()) == 0);
    } else {
        lemma_decimal(n / 10);
        let s = decimal(n);
        assert(s.drop_last() =~= decimal(n / 10));
    }
}

/// Reading an integer back from its text gives that integer.
pub proof fn law_int_text_reads_back(n: int)
    ensures
        int_value(int_text(n)) == Some(n),
{
    if n < 0 {
        lemma_decimal((-n) as nat);
        assert(int_text(n).skip(1) =~= decimal((-n) as nat));
    } else {
        lemma_decimal(n as nat);
        assert(is_digit(decimal(n as nat)[0]));
    }
}

/// Two integers with the same text are the same integer.
pub proof fn law_int_text_injective(a: int, b: int)
    requires
        int_text(a) == int_text(b),
    ensures
        a == b,
{
    law_int_text_reads_back(a);
    law_int_text_reads_back(b);
}

/// More digits never write a smaller number.
proof fn lemma_digits_value_grows(s: Seq<char>, k: int)
    requires
        all_digits(s),
        0 <= k <= s.len(),
    ensures
        digits_value(s.take(k)) <= digits_value(s),
    decreases s.len() - k,
{
    if k == s.len() {
        assert(s.take(k) =~= s);
    } else {
        lemma_digits_value_grows(s, k + 1);
        assert(s.take(k + 1).drop_last() =~= s.take(k));
    }
}

/// The decimal digit `d`.
fn digit_char(d: u8) -> (c: char)
    requires
        d < 10,
    ensures
        c == digit(d as int),
{
    match d {
        0 => '0',
        1 => '1',
        2 => '2',
        3 => '3',
        4 => '4',
        5 => '5',
        6 => '6',
        7 => '7',
        8 => '8',
        _ => '9',
    }
}

/// Appends the decimal digits of `n` to `out`.
fn push_decimal(out: &mut String, n: u128)
    ensures
        final(out)@ == old(out)@ + decimal(n as nat),
    decreases n,
{
    if n >= 10 {
        push_decimal(out, n / 10);
    }
    let d: u8 = (n % 10) as u8;
    out.push(digit_char(d));
    assert(out@ =~= old(out)@ + decimal(n as nat));
}

/// `n` in decimal digits.
pub fn nat_to_text(n: u128) -> (r: String)
    ensures
        r@ == decimal(n as nat),
{
    let mut r = String::new();
    push_decimal(&mut r, n);
    assert(r@ =~= decimal(n as nat));
    r
}

/// `n` in decimal digits, with a minus sign where it is negative.
pub fn int_to_text(n: i64) -> (r: String)
    ensures
        r@ == int_text(n as int),
{
    let mut r = String::new();
    let wide: i128 = n as i128;
    if wide < 0 {
        r.push('-');
        push_decimal(&mut r, (-wide) as u128);
    } else {
        push_decimal(&mut r, wide as u128);
    }
    assert(r@ =~= int_text(n as int));
    r
}

/// The number that the characters of `s` from position `from` on write, where they are all
/// digits and it is at most `limit`.
fn read_digits(s: &Vec<char>, from: usize, limit: u128) -> (r: Option<u128>)
    requires
        from <= s@.len(),
        limit < 0x1_0000_0000_0000_0000,
    ensures
        r == (if all_digits(s@.skip(from as int)) && digits_value(s@.skip(from as int)) <= limit {
            Some(digits_value(s@.skip(from as int)) as u128)
        } else {
            None::<u128>
        }),
{
    let ghost rest = s@.skip(from as int);
    if from == s.len() {
        return None;
    }
    let mut value: u128 = 0;
    let mut i: usize = from;
    assert(rest.take(0) =~= Seq::<char>::empty());
    while i < s.len()
        invariant
            from <= i <= s@.len(),
            rest == s@.skip(from as int),
            limit < 0x1_0000_0000_0000_0000,
            value <= limit,
            value == digits_value(rest.take(i - from)),
            forall|j: int| 0 <= j < i - from ==> is_digit(#[trigger] rest[j]),
        decreases s@.len() - i,
    {
        let c = s[i];
        assert(c == rest[i - from]);
        if !('0' <= c && c <= '9') {
            return None;
        }
        assert(rest.take(i - from + 1).drop_last() =~= rest.take(i - from));
        value = 10 * value + (c as u32 - '0' as u32) as u128;
        i = i + 1;
        if value > limit {
            proof {
                if all_digits(rest) {
                    lemma_digits_value_grows(rest, i - from);
                }
            }
            return None;
        }
    }
    assert(rest.take(i - from) =~= rest);
    Some(value)
}

/// Reads an `i64`: decimal digits behind an optional sign.
pub fn parse_i64(s: &str) -> (r: Option<i64>)
    ensures
        r == i64_value(s@),
{
    let text = to_chars(s);
    if text.len() > 0 && text[0] == '-' {
        match read_digits(&text, 1, 0x8000_0000_0000_0000) {
            Some(v) => {
                let wide: i128 = -(v as i128);
                Some(wide as i64)
            },
            None => None,
        }
    } else {
        let from: usize = if text.len() > 0 && text[0] == '+' {
            1
        } else {
            0
        };
        assert(s@.skip(0) =~= s@);
        match read_digits(&text, from, 0x7fff_ffff_ffff_ffff) {
            Some(v) => Some(v as i64),
            None => None,
        }
    }
}

/// Reads an `i32`: decimal digits behind an optional sign.
pub fn parse_i32(s: &str) -> (r: Option<i32>)
    ensures
        r == i32_value(s@),
{
    match parse_i64(s) {
        Some(v) => if -0x8000_0000 <= v && v <= 0x7fff_ffff {
            Some(v as i32)
        } else {
            None
        },
        None => None,
    }
}

/// A number of one digit is written by that digit; any other by its tenth and its last digit.
pub proof fn law_decimal_digits(n: nat, d: nat)
    requires
        d < 10,
    ensures
        decimal(0) == seq!['0'],
        decimal(1) == seq!['1'],
        decimal(9) == seq!['9'],
        decimal(d).len() == 1,
        decimal(d)[0] as int == '0' as int + d,
        n > 0 ==> decimal(10 * n + d) == decimal(n) + decimal(d),
{
    if n > 0 {
        let m = 10 * n + d;
        assert(m / 10 == n && m % 10 == d);
        assert(decimal(m) =~= decimal(n) + decimal(d));
    }
}

/// A negative integer is written as a minus sign and the digits of its amount; any other by its
/// digits alone.
pub proof fn law_int_text_sign(n: nat)
    ensures
        int_text(n as int) == decimal(n),
        n > 0 ==> int_text(-(n as int)) == seq!['-'] + decimal(n),
{
}

/// A text that writes an integer has digits only, at least one, behind a sign or none.
pub proof fn law_int_value_form(s: Seq<char>)
    ensures
        int_value(s) is Some <==> {
            let sign = s.len() > 0 && (s[0] == '-' || s[0] == '+');
            let from = if sign {
                1int
            } else {
                0int
            };
            &&& s.len() > from
            &&& forall|i: int| from <= i < s.len() ==> '0' <= #[trigger] s[i] && s[i] <= '9'
        },
{
    let sign = s.len() > 0 && (s[0] == '-' || s[0] == '+');
    if sign {
        let rest = s.skip(1);
        if forall|i: int| 1 <= i < s.len() ==> '0' <= #[trigger] s[i] && s[i] <= '9' {
            assert forall|i: int| 0 <= i < rest.len() implies is_digit(#[trigger] rest[i]) by {
                assert(rest[i] == s[i + 1]);
            }
        }
        if all_digits(rest) {
            assert forall|i: int| 1 <= i < s.len() implies '0' <= #[trigger] s[i] && s[i]
                <= '9' by {
                assert(is_digit(rest[i - 1]));
            }
        }
    } else {
        if all_digits(s) {
            assert forall|i: int| 0 <= i < s.len() implies '0' <= #[trigger] s[i] && s[i]
                <= '9' by {
                assert(is_digit(s[i]));
            }
        }
        if s.len() > 0 && forall|i: int|
            0 <= i < s.len() ==> '0' <= #[trigger] s[i] && s[i] <= '9' {
            assert(all_digits(s));
        }
    }
}

/// The value of digits: a digit behind others counts once where they count ten times, a minus
/// sign in front turns the number round, and a plus sign changes nothing.
pub proof fn law_int_value_digits(s: Seq<char>, d: char)
    requires
        all_digits(s),
        '0' <= d,
        d <= '9',
    ensures
        int_value(seq![d]) == Some(d as int - '0' as int),
        int_value(s.push(d)) == Some(10 * int_value(s)->0 + (d as int - '0' as int)),
        int_value(seq!['-'] + s) == Some(-int_value(s)->0),
        int_value(seq!['+'] + s) == int_value(s),
{
    assert(is_digit(s[0]));
    let one = seq![d];
    assert(all_digits(one));
    assert(one.drop_last() =~= Seq::<char>::empty());
    assert(digits_value(one.drop_last()) == 0);
    assert(s.push(d).drop_last() =~= s);
    assert(all_digits(s.push(d))) by {
        assert forall|i: int| 0 <= i < s.push(d).len() implies is_digit(
            #[trigger] s.push(d)[i],
        ) by {
            if i < s.len() {
                assert(is_digit(s[i]));
            }
        }
    }
    assert((seq!['-'] + s).skip(1) =~= s);
    assert((seq!['+'] + s).skip(1) =~= s);
}

/// A text is read as a machine integer exactly if it writes that integer.
pub proof fn law_machine_values(s: Seq<char>, n: i64, m: i32)
    ensures
        i64_value(s) == Some(n) <==> int_value(s) == Some(n as int),
        i32_value(s) == Some(m) <==> int_value(s) == Some(m as int),
        i64_value(s) is None <==> (int_value(s) matches Some(v) ==> v < -0x8000_0000_0000_0000 || v
            > 0x7fff_ffff_ffff_ffff),
        i32_value(s) is None <==> (int_value(s) matches Some(v) ==> v < -0x8000_0000 || v
            > 0x7fff_ffff),
{
}

/// The text of an integer is not empty and has no white space and no null character.
pub proof fn lemma_int_text_is_unbroken(n: int)
    ensures
        int_text(n).len() > 0,
        is_unbroken(int_text(n)),
        !int_text(n).contains('\0'),
{
    let m = if n < 0 {
        (-n) as nat
    } else {
        n as nat
    };
    lemma_decimal(m);
    let d = decimal(m);
    let s = int_text(n);
    assert forall|i: int| 0 <= i < s.len() implies !is_space(#[trigger] s[i]) && s[i] != '\0' by {
        if n < 0 {
            if i > 0 {
                assert(s[i] == d[i - 1]);
                assert(is_digit(d[i - 1]));
            }
        } else {
            assert(is_digit(d[i]));
        }
    }
}

} // verus!
