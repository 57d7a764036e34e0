//! Numbers as text, in any base up to sixteen, and bytes as hexadecimal.

use crate::text::{chars_of, text_of};
use vstd::prelude::*;

verus! {

/// The digit for a number below sixteen, letters in lower case.
pub open spec fn digit(d: int) -> char {
    if d < 10 {
        (d + 48) as char
    } else {
        (d + 87) as char
    }
}

/// The number that a character stands for in the given base, where it is a digit of that base.
/// Letters count in either case.
pub open spec fn digit_value(c: char, base: int) -> Option<int> {
    let n = c as int;
    let d = if 48 <= n <= 57 {
        n - 48
    } else if 97 <= n <= 122 {
        n - 87
    } else if 65 <= n <= 90 {
        n - 55
    } else {
        base
    };
    if d < base {
        Some(d)
    } else {
        None
    }
}

/// The digits of `n`, without leading zeros.
pub open spec fn digits(n: int, base: int) -> Seq<char>
    decreases n,
{
    if n < base || base < 2 {
        seq![digit(n)]
    } else {
        proof {
            assert(0 <= n / base < n) by (nonlinear_arith)
                requires
                    base >= 2,
                    n >= base,
            ;
        }
        digits(n / base, base).push(digit(n % base))
    }
}

/// Whether every character is a digit of the base.
pub open spec fn all_digits(s: Seq<char>, base: int) -> bool {
    forall|i: int| 0 <= i < s.len() ==> digit_value(#[trigger] s[i], base) is Some
}

/// The number that a sequence of digits stands for.
pub open spec fn value(s: Seq<char>, base: int) -> int
    decreases s.len(),
{
    if s.len() == 0 {
        0
    } else {
        value(s.drop_last(), base) * base + digit_value(s.last(), base).unwrap()
    }
}

/// The number that a text stands for: at least one digit, with an optional `+` before them, and no
/// more than `max`.
pub open spec fn number(s: Seq<char>, base: int, max: int) -> Option<int> {
    let body = if s.len() > 0 && s[0] == '+' {
        s.skip(1)
    } else {
        s
    };
    if body.len() > 0 && all_digits(body, base) && value(body, base) <= max {
        Some(value(body, base))
    } else {
        None
    }
}

/// The value of digits is not negative.
pub proof fn lemma_value_nonneg(s: Seq<char>, base: int)
    requires
        2 <= base,
        all_digits(s, base),
    ensures
        value(s, base) >= 0,
    decreases s.len(),
{
    if s.len() > 0 {
        let rest = s.drop_last();
        assert forall|i: int| 0 <= i < rest.len() implies digit_value(#[trigger] rest[i], base) is Some by {
            assert(rest[i] == s[i]);
        }
        lemma_value_nonneg(rest, base);
        let v = value(rest, base);
        assert(v * base >= 0) by (nonlinear_arith)
            requires
                v >= 0,
                base >= 2,
        ;
        assert(digit_value(s[s.len() - 1], base) is Some);
    }
}

/// More digits do not make a smaller number.
pub proof fn lemma_value_grows(s: Seq<char>, base: int, n: int)
    requires
        2 <= base,
        all_digits(s, base),
        0 <= n <= s.len(),
    ensures
        value(s.take(n), base) <= value(s, base),
    decreases s.len() - n,
{
    if n == s.len() {
        assert(s.take(n) == s);
    } else {
        lemma_value_grows(s, base, n + 1);
        let a = s.take(n);
        let b = s.take(n + 1);
        assert(b.drop_last() == a);
        assert(b.last() == s[n]);
        assert(digit_value(s[n], base) is Some);
        lemma_value_nonneg(a, base);
        let v = value(a, base);
        assert(v * base >= v) by (nonlinear_arith)
            requires
                v >= 0,
                base >= 2,
        ;
    }
}

/// The digits of a number are digits, there is at least one, and they stand for the number.
pub proof fn lemma_digits(n: int, base: int)
    requires
        0 <= n,
        2 <= base <= 16,
    ensures
        digits(n, base).len() > 0,
        all_digits(digits(n, base), base),
        value(digits(n, base), base) == n,
        forall|i: int|
            0 <= i < digits(n, base).len() ==> {
                let c = #[trigger] digits(n, base)[i];
                '0' <= c <= '9' || 'a' <= c <= 'f'
            },
    decreases n,
{
    let s = digits(n, base);
    if n < base {
        assert(digit_value(digit(n), base) == Some(n));
        assert(s.drop_last() == Seq::<char>::empty());
        assert(value(s.drop_last(), base) == 0);
    } else {
        assert(0 <= n / base < n) by (nonlinear_arith)
            requires
                base >= 2,
                n >= base,
        ;
        assert(0 <= n % base < base && n == (n / base) * base + n % base) by (nonlinear_arith)
            requires
                base >= 2,
        ;
        lemma_digits(n / base, base);
        let head = digits(n / base, base);
        assert(s.drop_last() == head);
        assert(digit_value(digit(n % base), base) == Some(n % base));
        assert forall|i: int| 0 <= i < s.len() implies digit_value(#[trigger] s[i], base) is Some by {
            if i < head.len() {
                assert(s[i] == head[i]);
            }
        }
        assert forall|i: int| 0 <= i < s.len() implies ({
            let c = #[trigger] s[i];
            '0' <= c <= '9' || 'a' <= c <= 'f'
        }) by {
            if i < head.len() {
                assert(s[i] == head[i]);
            }
        }
    }
}

/// Reading back the digits of a number gives the number.
pub proof fn lemma_number_of_digits(n: int, base: int, max: int)
    requires
        0 <= n <= max,
        2 <= base <= 16,
    ensures
        number(digits(n, base), base, max) == Some(n),
{
    lemma_digits(n, base);
    assert(digits(n, base)[0] != '+');
}

/// The digit for a number below sixteen.
fn digit_char(d: u64) -> (r: char)
    requires
        d < 16,
    ensures
        r == digit(d as int),
{
    if d < 10 {
        (d as u8 + 48) as char
    } else {
        (d as u8 + 87) as char
    }
}

/// Writes a number in the given base, letters in lower case.
fn write_number(n: u64, base: u64) -> (r: Vec<char>)
    requires
        2 <= base <= 16,
    ensures
        r@ == digits(n as int, base as int),
    decreases n,
{
    if n < base {
        let mut r: Vec<char> = Vec::new();
        r.push(digit_char(n));
        assert(r@ =~= seq![digit(n as int)]);
        r
    } else {
        assert(n / base < n) by (nonlinear_arith)
            requires
                base >= 2,
                n >= base,
        ;
        let mut r = write_number(n / base, base);
        r.push(digit_char(n % base));
        r
    }
}

/// A number in decimal.
pub fn decimal(n: u64) -> (r: String)
    ensures
        r@ == digits(n as int, 10),
{
    let chars = write_number(n, 10);
    text_of(&chars)
}

/// A number in hexadecimal, lower case, without leading zeros.
pub fn hexadecimal(n: u64) -> (r: String)
    ensures
        r@ == digits(n as int, 16),
{
    let chars = write_number(n, 16);
    text_of(&chars)
}

/// The number that a character stands for in the given base.
fn digit_of(c: char, base: u64) -> (r: Option<u64>)
    requires
        2 <= base <= 16,
    ensures
        match r {
            Some(d) => digit_value(c, base as int) == Some(d as int) && d < base,
            None => digit_value(c, base as int) is None,
        },
{
    let n = c as u32 as u64;
    let d = if 48 <= n && n <= 57 {
        n - 48
    } else if 97 <= n && n <= 122 {
        n - 87
    } else if 65 <= n && n <= 90 {
        n - 55
    } else {
        base
    };
    if d < base {
        Some(d)
    } else {
        None
    }
}

/// Reads a number of the given base, no larger than `max`.
pub fn parse_number(s: &[char], base: u64, max: u64) -> (r: Option<u64>)
    requires
        2 <= base <= 16,
    ensures
        match r {
            Some(n) => number(s@, base as int, max as int) == Some(n as int),
            None => number(s@, base as int, max as int) is None,
        },
{
    let from: usize = if s.len() > 0 && s[0] == '+' {
        1
    } else {
        0
    };
    let body = &s[from..s.len()];
    assert(body@ == s@.skip(from as int));
    assert(s@.skip(0) == s@);
    if body.len() == 0 {
        return None;
    }
    let mut n: u64 = 0;
    let mut i: usize = 0;
    while i < body.len()
        invariant
            i <= body@.len(),
            2 <= base <= 16,
            n <= max,
            all_digits(body@.take(i as int), base as int),
            n as int == value(body@.take(i as int), base as int),
            body@ == s@.skip(from as int),
            body@.len() > 0,
            from == (if s@.len() > 0 && s@[0] == '+' { 1int } else { 0int }),
            s@.skip(0) == s@,
        decreases body@.len() - i,
    {
        let ghost done = body@.take(i as int);
        let ghost next = body@.take(i + 1);
        assert(next.drop_last() == done);
        assert(next.last() == body@[i as int]);
        match digit_of(body[i], base) {
            None => {
                assert(!all_digits(body@, base as int));
                return None;
            },
            Some(d) => {
                assert forall|j: int| 0 <= j < next.len() implies digit_value(
                    #[trigger] next[j],
                    base as int,
                ) is Some by {
                    if j < done.len() {
                        assert(next[j] == done[j]);
                    }
                }
                assert(value(next, base as int) == n * base + d);
                assert(0 <= n * base <= 0xffff_ffff_ffff_ffff * 16) by (nonlinear_arith)
                    requires
                        n <= 0xffff_ffff_ffff_ffff,
                        base <= 16,
                ;
                let wide: u128 = n as u128 * base as u128 + d as u128;
                if wide > max as u128 {
                    proof {
                        if all_digits(body@, base as int) {
                            lemma_value_grows(body@, base as int, i + 1);
                        }
                    }
                    return None;
                }
                n = wide as u64;
            },
        }
        i += 1;
    }
    assert(body@.take(i as int) == body@);
    Some(n)
}

/// Reads a decimal `u64`.
pub fn parse_u64(s: &str) -> (r: Option<u64>)
    ensures
        match r {
            Some(n) => number(s@, 10, u64::MAX as int) == Some(n as int),
            None => number(s@, 10, u64::MAX as int) is None,
        },
{
    let s = chars_of(s);
    parse_number(&s, 10, u64::MAX)
}

/// Reads a decimal `u32`.
pub fn parse_u32(s: &str) -> (r: Option<u32>)
    ensures
        match r {
            Some(n) => number(s@, 10, u32::MAX as int) == Some(n as int),
            None => number(s@, 10, u32::MAX as int) is None,
        },
{
    let s = chars_of(s);
    match parse_number(&s, 10, u32::MAX as u64) {
        Some(n) => Some(n as u32),
        None => None,
    }
}

// ------------------------------------------------------------------------------------------
// Bytes
// ------------------------------------------------------------------------------------------

/// Bytes in lower-case hexadecimal, two digits for each.
pub open spec fn hex_text(bytes: Seq<u8>) -> Seq<char> {
    Seq::new(
        2 * bytes.len(),
        |i: int|
            if i % 2 == 0 {
                digit(bytes[i / 2] as int / 16)
            } else {
                digit(bytes[i / 2] as int % 16)
            },
    )
}

/// The `n` bytes that a text of `2 * n` hexadecimal digits stands for, in either case.
pub open spec fn hex_bytes(text: Seq<char>, n: nat) -> Option<Seq<u8>> {
    if text.len() == 2 * n && all_digits(text, 16) {
        Some(
            Seq::new(
                n,
                |i: int|
                    (digit_value(text[2 * i], 16).unwrap() * 16 + digit_value(
                        text[2 * i + 1],
                        16,
                    ).unwrap()) as u8,
            ),
        )
    } else {
        None
    }
}

/// Reading back bytes in hexadecimal gives the bytes.
pub proof fn lemma_hex_bytes_of_text(bytes: Seq<u8>)
    ensures
        hex_bytes(hex_text(bytes), bytes.len()) == Some(bytes),
{
    let text = hex_text(bytes);
    assert forall|i: int| 0 <= i < text.len() implies digit_value(#[trigger] text[i], 16) is Some by {
        let b = bytes[i / 2] as int;
        assert(0 <= b / 16 < 16 && 0 <= b % 16 < 16);
    }
    let back = hex_bytes(text, bytes.len()).unwrap();
    assert forall|i: int| 0 <= i < bytes.len() implies back[i] == bytes[i] by {
        let b = bytes[i] as int;
        assert(0 <= b / 16 < 16 && 0 <= b % 16 < 16);
        assert(text[2 * i] == digit(b / 16)) by {
            assert((2 * i) / 2 == i && (2 * i) % 2 == 0);
        }
        assert(text[2 * i + 1] == digit(b % 16)) by {
            assert((2 * i + 1) / 2 == i && (2 * i + 1) % 2 == 1);
        }
        assert(digit_value(digit(b / 16), 16) == Some(b / 16));
        assert(digit_value(digit(b % 16), 16) == Some(b % 16));
    }
    assert(back =~= bytes);
}

// ------------------------------------------------------------------------------------------
// Laws
// ------------------------------------------------------------------------------------------

/// The digits are those from `0` to `9`, and then the letters from `a` on in either case.
pub proof fn law_digits_are_the_usual_ones(c: char, base: int, d: int)
    requires
        2 <= base <= 16,
    ensures
        digit_value(c, base) == Some(d) <==> 0 <= d < base && {
            ||| d < 10 && c as int == 48 + d
            ||| d >= 10 && (c as int == 87 + d || c as int == 55 + d)
        },
{
}

/// One more digit multiplies a number by the base and adds the digit; leading zeros and a `+` make
/// no difference, and there is no other limit than the largest number.
pub proof fn law_numbers_are_positional(s: Seq<char>, c: char, base: int, max: int)
    requires
        2 <= base <= 16,
        s.len() > 0,
        all_digits(s, base),
        digit_value(c, base) is Some,
    ensures
        number(seq![c], base, base) == digit_value(c, base),
        number(s.push(c), base, max) == {
            let d = digit_value(c, base).unwrap();
            match number(s, base, max) {
                Some(n) => if n * base + d <= max {
                    Some(n * base + d)
                } else {
                    None
                },
                None => None,
            }
        },
        number(seq!['+'] + s, base, max) == number(s, base, max),
        number(seq!['0'] + s, base, max) == number(s, base, max),
{
    let d = digit_value(c, base).unwrap();
    let more = s.push(c);
    assert(s[0] != '+') by {
        assert(digit_value(s[0], base) is Some);
    }
    lemma_value_nonneg(s, base);
    assert(more.drop_last() =~= s);
    assert(all_digits(more, base));
    assert(value(s, base) <= value(s, base) * base) by (nonlinear_arith)
        requires
            value(s, base) >= 0,
            base >= 2,
    ;
    let one = seq![c];
    assert(one.drop_last() =~= Seq::empty());
    assert(value(one.drop_last(), base) * base == 0) by (nonlinear_arith)
        requires
            value(one.drop_last(), base) == 0,
    ;
    assert(value(one, base) == d);
    assert(one[0] == c);
    assert((seq!['+'] + s).skip(1) =~= s);
    let zero = seq!['0'] + s;
    assert forall|i: int| 0 <= i < zero.len() implies digit_value(
        #[trigger] zero[i],
        base,
    ) is Some by {
        if i > 0 {
            assert(zero[i] == s[i - 1]);
        }
    }
    lemma_zero_first(s, base);
}

proof fn lemma_zero_first(s: Seq<char>, base: int)
    requires
        2 <= base <= 16,
    ensures
        value(seq!['0'] + s, base) == value(s, base),
    decreases s.len(),
{
    let zero = seq!['0'] + s;
    if s.len() == 0 {
        assert(zero.drop_last() =~= Seq::empty());
        assert(value(zero.drop_last(), base) * base == 0) by (nonlinear_arith)
            requires
                value(zero.drop_last(), base) == 0,
        ;
    } else {
        lemma_zero_first(s.drop_last(), base);
        assert(zero.drop_last() =~= seq!['0'] + s.drop_last());
    }
}

/// Only digits make a number, at least one of them, with no more than a `+` before them.
pub proof fn law_only_digits_make_a_number(s: Seq<char>, base: int, max: int)
    requires
        2 <= base <= 16,
    ensures
        number(s, base, max) is Some ==> {
            let from: int = if s[0] == '+' {
                1
            } else {
                0
            };
            &&& from < s.len()
            &&& forall|i: int| from <= i < s.len() ==> digit_value(#[trigger] s[i], base) is Some
            &&& 0 <= number(s, base, max).unwrap() <= max
        },
{
    if number(s, base, max) is Some {
        if s[0] == '+' {
            let body = s.skip(1);
            lemma_value_nonneg(body, base);
            assert forall|i: int| 1 <= i < s.len() implies digit_value(
                #[trigger] s[i],
                base,
            ) is Some by {
                assert(body[i - 1] == s[i]);
            }
        } else {
            lemma_value_nonneg(s, base);
        }
    }
}

/// A number is written without leading zeros, in digits with letters in lower case, and reads back
/// as itself.
pub proof fn law_numbers_are_written_plainly(n: int, base: int)
    requires
        0 <= n,
        2 <= base <= 16,
    ensures
        number(digits(n, base), base, n) == Some(n),
        digits(n, base)[0] == '0' <==> n == 0,
        n == 0 ==> digits(n, base) == seq!['0'],
        forall|i: int|
            0 <= i < digits(n, base).len() ==> {
                let c = #[trigger] digits(n, base)[i] as int;
                48 <= c <= 57 || 97 <= c <= 102
            },
    decreases n,
{
    lemma_digits(n, base);
    lemma_number_of_digits(n, base, n);
    if n >= base {
        assert(0 < n / base < n) by (nonlinear_arith)
            requires
                n >= base,
                base >= 2,
        ;
        law_numbers_are_written_plainly(n / base, base);
        lemma_digits(n / base, base);
        assert(digits(n, base)[0] == digits(n / base, base)[0]);
    }
}

/// The functions that read and write numbers do so in base ten or sixteen, up to the largest number
/// of their type.
pub proof fn law_numbers_are_read_and_written(
    s: &str,
    r64: Option<u64>,
    r32: Option<u32>,
    n: u64,
    dec: String,
    hex: String,
)
    requires
        call_ensures(parse_u64, (s,), r64),
        call_ensures(parse_u32, (s,), r32),
        call_ensures(decimal, (n,), dec),
        call_ensures(hexadecimal, (n,), hex),
    ensures
        r64 is Some <==> number(s@, 10, 0xffff_ffff_ffff_ffff) is Some,
        r64 matches Some(v) ==> number(s@, 10, 0xffff_ffff_ffff_ffff) == Some(v as int),
        r32 is Some <==> number(s@, 10, 0xffff_ffff) is Some,
        r32 matches Some(v) ==> number(s@, 10, 0xffff_ffff) == Some(v as int),
        number(dec@, 10, n as int) == Some(n as int),
        number(hex@, 16, n as int) == Some(n as int),
{
    law_numbers_are_written_plainly(n as int, 10);
    law_numbers_are_written_plainly(n as int, 16);
}

/// Whether two hexadecimal digits stand for a byte, the higher one first.
pub open spec fn is_pair(high: char, low: char, byte: u8) -> bool {
    &&& digit_value(high, 16) is Some
    &&& digit_value(low, 16) is Some
    &&& byte == 16 * digit_value(high, 16).unwrap() + digit_value(low, 16).unwrap()
}

/// Bytes in hexadecimal are two digits for each byte, the higher one first, in lower case; and text
/// stands for bytes exactly where it is two digits of either case for each.
pub proof fn law_bytes_are_two_digits_each(bytes: Seq<u8>, text: Seq<char>, i: int)
    ensures
        hex_text(bytes).len() == 2 * bytes.len(),
        0 <= i < bytes.len() ==> {
            let high = hex_text(bytes)[2 * i] as int;
            let low = hex_text(bytes)[2 * i + 1] as int;
            &&& 48 <= high <= 57 || 97 <= high <= 102
            &&& 48 <= low <= 57 || 97 <= low <= 102
            &&& bytes[i] == 16 * (if high <= 57 {
                high - 48
            } else {
                high - 87
            }) + (if low <= 57 {
                low - 48
            } else {
                low - 87
            })
        },
        hex_bytes(text, bytes.len()) == Some(bytes) <==> {
            &&& text.len() == 2 * bytes.len()
            &&& forall|k: int|
                0 <= k < bytes.len() ==> #[trigger] is_pair(text[2 * k], text[2 * k + 1], bytes[k])
        },
{
    if 0 <= i < bytes.len() {
        let b = bytes[i] as int;
        assert(0 <= b / 16 < 16 && 0 <= b % 16 < 16);
        assert((2 * i) / 2 == i && (2 * i) % 2 == 0);
        assert((2 * i + 1) / 2 == i && (2 * i + 1) % 2 == 1);
    }
    let n = bytes.len();
    if text.len() == 2 * n && (forall|k: int|
        0 <= k < n ==> #[trigger] is_pair(text[2 * k], text[2 * k + 1], bytes[k])) {
        assert forall|j: int| 0 <= j < text.len() implies digit_value(
            #[trigger] text[j],
            16,
        ) is Some by {
            let k = j / 2;
            assert(is_pair(text[2 * k], text[2 * k + 1], bytes[k]));
            assert(j == 2 * k || j == 2 * k + 1);
        }
        let back = hex_bytes(text, n).unwrap();
        assert forall|k: int| 0 <= k < n implies back[k] == bytes[k] by {
            assert(is_pair(text[2 * k], text[2 * k + 1], bytes[k]));
        }
        assert(back =~= bytes);
    }
    if hex_bytes(text, n) == Some(bytes) {
        let back = hex_bytes(text, n).unwrap();
        assert forall|k: int| 0 <= k < n implies #[trigger] is_pair(
            text[2 * k],
            text[2 * k + 1],
            bytes[k],
        ) by {
            assert(back[k] == bytes[k]);
            assert(digit_value(text[2 * k], 16) is Some);
            assert(digit_value(text[2 * k + 1], 16) is Some);
        }
    }
}

} // verus!
