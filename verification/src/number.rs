//! Decimal and hexadecimal numerals: writing them and reading them back.

use vstd::prelude::*;
use vstd::slice::*;
use vstd::string::*;

use crate::text::{lemma_before_behind, lemma_before_extends, push_chars, text_before};

verus! {

/// The character of a decimal digit.
pub open spec fn digit(n: nat) -> char {
    (48 + n) as char
}

/// The decimal numeral of `n`, without leading zeros.
pub open spec fn decimal(n: nat) -> Seq<char>
    decreases n,
{
    if n < 10 {
        seq![digit(n)]
    } else {
        decimal(n / 10).push(digit(n % 10))
    }
}

/// The decimal numeral of `n`, with a minus sign where it is negative.
pub open spec fn signed_decimal(n: int) -> Seq<char> {
    if n < 0 {
        "-"@ + decimal((-n) as nat)
    } else {
        decimal(n as nat)
    }
}

/// `width` zeros.
pub open spec fn zeros(width: int) -> Seq<char> {
    Seq::new(
        if width > 0 {
            width as nat
        } else {
            0
        },
        |i: int| '0',
    )
}

/// The decimal numeral of `n`, filled up with zeros to `width` digits.
pub open spec fn padded(n: nat, width: int) -> Seq<char> {
    zeros(width - decimal(n).len()) + decimal(n)
}

fn digit_char(n: u64) -> (c: char)
    requires
        n < 10,
    ensures
        c == digit(n as nat),
{
    let b: u8 = 48u8 + n as u8;
    b as char
}

fn decimal_chars(n: u64) -> (r: Vec<char>)
    ensures
        r@ == decimal(n as nat),
    decreases n,
{
    if n < 10 {
        let mut r: Vec<char> = Vec::new();
        r.push(digit_char(n));
        assert(r@ =~= seq![digit(n as nat)]);
        r
    } else {
        let mut r = decimal_chars(n / 10);
        r.push(digit_char(n % 10));
        r
    }
}

/// Appends the decimal numeral of `n`.
pub fn push_decimal(out: &mut String, n: u64)
    ensures
        final(out)@ == old(out)@ + decimal(n as nat),
{
    let v = decimal_chars(n);
    push_chars(out, v.as_slice());
}

/// Appends the decimal numeral of a length or a count.
pub fn push_count(out: &mut String, n: usize)
    ensures
        final(out)@ == old(out)@ + decimal(n as nat),
{
    push_decimal(out, n as u64);
}

/// Appends the decimal numeral of a signed number.
pub fn push_signed(out: &mut String, n: i32)
    ensures
        final(out)@ == old(out)@ + signed_decimal(n as int),
{
    let ghost before = out@;
    if n < 0 {
        out.append("-");
        let m: i64 = -(n as i64);
        push_decimal(out, m as u64);
        assert(out@ =~= before + signed_decimal(n as int));
    } else {
        push_decimal(out, n as u64);
    }
}

/// Appends the decimal numeral of `n`, filled up with zeros to `width` digits.
pub fn push_padded(out: &mut String, n: u64, width: usize)
    ensures
        final(out)@ == old(out)@ + padded(n as nat, width as int),
{
    let ghost before = out@;
    let v = decimal_chars(n);
    let mut i: usize = v.len();
    assert(before + zeros(0) =~= before);
    while i < width
        invariant
            v@.len() <= i,
            i <= width || i == v@.len(),
            out@ == before + zeros(i - v@.len()),
        decreases width - i,
    {
        out.push('0');
        assert(zeros(i + 1 - v@.len()) =~= zeros(i - v@.len()).push('0'));
        i = i + 1;
    }
    push_chars(out, v.as_slice());
    assert(zeros(i - v@.len()) =~= zeros(width - v@.len()));
    assert(out@ =~= before + padded(n as nat, width as int));
}

// ---------------------------------------------------------------------------
// Reading numerals
// ---------------------------------------------------------------------------

pub open spec fn is_digit(c: char) -> bool {
    '0' <= c && c <= '9'
}

/// `s` is a nonempty run of decimal digits.
pub open spec fn all_digits(s: Seq<char>) -> bool {
    s.len() > 0 && forall|i: int| 0 <= i < s.len() ==> is_digit(#[trigger] s[i])
}

/// The number that a run of decimal digits denotes.
pub open spec fn digits_value(s: Seq<char>) -> nat
    decreases s.len(),
{
    if s.len() == 0 {
        0
    } else {
        digits_value(s.drop_last()) * 10 + (s.last() as int - 48) as nat
    }
}

/// `s` without one leading plus sign, unless the sign is all of it.
pub open spec fn without_plus(s: Seq<char>) -> Seq<char> {
    if s.len() > 1 && s[0] == '+' {
        s.skip(1)
    } else {
        s
    }
}

/// The unsigned number up to `max` that `s` denotes, if it denotes one: an
/// optional plus sign followed by decimal digits.
pub open spec fn unsigned_value(s: Seq<char>, max: nat) -> Option<nat> {
    let d = without_plus(s);
    if all_digits(d) && digits_value(d) <= max {
        Some(digits_value(d))
    } else {
        None
    }
}

/// The 32-bit signed number that `s` denotes, if it denotes one: an optional
/// sign followed by decimal digits.
pub open spec fn signed_value(s: Seq<char>) -> Option<int> {
    if s.len() > 1 && s[0] == '-' {
        let d = s.skip(1);
        if all_digits(d) && digits_value(d) <= 0x8000_0000 {
            Some(-(digits_value(d) as int))
        } else {
            None
        }
    } else {
        match unsigned_value(s, 0x7fff_ffff) {
            Some(n) => Some(n as int),
            None => None,
        }
    }
}

proof fn lemma_digits_prefix(s: Seq<char>, n: int)
    requires
        0 <= n <= s.len(),
    ensures
        digits_value(s.take(n)) <= digits_value(s),
    decreases s.len() - n,
{
    if n < s.len() {
        assert(s.take(n + 1).drop_last() =~= s.take(n));
        lemma_digits_prefix(s, n + 1);
    } else {
        assert(s.take(n) =~= s);
    }
}

/// The value of a run of digits, where it is at most `max`.
fn read_digits(s: &[char], max: u64) -> (r: Option<u64>)
    ensures
        r is Some <==> all_digits(s@) && digits_value(s@) <= max,
        r matches Some(n) ==> n == digits_value(s@),
{
    if s.len() == 0 {
        return None;
    }
    let mut n: u64 = 0;
    for i in 0..s.len()
        invariant
            s@.len() > 0,
            n == digits_value(s@.take(i as int)),
            n <= max,
            forall|k: int| 0 <= k < i ==> is_digit(#[trigger] s@[k]),
    {
        let c = s[i];
        if c < '0' || '9' < c {
            assert(!is_digit(s@[i as int]));
            return None;
        }
        let d: u64 = (c as u32 - 48u32) as u64;
        assert(s@.take(i + 1).drop_last() =~= s@.take(i as int));
        assert(digits_value(s@.take(i + 1)) == n * 10 + d);
        if d > max || n > (max - d) / 10 {
            proof {
                lemma_digits_prefix(s@, i + 1);
            }
            return None;
        }
        n = n * 10 + d;
    }
    assert(s@.take(s@.len() as int) =~= s@);
    Some(n)
}

/// Reads an unsigned number of at most `max`.
pub fn parse_unsigned(s: &[char], max: u64) -> (r: Option<u64>)
    ensures
        r is Some <==> unsigned_value(s@, max as nat) is Some,
        r matches Some(n) ==> unsigned_value(s@, max as nat) == Some(n as nat),
{
    if s.len() > 1 && s[0] == '+' {
        assert(s@.subrange(1, s@.len() as int) =~= s@.skip(1));
        read_digits(slice_subrange(s, 1, s.len()), max)
    } else {
        read_digits(s, max)
    }
}

/// Reads a 32-bit signed number.
pub fn parse_signed(s: &[char]) -> (r: Option<i32>)
    ensures
        r is Some <==> signed_value(s@) is Some,
        r matches Some(n) ==> signed_value(s@) == Some(n as int),
{
    if s.len() > 1 && s[0] == '-' {
        assert(s@.subrange(1, s@.len() as int) =~= s@.skip(1));
        match read_digits(slice_subrange(s, 1, s.len()), 0x8000_0000) {
            Some(n) => {
                let m: i64 = -(n as i64);
                Some(m as i32)
            },
            None => None,
        }
    } else {
        match parse_unsigned(s, 0x7fff_ffff) {
            Some(n) => Some(n as i32),
            None => None,
        }
    }
}

/// Reading a decimal numeral gives back the number it was written from.
pub proof fn decimal_reads_back(n: nat, max: nat)
    requires
        n <= max,
    ensures
        unsigned_value(decimal(n), max) == Some(n),
{
    lemma_decimal_digits(n);
    assert(is_digit(decimal(n)[0]));
}

pub proof fn lemma_decimal_digits(n: nat)
    ensures
        all_digits(decimal(n)),
        digits_value(decimal(n)) == n,
    decreases n,
{
    if n < 10 {
        assert(decimal(n).drop_last() =~= Seq::<char>::empty());
        assert(digits_value(Seq::<char>::empty()) == 0);
    } else {
        lemma_decimal_digits(n / 10);
        let d = decimal(n);
        assert(d.drop_last() =~= decimal(n / 10));
        assert forall|i: int| 0 <= i < d.len() implies is_digit(#[trigger] d[i]) by {
            if i < d.len() - 1 {
                assert(d[i] == decimal(n / 10)[i]);
            }
        }
    }
}

/// Ten to the power of `width`.
pub open spec fn power_of_ten(width: nat) -> nat
    decreases width,
{
    if width == 0 {
        1
    } else {
        10 * power_of_ten((width - 1) as nat)
    }
}

proof fn lemma_padded_step(n: nat, width: int)
    requires
        width >= 2,
    ensures
        padded(n, width) == padded(n / 10, width - 1).push(digit(n % 10)),
{
    if n < 10 {
        assert(decimal(0) =~= seq!['0']);
        assert(padded(n, width) =~= padded(0, width - 1).push(digit(n)));
    } else {
        assert(padded(n, width) =~= padded(n / 10, width - 1).push(digit(n % 10)));
    }
}

/// A number that fits is shown with exactly `width` digits.
pub proof fn lemma_padded_width(n: nat, width: nat)
    requires
        width >= 1,
        n < power_of_ten(width),
    ensures
        padded(n, width as int).len() == width,
        forall|i: int|
            0 <= i < padded(n, width as int).len() ==> is_digit(
                #[trigger] padded(n, width as int)[i],
            ),
    decreases width,
{
    lemma_padded_digits(n, width as int);
    if width == 1 {
        assert(power_of_ten(0) == 1);
        assert(n < 10);
    } else {
        lemma_padded_step(n, width as int);
        lemma_padded_width(n / 10, (width - 1) as nat);
    }
}

/// Numerals hold digits only.
pub proof fn lemma_padded_digits(n: nat, width: int)
    ensures
        forall|i: int|
            0 <= i < padded(n, width).len() ==> is_digit(#[trigger] padded(n, width)[i]),
{
    lemma_decimal_digits(n);
    let z = zeros(width - decimal(n).len());
    assert forall|i: int| 0 <= i < padded(n, width).len() implies is_digit(
        #[trigger] padded(n, width)[i],
    ) by {
        if i < z.len() {
            assert(padded(n, width)[i] == z[i]);
        } else {
            assert(padded(n, width)[i] == decimal(n)[i - z.len()]);
        }
    }
}

/// Numerals of the same width are ordered as their numbers are.
pub proof fn padded_numerals_are_ordered(a: nat, b: nat, width: nat)
    requires
        width >= 1,
        a < b < power_of_ten(width),
    ensures
        text_before(padded(a, width as int), padded(b, width as int)),
    decreases width,
{
    if width == 1 {
        assert(power_of_ten(0) == 1);
        assert(padded(a, 1) =~= seq![digit(a)] && padded(b, 1) =~= seq![digit(b)]);
        assert(digit(a) < digit(b));
    } else {
        lemma_padded_step(a, width as int);
        lemma_padded_step(b, width as int);
        let w = (width - 1) as nat;
        let p = padded(a / 10, w as int);
        let q = padded(b / 10, w as int);
        let x = seq![digit(a % 10)];
        let y = seq![digit(b % 10)];
        lemma_padded_width(a / 10, w);
        lemma_padded_width(b / 10, w);
        assert(padded(a, width as int) =~= p + x);
        assert(padded(b, width as int) =~= q + y);
        if a / 10 < b / 10 {
            padded_numerals_are_ordered(a / 10, b / 10, w);
            lemma_before_extends(p, q, x, y);
        } else {
            assert(a / 10 == b / 10);
            assert(digit(a % 10) < digit(b % 10));
            lemma_before_behind(p, x, y);
        }
    }
}

// ---------------------------------------------------------------------------
// Hexadecimal
// ---------------------------------------------------------------------------

/// The lower-case hexadecimal digit of a number below sixteen.
pub open spec fn hex_digit(n: int) -> char {
    if n < 10 {
        (48 + n) as char
    } else {
        (87 + n) as char
    }
}

/// The lower-case hexadecimal form of `bytes`, two digits a byte.
pub open spec fn hex_form(bytes: Seq<u8>) -> Seq<char> {
    Seq::new(
        2 * bytes.len(),
        |i: int|
            if i % 2 == 0 {
                hex_digit(bytes[i / 2] as int / 16)
            } else {
                hex_digit(bytes[i / 2] as int % 16)
            },
    )
}

fn hex_char(n: u8) -> (c: char)
    requires
        n < 16,
    ensures
        c == hex_digit(n as int),
{
    let b: u8 = if n < 10 {
        48u8 + n
    } else {
        87u8 + n
    };
    b as char
}

/// The lower-case hexadecimal form of `bytes`.
pub fn hex_text(bytes: &[u8]) -> (r: String)
    ensures
        r@ == hex_form(bytes@),
{
    let mut out = String::new();
    for i in 0..bytes.len()
        invariant
            out@ == hex_form(bytes@.take(i as int)),
    {
        let b: u8 = bytes[i];
        let ghost before = out@;
        out.push(hex_char(b / 16));
        out.push(hex_char(b % 16));
        proof {
            let whole = hex_form(bytes@.take(i + 1));
            assert forall|k: int| 0 <= k < whole.len() implies out@[k] == whole[k] by {
                if k < 2 * i {
                    assert(before[k] == hex_form(bytes@.take(i as int))[k]);
                    assert(k / 2 < i);
                    assert(bytes@.take(i + 1)[k / 2] == bytes@.take(i as int)[k / 2]);
                }
            }
            assert(out@ =~= whole);
        }
    }
    assert(bytes@.take(bytes@.len() as int) =~= bytes@);
    out
}

// ---------------------------------------------------------------------------
// Laws
// ---------------------------------------------------------------------------

/// A decimal numeral is written digit by digit: ten times a number and a digit
/// more is the numeral of that number with the digit behind it. A negative
/// number has a minus sign in front.
pub proof fn numerals_are_written_digit_by_digit(n: nat, d: nat)
    requires
        d < 10,
    ensures
        decimal(d).len() == 1,
        decimal(d)[0] as int == '0' as int + d,
        n > 0 ==> decimal(10 * n + d) == decimal(n).push(decimal(d)[0]),
        signed_decimal(n as int) == decimal(n),
        n > 0 ==> signed_decimal(-(n as int)) == seq!['-'] + decimal(n),
{
    reveal_strlit("-");
    assert((10 * n + d) / 10 == n);
    assert((10 * n + d) % 10 == d);
    if n > 0 {
        assert(decimal(10 * n + d) =~= decimal(n).push(decimal(d)[0]));
        assert("-"@ =~= seq!['-']);
    }
}

/// A numeral is read digit by digit: one more digit makes ten times the number
/// and the digit. One plus sign in front does not matter; a number over the
/// bound, a character that is no digit and an empty text are not numbers.
pub proof fn numerals_are_read_digit_by_digit(s: Seq<char>, c: char, max: nat)
    requires
        s.len() > 0,
        s[0] != '+',
    ensures
        '0' <= c && c <= '9' ==> (unsigned_value(s, max) matches Some(n) ==> unsigned_value(
            s.push(c),
            max,
        ) == if 10 * n + (c as int - '0' as int) <= max {
            Some((10 * n + (c as int - '0' as int)) as nat)
        } else {
            None
        }),
        '0' <= c && c <= '9' && c as int - '0' as int <= max ==> unsigned_value(seq![c], max)
            == Some((c as int - '0' as int) as nat),
        !('0' <= c && c <= '9') ==> unsigned_value(s.push(c), max) is None,
        unsigned_value(seq!['+'] + s, max) == unsigned_value(s, max),
        unsigned_value(Seq::empty(), max) is None,
        unsigned_value(seq!['+'], max) is None,
{
    let t = s.push(c);
    assert(t.drop_last() =~= s);
    assert(without_plus(s) == s && without_plus(t) == t);
    if all_digits(s) && is_digit(c) {
        assert forall|i: int| 0 <= i < t.len() implies is_digit(#[trigger] t[i]) by {
            if i < s.len() {
                assert(t[i] == s[i]);
            }
        }
    }
    if !is_digit(c) {
        assert(!is_digit(t[s.len() as int]));
    }
    let one = seq![c];
    assert(one.drop_last() =~= Seq::<char>::empty());
    assert(digits_value(Seq::<char>::empty()) == 0);
    let plus = seq!['+'] + s;
    assert(plus.skip(1) =~= s);
    assert(!is_digit(seq!['+'][0]));
    assert(digits_value(t) == digits_value(s) * 10 + (c as int - 48) as nat);
}

/// A minus sign in front makes the number negative.
pub proof fn signed_numerals_read_back(n: nat)
    ensures
        n <= 0x7fff_ffff ==> signed_value(decimal(n)) == Some(n as int),
        n <= 0x8000_0000 ==> signed_value(seq!['-'] + decimal(n)) == Some(-(n as int)),
        n > 0x7fff_ffff ==> signed_value(decimal(n)) is None,
        n > 0x8000_0000 ==> signed_value(seq!['-'] + decimal(n)) is None,
{
    lemma_decimal_digits(n);
    let d = decimal(n);
    assert(is_digit(d[0]));
    let m = seq!['-'] + d;
    assert(m.skip(1) =~= d);
}

/// A padded numeral has its width, and reads as the number: only zeros are put
/// in front.
pub proof fn padding_puts_zeros_in_front(n: nat, width: int)
    ensures
        padded(n, width).len() >= width,
        padded(n, width).len() >= decimal(n).len(),
        padded(n, width).skip(padded(n, width).len() - decimal(n).len()) == decimal(n),
        forall|i: int|
            0 <= i < padded(n, width).len() - decimal(n).len() ==> #[trigger] padded(n, width)[i]
                == '0',
        decimal(n).len() >= width ==> padded(n, width) == decimal(n),
{
    let k = width - decimal(n).len();
    lemma_zeros(k);
    let p = padded(n, width);
    assert(p =~= zeros(k) + decimal(n));
    assert(p.skip(p.len() - decimal(n).len()) =~= decimal(n));
    if k <= 0 {
        assert(p =~= decimal(n));
    }
}

proof fn lemma_zeros(width: int)
    ensures
        zeros(width).len() == if width > 0 {
            width
        } else {
            0
        },
        forall|i: int| 0 <= i < zeros(width).len() ==> #[trigger] zeros(width)[i] == '0',
{
}

/// Two hexadecimal digits stand for each byte, the high one first.
pub proof fn hexadecimal_digits_are_the_bytes(bytes: Seq<u8>, k: int)
    requires
        0 <= k < bytes.len(),
    ensures
        hex_form(bytes).len() == 2 * bytes.len(),
        ({
            let value = |c: char|
                if '0' <= c && c <= '9' {
                    c as int - '0' as int
                } else {
                    c as int - 'a' as int + 10
                };
            let high = hex_form(bytes)[2 * k];
            let low = hex_form(bytes)[2 * k + 1];
            &&& ('0' <= high && high <= '9') || ('a' <= high && high <= 'f')
            &&& ('0' <= low && low <= '9') || ('a' <= low && low <= 'f')
            &&& value(high) * 16 + value(low) == bytes[k]
        }),
{
    assert((2 * k) / 2 == k && (2 * k) % 2 == 0);
    assert((2 * k + 1) / 2 == k && (2 * k + 1) % 2 == 1);
    let b = bytes[k] as int;
    assert(b / 16 * 16 + b % 16 == b && 0 <= b / 16 < 16 && 0 <= b % 16 < 16);
}

} // verus!
