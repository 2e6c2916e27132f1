//! Numbers as text: decimal and hexadecimal digits, written and read.
use vstd::prelude::*;
use vstd::string::*;

use crate::text::characters;

verus! {

/// The decimal digit that stands for `n`.
pub open spec fn digit(n: int) -> char {
    (0x30 + n) as char
}

/// `n` in decimal, with no sign and no leading zero.
pub open spec fn decimal(n: nat) -> Seq<char>
    decreases n,
{
    if n < 10 {
        seq![digit(n as int)]
    } else {
        decimal(n / 10).push(digit((n % 10) as int))
    }
}

/// An ASCII decimal digit.
pub open spec fn is_digit(c: char) -> bool {
    '0' <= c <= '9'
}

/// Nothing but ASCII decimal digits.
pub open spec fn all_digits(s: Seq<char>) -> bool {
    forall|i: int| 0 <= i < s.len() ==> is_digit(#[trigger] s[i])
}

/// The number that a row of decimal digits writes.
pub open spec fn value(s: Seq<char>) -> nat
    decreases s.len(),
{
    if s.len() == 0 {
        0
    } else {
        10 * value(s.drop_last()) + (s.last() as nat - 0x30) as nat
    }
}

/// The unsigned number that a text writes: decimal digits, at least one, with
/// at most one `+` before them, and no more than `max`.
pub open spec fn parsed(s: Seq<char>, max: nat) -> Option<nat> {
    let digits = if s.len() > 0 && s[0] == '+' {
        s.skip(1)
    } else {
        s
    };
    if digits.len() > 0 && all_digits(digits) && value(digits) <= max {
        Some(value(digits))
    } else {
        None
    }
}

/// The lower-case hexadecimal digit that stands for `n`.
pub open spec fn hex_lower(n: int) -> char {
    if n < 10 {
        (0x30 + n) as char
    } else {
        (0x57 + n) as char
    }
}

/// The upper-case hexadecimal digit that stands for `n`.
pub open spec fn hex_upper(n: int) -> char {
    if n < 10 {
        (0x30 + n) as char
    } else {
        (0x37 + n) as char
    }
}

/// Each byte as two lower-case hexadecimal digits.
pub open spec fn hex(bytes: Seq<u8>) -> Seq<char>
    decreases bytes.len(),
{
    if bytes.len() == 0 {
        Seq::empty()
    } else {
        hex(bytes.drop_last()) + seq![
            hex_lower(bytes.last() as int / 16),
            hex_lower(bytes.last() as int % 16),
        ]
    }
}

/// A hexadecimal digit of either case.
pub open spec fn is_hex(c: char) -> bool {
    is_digit(c) || 'a' <= c <= 'f' || 'A' <= c <= 'F'
}

/// More digits write no smaller number.
proof fn lemma_value_prefix(s: Seq<char>, n: int)
    requires
        0 <= n <= s.len(),
        all_digits(s),
    ensures
        value(s.take(n)) <= value(s),
    decreases s.len() - n,
{
    if n == s.len() {
        assert(s.take(n) =~= s);
    } else {
        lemma_value_prefix(s, n + 1);
        assert(s.take(n + 1).drop_last() =~= s.take(n));
        assert(s.take(n + 1).last() == s[n]);
    }
}

/// A number written in decimal is read back as itself.
pub proof fn decimal_reads_back(n: nat, max: nat)
    requires
        n <= max,
    ensures
        parsed(decimal(n), max) == Some(n),
{
    lemma_decimal(n);
}

proof fn lemma_decimal(n: nat)
    ensures
        decimal(n).len() > 0,
        all_digits(decimal(n)),
        value(decimal(n)) == n,
    decreases n,
{
    if n < 10 {
        assert(seq![digit(n as int)].drop_last() =~= Seq::<char>::empty());
        assert(value(Seq::<char>::empty()) == 0);
    } else {
        lemma_decimal(n / 10);
        let d = decimal(n / 10);
        assert(decimal(n).drop_last() =~= d);
        assert(decimal(n).last() == digit((n % 10) as int));
    }
}

/// Hexadecimal digits, two for each byte.
pub proof fn lemma_hex(bytes: Seq<u8>)
    ensures
        hex(bytes).len() == 2 * bytes.len(),
        forall|i: int| 0 <= i < hex(bytes).len() ==> is_hex(#[trigger] hex(bytes)[i]),
    decreases bytes.len(),
{
    if bytes.len() > 0 {
        lemma_hex(bytes.drop_last());
    }
}

/// `n` in decimal.
pub fn decimal_of(n: u64) -> (out: String)
    ensures
        out@ == decimal(n as nat),
    decreases n,
{
    if n < 10 {
        let mut out = String::new();
        out.push((0x30u8 + n as u8) as char);
        assert(out@ =~= decimal(n as nat));
        out
    } else {
        let mut out = decimal_of(n / 10);
        out.push((0x30u8 + (n % 10) as u8) as char);
        out
    }
}

/// Whether a character is an ASCII decimal digit.
pub fn a_digit(c: char) -> (r: bool)
    ensures
        r == is_digit(c),
{
    '0' <= c && c <= '9'
}

/// Whether a character is a hexadecimal digit of either case.
pub fn a_hex_digit(c: char) -> (r: bool)
    ensures
        r == is_hex(c),
{
    a_digit(c) || ('a' <= c && c <= 'f') || ('A' <= c && c <= 'F')
}

/// The unsigned number that a text writes, if it is no more than `max`.
pub fn number_of(s: &str, max: u64) -> (r: Option<u64>)
    ensures
        match r {
            Some(n) => parsed(s@, max as nat) == Some(n as nat),
            None => parsed(s@, max as nat) is None,
        },
{
    let whole = characters(s);
    let from: usize = if whole.len() > 0 && whole[0] == '+' {
        1
    } else {
        0
    };
    let ghost digits = s@.skip(from as int);
    assert(from == 0 ==> digits =~= s@);
    if from == whole.len() {
        return None;
    }
    let mut n: u64 = 0;
    let mut i: usize = from;
    assert(digits.take(0) =~= Seq::<char>::empty());
    while i < whole.len()
        invariant
            from <= i <= whole@.len(),
            whole@ == s@,
            digits == s@.skip(from as int),
            digits == (if s@.len() > 0 && s@[0] == '+' {
                s@.skip(1)
            } else {
                s@
            }),
            forall|j: int| 0 <= j < i - from ==> is_digit(#[trigger] digits[j]),
            n <= max,
            n == value(digits.take(i - from)),
        decreases whole@.len() - i,
    {
        let c = whole[i];
        assert(c == digits[i - from]);
        if !a_digit(c) {
            return None;
        }
        let d: u64 = c as u64 - 0x30;
        let ghost longer = digits.take(i - from + 1);
        assert(longer.drop_last() =~= digits.take(i - from));
        assert(longer.last() == c);
        let wide: u128 = n as u128 * 10 + d as u128;
        if wide > max as u128 {
            proof {
                if all_digits(digits) {
                    lemma_value_prefix(digits, i - from + 1);
                }
            }
            return None;
        }
        n = wide as u64;
        i += 1;
    }
    assert(digits.take(i - from) =~= digits);
    Some(n)
}

/// Each byte as two lower-case hexadecimal digits.
pub fn hex_of(bytes: &[u8]) -> (out: String)
    ensures
        out@ == hex(bytes@),
{
    let mut out = String::new();
    let mut i: usize = 0;
    while i < bytes.len()
        invariant
            i <= bytes@.len(),
            out@ == hex(bytes@.take(i as int)),
        decreases bytes@.len() - i,
    {
        assert(bytes@.take(i + 1).drop_last() =~= bytes@.take(i as int));
        let ghost before = out@;
        out.push(lower_digit(bytes[i] / 16));
        out.push(lower_digit(bytes[i] % 16));
        assert(out@ =~= before + seq![
            hex_lower(bytes@[i as int] as int / 16),
            hex_lower(bytes@[i as int] as int % 16),
        ]);
        i += 1;
    }
    assert(bytes@.take(i as int) =~= bytes@);
    out
}

fn lower_digit(n: u8) -> (c: char)
    requires
        n < 16,
    ensures
        c == hex_lower(n as int),
{
    if n < 10 {
        (0x30u8 + n) as char
    } else {
        (0x57u8 + n) as char
    }
}

/// The upper-case hexadecimal digit that stands for `n`.
pub fn upper_digit(n: u8) -> (c: char)
    requires
        n < 16,
    ensures
        c == hex_upper(n as int),
{
    if n < 10 {
        (0x30u8 + n) as char
    } else {
        (0x37u8 + n) as char
    }
}

/// A number is read from decimal digits alone: with a plus before them or not,
/// and with zeros before them or not, it is the same number, and a text that
/// holds anything else, or that writes more than is allowed, is no number.
pub proof fn a_number_is_read_from_its_digits_alone(s: Seq<char>, max: nat, i: int)
    ensures
        s.len() > 0 && s[0] != '+' ==> parsed(seq!['+'] + s, max) == parsed(s, max),
        s.len() > 0 && s[0] != '+' ==> parsed(seq!['0'] + s, max) == parsed(s, max),
        parsed(Seq::empty(), max) is None,
        0 < i < s.len() && !('0' <= s[i] <= '9') ==> parsed(s, max) is None,
        s.len() > 0 && !('0' <= s[0] <= '9') && s[0] != '+' ==> parsed(s, max) is None,
        parsed(s, max) matches Some(n) ==> n <= max,
{
    if s.len() > 0 && s[0] != '+' {
        let plus = seq!['+'] + s;
        assert(plus[0] == '+');
        assert(plus.skip(1) =~= s);
        let zero = seq!['0'] + s;
        lemma_value_zero(s);
        assert(zero[0] == '0');
        if all_digits(s) {
            assert forall|j: int| 0 <= j < zero.len() implies is_digit(#[trigger] zero[j]) by {
                if j > 0 {
                    assert(zero[j] == s[j - 1]);
                }
            }
        } else {
            let k = choose|k: int| 0 <= k < s.len() && !is_digit(#[trigger] s[k]);
            assert(zero[k + 1] == s[k]);
            assert(!all_digits(zero));
        }
    }
    if 0 < i < s.len() && !('0' <= s[i] <= '9') {
        if s[0] == '+' {
            assert(s.skip(1)[i - 1] == s[i]);
            assert(!all_digits(s.skip(1)));
        } else {
            assert(!all_digits(s));
        }
    }
}

proof fn lemma_value_zero(s: Seq<char>)
    ensures
        value(seq!['0'] + s) == value(s),
    decreases s.len(),
{
    let zero = seq!['0'] + s;
    if s.len() == 0 {
        assert(zero.drop_last() =~= Seq::<char>::empty());
        assert(value(zero.drop_last()) == 0);
        assert(zero.last() == '0');
    } else {
        lemma_value_zero(s.drop_last());
        assert(zero.drop_last() =~= seq!['0'] + s.drop_last());
        assert(zero.last() == s.last());
    }
}

/// Bytes in hexadecimal are two lower-case digits for each byte, in the order of
/// the bytes, the digit of the sixteens first.
pub proof fn hexadecimal_digits_stand_in_the_order_of_the_bytes(bytes: Seq<u8>, i: int)
    requires
        0 <= i < bytes.len(),
    ensures
        hex(bytes).len() == 2 * bytes.len(),
        hex(bytes)[2 * i] == "0123456789abcdef"@[bytes[i] as int / 16],
        hex(bytes)[2 * i + 1] == "0123456789abcdef"@[bytes[i] as int % 16],
    decreases bytes.len(),
{
    reveal_strlit("0123456789abcdef");
    lemma_hex(bytes);
    lemma_hex(bytes.drop_last());
    let high = bytes[i] as int / 16;
    let low = bytes[i] as int % 16;
    assert(0 <= high < 16 && 0 <= low < 16);
    if i == bytes.len() - 1 {
        lemma_lower(high);
        lemma_lower(low);
    } else {
        hexadecimal_digits_stand_in_the_order_of_the_bytes(bytes.drop_last(), i);
    }
}

proof fn lemma_lower(n: int)
    requires
        0 <= n < 16,
    ensures
        hex_lower(n) == "0123456789abcdef"@[n],
{
    reveal_strlit("0123456789abcdef");
    let d = "0123456789abcdef"@;
    assert(d[0] == '0' && d[1] == '1' && d[2] == '2' && d[3] == '3' && d[4] == '4' && d[5] == '5'
        && d[6] == '6' && d[7] == '7' && d[8] == '8' && d[9] == '9' && d[10] == 'a' && d[11] == 'b'
        && d[12] == 'c' && d[13] == 'd' && d[14] == 'e' && d[15] == 'f');
}

} // verus!
