//! Percent-encoding, and the forms it makes.
//!
//! Only letters, digits and `-`, `.`, `_`, `~` go as they are. Everything else
//! goes byte by byte, so a value can hold anything and still end nothing.
use vstd::prelude::*;
use vstd::string::*;
use vstd::utf8::encode_utf8;

use crate::number::{hex_upper, upper_digit};

verus! {

/// A byte that goes as it is.
pub open spec fn unreserved(b: u8) -> bool {
    ||| 0x41 <= b <= 0x5a
    ||| 0x61 <= b <= 0x7a
    ||| 0x30 <= b <= 0x39
    ||| b == 0x2d
    ||| b == 0x2e
    ||| b == 0x5f
    ||| b == 0x7e
}

/// One byte, as it goes.
pub open spec fn escaped_byte(b: u8) -> Seq<char> {
    if unreserved(b) {
        seq![b as char]
    } else {
        seq!['%', hex_upper(b as int / 16), hex_upper(b as int % 16)]
    }
}

/// The bytes, each as it goes.
pub open spec fn escaped(bytes: Seq<u8>) -> Seq<char>
    decreases bytes.len(),
{
    if bytes.len() == 0 {
        Seq::empty()
    } else {
        escaped(bytes.drop_last()) + escaped_byte(bytes.last())
    }
}

/// A text, percent-encoded.
pub open spec fn encoded_text(s: Seq<char>) -> Seq<char> {
    escaped(encode_utf8(s))
}

/// The number an upper-case hexadecimal digit stands for.
pub open spec fn hex_value(c: char) -> int {
    if '0' <= c <= '9' {
        c as int - 0x30
    } else {
        c as int - 0x37
    }
}

/// The bytes that a percent-encoded text stands for.
pub open spec fn unescaped(s: Seq<char>) -> Seq<u8>
    decreases s.len(),
{
    if s.len() == 0 {
        Seq::empty()
    } else if s[0] == '%' && s.len() >= 3 {
        seq![(16 * hex_value(s[1]) + hex_value(s[2])) as u8] + unescaped(s.skip(3))
    } else {
        seq![s[0] as u8] + unescaped(s.skip(1))
    }
}

/// A character that percent-encoding can yield.
pub open spec fn carried(c: char) -> bool {
    c == '%' || (c <= '\u{7f}' && unreserved(c as u8))
}

/// Percent-encoding yields letters, digits and `-`, `.`, `_`, `~`, `%`, and
/// nothing else: no `&`, no `=`, no white space, whatever was encoded.
pub proof fn encoding_carries_nothing_else(bytes: Seq<u8>)
    ensures
        forall|i: int| 0 <= i < escaped(bytes).len() ==> carried(#[trigger] escaped(bytes)[i]),
    decreases bytes.len(),
{
    if bytes.len() > 0 {
        encoding_carries_nothing_else(bytes.drop_last());
        let before = escaped(bytes.drop_last());
        let b = bytes.last();
        assert forall|i: int| 0 <= i < escaped(bytes).len() implies carried(
            #[trigger] escaped(bytes)[i],
        ) by {
            if i < before.len() {
                assert(escaped(bytes)[i] == before[i]);
            } else {
                let c = escaped_byte(b)[i - before.len()];
                assert(escaped(bytes)[i] == c);
                lemma_escaped_byte(b);
            }
        }
    }
}

proof fn lemma_escaped_byte(b: u8)
    ensures
        forall|i: int| 0 <= i < escaped_byte(b).len() ==> carried(#[trigger] escaped_byte(b)[i]),
{
    if !unreserved(b) {
        let high = b as int / 16;
        let low = b as int % 16;
        assert(0 <= high < 16 && 0 <= low < 16);
        assert(carried(hex_upper(high)));
        assert(carried(hex_upper(low)));
    } else {
        assert(carried(b as char));
    }
}

proof fn lemma_escaped_prepend(b: u8, rest: Seq<u8>)
    ensures
        escaped(seq![b] + rest) == escaped_byte(b) + escaped(rest),
    decreases rest.len(),
{
    let all = seq![b] + rest;
    if rest.len() == 0 {
        assert(all.drop_last() =~= Seq::<u8>::empty());
        assert(all.last() == b);
        assert(escaped(all.drop_last()) =~= Seq::<char>::empty());
        assert(escaped(all) =~= escaped_byte(b) + escaped(rest));
    } else {
        lemma_escaped_prepend(b, rest.drop_last());
        assert(all.drop_last() =~= seq![b] + rest.drop_last());
        assert(escaped(all) =~= escaped_byte(b) + escaped(rest));
    }
}

/// What was encoded is what is read back, byte for byte.
pub proof fn encoding_reads_back(bytes: Seq<u8>)
    ensures
        unescaped(escaped(bytes)) == bytes,
    decreases bytes.len(),
{
    if bytes.len() > 0 {
        let b = bytes[0];
        let rest = bytes.skip(1);
        assert(bytes =~= seq![b] + rest);
        lemma_escaped_prepend(b, rest);
        encoding_reads_back(rest);
        let whole = escaped(bytes);
        if unreserved(b) {
            assert(whole[0] == b as char);
            assert(whole.skip(1) =~= escaped(rest));
            assert(unescaped(whole) =~= seq![b] + rest);
        } else {
            assert(whole[0] == '%' && whole.len() >= 3);
            assert(whole[1] == hex_upper(b as int / 16));
            assert(whole[2] == hex_upper(b as int % 16));
            assert(whole.skip(3) =~= escaped(rest));
            assert(hex_value(whole[1]) == b as int / 16);
            assert(hex_value(whole[2]) == b as int % 16);
            assert(unescaped(whole) =~= seq![b] + rest);
        }
    }
}

/// A text, percent-encoded.
pub fn encoded(s: &str) -> (out: String)
    ensures
        out@ == encoded_text(s@),
{
    let bytes = s.as_bytes();
    let mut out = String::new();
    let mut i: usize = 0;
    while i < bytes.len()
        invariant
            i <= bytes@.len(),
            out@ == escaped(bytes@.take(i as int)),
        decreases bytes@.len() - i,
    {
        assert(bytes@.take(i + 1).drop_last() =~= bytes@.take(i as int));
        let b: u8 = bytes[i];
        let ghost before = out@;
        if goes_as_it_is(b) {
            out.push(b as char);
        } else {
            out.push('%');
            out.push(upper_digit(b / 16));
            out.push(upper_digit(b % 16));
        }
        assert(out@ =~= before + escaped_byte(b));
        i += 1;
    }
    assert(bytes@.take(i as int) =~= bytes@);
    out
}

fn goes_as_it_is(b: u8) -> (r: bool)
    ensures
        r == unreserved(b),
{
    (0x41 <= b && b <= 0x5a) || (0x61 <= b && b <= 0x7a) || (0x30 <= b && b <= 0x39) || b == 0x2d
        || b == 0x2e || b == 0x5f || b == 0x7e
}

/// Letters, digits and the four marks go as they are, and every other byte goes
/// as a percent sign and its two upper-case hexadecimal digits, wherever it
/// stands.
pub proof fn letters_digits_and_four_marks_go_as_they_are(before: Seq<u8>, c: char, after: Seq<u8>)
    requires
        c <= '\u{7f}',
    ensures
        escaped(Seq::empty()).len() == 0,
        ({
            let goes = 'a' <= c <= 'z' || 'A' <= c <= 'Z' || '0' <= c <= '9' || c == '-' || c == '.'
                || c == '_' || c == '~';
            let went = escaped(before + seq![c as u8] + after);
            &&& goes ==> went == escaped(before) + seq![c] + escaped(after)
            &&& !goes ==> went == escaped(before) + seq![
                '%',
                "0123456789ABCDEF"@[c as int / 16],
                "0123456789ABCDEF"@[c as int % 16],
            ] + escaped(after)
        }),
    decreases after.len(),
{
    let b = c as u8;
    let all = before + seq![b] + after;
    let goes = 'a' <= c <= 'z' || 'A' <= c <= 'Z' || '0' <= c <= '9' || c == '-' || c == '.' || c
        == '_' || c == '~';
    assert(b as int == c as int);
    assert(goes == unreserved(b));
    if after.len() == 0 {
        assert(all.drop_last() =~= before);
        assert(all.last() == b);
        lemma_upper(b as int / 16);
        lemma_upper(b as int % 16);
        assert(escaped(all) =~= escaped(before) + escaped_byte(b) + escaped(after));
    } else {
        letters_digits_and_four_marks_go_as_they_are(before, c, after.drop_last());
        assert(all.drop_last() =~= before + seq![b] + after.drop_last());
        assert(all.last() == after.last());
        let mid = if goes {
            seq![c]
        } else {
            seq!['%', "0123456789ABCDEF"@[c as int / 16], "0123456789ABCDEF"@[c as int % 16]]
        };
        assert(escaped(all) =~= escaped(before) + mid + escaped(after));
    }
}

proof fn lemma_upper(n: int)
    requires
        0 <= n < 16,
    ensures
        hex_upper(n) == "0123456789ABCDEF"@[n],
{
    reveal_strlit("0123456789ABCDEF");
    let d = "0123456789ABCDEF"@;
    assert(d[0] == '0' && d[1] == '1' && d[2] == '2' && d[3] == '3' && d[4] == '4' && d[5] == '5'
        && d[6] == '6' && d[7] == '7' && d[8] == '8' && d[9] == '9' && d[10] == 'A' && d[11] == 'B'
        && d[12] == 'C' && d[13] == 'D' && d[14] == 'E' && d[15] == 'F');
}

} // verus!
