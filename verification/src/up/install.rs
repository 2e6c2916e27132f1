//! What an install is told, and the command that tells it.
use vstd::prelude::*;
use vstd::string::*;

use crate::catalogue::image::optional;
use crate::number::{hex_upper, is_hex, upper_digit};
use crate::text::{
    characters, cut_last, first_at, holds, join, joined, lemma_nothing_sought, lemma_occurs_skip,
    lemma_replace_first, occurs_at, replace, replaced, rsplit_once, texts,
};

verus! {

/// What an install is told. Everything else the chart defaults.
#[derive(Debug, Clone)]
pub struct Install {
    pub release: String,
    pub namespace: String,
    pub chart: String,
    pub chart_version: Option<String>,
    pub deployment_id: String,
    pub enrolment_code: String,
    /// Only when somebody said so. Empty is the platform, which the chart
    /// resolves: the one place that address lives should be the chart rather
    /// than every values file in existence.
    ///
    /// Set to reach a different one: a staging platform, while somebody is
    /// testing a change to the platform itself.
    pub platform: Option<String>,
    pub image: Option<String>,
    /// Helm-style chart values, spelled as Helm spells them.
    pub values: Vec<String>,
    pub timeout: String,
}

/// The texts of an install.
pub struct Installing {
    pub release: Seq<char>,
    pub namespace: Seq<char>,
    pub chart: Seq<char>,
    pub chart_version: Option<Seq<char>>,
    pub deployment_id: Seq<char>,
    pub enrolment_code: Seq<char>,
    pub platform: Option<Seq<char>>,
    pub image: Option<Seq<char>>,
    pub values: Seq<Seq<char>>,
    pub timeout: Seq<char>,
}

impl View for Install {
    type V = Installing;

    open spec fn view(&self) -> Installing {
        Installing {
            release: self.release@,
            namespace: self.namespace@,
            chart: self.chart@,
            chart_version: optional(self.chart_version),
            deployment_id: self.deployment_id@,
            enrolment_code: self.enrolment_code@,
            platform: optional(self.platform),
            image: optional(self.image),
            values: texts(self.values@),
            timeout: self.timeout@,
        }
    }
}

// ── A YAML scalar ────────────────────────────────────────────────────────────

/// A character that stands in a quoted scalar as it is: YAML has it on a line,
/// in every version.
pub open spec fn stands_raw(c: char) -> bool {
    ||| c == '\t'
    ||| ' ' <= c <= '~'
    ||| '\u{a0}' <= c <= '\u{d7ff}' && c != '\u{2028}' && c != '\u{2029}'
    ||| '\u{e000}' <= c <= '\u{fffd}' && c != '\u{feff}'
    ||| '\u{10000}' <= c
}

/// A number below 65536, in four hexadecimal digits.
pub open spec fn in_four_digits(n: int) -> Seq<char> {
    seq![
        hex_upper(n / 4096),
        hex_upper(n / 256 % 16),
        hex_upper(n / 16 % 16),
        hex_upper(n % 16),
    ]
}

/// A character as a quoted scalar holds it. A line break is written as an
/// escape, because one that stood there as it is would be folded to a blank.
pub open spec fn held_quoted(c: char) -> Seq<char> {
    if c == '\\' || c == '"' {
        seq!['\\', c]
    } else if c == '\n' {
        seq!['\\', 'n']
    } else if c == '\r' {
        seq!['\\', 'r']
    } else if stands_raw(c) {
        seq![c]
    } else {
        seq!['\\', 'u'] + in_four_digits(c as int)
    }
}

/// A text as a quoted scalar holds it.
pub open spec fn inside_quotes(s: Seq<char>) -> Seq<char>
    decreases s.len(),
{
    if s.len() == 0 {
        Seq::empty()
    } else {
        held_quoted(s[0]) + inside_quotes(s.skip(1))
    }
}

/// A text as a quoted scalar.
pub open spec fn quote(s: Seq<char>) -> Seq<char> {
    "\""@ + inside_quotes(s) + "\""@
}

// How YAML reads a scalar in double quotes.

/// A line break.
pub open spec fn is_break(c: char) -> bool {
    c == '\n' || c == '\r'
}

/// How many blanks and line breaks a text starts with.
pub open spec fn gap(s: Seq<char>) -> int
    decreases s.len(),
{
    if s.len() > 0 && (s[0] == ' ' || s[0] == '\t' || is_break(s[0])) {
        1 + gap(s.skip(1))
    } else {
        0
    }
}

/// How many lines a text ends: a carriage return and the line feed behind it
/// end one.
pub open spec fn breaks(s: Seq<char>) -> nat
    decreases s.len(),
{
    if s.len() == 0 {
        0
    } else if s[0] == '\r' && s.len() > 1 && s[1] == '\n' {
        1 + breaks(s.skip(2))
    } else if is_break(s[0]) {
        1 + breaks(s.skip(1))
    } else {
        breaks(s.skip(1))
    }
}

/// What line breaks, and the blanks around them, are read as: one as a blank,
/// or as nothing where a backslash stands before it, and more as one fewer.
pub open spec fn folded(lines: nat, escaped: bool) -> Seq<char> {
    if lines > 1 {
        Seq::new((lines - 1) as nat, |i: int| '\n')
    } else if escaped {
        Seq::empty()
    } else {
        seq![' ']
    }
}

/// The character that a backslash and this character stand for.
pub open spec fn short_escape(c: char) -> Option<char> {
    if c == '"' || c == '\\' || c == '/' || c == ' ' || c == '\t' {
        Some(c)
    } else if c == 'n' {
        Some('\n')
    } else if c == 'r' {
        Some('\r')
    } else if c == 't' {
        Some('\t')
    } else if c == '0' {
        Some('\u{0}')
    } else if c == 'a' {
        Some('\u{7}')
    } else if c == 'b' {
        Some('\u{8}')
    } else if c == 'v' {
        Some('\u{b}')
    } else if c == 'f' {
        Some('\u{c}')
    } else if c == 'e' {
        Some('\u{1b}')
    } else if c == 'N' {
        Some('\u{85}')
    } else if c == '_' {
        Some('\u{a0}')
    } else if c == 'L' {
        Some('\u{2028}')
    } else if c == 'P' {
        Some('\u{2029}')
    } else {
        None
    }
}

/// How many hexadecimal digits of a character's number follow this character
/// behind a backslash.
pub open spec fn escape_digits(c: char) -> int {
    if c == 'x' {
        2
    } else if c == 'u' {
        4
    } else if c == 'U' {
        8
    } else {
        0
    }
}

/// The number that hexadecimal digits of either case write.
pub open spec fn hex_number(s: Seq<char>) -> Option<int>
    decreases s.len(),
{
    if s.len() == 0 {
        Some(0)
    } else {
        match hex_number(s.drop_last()) {
            Some(n) if is_hex(s.last()) => Some(
                16 * n + if s.last() <= '9' {
                    s.last() as int - 0x30
                } else if s.last() <= 'F' {
                    s.last() as int - 0x37
                } else {
                    s.last() as int - 0x57
                },
            ),
            _ => None,
        }
    }
}

/// What is read, with this in front of it.
pub open spec fn behind(text: Seq<char>, read: Option<(Seq<char>, Seq<char>)>) -> Option<
    (Seq<char>, Seq<char>),
> {
    match read {
        Some((more, rest)) => Some((text + more, rest)),
        None => None,
    }
}

/// What a text starts with is no longer than the text, and is blanks and line
/// breaks.
pub proof fn lemma_gap(s: Seq<char>)
    ensures
        0 <= gap(s) <= s.len(),
        s.len() > 0 && is_break(s[0]) ==> gap(s) > 0,
        forall|i: int|
            0 <= i < gap(s) ==> (#[trigger] s[i] == ' ' || s[i] == '\t' || is_break(s[i])),
    decreases s.len(),
{
    if s.len() > 0 && (s[0] == ' ' || s[0] == '\t' || is_break(s[0])) {
        lemma_gap(s.skip(1));
        assert forall|i: int| 0 <= i < gap(s) implies (#[trigger] s[i] == ' ' || s[i] == '\t'
            || is_break(s[i])) by {
            if i > 0 {
                assert(s.skip(1)[i - 1] == s[i]);
            }
        }
    }
}

/// What YAML reads up to the quote that closes a scalar, and what follows that
/// quote. Line breaks are folded, with the blanks around them; a backslash and
/// what follows it stand for a character, or take a line break away; and what
/// not every version of YAML has on a line is not read.
pub open spec fn read_on(s: Seq<char>) -> Option<(Seq<char>, Seq<char>)>
    decreases s.len(),
{
    proof {
        lemma_gap(s);
        if s.len() > 1 {
            lemma_gap(s.skip(1));
        }
    }
    if s.len() == 0 {
        None
    } else if s[0] == '"' {
        Some((Seq::empty(), s.skip(1)))
    } else if s[0] == '\\' {
        if s.len() < 2 {
            None
        } else if is_break(s[1]) {
            let run = gap(s.skip(1));
            behind(folded(breaks(s.skip(1).take(run)), true), read_on(s.skip(1 + run)))
        } else if short_escape(s[1]) is Some {
            behind(seq![short_escape(s[1])->0], read_on(s.skip(2)))
        } else if escape_digits(s[1]) > 0 && s.len() >= 2 + escape_digits(s[1]) {
            match hex_number(s.subrange(2, 2 + escape_digits(s[1]))) {
                Some(n) if 0 <= n <= 0xd7ff || 0xe000 <= n <= 0x10ffff => behind(
                    seq![n as char],
                    read_on(s.skip(2 + escape_digits(s[1]))),
                ),
                _ => None,
            }
        } else {
            None
        }
    } else if gap(s) > 0 && breaks(s.take(gap(s))) > 0 {
        behind(folded(breaks(s.take(gap(s))), false), read_on(s.skip(gap(s))))
    } else if stands_raw(s[0]) {
        behind(seq![s[0]], read_on(s.skip(1)))
    } else {
        None
    }
}

/// The scalar in double quotes that a text starts with, as YAML reads it, and
/// what follows it.
pub open spec fn read_quoted(s: Seq<char>) -> Option<(Seq<char>, Seq<char>)> {
    if s.len() > 0 && s[0] == '"' {
        read_on(s.skip(1))
    } else {
        None
    }
}

proof fn lemma_no_breaks(s: Seq<char>)
    requires
        forall|i: int| 0 <= i < s.len() ==> !is_break(#[trigger] s[i]),
    ensures
        breaks(s) == 0,
    decreases s.len(),
{
    if s.len() > 0 {
        assert forall|i: int| 0 <= i < s.skip(1).len() implies !is_break(#[trigger] s.skip(1)[i]) by {
            assert(!is_break(s[i + 1]));
        }
        lemma_no_breaks(s.skip(1));
    }
}

proof fn lemma_hex_upper(n: int)
    requires
        0 <= n < 16,
    ensures
        is_hex(hex_upper(n)),
        hex_upper(n) <= 'F',
        n == if hex_upper(n) <= '9' {
            hex_upper(n) as int - 0x30
        } else {
            hex_upper(n) as int - 0x37
        },
{
}

proof fn lemma_held(c: char)
    ensures
        forall|i: int|
            0 <= i < held_quoted(c).len() ==> !is_break(#[trigger] held_quoted(c)[i]) && (
            held_quoted(c)[i] == '"' ==> c == '"'),
        !stands_raw(c) ==> c as int <= 0xffff,
{
    let held = held_quoted(c);
    if !stands_raw(c) {
        assert(c as int <= 0xffff);
        lemma_hex_upper(c as int / 4096);
        lemma_hex_upper(c as int / 256 % 16);
        lemma_hex_upper(c as int / 16 % 16);
        lemma_hex_upper(c as int % 16);
    }
    assert forall|i: int| 0 <= i < held.len() implies !is_break(#[trigger] held[i]) && (held[i]
        == '"' ==> c == '"') by {
        if held.len() == 6 {
            assert(i == 0 || i == 1 || i == 2 || i == 3 || i == 4 || i == 5);
        }
    }
}

/// What a quoted scalar holds has no line break, and no quote but for those of
/// the text.
proof fn lemma_inside(s: Seq<char>)
    ensures
        forall|i: int| 0 <= i < inside_quotes(s).len() ==> !is_break(#[trigger] inside_quotes(s)[i]),
        !s.contains('"') ==> !inside_quotes(s).contains('"'),
    decreases s.len(),
{
    if s.len() > 0 {
        let first = held_quoted(s[0]);
        let rest = inside_quotes(s.skip(1));
        lemma_inside(s.skip(1));
        lemma_held(s[0]);
        assert forall|i: int| 0 <= i < inside_quotes(s).len() implies !is_break(
            #[trigger] inside_quotes(s)[i],
        ) by {
            if i < first.len() {
                assert(inside_quotes(s)[i] == first[i]);
            } else {
                assert(inside_quotes(s)[i] == rest[i - first.len()]);
            }
        }
        if !s.contains('"') && inside_quotes(s).contains('"') {
            let k = choose|k: int| 0 <= k < inside_quotes(s).len() && inside_quotes(s)[k] == '"';
            if k < first.len() {
                assert(first[k] == '"');
                assert(s.contains(s[0]));
            } else {
                assert(rest[k - first.len()] == '"');
                let m = choose|m: int| 0 <= m < s.skip(1).len() && s.skip(1)[m] == '"';
                assert(s.skip(1).contains('"'));
                assert(s[m + 1] == '"');
            }
        }
    }
}

proof fn lemma_four_digits(n: int)
    requires
        0 <= n < 65536,
    ensures
        in_four_digits(n).len() == 4,
        hex_number(in_four_digits(n)) == Some(n),
{
    let all = in_four_digits(n);
    let three = all.drop_last();
    let two = three.drop_last();
    let one = two.drop_last();
    lemma_hex_upper(n / 4096);
    lemma_hex_upper(n / 256 % 16);
    lemma_hex_upper(n / 16 % 16);
    lemma_hex_upper(n % 16);
    assert(one.drop_last() =~= Seq::<char>::empty());
    assert(hex_number(one.drop_last()) == Some(0int));
    assert(hex_number(one) == Some(n / 4096));
    assert(hex_number(two) == Some(16 * (n / 4096) + n / 256 % 16));
    assert(hex_number(three) == Some(16 * (16 * (n / 4096) + n / 256 % 16) + n / 16 % 16));
    assert(n == 16 * (16 * (16 * (n / 4096) + n / 256 % 16) + n / 16 % 16) + n % 16);
}

/// Behind what a scalar holds as it is, reading goes on with what follows.
proof fn lemma_read_raw(inside: Seq<char>, rest: Seq<char>)
    requires
        inside.len() > 0,
        stands_raw(inside[0]),
        inside[0] != '"',
        inside[0] != '\\',
        forall|i: int| 0 <= i < inside.len() ==> !is_break(#[trigger] inside[i]),
    ensures
        ({
            let whole = inside + seq!['"'] + rest;
            read_on(whole) == behind(seq![inside[0]], read_on(whole.skip(1)))
        }),
{
    let whole = inside + seq!['"'] + rest;
    lemma_gap(whole);
    assert(gap(whole) <= inside.len()) by {
        if gap(whole) > inside.len() {
            assert(whole[inside.len() as int] == '"');
        }
    }
    let white = whole.take(gap(whole));
    assert forall|i: int| 0 <= i < white.len() implies !is_break(#[trigger] white[i]) by {
        assert(white[i] == inside[i]);
    }
    lemma_no_breaks(white);
    assert(whole[0] == inside[0]);
}

/// Behind a character as a scalar holds it, reading goes on with what follows.
proof fn lemma_read_escape(c: char, more: Seq<char>)
    requires
        c == '\\' || c == '"' || c == '\n' || c == '\r' || !stands_raw(c),
    ensures
        read_on(held_quoted(c) + more) == behind(seq![c], read_on(more)),
{
    let whole = held_quoted(c) + more;
    assert(whole[0] == '\\');
    if c == '\\' || c == '"' || c == '\n' || c == '\r' {
        assert(whole.skip(2) =~= more);
        assert(whole[1] == held_quoted(c)[1]);
        assert(short_escape(whole[1]) == Some(c));
    } else {
        lemma_held(c);
        lemma_four_digits(c as int);
        assert(whole[1] == 'u');
        assert(short_escape(whole[1]) is None);
        assert(whole.skip(6) =~= more);
        assert(whole.subrange(2, 6) =~= in_four_digits(c as int));
    }
}

proof fn lemma_read_on(s: Seq<char>, rest: Seq<char>)
    ensures
        read_on(inside_quotes(s) + seq!['"'] + rest) == Some((s, rest)),
    decreases s.len(),
{
    let whole = inside_quotes(s) + seq!['"'] + rest;
    if s.len() == 0 {
        assert(whole.skip(1) =~= rest);
        assert(s =~= Seq::<char>::empty());
    } else {
        let more = inside_quotes(s.skip(1)) + seq!['"'] + rest;
        lemma_read_on(s.skip(1), rest);
        let c = s[0];
        assert(s =~= seq![c] + s.skip(1));
        assert(whole =~= held_quoted(c) + more);
        if stands_raw(c) && c != '\\' && c != '"' {
            assert(whole.skip(1) =~= more);
            lemma_inside(s);
            assert(inside_quotes(s)[0] == c);
            lemma_read_raw(inside_quotes(s), rest);
        } else {
            lemma_read_escape(c, more);
        }
    }
}

/// A quoted scalar cannot be read as anything but the text it is, whatever the
/// text holds, and nothing in the text ends it early: what follows it is what
/// follows it.
pub proof fn a_quoted_scalar_is_the_text_it_is(s: Seq<char>, rest: Seq<char>)
    ensures
        read_quoted(quote(s) + rest) == Some((s, rest)),
{
    reveal_strlit("\"");
    assert("\""@ =~= seq!['"']);
    lemma_read_on(s, rest);
    assert((quote(s) + rest).skip(1) =~= inside_quotes(s) + seq!['"'] + rest);
}

/// Texts that differ are quoted differently.
pub proof fn texts_that_differ_are_quoted_differently(one: Seq<char>, other: Seq<char>)
    requires
        one != other,
    ensures
        quote(one) != quote(other),
{
    a_quoted_scalar_is_the_text_it_is(one, Seq::empty());
    a_quoted_scalar_is_the_text_it_is(other, Seq::empty());
}

proof fn lemma_inside_push(s: Seq<char>, c: char)
    ensures
        inside_quotes(s.push(c)) == inside_quotes(s) + held_quoted(c),
    decreases s.len(),
{
    let more = s.push(c);
    if s.len() == 0 {
        let none = more.skip(1);
        assert(none.len() == 0);
        assert(more[0] == c);
        assert(inside_quotes(none) =~= Seq::<char>::empty());
        assert(inside_quotes(more) =~= inside_quotes(s) + held_quoted(c));
    } else {
        lemma_inside_push(s.skip(1), c);
        assert(more.skip(1) =~= s.skip(1).push(c));
        assert(inside_quotes(more) =~= inside_quotes(s) + held_quoted(c));
    }
}

fn goes_raw(c: char) -> (r: bool)
    ensures
        r == stands_raw(c),
{
    c == '\t' || (' ' <= c && c <= '~') || ('\u{a0}' <= c && c <= '\u{d7ff}' && c != '\u{2028}' && c
        != '\u{2029}') || ('\u{e000}' <= c && c <= '\u{fffd}' && c != '\u{feff}') || '\u{10000}' <= c
}

fn hold_quoted(out: &mut String, c: char)
    ensures
        final(out)@ == old(out)@ + held_quoted(c),
{
    let ghost before = out@;
    if goes_raw(c) && c != '\\' && c != '"' {
        out.push(c);
        assert(out@ =~= before + held_quoted(c));
        return;
    }
    out.push('\\');
    if c == '\\' || c == '"' {
        out.push(c);
    } else if c == '\n' {
        out.push('n');
    } else if c == '\r' {
        out.push('r');
    } else {
        let n: u32 = c as u32;
        out.push('u');
        out.push(upper_digit((n / 4096) as u8));
        out.push(upper_digit((n / 256 % 16) as u8));
        out.push(upper_digit((n / 16 % 16) as u8));
        out.push(upper_digit((n % 16) as u8));
    }
    assert(out@ =~= before + held_quoted(c));
}

/// A YAML scalar that cannot be read as anything but the string it is.
pub fn quoted(value: &str) -> (out: String)
    ensures
        out@ == quote(value@),
{
    let whole = characters(value);
    let mut out = "\"".to_owned();
    let mut i: usize = 0;
    assert(out@ =~= "\""@ + inside_quotes(whole@.take(0)));
    while i < whole.len()
        invariant
            i <= whole@.len(),
            out@ == "\""@ + inside_quotes(whole@.take(i as int)),
        decreases whole@.len() - i,
    {
        proof {
            lemma_inside_push(whole@.take(i as int), whole@[i as int]);
            assert(whole@.take(i + 1) =~= whole@.take(i as int).push(whole@[i as int]));
        }
        hold_quoted(&mut out, whole[i]);
        assert(out@ =~= "\""@ + inside_quotes(whole@.take(i + 1)));
        i += 1;
    }
    assert(whole@.take(i as int) =~= value@);
    out.append("\"");
    out
}

// ── The values ───────────────────────────────────────────────────────────────

/// The repository and the tag of an image.
pub open spec fn image_parts(image: Seq<char>) -> (Seq<char>, Seq<char>) {
    match rsplit_once(image, ":"@) {
        Some(parts) => parts,
        None => (image, "latest"@),
    }
}

/// The values before the enrolment code.
pub open spec fn before_code(install: Installing) -> Seq<char> {
    "# Written by `meridian up`. Everything else the chart defaults.\ndeployment:\n  id: "@
        + quote(install.deployment_id) + "\n  enrolmentCode: "@
}

/// The platform's part of the values.
pub open spec fn platform_part(platform: Option<Seq<char>>) -> Seq<char> {
    match platform {
        Some(platform) => "platform:\n  address: "@ + quote(platform) + "\n"@,
        None => Seq::empty(),
    }
}

/// The image's part of the values.
pub open spec fn image_part(image: Option<Seq<char>>) -> Seq<char> {
    match image {
        Some(image) => "image:\n  repository: "@ + quote(image_parts(image).0) + "\n  tag: "@
            + quote(image_parts(image).1) + "\n"@,
        None => Seq::empty(),
    }
}

/// The values after the enrolment code.
pub open spec fn after_code(install: Installing) -> Seq<char> {
    "\n"@ + platform_part(install.platform) + image_part(install.image)
}

/// The values, as a document.
pub open spec fn document(install: Installing) -> Seq<char> {
    before_code(install) + quote(install.enrolment_code) + after_code(install)
}

/// The values this passes to Helm, as a document on its standard input.
///
/// On its standard input rather than in `--set`, because an enrolment code in
/// `--set` is an argument, and arguments are readable by every process on the
/// machine.
pub fn values_document(install: &Install) -> (out: String)
    ensures
        out@ == document(install@),
{
    let mut out =
        "# Written by `meridian up`. Everything else the chart defaults.\ndeployment:\n  id: ".to_owned();
    out.append(quoted(install.deployment_id.as_str()).as_str());
    out.append("\n  enrolmentCode: ");
    out.append(quoted(install.enrolment_code.as_str()).as_str());
    let mut after = "\n".to_owned();
    if let Some(platform) = &install.platform {
        let mut part = "platform:\n  address: ".to_owned();
        part.append(quoted(platform.as_str()).as_str());
        part.append("\n");
        after.append(part.as_str());
    } else {
        assert(after@ =~= "\n"@ + platform_part(install@.platform));
    }
    let ghost so_far = after@;
    if let Some(image) = &install.image {
        let (repository, tag) = match cut_last(image.as_str(), ":") {
            Some(parts) => parts,
            None => (image.clone(), "latest".to_owned()),
        };
        let mut part = "image:\n  repository: ".to_owned();
        part.append(quoted(repository.as_str()).as_str());
        part.append("\n  tag: ");
        part.append(quoted(tag.as_str()).as_str());
        part.append("\n");
        after.append(part.as_str());
    } else {
        assert(after@ =~= so_far + image_part(install@.image));
    }
    out.append(after.as_str());
    out
}

// ── The command ──────────────────────────────────────────────────────────────

/// A version, as Helm is told it.
pub open spec fn version_arguments(version: Option<Seq<char>>) -> Seq<Seq<char>> {
    match version {
        Some(version) => seq!["--version"@, version],
        None => Seq::empty(),
    }
}

/// The person's values files, as Helm is told them.
pub open spec fn values_arguments(values: Seq<Seq<char>>) -> Seq<Seq<char>>
    decreases values.len(),
{
    if values.len() == 0 {
        Seq::empty()
    } else {
        values_arguments(values.drop_last()) + seq!["--values"@, values.last()]
    }
}

/// What is run, in the order Helm takes it.
pub open spec fn arguments(install: Installing) -> Seq<Seq<char>> {
    seq![
        "upgrade"@,
        "--install"@,
        install.release,
        install.chart,
        "--namespace"@,
        install.namespace,
        "--create-namespace"@,
    ] + version_arguments(install.chart_version) + values_arguments(install.values) + seq![
        "--values"@,
        "-"@,
        "--timeout"@,
        install.timeout,
    ]
}

/// What is run, in the order Helm takes it.
///
/// The person's values files come first and this command's own values last, so
/// what was typed on the command line wins over what a file happens to hold.
///
/// Nothing waits for the whole release: a fresh install has no database and no
/// directory, and waiting for the components that need them would be waiting
/// for answers nobody has given yet.
pub fn helm_arguments(install: &Install) -> (out: Vec<String>)
    ensures
        texts(out@) == arguments(install@),
{
    let mut out = vec![
        "upgrade".to_owned(),
        "--install".to_owned(),
        install.release.clone(),
        install.chart.clone(),
        "--namespace".to_owned(),
        install.namespace.clone(),
        "--create-namespace".to_owned(),
    ];
    let ghost first = seq![
        "upgrade"@,
        "--install"@,
        install.release@,
        install.chart@,
        "--namespace"@,
        install.namespace@,
        "--create-namespace"@,
    ];
    assert(texts(out@) =~= first);
    if let Some(version) = &install.chart_version {
        out.push("--version".to_owned());
        out.push(version.clone());
    }
    let ghost second = first + version_arguments(install@.chart_version);
    assert(texts(out@) =~= second);
    let ghost values = install@.values;
    let mut i: usize = 0;
    assert(values.take(0) =~= Seq::<Seq<char>>::empty());
    assert(second + values_arguments(values.take(0)) =~= second);
    while i < install.values.len()
        invariant
            i <= install.values@.len(),
            values == install@.values,
            texts(out@) == second + values_arguments(values.take(i as int)),
        decreases install.values@.len() - i,
    {
        let ghost before = texts(out@);
        assert(values.take(i + 1).drop_last() =~= values.take(i as int));
        assert(values.take(i + 1).last() == install.values@[i as int]@);
        out.push("--values".to_owned());
        out.push(install.values[i].clone());
        assert(texts(out@) =~= before + seq!["--values"@, install.values@[i as int]@]);
        assert(texts(out@) =~= second + values_arguments(values.take(i + 1)));
        i += 1;
    }
    assert(values.take(i as int) =~= values);
    let ghost third = texts(out@);
    out.push("--values".to_owned());
    out.push("-".to_owned());
    out.push("--timeout".to_owned());
    out.push(install.timeout.clone());
    assert(texts(out@) =~= third + seq!["--values"@, "-"@, "--timeout"@, install.timeout@]);
    out
}

/// The enrolment code never reaches an argument: what is run is the same
/// whatever the code is.
pub proof fn the_enrolment_code_never_reaches_an_argument(
    install: Installing,
    enrolment_code: Seq<char>,
)
    ensures
        arguments(install) == arguments(Installing { enrolment_code, ..install }),
{
}

/// A file of values, named to Helm.
pub open spec fn names_file(all: Seq<Seq<char>>, at: int, file: Seq<char>) -> bool {
    0 <= at && at + 1 < all.len() && all[at] == "--values"@ && all[at + 1] == file
}

proof fn lemma_values_arguments(values: Seq<Seq<char>>)
    ensures
        values_arguments(values).len() == 2 * values.len(),
        forall|i: int|
            0 <= i < values.len() ==> names_file(
                values_arguments(values),
                2 * i,
                #[trigger] values[i],
            ),
    decreases values.len(),
{
    if values.len() > 0 {
        let fewer = values.drop_last();
        lemma_values_arguments(fewer);
        let all = values_arguments(values);
        assert(all == values_arguments(fewer) + seq!["--values"@, values.last()]);
        assert forall|i: int| 0 <= i < values.len() implies names_file(
            all,
            2 * i,
            #[trigger] values[i],
        ) by {
            if i < fewer.len() {
                assert(fewer[i] == values[i]);
                assert(names_file(values_arguments(fewer), 2 * i, fewer[i]));
            }
        }
    }
}

/// A person's own values come before this command's own, in the order they
/// were given: each is named to Helm ahead of the `-` that is these.
pub proof fn a_persons_own_values_come_before_this_commands_own(install: Installing, which: int)
    requires
        0 <= which < install.values.len(),
    ensures
        ({
            let all = arguments(install);
            let own = all.len() - 4;
            let at = own - 2 * install.values.len() + 2 * which;
            names_file(all, at, install.values[which]) && names_file(all, own, "-"@) && at < own
        }),
{
    let files = values_arguments(install.values);
    lemma_values_arguments(install.values);
    assert(names_file(files, 2 * which, install.values[which]));
    let all = arguments(install);
    let start = 7 + version_arguments(install.chart_version).len();
    assert(all[start + 2 * which] == files[2 * which]);
    assert(all[start + 2 * which + 1] == files[2 * which + 1]);
    assert(all.len() == start + files.len() + 4);
    assert(all[all.len() - 4] == "--values"@);
    assert(all[all.len() - 3] == "-"@);
}

/// Nothing waits for the whole release: unless somebody called something
/// `--wait`, no argument is.
pub proof fn nothing_waits_for_the_whole_release(install: Installing)
    requires
        install.release != "--wait"@,
        install.chart != "--wait"@,
        install.namespace != "--wait"@,
        install.chart_version != Some("--wait"@),
        install.timeout != "--wait"@,
        !install.values.contains("--wait"@),
    ensures
        !arguments(install).contains("--wait"@),
{
    reveal_strlit("--wait");
    reveal_strlit("upgrade");
    reveal_strlit("--install");
    reveal_strlit("--namespace");
    reveal_strlit("--create-namespace");
    reveal_strlit("--version");
    reveal_strlit("--values");
    reveal_strlit("-");
    reveal_strlit("--timeout");
    let wait = "--wait"@;
    assert(wait.len() == 6);
    assert("upgrade"@.len() == 7 && "--install"@.len() == 9 && "--namespace"@.len() == 11);
    assert("--create-namespace"@.len() == 18 && "--version"@.len() == 9);
    assert("--values"@.len() == 8 && "-"@.len() == 1 && "--timeout"@.len() == 9);
    lemma_values_arguments(install.values);
    let files = values_arguments(install.values);
    assert forall|i: int| 0 <= i < files.len() implies #[trigger] files[i] != wait by {
        let k = i / 2;
        assert(install.values.contains(install.values[k]));
        assert(names_file(files, 2 * k, install.values[k]));
    }
    let first = seq![
        "upgrade"@,
        "--install"@,
        install.release,
        install.chart,
        "--namespace"@,
        install.namespace,
        "--create-namespace"@,
    ];
    let second = version_arguments(install.chart_version);
    let last = seq!["--values"@, "-"@, "--timeout"@, install.timeout];
    assert forall|i: int| 0 <= i < arguments(install).len() implies arguments(install)[i]
        != wait by {
        if i < 7 {
            assert(arguments(install)[i] == first[i]);
        } else if i < 7 + second.len() {
            assert(arguments(install)[i] == second[i - 7]);
        } else if i < 7 + second.len() + files.len() {
            assert(arguments(install)[i] == files[i - 7 - second.len()]);
        } else {
            assert(arguments(install)[i] == last[i - 7 - second.len() - files.len()]);
        }
    }
}

/// Helm is told what the install says, each in the place where Helm looks for
/// it: the release and the chart behind `upgrade --install`, the namespace behind
/// `--namespace`, the version behind `--version` if there is one and else
/// nothing of a version, each values file behind `--values`, and the timeout
/// behind `--timeout`.
pub proof fn helm_is_told_what_the_install_says(install: Installing)
    ensures
        ({
            let all = arguments(install);
            let files = 2 * install.values.len();
            let told = if install.chart_version is Some {
                9int
            } else {
                7int
            };
            &&& all.len() == told + files + 4
            &&& all[0] == "upgrade"@ && all[1] == "--install"@
            &&& all[2] == install.release
            &&& all[3] == install.chart
            &&& all[4] == "--namespace"@ && all[5] == install.namespace
            &&& all[6] == "--create-namespace"@
            &&& install.chart_version matches Some(version) ==> all[7] == "--version"@ && all[8]
                == version
            &&& forall|i: int|
                0 <= i < install.values.len() ==> names_file(
                    all,
                    told + 2 * i,
                    #[trigger] install.values[i],
                )
            &&& all[all.len() - 4] == "--values"@ && all[all.len() - 3] == "-"@
            &&& all[all.len() - 2] == "--timeout"@ && all[all.len() - 1] == install.timeout
        }),
{
    let all = arguments(install);
    let files = values_arguments(install.values);
    let told = 7 + version_arguments(install.chart_version).len();
    lemma_values_arguments(install.values);
    assert forall|i: int| 0 <= i < install.values.len() implies names_file(
        all,
        told + 2 * i,
        #[trigger] install.values[i],
    ) by {
        assert(names_file(files, 2 * i, install.values[i]));
        assert(all[told + 2 * i] == files[2 * i]);
        assert(all[told + 2 * i + 1] == files[2 * i + 1]);
    }
}

/// An image is its repository and its tag: they are the image again with the
/// last colon between them, and an image without a colon is its own repository,
/// at the tag `latest`.
pub proof fn an_image_is_its_repository_and_its_tag(image: Seq<char>)
    ensures
        ({
            let (repository, tag) = image_parts(image);
            if image.contains(':') {
                image == repository + seq![':'] + tag && !tag.contains(':')
            } else {
                repository == image && tag == "latest"@
            }
        }),
{
    reveal_strlit(":");
    assert(":"@ =~= seq![':']);
    crate::text::a_cut_at_a_character_leaves_none(image, ':');
    if let Some((left, right)) = rsplit_once(image, ":"@) {
        assert(image[left.len() as int] == ':');
    }
}

/// A text that starts with this, and then with a scalar that YAML reads as that
/// value, and what is left of it.
pub open spec fn gives_behind(text: Seq<char>, key: Seq<char>, value: Seq<char>, rest: Seq<char>) -> bool {
    key.is_prefix_of(text) && read_quoted(text.skip(key.len() as int)) == Some((value, rest))
}

/// What the values say from where the enrolment code's key stands, from where the
/// platform's does, from where the image's does, and from where its tag's does.
pub open spec fn values_say(
    install: Installing,
    coded: Seq<char>,
    placed: Seq<char>,
    imaged: Seq<char>,
    tagged: Seq<char>,
) -> bool {
    &&& gives_behind(
        document(install),
        "# Written by `meridian up`. Everything else the chart defaults.\ndeployment:\n  id: "@,
        install.deployment_id,
        coded,
    )
    &&& gives_behind(coded, "\n  enrolmentCode: "@, install.enrolment_code, placed)
    &&& match install.platform {
        Some(platform) => gives_behind(
            placed,
            "\n"@ + "platform:\n  address: "@,
            platform,
            imaged,
        ),
        None => imaged == placed,
    }
    &&& match install.image {
        Some(image) => gives_behind(
            imaged,
            "\n"@ + "image:\n  repository: "@,
            image_parts(image).0,
            tagged,
        ) && gives_behind(tagged, "\n  tag: "@, image_parts(image).1, "\n"@),
        None => imaged == "\n"@ && tagged == imaged,
    }
}

/// The values hold what the install says, each behind the key that the chart
/// reads it from and as a scalar that reads as that text and no other: the
/// deployment's identifier, the enrolment code, and the platform and the image's
/// repository and tag where they were named, and nothing where they were not.
pub proof fn the_values_hold_what_the_install_says(install: Installing)
    ensures
        exists|coded: Seq<char>, placed: Seq<char>, imaged: Seq<char>, tagged: Seq<char>| #[trigger]
            values_say(install, coded, placed, imaged, tagged),
{
    let start =
        "# Written by `meridian up`. Everything else the chart defaults.\ndeployment:\n  id: "@;
    let line = "\n"@;
    let tagged = tag_on(install.image);
    let imaged = image_on(install.image);
    let placed = platform_on(install.platform, imaged);
    let coded = "\n  enrolmentCode: "@ + (quote(install.enrolment_code) + placed);
    lemma_after_parts(install);
    lemma_five(
        start,
        quote(install.deployment_id),
        "\n  enrolmentCode: "@,
        quote(install.enrolment_code),
        placed,
    );
    lemma_gives(start, install.deployment_id, coded);
    lemma_gives("\n  enrolmentCode: "@, install.enrolment_code, placed);
    if let Some(platform) = install.platform {
        lemma_gives(line + "platform:\n  address: "@, platform, imaged);
    }
    if let Some(image) = install.image {
        lemma_gives(line + "image:\n  repository: "@, image_parts(image).0, tagged);
        lemma_gives("\n  tag: "@, image_parts(image).1, line);
    }
    assert(values_say(install, coded, placed, imaged, tagged));
}

/// The values from where the tag's key stands.
spec fn tag_on(image: Option<Seq<char>>) -> Seq<char> {
    match image {
        Some(image) => "\n  tag: "@ + (quote(image_parts(image).1) + "\n"@),
        None => "\n"@,
    }
}

/// The values from where the image's key stands.
spec fn image_on(image: Option<Seq<char>>) -> Seq<char> {
    match image {
        Some(named) => "\n"@ + "image:\n  repository: "@ + (quote(image_parts(named).0) + tag_on(
            image,
        )),
        None => "\n"@,
    }
}

/// The values from where the platform's key stands.
spec fn platform_on(platform: Option<Seq<char>>, imaged: Seq<char>) -> Seq<char> {
    match platform {
        Some(platform) => "\n"@ + "platform:\n  address: "@ + (quote(platform) + imaged),
        None => imaged,
    }
}

proof fn lemma_five(a: Seq<char>, b: Seq<char>, c: Seq<char>, d: Seq<char>, e: Seq<char>)
    ensures
        a + b + c + d + e == a + (b + (c + (d + e))),
{
    assert(a + b + c + d + e =~= a + (b + (c + (d + e))));
}

proof fn lemma_after_parts(install: Installing)
    ensures
        after_code(install) == platform_on(install.platform, image_on(install.image)),
{
    let line = "\n"@;
    let image = image_part(install.image);
    let none = Seq::<char>::empty();
    assert(line + image == image_on(install.image)) by {
        match install.image {
            Some(named) => {
                let k = "image:\n  repository: "@;
                let q = quote(image_parts(named).0);
                let t = "\n  tag: "@;
                let u = quote(image_parts(named).1);
                lemma_five(k, q, t, u, line);
                lemma_four(line, k, q, t + (u + line));
            },
            None => {
                assert(line + none =~= line);
            },
        }
    }
    match install.platform {
        Some(platform) => {
            let k = "platform:\n  address: "@;
            let q = quote(platform);
            lemma_lines(line, k, q, image);
        },
        None => {
            assert(line + none =~= line);
        },
    }
}

proof fn lemma_four(a: Seq<char>, b: Seq<char>, c: Seq<char>, d: Seq<char>)
    ensures
        a + (b + (c + d)) == a + b + (c + d),
{
    assert(a + (b + (c + d)) =~= a + b + (c + d));
}

proof fn lemma_lines(line: Seq<char>, k: Seq<char>, q: Seq<char>, image: Seq<char>)
    ensures
        line + (k + q + line) + image == line + k + (q + (line + image)),
{
    assert(line + (k + q + line) + image =~= line + k + (q + (line + image)));
}

proof fn lemma_gives(key: Seq<char>, value: Seq<char>, rest: Seq<char>)
    ensures
        gives_behind(key + (quote(value) + rest), key, value, rest),
{
    let text = key + (quote(value) + rest);
    assert(text.take(key.len() as int) =~= key);
    assert(text.skip(key.len() as int) =~= quote(value) + rest);
    a_quoted_scalar_is_the_text_it_is(value, rest);
}

// ── The command, as somebody would type it ───────────────────────────────────

/// The same command, as somebody would type it, with these values.
pub open spec fn typed(install: Installing, values: Seq<char>) -> Seq<char> {
    "helm "@ + join(arguments(install), " "@) + " <<'VALUES'\n"@ + values + "VALUES"@
}

/// The same command, as somebody would type it.
///
/// The enrolment code is a credential, and a terminal keeps what it prints, so
/// what is shown reads the code from the environment rather than holding it.
pub open spec fn shown_command(install: Installing) -> Seq<char> {
    typed(
        install,
        replace(
            document(install),
            quote(install.enrolment_code),
            "\"$MERIDIAN_ENROLMENT_CODE\""@,
        ),
    )
}

/// The same command, as somebody would type it.
pub fn shown(install: &Install) -> (out: String)
    ensures
        out@ == shown_command(install@),
{
    let code = quoted(install.enrolment_code.as_str());
    proof {
        reveal_strlit("\"");
    }
    let values = replaced(
        values_document(install).as_str(),
        code.as_str(),
        "\"$MERIDIAN_ENROLMENT_CODE\"",
    );
    let arguments = helm_arguments(install);
    let mut out = "helm ".to_owned();
    out.append(joined(&arguments, " ").as_str());
    out.append(" <<'VALUES'\n");
    out.append(values.as_str());
    out.append("VALUES");
    out
}

/// A code without a quote in it, as the codes that the platform gives are.
pub open spec fn plain_code(code: Seq<char>) -> bool {
    !code.contains('"')
}

/// A code that none of the other values holds in quotes.
pub open spec fn nowhere_else(install: Installing) -> bool {
    let code = quote(install.enrolment_code);
    &&& !holds(quote(install.deployment_id), code)
    &&& install.platform matches Some(platform) ==> !holds(quote(platform), code)
    &&& install.image matches Some(image) ==> !holds(quote(image_parts(image).0), code)
        && !holds(quote(image_parts(image).1), code)
}

/// Behind a text without quotes, a plain code in quotes stands within a value
/// in quotes or after it, but never across its end.
proof fn lemma_past(x: Seq<char>, v: Seq<char>, y: Seq<char>, code: Seq<char>, j: int)
    requires
        !x.contains('"'),
        plain_code(code),
        y.len() > 0,
        y[0] == '\n',
        occurs_at(x + quote(v) + y, quote(code), j),
    ensures
        holds(quote(v), quote(code)) || j >= x.len() + quote(v).len(),
{
    reveal_strlit("\"");
    lemma_inside(code);
    let inside = inside_quotes(code);
    let sought = quote(code);
    let value = quote(v);
    let whole = x + value + y;
    let e = x.len() + value.len() - 1;
    assert(whole.subrange(j, j + sought.len()) == sought);
    assert forall|k: int| 0 <= k < sought.len() implies whole[j + k] == sought[k] by {
        assert(whole.subrange(j, j + sought.len())[k] == whole[j + k]);
    }
    assert(sought[0] == '"' && sought[sought.len() - 1] == '"');
    assert(value[value.len() - 1] == '"');
    assert(whole[e] == '"' && whole[e + 1] == '\n');
    if j < x.len() {
        assert(x[j] == whole[j + 0]);
        assert(x.contains('"'));
    } else if j <= e {
        if j + sought.len() - 1 <= e {
            let at = j - x.len();
            assert(value.subrange(at, at + sought.len()) =~= sought) by {
                assert forall|k: int| 0 <= k < sought.len() implies value[at + k]
                    == sought[k] by {
                    assert(whole[j + k] == value[at + k]);
                }
            }
            assert(occurs_at(value, sought, at));
        } else if j == e {
            assert(whole[j + 1] == sought[1]);
            if inside.len() > 0 {
                assert(sought[1] == inside[0]);
                assert(is_break(inside[0]));
            }
        } else {
            assert(whole[j + (e - j)] == sought[e - j]);
            assert(sought[e - j] == inside[e - j - 1]);
            assert(inside.contains('"'));
        }
    }
}

/// A plain code in quotes is nowhere in a text without quotes, a value in
/// quotes that does not hold it, and a text that does not hold it.
proof fn lemma_none(x: Seq<char>, v: Seq<char>, y: Seq<char>, code: Seq<char>)
    requires
        !x.contains('"'),
        plain_code(code),
        y.len() > 0,
        y[0] == '\n',
        !holds(quote(v), quote(code)),
        !holds(y, quote(code)),
    ensures
        !holds(x + quote(v) + y, quote(code)),
{
    let whole = x + quote(v) + y;
    if holds(whole, quote(code)) {
        let j = choose|j: int| occurs_at(whole, quote(code), j);
        lemma_past(x, v, y, code, j);
        let n = x.len() + quote(v).len();
        assert(whole.skip(n as int) =~= y);
        lemma_occurs_skip(whole, quote(code), n as int, j - n);
        assert(occurs_at(y, quote(code), j - n));
    }
}

proof fn lemma_no_quotes(x: Seq<char>, code: Seq<char>)
    requires
        !x.contains('"'),
    ensures
        !holds(x, quote(code)),
{
    reveal_strlit("\"");
    if holds(x, quote(code)) {
        let j = choose|j: int| occurs_at(x, quote(code), j);
        assert(x.subrange(j, j + quote(code).len())[0] == '"');
        assert(x[j] == '"');
    }
}

proof fn lemma_words()
    ensures
        !"# Written by `meridian up`. Everything else the chart defaults.\ndeployment:\n  id: "@.contains(
            '"',
        ),
        !"\n  enrolmentCode: "@.contains('"'),
        "\n  enrolmentCode: "@.len() > 0,
        "\n  enrolmentCode: "@[0] == '\n',
        !"platform:\n  address: "@.contains('"'),
        !"image:\n  repository: "@.contains('"'),
        !"\n  tag: "@.contains('"'),
        "\n  tag: "@.len() > 0,
        "\n  tag: "@[0] == '\n',
        "\n"@ == seq!['\n'],
{
    reveal_strlit(
        "# Written by `meridian up`. Everything else the chart defaults.\ndeployment:\n  id: ",
    );
    reveal_strlit("\n  enrolmentCode: ");
    reveal_strlit("platform:\n  address: ");
    reveal_strlit("image:\n  repository: ");
    reveal_strlit("\n  tag: ");
    reveal_strlit("\n");
    assert("\n"@ =~= seq!['\n']);
}

proof fn lemma_image_part(image: Option<Seq<char>>, code: Seq<char>)
    requires
        plain_code(code),
        image matches Some(image) ==> !holds(quote(image_parts(image).0), quote(code)) && !holds(
            quote(image_parts(image).1),
            quote(code),
        ),
    ensures
        !holds("\n"@ + image_part(image), quote(code)),
{
    lemma_words();
    let line = "\n"@;
    match image {
        None => {
            assert(line + image_part(image) =~= line);
            lemma_no_quotes(line, code);
        },
        Some(named) => {
            let (repository, tag) = image_parts(named);
            lemma_no_quotes(line, code);
            lemma_none("\n  tag: "@, tag, line, code);
            let tagged = "\n  tag: "@ + quote(tag) + line;
            let x = line + "image:\n  repository: "@;
            assert(!x.contains('"'));
            lemma_none(x, repository, tagged, code);
            assert(x + quote(repository) + tagged =~= line + image_part(image));
        },
    }
}

proof fn lemma_after_code(install: Installing)
    requires
        plain_code(install.enrolment_code),
        nowhere_else(install),
    ensures
        !holds(after_code(install), quote(install.enrolment_code)),
{
    lemma_words();
    let code = install.enrolment_code;
    let line = "\n"@;
    lemma_image_part(install.image, code);
    let rest = line + image_part(install.image);
    match install.platform {
        None => {
            assert(after_code(install) =~= rest);
        },
        Some(platform) => {
            let x = line + "platform:\n  address: "@;
            assert(!x.contains('"'));
            lemma_none(x, platform, rest, code);
            assert(x + quote(platform) + rest =~= after_code(install));
        },
    }
}

/// The code, in quotes, stands in its own place first, and not after it.
pub open spec fn stands_alone(install: Installing) -> bool {
    let code = quote(install.enrolment_code);
    first_at(document(install), code, before_code(install).len() as int) && !holds(
        after_code(install),
        code,
    )
}

/// A code as the platform gives them stands alone, unless another value holds
/// it in quotes.
pub proof fn a_plain_code_stands_alone(install: Installing)
    requires
        plain_code(install.enrolment_code),
        nowhere_else(install),
    ensures
        stands_alone(install),
{
    lemma_words();
    reveal_strlit("\"");
    let code = install.enrolment_code;
    let sought = quote(code);
    let start =
        "# Written by `meridian up`. Everything else the chart defaults.\ndeployment:\n  id: "@;
    let label = "\n  enrolmentCode: "@;
    let behind = label + sought + after_code(install);
    let whole = document(install);
    let at = before_code(install).len() as int;
    assert(whole =~= start + quote(install.deployment_id) + behind);
    assert(whole.subrange(at, at + sought.len()) =~= sought);
    assert forall|j: int| j < at implies !#[trigger] occurs_at(whole, sought, j) by {
        if occurs_at(whole, sought, j) {
            lemma_past(start, install.deployment_id, behind, code, j);
            let k = j - start.len() - quote(install.deployment_id).len();
            assert(whole.subrange(j, j + sought.len())[0] == '"');
            assert(whole[j] == label[k]);
            assert(label.contains('"'));
        }
    }
    lemma_after_code(install);
}

/// What is printed holds no credential: where the code stands alone, what is
/// shown is the command with the variable in the code's place, and the rest of
/// it untouched.
pub proof fn what_is_shown_has_the_variable_for_the_code(install: Installing)
    requires
        stands_alone(install),
    ensures
        shown_command(install) == typed(
            install,
            before_code(install) + "\"$MERIDIAN_ENROLMENT_CODE\""@ + after_code(install),
        ),
{
    reveal_strlit("\"");
    let sought = quote(install.enrolment_code);
    let to = "\"$MERIDIAN_ENROLMENT_CODE\""@;
    let whole = document(install);
    let at = before_code(install).len() as int;
    lemma_replace_first(whole, sought, to, at);
    assert(whole.take(at) =~= before_code(install));
    assert(whole.skip(at + sought.len()) =~= after_code(install));
    lemma_nothing_sought(after_code(install), sought, to);
}

/// What is printed is the same whatever the code is, of the codes that stand
/// alone.
pub proof fn what_is_shown_does_not_depend_on_the_code(
    install: Installing,
    enrolment_code: Seq<char>,
)
    requires
        stands_alone(install),
        stands_alone(Installing { enrolment_code, ..install }),
    ensures
        shown_command(install) == shown_command(Installing { enrolment_code, ..install }),
{
    what_is_shown_has_the_variable_for_the_code(install);
    what_is_shown_has_the_variable_for_the_code(Installing { enrolment_code, ..install });
}

/// What is shown is the command that is run, as somebody would type it: Helm,
/// the same arguments with blanks between them, and the values on its input, up
/// to the line that ends them.
pub proof fn what_is_shown_is_what_is_run(install: Installing)
    ensures
        exists|values: Seq<char>|
            shown_command(install) == #[trigger] ("helm "@ + join(arguments(install), " "@)
                + " <<'VALUES'\n"@ + values + "VALUES"@) && values == replace(
                document(install),
                quote(install.enrolment_code),
                "\"$MERIDIAN_ENROLMENT_CODE\""@,
            ),
{
    let values = replace(
        document(install),
        quote(install.enrolment_code),
        "\"$MERIDIAN_ENROLMENT_CODE\""@,
    );
    assert(shown_command(install) == "helm "@ + join(arguments(install), " "@) + " <<'VALUES'\n"@
        + values + "VALUES"@);
}

} // verus!
