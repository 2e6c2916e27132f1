//! Reading text: what it means for one string to stand in another, and the
//! searching, cutting, trimming and replacing that everything else is made of.
//!
//! A string is a sequence of characters here, and every position counts
//! characters. The specification functions say what each operation yields;
//! the executable function beside each carries it out.
use vstd::prelude::*;
use vstd::string::*;
use vstd::utf8::{encode_utf8, valid_utf8};

verus! {

/// `String::push` appends the given character to the end of the string.
pub assume_specification[ String::push ](s: &mut String, c: char)
    ensures
        final(s)@ == old(s)@.push(c),
;

/// The text that bytes are taken for, with a replacement character for what is
/// not UTF-8.
pub uninterp spec fn lossy_text(bytes: Seq<u8>) -> Seq<char>;

/// `String::from_utf8_lossy`: the bytes as text, with a replacement character
/// in place of what is not UTF-8. Bytes that are UTF-8 are the text they
/// encode.
#[verifier::external_body]
pub(crate) fn lossy(bytes: &[u8]) -> (out: String)
    ensures
        out@ == lossy_text(bytes@),
        valid_utf8(bytes@) ==> encode_utf8(out@) == bytes@,
{
    String::from_utf8_lossy(bytes).into_owned()
}

/// A text as a programmer writes it: in quotes, with what a quoted text cannot
/// hold as it is escaped.
pub uninterp spec fn debugged(s: Seq<char>) -> Seq<char>;

/// `str`'s `Debug`, as `{:?}` prints it. That it is a function of the text is
/// all that is claimed of it.
#[verifier::external_body]
pub(crate) fn debug_of(s: &str) -> (out: String)
    ensures
        out@ == debugged(s@),
{
    format!("{s:?}")
}

/// The texts a list of strings holds, in order.
pub open spec fn texts(list: Seq<String>) -> Seq<Seq<char>> {
    Seq::new(list.len(), |i: int| list[i]@)
}

/// `pat` stands in `s` at position `i`.
pub open spec fn occurs_at(s: Seq<char>, pat: Seq<char>, i: int) -> bool {
    0 <= i <= s.len() - pat.len() && s.subrange(i, i + pat.len()) == pat
}

/// `pat` stands somewhere in `s`.
pub open spec fn holds(s: Seq<char>, pat: Seq<char>) -> bool {
    exists|i: int| #[trigger] occurs_at(s, pat, i)
}

/// The first place where `pat` stands in `s` is `i`.
pub open spec fn first_at(s: Seq<char>, pat: Seq<char>, i: int) -> bool {
    occurs_at(s, pat, i) && forall|j: int| j < i ==> !#[trigger] occurs_at(s, pat, j)
}

/// The last place where `pat` stands in `s` is `i`.
pub open spec fn last_at(s: Seq<char>, pat: Seq<char>, i: int) -> bool {
    occurs_at(s, pat, i) && forall|j: int| i < j ==> !#[trigger] occurs_at(s, pat, j)
}

/// Where `pat` first stands in `s`.
pub open spec fn find(s: Seq<char>, pat: Seq<char>) -> Option<int> {
    if holds(s, pat) {
        Some(choose|i: int| first_at(s, pat, i))
    } else {
        None
    }
}

/// What is before and after the first `pat` in `s`.
pub open spec fn split_once(s: Seq<char>, pat: Seq<char>) -> Option<(Seq<char>, Seq<char>)> {
    match find(s, pat) {
        Some(i) => Some((s.take(i), s.skip(i + pat.len()))),
        None => None,
    }
}

/// What is before and after the last `pat` in `s`.
pub open spec fn rsplit_once(s: Seq<char>, pat: Seq<char>) -> Option<(Seq<char>, Seq<char>)> {
    if holds(s, pat) {
        let i = choose|i: int| last_at(s, pat, i);
        Some((s.take(i), s.skip(i + pat.len())))
    } else {
        None
    }
}

/// The pieces of `s` between one `pat` and the next, from the left.
pub open spec fn split(s: Seq<char>, pat: Seq<char>) -> Seq<Seq<char>>
    decreases s.len(),
{
    match find(s, pat) {
        Some(i) => if 0 < pat.len() && 0 <= i <= s.len() - pat.len() {
            seq![s.take(i)] + split(s.skip(i + pat.len()), pat)
        } else {
            seq![s]
        },
        None => seq![s],
    }
}

/// The parts one after the other, with `sep` between each two.
pub open spec fn join(parts: Seq<Seq<char>>, sep: Seq<char>) -> Seq<char>
    decreases parts.len(),
{
    if parts.len() == 0 {
        Seq::empty()
    } else if parts.len() == 1 {
        parts[0]
    } else {
        parts[0] + sep + join(parts.skip(1), sep)
    }
}

/// The parts one after the other.
pub open spec fn concat(parts: Seq<Seq<char>>) -> Seq<char>
    decreases parts.len(),
{
    if parts.len() == 0 {
        Seq::empty()
    } else {
        concat(parts.drop_last()) + parts.last()
    }
}

/// `s` with every `pat`, found from the left, replaced by `to`.
pub open spec fn replace(s: Seq<char>, pat: Seq<char>, to: Seq<char>) -> Seq<char> {
    join(split(s, pat), to)
}

/// `s` without `pat` at its start, if that is what it starts with.
pub open spec fn strip_prefix(s: Seq<char>, pat: Seq<char>) -> Option<Seq<char>> {
    if pat.is_prefix_of(s) {
        Some(s.skip(pat.len() as int))
    } else {
        None
    }
}

/// A character with the Unicode property White_Space.
pub open spec fn is_white(c: char) -> bool {
    let n = c as u32;
    ||| 0x9 <= n <= 0xd
    ||| n == 0x20
    ||| n == 0x85
    ||| n == 0xa0
    ||| n == 0x1680
    ||| 0x2000 <= n <= 0x200a
    ||| n == 0x2028
    ||| n == 0x2029
    ||| n == 0x202f
    ||| n == 0x205f
    ||| n == 0x3000
}

/// `s` from its first character that is not white space.
pub open spec fn trim_start(s: Seq<char>) -> Seq<char>
    decreases s.len(),
{
    if s.len() > 0 && is_white(s[0]) {
        trim_start(s.skip(1))
    } else {
        s
    }
}

/// `s` up to its last character that is not white space.
pub open spec fn trim_end(s: Seq<char>) -> Seq<char>
    decreases s.len(),
{
    if s.len() > 0 && is_white(s.last()) {
        trim_end(s.drop_last())
    } else {
        s
    }
}

/// `s` without the white space around it.
pub open spec fn trim(s: Seq<char>) -> Seq<char> {
    trim_end(trim_start(s))
}

/// `s` without every `c` at its start.
pub open spec fn trim_start_char(s: Seq<char>, c: char) -> Seq<char>
    decreases s.len(),
{
    if s.len() > 0 && s[0] == c {
        trim_start_char(s.skip(1), c)
    } else {
        s
    }
}

/// `s` without every `c` at its end.
pub open spec fn trim_end_char(s: Seq<char>, c: char) -> Seq<char>
    decreases s.len(),
{
    if s.len() > 0 && s.last() == c {
        trim_end_char(s.drop_last(), c)
    } else {
        s
    }
}

/// `s` without `pat` at its start, as often as it stands there.
pub open spec fn trim_start_text(s: Seq<char>, pat: Seq<char>) -> Seq<char>
    decreases s.len(),
{
    if 0 < pat.len() <= s.len() && pat.is_prefix_of(s) {
        trim_start_text(s.skip(pat.len() as int), pat)
    } else {
        s
    }
}

/// How many of the leading characters of `s` are not white space.
pub open spec fn word_len(s: Seq<char>) -> int
    decreases s.len(),
{
    if s.len() > 0 && !is_white(s[0]) {
        1 + word_len(s.skip(1))
    } else {
        0
    }
}

/// The words of `s`: what stands between white space.
pub open spec fn words(s: Seq<char>) -> Seq<Seq<char>>
    decreases s.len(),
{
    if s.len() == 0 {
        Seq::empty()
    } else if is_white(s[0]) {
        words(s.skip(1))
    } else {
        let n = word_len(s);
        if 0 < n <= s.len() {
            seq![s.take(n)] + words(s.skip(n))
        } else {
            Seq::empty()
        }
    }
}

// ── Where one text stands in another ─────────────────────────────────────────

/// A text that stands somewhere stands somewhere first.
proof fn lemma_least(s: Seq<char>, pat: Seq<char>, i: int)
    requires
        occurs_at(s, pat, i),
    ensures
        exists|k: int| first_at(s, pat, k),
    decreases i,
{
    if exists|j: int| j < i && occurs_at(s, pat, j) {
        let j = choose|j: int| j < i && occurs_at(s, pat, j);
        lemma_least(s, pat, j);
    } else {
        assert(first_at(s, pat, i));
    }
}

/// `find` yields the first place, and nothing only where there is none.
pub proof fn lemma_find(s: Seq<char>, pat: Seq<char>)
    ensures
        holds(s, pat) <==> find(s, pat) is Some,
        find(s, pat) matches Some(i) ==> first_at(s, pat, i),
        find(s, pat) matches Some(i) ==> 0 <= i <= s.len() - pat.len(),
{
    if holds(s, pat) {
        let i = choose|i: int| occurs_at(s, pat, i);
        lemma_least(s, pat, i);
    }
}

/// There is one first place.
pub proof fn lemma_find_is(s: Seq<char>, pat: Seq<char>, i: int)
    requires
        first_at(s, pat, i),
    ensures
        find(s, pat) == Some(i),
{
    assert(occurs_at(s, pat, i));
    lemma_find(s, pat);
    let k = find(s, pat)->0;
    assert(first_at(s, pat, k));
    assert(k == i) by {
        if k < i {
            assert(occurs_at(s, pat, k));
        }
        if i < k {
            assert(occurs_at(s, pat, i));
        }
    }
}

/// Standing in the rest of a text is standing in the text, further on.
pub proof fn lemma_occurs_skip(s: Seq<char>, pat: Seq<char>, from: int, j: int)
    requires
        0 <= from <= s.len(),
        0 <= j,
    ensures
        occurs_at(s.skip(from), pat, j) == occurs_at(s, pat, from + j),
{
    if 0 <= j <= s.skip(from).len() - pat.len() {
        assert(s.skip(from).subrange(j, j + pat.len()) =~= s.subrange(
            from + j,
            from + j + pat.len(),
        ));
    }
}

/// What ends a join.
pub proof fn lemma_join_push(parts: Seq<Seq<char>>, sep: Seq<char>, last: Seq<char>)
    requires
        parts.len() > 0,
    ensures
        join(parts.push(last), sep) == join(parts, sep) + sep + last,
    decreases parts.len(),
{
    let all = parts.push(last);
    if parts.len() == 1 {
        assert(all.skip(1) =~= seq![last]);
        assert(join(all.skip(1), sep) == last);
        assert(join(all, sep) =~= join(parts, sep) + sep + last);
    } else {
        lemma_join_push(parts.skip(1), sep, last);
        assert(all.skip(1) =~= parts.skip(1).push(last));
        assert(join(all, sep) =~= join(parts, sep) + sep + last);
    }
}

/// Where there is a last place, there is one.
pub proof fn lemma_last_is(s: Seq<char>, pat: Seq<char>, i: int)
    requires
        last_at(s, pat, i),
    ensures
        holds(s, pat),
        rsplit_once(s, pat) == Some((s.take(i), s.skip(i + pat.len()))),
{
    assert(occurs_at(s, pat, i));
    let k = choose|k: int| last_at(s, pat, k);
    assert(last_at(s, pat, k));
    if k < i {
        assert(occurs_at(s, pat, i));
    }
    if i < k {
        assert(occurs_at(s, pat, k));
    }
}

/// A text that stands somewhere stands somewhere last.
proof fn lemma_most(s: Seq<char>, pat: Seq<char>, i: int)
    requires
        occurs_at(s, pat, i),
    ensures
        exists|k: int| last_at(s, pat, k),
    decreases s.len() - i,
{
    if exists|j: int| i < j && occurs_at(s, pat, j) {
        let j = choose|j: int| i < j && occurs_at(s, pat, j);
        lemma_most(s, pat, j);
    } else {
        assert(last_at(s, pat, i));
    }
}

/// A text is cut where it was put together: what is before and after the first
/// place, or the last, is the text again with what was sought between them, and
/// nothing is cut only where what was sought is nowhere.
pub proof fn what_is_cut_is_whole_again(s: Seq<char>, pat: Seq<char>)
    ensures
        match split_once(s, pat) {
            Some((left, right)) => s == left + pat + right && forall|j: int|
                j < left.len() ==> !#[trigger] occurs_at(s, pat, j),
            None => !holds(s, pat),
        },
        match rsplit_once(s, pat) {
            Some((left, right)) => s == left + pat + right && forall|j: int|
                j > left.len() ==> !#[trigger] occurs_at(s, pat, j),
            None => !holds(s, pat),
        },
{
    lemma_find(s, pat);
    if holds(s, pat) {
        let first = find(s, pat)->0;
        assert(occurs_at(s, pat, first));
        assert(s.subrange(first, first + pat.len()) == pat);
        assert(s =~= s.take(first) + pat + s.skip(first + pat.len()));
        let i = choose|i: int| occurs_at(s, pat, i);
        lemma_most(s, pat, i);
        let last = choose|k: int| last_at(s, pat, k);
        assert(occurs_at(s, pat, last));
        assert(s.subrange(last, last + pat.len()) == pat);
        assert(s =~= s.take(last) + pat + s.skip(last + pat.len()));
    }
}

/// A text is cut at a character: the first cut leaves none of it before, and
/// the last none of it behind.
pub proof fn a_cut_at_a_character_leaves_none(s: Seq<char>, c: char)
    ensures
        match split_once(s, seq![c]) {
            Some((left, right)) => s == left + seq![c] + right && !left.contains(c),
            None => !s.contains(c),
        },
        match rsplit_once(s, seq![c]) {
            Some((left, right)) => s == left + seq![c] + right && !right.contains(c),
            None => !s.contains(c),
        },
{
    what_is_cut_is_whole_again(s, seq![c]);
    lemma_holds_char(s, c);
    if let Some((left, right)) = split_once(s, seq![c]) {
        lemma_none_before(s, c, left, right);
    }
    if let Some((left, right)) = rsplit_once(s, seq![c]) {
        lemma_none_behind(s, c, left, right);
    }
}

/// A text that was put together around a character is cut into what it was put
/// together from: at the first place where the character is not in what stands
/// before it, and at the last where it is not in what stands behind it.
pub proof fn a_text_is_cut_where_it_was_put_together(a: Seq<char>, c: char, b: Seq<char>)
    ensures
        !a.contains(c) ==> split_once(a + seq![c] + b, seq![c]) == Some((a, b)),
        !b.contains(c) ==> rsplit_once(a + seq![c] + b, seq![c]) == Some((a, b)),
{
    let whole = a + seq![c] + b;
    let n = a.len() as int;
    assert(whole[n] == c);
    assert(whole.take(n) =~= a);
    assert(whole.skip(n + 1) =~= b);
    if !a.contains(c) {
        assert forall|j: int| 0 <= j < n implies whole[j] != c by {
            assert(whole[j] == a[j]);
        }
        lemma_find_char(whole, c, n);
    }
    if !b.contains(c) {
        assert(whole.subrange(n, n + 1) =~= seq![c]);
        assert(occurs_at(whole, seq![c], n));
        assert forall|j: int| n < j implies !#[trigger] occurs_at(whole, seq![c], j) by {
            if occurs_at(whole, seq![c], j) {
                assert(whole.subrange(j, j + 1)[0] == c);
                assert(whole[j] == b[j - n - 1]);
            }
        }
        lemma_last_is(whole, seq![c], n);
    }
}

proof fn lemma_none_before(s: Seq<char>, c: char, left: Seq<char>, right: Seq<char>)
    requires
        s == left + seq![c] + right,
        forall|j: int| j < left.len() ==> !#[trigger] occurs_at(s, seq![c], j),
    ensures
        !left.contains(c),
{
    if left.contains(c) {
        let j = choose|j: int| 0 <= j < left.len() && left[j] == c;
        assert(s[j] == c);
        assert(s.subrange(j, j + 1) =~= seq![c]);
        assert(occurs_at(s, seq![c], j));
    }
}

proof fn lemma_none_behind(s: Seq<char>, c: char, left: Seq<char>, right: Seq<char>)
    requires
        s == left + seq![c] + right,
        forall|j: int| j > left.len() ==> !#[trigger] occurs_at(s, seq![c], j),
    ensures
        !right.contains(c),
{
    if right.contains(c) {
        let j = choose|j: int| 0 <= j < right.len() && right[j] == c;
        let k = left.len() + 1 + j;
        assert(s[k] == c);
        assert(s.subrange(k, k + 1) =~= seq![c]);
        assert(occurs_at(s, seq![c], k));
    }
}

/// A single character first stands where it first is.
pub proof fn lemma_find_char(s: Seq<char>, c: char, i: int)
    requires
        0 <= i < s.len(),
        s[i] == c,
        forall|j: int| 0 <= j < i ==> s[j] != c,
    ensures
        find(s, seq![c]) == Some(i),
{
    assert(s.subrange(i, i + 1) =~= seq![c]);
    assert forall|j: int| j < i implies !#[trigger] occurs_at(s, seq![c], j) by {
        if occurs_at(s, seq![c], j) {
            assert(s.subrange(j, j + 1)[0] == c);
        }
    }
    lemma_find_is(s, seq![c], i);
}

/// A single character stands in a text exactly where the text contains it.
pub proof fn lemma_holds_char(s: Seq<char>, c: char)
    ensures
        holds(s, seq![c]) == s.contains(c),
{
    if holds(s, seq![c]) {
        let i = choose|i: int| occurs_at(s, seq![c], i);
        assert(s.subrange(i, i + 1)[0] == c);
        assert(s[i] == c);
    }
    if s.contains(c) {
        let i = choose|i: int| 0 <= i < s.len() && s[i] == c;
        assert(s.subrange(i, i + 1) =~= seq![c]);
        assert(occurs_at(s, seq![c], i));
    }
}

/// What was joined with a character that none of the parts holds is split at
/// that character into the same parts.
pub proof fn split_undoes_join(parts: Seq<Seq<char>>, sep: char)
    requires
        parts.len() > 0,
        forall|i: int| 0 <= i < parts.len() ==> !(#[trigger] parts[i]).contains(sep),
    ensures
        split(join(parts, seq![sep]), seq![sep]) == parts,
    decreases parts.len(),
{
    let pat = seq![sep];
    let whole = join(parts, pat);
    if parts.len() == 1 {
        lemma_holds_char(whole, sep);
        assert(split(whole, pat) =~= parts);
    } else {
        let rest = join(parts.skip(1), pat);
        let n = parts[0].len() as int;
        assert(whole == parts[0] + pat + rest);
        assert(whole[n] == sep);
        assert forall|j: int| 0 <= j < n implies whole[j] != sep by {
            assert(whole[j] == parts[0][j]);
        }
        lemma_find_char(whole, sep, n);
        assert(whole.take(n) =~= parts[0]);
        assert(whole.skip(n + 1) =~= rest);
        assert forall|i: int| 0 <= i < parts.skip(1).len() implies !(
        #[trigger] parts.skip(1)[i]).contains(sep) by {
            assert(parts.skip(1)[i] == parts[i + 1]);
        }
        split_undoes_join(parts.skip(1), sep);
        assert(split(whole, pat) =~= parts);
    }
}

/// A text that does not hold what is sought is split into itself alone, and
/// replacing changes nothing.
pub proof fn lemma_nothing_sought(s: Seq<char>, pat: Seq<char>, to: Seq<char>)
    requires
        !holds(s, pat),
    ensures
        split(s, pat) == seq![s],
        replace(s, pat, to) == s,
{
    assert(split(s, pat) == seq![s]);
}

/// Replacing goes on after the first place.
pub proof fn lemma_replace_first(s: Seq<char>, pat: Seq<char>, to: Seq<char>, i: int)
    requires
        first_at(s, pat, i),
        pat.len() > 0,
    ensures
        replace(s, pat, to) == s.take(i) + to + replace(s.skip(i + pat.len()), pat, to),
{
    lemma_find_is(s, pat, i);
    let rest = split(s.skip(i + pat.len()), pat);
    assert(split(s, pat) == seq![s.take(i)] + rest);
    assert(split(s, pat).skip(1) =~= rest);
    lemma_split_some(s.skip(i + pat.len()), pat);
    assert(split(s, pat)[0] == s.take(i));
}

/// Replacing leaves what nothing sought starts in, and goes on behind it.
pub proof fn lemma_replace_past(a: Seq<char>, rest: Seq<char>, pat: Seq<char>, to: Seq<char>)
    requires
        pat.len() > 0,
        forall|j: int| 0 <= j < a.len() ==> !#[trigger] occurs_at(a + rest, pat, j),
    ensures
        replace(a + rest, pat, to) == a + replace(rest, pat, to),
{
    let whole = a + rest;
    let n = a.len() as int;
    assert(whole.skip(n) =~= rest);
    lemma_find(rest, pat);
    if holds(rest, pat) {
        let i = find(rest, pat)->0;
        lemma_occurs_skip(whole, pat, n, i);
        assert forall|j: int| j < n + i implies !#[trigger] occurs_at(whole, pat, j) by {
            if j >= n {
                lemma_occurs_skip(whole, pat, n, j - n);
                assert(!occurs_at(rest, pat, j - n));
            }
        }
        lemma_replace_first(rest, pat, to, i);
        lemma_replace_first(whole, pat, to, n + i);
        assert(whole.take(n + i) =~= a + rest.take(i));
        assert(whole.skip(n + i + pat.len()) =~= rest.skip(i + pat.len()));
        assert(replace(whole, pat, to) =~= a + replace(rest, pat, to));
    } else {
        if holds(whole, pat) {
            let j = choose|j: int| occurs_at(whole, pat, j);
            lemma_occurs_skip(whole, pat, n, j - n);
            assert(occurs_at(rest, pat, j - n));
        }
        lemma_nothing_sought(rest, pat, to);
        lemma_nothing_sought(whole, pat, to);
    }
}

/// Splitting leaves what nothing sought starts in, in front of the first piece
/// of what is behind it.
pub proof fn lemma_split_past(a: Seq<char>, rest: Seq<char>, pat: Seq<char>)
    requires
        pat.len() > 0,
        forall|j: int| 0 <= j < a.len() ==> !#[trigger] occurs_at(a + rest, pat, j),
    ensures
        split(a + rest, pat) == seq![a + split(rest, pat)[0]] + split(rest, pat).skip(1),
{
    let whole = a + rest;
    let n = a.len() as int;
    assert(whole.skip(n) =~= rest);
    lemma_find(rest, pat);
    if holds(rest, pat) {
        let i = find(rest, pat)->0;
        lemma_occurs_skip(whole, pat, n, i);
        assert forall|j: int| j < n + i implies !#[trigger] occurs_at(whole, pat, j) by {
            if j >= n {
                lemma_occurs_skip(whole, pat, n, j - n);
                assert(!occurs_at(rest, pat, j - n));
            }
        }
        lemma_find_is(whole, pat, n + i);
        let behind = split(rest.skip(i + pat.len()), pat);
        assert(whole.take(n + i) =~= a + rest.take(i));
        assert(whole.skip(n + i + pat.len()) =~= rest.skip(i + pat.len()));
        assert(split(rest, pat) == seq![rest.take(i)] + behind);
        assert(split(rest, pat).skip(1) =~= behind);
        assert(split(whole, pat) =~= seq![a + split(rest, pat)[0]] + split(rest, pat).skip(1));
    } else {
        if holds(whole, pat) {
            let j = choose|j: int| occurs_at(whole, pat, j);
            lemma_occurs_skip(whole, pat, n, j - n);
            assert(occurs_at(rest, pat, j - n));
        }
        lemma_nothing_sought(rest, pat, rest);
        lemma_nothing_sought(whole, pat, rest);
        assert(split(whole, pat) =~= seq![a + split(rest, pat)[0]] + split(rest, pat).skip(1));
    }
}

/// What was put between two texts, where it first stands, is where they are
/// split.
pub proof fn lemma_split_first(a: Seq<char>, pat: Seq<char>, b: Seq<char>)
    requires
        pat.len() > 0,
        first_at(a + pat + b, pat, a.len() as int),
    ensures
        split(a + pat + b, pat) == seq![a] + split(b, pat),
        split_once(a + pat + b, pat) == Some((a, b)),
{
    let whole = a + pat + b;
    lemma_find_is(whole, pat, a.len() as int);
    assert(whole.take(a.len() as int) =~= a);
    assert(whole.skip(a.len() + pat.len() as int) =~= b);
}

/// What stands around a character is split apart, and each side as it is.
pub proof fn lemma_split_around(a: Seq<char>, c: char, rest: Seq<char>)
    ensures
        split(a + seq![c] + rest, seq![c]) == split(a, seq![c]) + split(rest, seq![c]),
    decreases a.len(),
{
    let pat = seq![c];
    let whole = a + pat + rest;
    lemma_holds_char(a, c);
    lemma_find(a, pat);
    if a.contains(c) {
        let i = find(a, pat)->0;
        assert(a.subrange(i, i + 1)[0] == c);
        assert forall|j: int| 0 <= j < i implies whole[j] != c by {
            if a[j] == c {
                assert(a.subrange(j, j + 1) =~= pat);
                assert(occurs_at(a, pat, j));
            }
        }
        assert(whole[i] == c);
        lemma_find_char(whole, c, i);
        let after = a.skip(i + 1);
        assert(whole.take(i) =~= a.take(i));
        assert(whole.skip(i + 1) =~= after + pat + rest);
        lemma_split_around(after, c, rest);
        assert(split(whole, pat) =~= split(a, pat) + split(rest, pat));
    } else {
        let n = a.len() as int;
        assert forall|j: int| 0 <= j < n implies whole[j] != c by {
            assert(whole[j] == a[j]);
        }
        assert(whole[n] == c);
        lemma_find_char(whole, c, n);
        assert(whole.take(n) =~= a);
        assert(whole.skip(n + 1) =~= rest);
        assert(split(whole, pat) =~= split(a, pat) + split(rest, pat));
    }
}

/// A split has at least one piece.
pub proof fn lemma_split_some(s: Seq<char>, pat: Seq<char>)
    ensures
        split(s, pat).len() > 0,
{
}

/// `s` with every `c` in it replaced by `to`, character by character.
pub open spec fn each(s: Seq<char>, c: char, to: Seq<char>) -> Seq<char>
    decreases s.len(),
{
    if s.len() == 0 {
        Seq::empty()
    } else if s[0] == c {
        to + each(s.skip(1), c, to)
    } else {
        seq![s[0]] + each(s.skip(1), c, to)
    }
}

/// Replacing a single character goes character by character.
pub proof fn lemma_replace_each(s: Seq<char>, c: char, to: Seq<char>)
    ensures
        replace(s, seq![c], to) == each(s, c, to),
    decreases s.len(),
{
    let pat = seq![c];
    lemma_holds_char(s, c);
    if s.len() == 0 {
        lemma_nothing_sought(s, pat, to);
    } else {
        let rest = s.skip(1);
        lemma_replace_each(rest, c, to);
        if s[0] == c {
            lemma_find_char(s, c, 0);
            lemma_find(s, pat);
            lemma_replace_first(s, pat, to, 0);
            assert(s.take(0) + to + replace(rest, pat, to) =~= to + replace(rest, pat, to));
        } else {
            lemma_holds_char(rest, c);
            lemma_find(rest, pat);
            match find(rest, pat) {
                None => {
                    lemma_nothing_sought(rest, pat, to);
                    assert(!s.contains(c)) by {
                        if s.contains(c) {
                            let k = choose|k: int| 0 <= k < s.len() && s[k] == c;
                            assert(rest[k - 1] == c);
                        }
                    }
                    lemma_nothing_sought(s, pat, to);
                    assert(seq![s[0]] + rest =~= s);
                },
                Some(i) => {
                    assert(rest.subrange(i, i + 1)[0] == c);
                    assert(s[i + 1] == c);
                    assert forall|j: int| 0 <= j < i + 1 implies s[j] != c by {
                        if j > 0 {
                            assert(rest[j - 1] == s[j]);
                            if s[j] == c {
                                assert(rest.subrange(j - 1, j) =~= pat);
                                assert(occurs_at(rest, pat, j - 1));
                            }
                        }
                    }
                    lemma_find_char(s, c, i + 1);
                    lemma_find(s, pat);
                    lemma_replace_first(s, pat, to, i + 1);
                    lemma_replace_first(rest, pat, to, i);
                    assert(s.skip(i + 2) =~= rest.skip(i + 1));
                    assert(s.take(i + 1) =~= seq![s[0]] + rest.take(i));
                    assert(s.take(i + 1) + to + replace(s.skip(i + 2), pat, to) =~= seq![s[0]] + (
                    rest.take(i) + to + replace(rest.skip(i + 1), pat, to)));
                },
            }
        }
    }
}

/// Replacing a character by another keeps every other where it is.
pub proof fn lemma_each_one(s: Seq<char>, c: char, to: char)
    ensures
        each(s, c, seq![to]).len() == s.len(),
        forall|i: int|
            0 <= i < s.len() ==> (#[trigger] each(s, c, seq![to])[i]) == if s[i] == c {
                to
            } else {
                s[i]
            },
    decreases s.len(),
{
    if s.len() > 0 {
        let rest = s.skip(1);
        lemma_each_one(rest, c, to);
        let whole = each(s, c, seq![to]);
        assert forall|i: int| 0 <= i < s.len() implies (#[trigger] whole[i]) == if s[i] == c {
            to
        } else {
            s[i]
        } by {
            if i > 0 {
                assert(whole[i] == each(rest, c, seq![to])[i - 1]);
            }
        }
    }
}

/// Replacing a text with itself changes nothing.
pub proof fn replaced_with_itself(s: Seq<char>, pat: Seq<char>)
    requires
        pat.len() > 0,
    ensures
        replace(s, pat, pat) == s,
    decreases s.len(),
{
    lemma_find(s, pat);
    match find(s, pat) {
        None => {
            lemma_nothing_sought(s, pat, pat);
        },
        Some(i) => {
            let rest = s.skip(i + pat.len());
            replaced_with_itself(rest, pat);
            lemma_replace_first(s, pat, pat, i);
            assert(s =~= s.take(i) + pat + rest) by {
                assert forall|j: int| 0 <= j < pat.len() implies s[i + j] == pat[j] by {
                    assert(s.subrange(i, i + pat.len())[j] == s[i + j]);
                }
            }
        },
    }
}

// ── The operations ───────────────────────────────────────────────────────────

/// The characters of a string, in order.
pub fn characters(s: &str) -> (out: Vec<char>)
    ensures
        out@ == s@,
{
    let mut out: Vec<char> = Vec::new();
    for c in it: s.chars()
        invariant
            out@ == s@.take(it.index() as int),
            it.seq() == s@,
    {
        out.push(c);
    }
    out
}

/// The characters from one position up to another, as a string.
pub fn part(s: &Vec<char>, from: usize, to: usize) -> (out: String)
    requires
        from <= to <= s@.len(),
    ensures
        out@ == s@.subrange(from as int, to as int),
{
    let mut out = String::new();
    let mut i: usize = from;
    while i < to
        invariant
            from <= i <= to <= s@.len(),
            out@ =~= s@.subrange(from as int, i as int),
        decreases to - i,
    {
        out.push(s[i]);
        i += 1;
    }
    out
}

/// Whether two strings are the same text.
pub fn same(a: &str, b: &str) -> (r: bool)
    ensures
        r == (a@ == b@),
{
    let left = characters(a);
    let right = characters(b);
    if left.len() != right.len() {
        return false;
    }
    stands_at(&left, &right, 0)
}

/// Whether `pat` stands in `s` at position `i`.
pub fn stands_at(s: &Vec<char>, pat: &Vec<char>, i: usize) -> (r: bool)
    requires
        i <= s@.len(),
    ensures
        r == occurs_at(s@, pat@, i as int),
        i == 0 && s@.len() == pat@.len() ==> r == (s@ == pat@),
{
    if pat.len() > s.len() - i {
        return false;
    }
    assert(s@.len() == pat@.len() && i == 0 ==> s@.subrange(0, pat@.len() as int) =~= s@);
    let mut k: usize = 0;
    let n: usize = s.len();
    while k < pat.len()
        invariant
            k <= pat@.len(),
            i + pat@.len() <= n == s@.len(),
            forall|m: int| 0 <= m < k ==> s@[i + m] == pat@[m],
        decreases pat@.len() - k,
    {
        if s[i + k] != pat[k] {
            assert(s@.subrange(i as int, i + pat@.len())[k as int] != pat@[k as int]);
            return false;
        }
        k += 1;
    }
    assert(s@.subrange(i as int, i + pat@.len()) =~= pat@);
    true
}

/// Where `pat` first stands in `s` at or after `from`.
pub fn position(s: &Vec<char>, pat: &Vec<char>, from: usize) -> (r: Option<usize>)
    requires
        from <= s@.len(),
    ensures
        match r {
            Some(i) => from <= i <= s@.len() - pat@.len() && find(s@.skip(from as int), pat@)
                == Some(i - from),
            None => find(s@.skip(from as int), pat@) is None,
        },
{
    let ghost rest = s@.skip(from as int);
    let mut i: usize = from;
    while i < s.len()
        invariant
            from <= i <= s@.len(),
            rest == s@.skip(from as int),
            forall|j: int| j < i - from ==> !#[trigger] occurs_at(rest, pat@, j),
        decreases s@.len() - i,
    {
        proof {
            lemma_occurs_skip(s@, pat@, from as int, i - from);
        }
        if stands_at(s, pat, i) {
            proof {
                lemma_find_is(rest, pat@, i - from);
            }
            return Some(i);
        }
        i += 1;
    }
    proof {
        lemma_occurs_skip(s@, pat@, from as int, i - from);
    }
    if pat.len() == 0 {
        assert(s@.subrange(i as int, i as int) =~= pat@);
        proof {
            lemma_find_is(rest, pat@, i - from);
        }
        return Some(i);
    }
    assert(find(rest, pat@) is None) by {
        lemma_find(rest, pat@);
    }
    None
}

/// Where `pat` last stands in `s`.
fn last_position(s: &Vec<char>, pat: &Vec<char>) -> (r: Option<usize>)
    ensures
        match r {
            Some(i) => last_at(s@, pat@, i as int),
            None => !holds(s@, pat@),
        },
{
    if pat.len() > s.len() {
        return None;
    }
    let mut i: usize = s.len() - pat.len();
    loop
        invariant
            i <= s@.len() - pat@.len(),
            forall|j: int| i < j ==> !#[trigger] occurs_at(s@, pat@, j),
        decreases i,
    {
        if stands_at(s, pat, i) {
            return Some(i);
        }
        if i == 0 {
            return None;
        }
        i -= 1;
    }
}

/// Whether `pat` stands anywhere in `s`.
pub fn contains(s: &str, pat: &str) -> (r: bool)
    ensures
        r == holds(s@, pat@),
{
    let whole = characters(s);
    let sought = characters(pat);
    proof {
        lemma_find(s@, pat@);
        assert(s@.skip(0) =~= s@);
    }
    position(&whole, &sought, 0).is_some()
}

/// Whether `s` starts with `pat`.
pub fn starts_with(s: &str, pat: &str) -> (r: bool)
    ensures
        r == pat@.is_prefix_of(s@),
{
    let whole = characters(s);
    let sought = characters(pat);
    let r = stands_at(&whole, &sought, 0);
    proof {
        if sought@.len() <= whole@.len() {
            assert(whole@.subrange(0, sought@.len() as int) == s@.take(pat@.len() as int));
        }
    }
    r
}

/// What is before and after the first `pat` in `s`.
pub fn cut(s: &str, pat: &str) -> (r: Option<(String, String)>)
    ensures
        match r {
            Some((before, after)) => split_once(s@, pat@) == Some((before@, after@)),
            None => split_once(s@, pat@) is None,
        },
{
    let whole = characters(s);
    let sought = characters(pat);
    assert(s@.skip(0) =~= s@);
    match position(&whole, &sought, 0) {
        Some(i) => {
            let before = part(&whole, 0, i);
            let end: usize = whole.len();
            let after = part(&whole, i + sought.len(), end);
            assert(before@ =~= s@.take(i as int));
            assert(after@ =~= s@.skip(i + pat@.len()));
            Some((before, after))
        },
        None => None,
    }
}

/// What is before and after the last `pat` in `s`.
pub fn cut_last(s: &str, pat: &str) -> (r: Option<(String, String)>)
    ensures
        match r {
            Some((before, after)) => rsplit_once(s@, pat@) == Some((before@, after@)),
            None => rsplit_once(s@, pat@) is None,
        },
{
    let whole = characters(s);
    let sought = characters(pat);
    match last_position(&whole, &sought) {
        Some(i) => {
            let before = part(&whole, 0, i);
            let end: usize = whole.len();
            let after = part(&whole, i + sought.len(), end);
            assert(before@ =~= s@.take(i as int));
            assert(after@ =~= s@.skip(i + pat@.len()));
            proof {
                lemma_last_is(s@, pat@, i as int);
            }
            Some((before, after))
        },
        None => None,
    }
}

/// `s` without `pat` at its start, if that is what it starts with.
pub fn without_prefix(s: &str, pat: &str) -> (r: Option<String>)
    ensures
        match r {
            Some(rest) => strip_prefix(s@, pat@) == Some(rest@),
            None => strip_prefix(s@, pat@) is None,
        },
{
    if !starts_with(s, pat) {
        return None;
    }
    let whole = characters(s);
    let rest = part(&whole, characters(pat).len(), whole.len());
    assert(rest@ =~= s@.skip(pat@.len() as int));
    Some(rest)
}

/// The pieces of `s` between one `pat` and the next.
pub fn pieces(s: &str, pat: &str) -> (out: Vec<String>)
    requires
        pat@.len() > 0,
    ensures
        texts(out@) == split(s@, pat@),
        out@.len() > 0,
{
    let whole = characters(s);
    let sought = characters(pat);
    let mut out: Vec<String> = Vec::new();
    let mut from: usize = 0;
    let n: usize = whole.len();
    assert(s@.skip(0) =~= s@);
    assert(texts(out@) + split(s@, pat@) =~= split(s@, pat@));
    loop
        invariant
            from <= n == whole@.len(),
            whole@ == s@,
            sought@ == pat@,
            pat@.len() > 0,
            split(s@, pat@) == texts(out@) + split(s@.skip(from as int), pat@),
        decreases whole@.len() - from,
    {
        let ghost rest = s@.skip(from as int);
        match position(&whole, &sought, from) {
            Some(i) => {
                let piece = part(&whole, from, i);
                let ghost before = texts(out@);
                assert(piece@ =~= rest.take(i - from));
                out.push(piece);
                assert(texts(out@) =~= before.push(rest.take(i - from)));
                assert(rest.skip(i - from + pat@.len()) =~= s@.skip(i + pat@.len()));
                assert(split(rest, pat@) == seq![rest.take(i - from)] + split(
                    s@.skip(i + pat@.len()),
                    pat@,
                ));
                assert(texts(out@) + split(s@.skip(i + pat@.len()), pat@) =~= before + split(
                    rest,
                    pat@,
                ));
                from = i + sought.len();
            },
            None => {
                let piece = part(&whole, from, whole.len());
                let ghost before = texts(out@);
                assert(piece@ =~= rest);
                out.push(piece);
                assert(texts(out@) =~= before + seq![rest]);
                return out;
            },
        }
    }
}

/// The parts one after the other, with `sep` between each two.
pub fn joined(parts: &Vec<String>, sep: &str) -> (out: String)
    ensures
        out@ == join(texts(parts@), sep@),
{
    let mut out = String::new();
    let mut i: usize = 0;
    while i < parts.len()
        invariant
            i <= parts@.len(),
            out@ == join(texts(parts@.take(i as int)), sep@),
        decreases parts@.len() - i,
    {
        let ghost done = texts(parts@.take(i as int));
        assert(texts(parts@.take(i + 1)) =~= done.push(parts@[i as int]@));
        if i > 0 {
            proof {
                lemma_join_push(done, sep@, parts@[i as int]@);
            }
            out.append(sep);
            out.append(parts[i].as_str());
        } else {
            assert(out@ + parts@[0]@ =~= parts@[0]@);
            out.append(parts[i].as_str());
        }
        i += 1;
    }
    assert(parts@.take(i as int) =~= parts@);
    out
}

/// `s` with every `pat`, found from the left, replaced by `to`.
pub fn replaced(s: &str, pat: &str, to: &str) -> (out: String)
    requires
        pat@.len() > 0,
    ensures
        out@ == replace(s@, pat@, to@),
{
    joined(&pieces(s, pat), to)
}

/// Whether a character is white space.
pub fn white(c: char) -> (r: bool)
    ensures
        r == is_white(c),
{
    let n: u32 = c as u32;
    (0x9 <= n && n <= 0xd) || n == 0x20 || n == 0x85 || n == 0xa0 || n == 0x1680 || (0x2000 <= n
        && n <= 0x200a) || n == 0x2028 || n == 0x2029 || n == 0x202f || n == 0x205f || n == 0x3000
}

/// `s` without the white space around it.
pub fn trimmed(s: &str) -> (out: String)
    ensures
        out@ == trim(s@),
{
    let whole = characters(s);
    let mut from: usize = 0;
    assert(s@.skip(0) =~= s@);
    while from < whole.len() && white(whole[from])
        invariant
            from <= whole@.len(),
            whole@ == s@,
            trim_start(s@) == trim_start(s@.skip(from as int)),
        decreases whole@.len() - from,
    {
        assert(s@.skip(from as int).skip(1) =~= s@.skip(from + 1));
        from += 1;
    }
    let ghost rest = s@.skip(from as int);
    assert(trim_start(s@) == rest);
    let mut to: usize = whole.len();
    assert(s@.subrange(from as int, to as int) =~= rest);
    while to > from && white(whole[to - 1])
        invariant
            from <= to <= whole@.len(),
            whole@ == s@,
            trim_end(rest) == trim_end(s@.subrange(from as int, to as int)),
        decreases to - from,
    {
        assert(s@.subrange(from as int, to as int).drop_last() =~= s@.subrange(
            from as int,
            to - 1,
        ));
        to -= 1;
    }
    part(&whole, from, to)
}

/// `s` without every `c` at its start.
pub fn trimmed_start(s: &str, c: char) -> (out: String)
    ensures
        out@ == trim_start_char(s@, c),
{
    let whole = characters(s);
    let mut from: usize = 0;
    assert(s@.skip(0) =~= s@);
    while from < whole.len() && whole[from] == c
        invariant
            from <= whole@.len(),
            whole@ == s@,
            trim_start_char(s@, c) == trim_start_char(s@.skip(from as int), c),
        decreases whole@.len() - from,
    {
        assert(s@.skip(from as int).skip(1) =~= s@.skip(from + 1));
        from += 1;
    }
    let out = part(&whole, from, whole.len());
    assert(out@ =~= s@.skip(from as int));
    out
}

/// `s` without every `c` at its end.
pub fn trimmed_end(s: &str, c: char) -> (out: String)
    ensures
        out@ == trim_end_char(s@, c),
{
    let whole = characters(s);
    let mut to: usize = whole.len();
    assert(s@.take(to as int) =~= s@);
    while to > 0 && whole[to - 1] == c
        invariant
            to <= whole@.len(),
            whole@ == s@,
            trim_end_char(s@, c) == trim_end_char(s@.take(to as int), c),
        decreases to,
    {
        assert(s@.take(to as int).drop_last() =~= s@.take(to - 1));
        to -= 1;
    }
    let out = part(&whole, 0, to);
    assert(out@ =~= s@.take(to as int));
    out
}

/// `s` without `pat` at its start, as often as it stands there.
pub fn trimmed_start_text(s: &str, pat: &str) -> (out: String)
    requires
        pat@.len() > 0,
    ensures
        out@ == trim_start_text(s@, pat@),
{
    let whole = characters(s);
    let sought = characters(pat);
    let mut from: usize = 0;
    let n: usize = whole.len();
    assert(s@.skip(0) =~= s@);
    while stands_at(&whole, &sought, from)
        invariant
            from <= n == whole@.len(),
            whole@ == s@,
            sought@ == pat@,
            pat@.len() > 0,
            trim_start_text(s@, pat@) == trim_start_text(s@.skip(from as int), pat@),
        decreases whole@.len() - from,
    {
        let ghost rest = s@.skip(from as int);
        assert(rest.subrange(0, pat@.len() as int) =~= s@.subrange(
            from as int,
            from + pat@.len(),
        ));
        assert(rest.skip(pat@.len() as int) =~= s@.skip(from + pat@.len()));
        from += sought.len();
    }
    let out = part(&whole, from, whole.len());
    let ghost rest = s@.skip(from as int);
    assert(out@ =~= rest);
    assert(trim_start_text(rest, pat@) == rest) by {
        if pat@.len() <= rest.len() && pat@.is_prefix_of(rest) {
            assert(rest.subrange(0, pat@.len() as int) =~= s@.subrange(
                from as int,
                from + pat@.len(),
            ));
        }
    }
    out
}

/// The words of `s`: what stands between white space.
pub fn every_word(s: &str) -> (out: Vec<String>)
    ensures
        texts(out@) == words(s@),
{
    let whole = characters(s);
    let mut out: Vec<String> = Vec::new();
    let mut from: usize = 0;
    assert(s@.skip(0) =~= s@);
    assert(texts(out@) + words(s@) =~= words(s@));
    while from < whole.len()
        invariant
            from <= whole@.len(),
            whole@ == s@,
            words(s@) == texts(out@) + words(s@.skip(from as int)),
        decreases whole@.len() - from,
    {
        let ghost rest = s@.skip(from as int);
        if white(whole[from]) {
            assert(rest.skip(1) =~= s@.skip(from + 1));
            from += 1;
        } else {
            let mut to: usize = from;
            assert(rest.skip(0) =~= rest);
            while to < whole.len() && !white(whole[to])
                invariant
                    from <= to <= whole@.len(),
                    whole@ == s@,
                    rest == s@.skip(from as int),
                    word_len(rest) == to - from + word_len(rest.skip(to - from)),
                decreases whole@.len() - to,
            {
                assert(rest.skip(to - from).skip(1) =~= rest.skip(to - from + 1));
                to += 1;
            }
            assert(word_len(rest.skip(to - from)) == 0);
            assert(to > from);
            let word = part(&whole, from, to);
            let ghost before = texts(out@);
            assert(word@ =~= rest.take(to - from));
            out.push(word);
            assert(texts(out@) =~= before.push(rest.take(to - from)));
            assert(rest.skip(to - from) =~= s@.skip(to as int));
            assert(texts(out@) + words(s@.skip(to as int)) =~= before + words(rest));
            from = to;
        }
    }
    assert(s@.skip(from as int) =~= Seq::<char>::empty());
    assert(texts(out@) + words(s@.skip(from as int)) =~= texts(out@));
    out
}

// ── What trimming, cutting into words and putting together come to ───────────

/// Of ASCII, white space is the blank and the five controls from the tab to the
/// carriage return.
pub proof fn blanks_tabs_and_line_ends_are_white(c: char)
    requires
        c <= '\u{7f}',
    ensures
        is_white(c) <==> c == ' ' || c == '\t' || c == '\n' || c == '\u{b}' || c == '\u{c}' || c
            == '\r',
{
}

/// A part of a text that nothing but white space is around, and that neither
/// starts nor ends with white space.
pub open spec fn bare_part(s: Seq<char>, from: int, to: int) -> bool {
    &&& 0 <= from <= to <= s.len()
    &&& forall|i: int| 0 <= i < from ==> is_white(#[trigger] s[i])
    &&& forall|i: int| to <= i < s.len() ==> is_white(#[trigger] s[i])
    &&& from < to ==> !is_white(s[from]) && !is_white(s[to - 1])
}

proof fn lemma_trim_start(s: Seq<char>)
    ensures
        exists|from: int|
            0 <= from <= s.len() && #[trigger] s.skip(from) == trim_start(s) && (forall|i: int|
                0 <= i < from ==> is_white(#[trigger] s[i])) && (from < s.len() ==> !is_white(
                s[from],
            )),
    decreases s.len(),
{
    if s.len() > 0 && is_white(s[0]) {
        let rest = s.skip(1);
        lemma_trim_start(rest);
        let from = choose|from: int|
            0 <= from <= rest.len() && #[trigger] rest.skip(from) == trim_start(rest) && (forall|
                i: int,
            |
                0 <= i < from ==> is_white(#[trigger] rest[i])) && (from < rest.len() ==> !is_white(
                rest[from],
            ));
        assert(s.skip(from + 1) =~= rest.skip(from));
        assert forall|i: int| 0 <= i < from + 1 implies is_white(#[trigger] s[i]) by {
            if i > 0 {
                assert(is_white(rest[i - 1]));
            }
        }
    } else {
        assert(s.skip(0) =~= s);
    }
}

proof fn lemma_trim_end(s: Seq<char>)
    ensures
        trim_end(s).len() <= s.len(),
        trim_end(s) == s.take(trim_end(s).len() as int),
        forall|i: int| trim_end(s).len() <= i < s.len() ==> is_white(#[trigger] s[i]),
        trim_end(s).len() > 0 ==> !is_white(trim_end(s).last()),
    decreases s.len(),
{
    if s.len() > 0 && is_white(s.last()) {
        let fewer = s.drop_last();
        lemma_trim_end(fewer);
        let n = trim_end(s).len() as int;
        assert(fewer.take(n) =~= s.take(n));
        assert forall|i: int| n <= i < s.len() implies is_white(#[trigger] s[i]) by {
            if i < fewer.len() {
                assert(is_white(fewer[i]));
            }
        }
    } else {
        assert(s.take(s.len() as int) =~= s);
    }
}

/// Trimming takes the white space around a text and nothing else: what is left
/// is the part of it that nothing but white space is around, and that neither
/// starts nor ends with any.
pub proof fn trimming_takes_the_white_space_around_and_nothing_else(s: Seq<char>)
    ensures
        exists|from: int, to: int| #[trigger] bare_part(s, from, to) && trim(s) == s.subrange(from, to),
{
    lemma_trim_start(s);
    let from = choose|from: int|
        0 <= from <= s.len() && #[trigger] s.skip(from) == trim_start(s) && (forall|i: int|
            0 <= i < from ==> is_white(#[trigger] s[i])) && (from < s.len() ==> !is_white(s[from]));
    let rest = s.skip(from);
    lemma_trim_end(rest);
    let to = from + trim(s).len();
    assert forall|i: int| to <= i < s.len() implies is_white(#[trigger] s[i]) by {
        assert(is_white(rest[i - from]));
    }
    assert(trim(s) =~= s.subrange(from, to));
    if from < to {
        assert(trim(s)[0] == s[from]);
        assert(trim(s).last() == s[to - 1]);
    }
    assert(bare_part(s, from, to));
}

/// There is one such part: a text that starts and ends with none is what is left
/// of it with white space around it, and of white space nothing is left.
pub proof fn white_space_around_a_text_is_trimmed(a: Seq<char>, s: Seq<char>, b: Seq<char>)
    requires
        forall|i: int| 0 <= i < a.len() ==> is_white(#[trigger] a[i]),
        forall|i: int| 0 <= i < b.len() ==> is_white(#[trigger] b[i]),
        s.len() > 0 ==> !is_white(s[0]) && !is_white(s.last()),
    ensures
        trim(a + s + b) == s,
{
    let whole = a + s + b;
    trimming_takes_the_white_space_around_and_nothing_else(whole);
    let (from, to) = choose|from: int, to: int| #[trigger]
        bare_part(whole, from, to) && trim(whole) == whole.subrange(from, to);
    let n = a.len() as int;
    let m = n + s.len();
    assert forall|i: int| 0 <= i < n implies is_white(#[trigger] whole[i]) by {
        assert(whole[i] == a[i]);
    }
    assert forall|i: int| m <= i < whole.len() implies is_white(#[trigger] whole[i]) by {
        assert(whole[i] == b[i - m]);
    }
    if s.len() > 0 {
        assert(whole[n] == s[0] && whole[m - 1] == s.last());
        assert(from <= n && m <= to);
        assert(from == n) by {
            if from < n {
                assert(is_white(whole[from]));
            }
        }
        assert(to == m) by {
            if to > m {
                assert(is_white(whole[to - 1]));
            }
        }
    } else {
        assert(from == to) by {
            if from < to {
                assert(is_white(whole[from]));
            }
        }
    }
    assert(trim(whole) =~= s);
}

/// Taking one character from an end takes every one of it there, and nothing
/// else.
pub proof fn every_one_of_a_character_is_taken_from_an_end(s: Seq<char>, c: char)
    ensures
        ({
            let left = trim_start_char(s, c);
            let n = s.len() - left.len();
            &&& 0 <= n && left == s.skip(n)
            &&& left.len() > 0 ==> left[0] != c
            &&& forall|i: int| 0 <= i < n ==> #[trigger] s[i] == c
        }),
        ({
            let left = trim_end_char(s, c);
            let n = left.len() as int;
            &&& n <= s.len() && left == s.take(n)
            &&& n > 0 ==> left.last() != c
            &&& forall|i: int| n <= i < s.len() ==> #[trigger] s[i] == c
        }),
    decreases s.len(),
{
    if s.len() > 0 && s[0] == c {
        let rest = s.skip(1);
        every_one_of_a_character_is_taken_from_an_end(rest, c);
        let n = s.len() - trim_start_char(s, c).len();
        assert(s.skip(n) =~= rest.skip(n - 1));
        assert forall|i: int| 0 <= i < n implies #[trigger] s[i] == c by {
            if i > 0 {
                assert(rest[i - 1] == c);
            }
        }
    } else {
        assert(s.skip(0) =~= s);
    }
    if s.len() > 0 && s.last() == c {
        let fewer = s.drop_last();
        every_one_of_a_character_is_taken_from_an_end(fewer, c);
        let n = trim_end_char(s, c).len() as int;
        assert(s.take(n) =~= fewer.take(n));
        assert forall|i: int| n <= i < s.len() implies #[trigger] s[i] == c by {
            if i < fewer.len() {
                assert(fewer[i] == c);
            }
        }
    } else {
        assert(s.take(s.len() as int) =~= s);
    }
}

proof fn lemma_word_len(s: Seq<char>, n: int)
    requires
        0 <= n <= s.len(),
        forall|i: int| 0 <= i < n ==> !is_white(#[trigger] s[i]),
        n < s.len() ==> is_white(s[n]),
    ensures
        word_len(s) == n,
    decreases s.len(),
{
    if n > 0 {
        let rest = s.skip(1);
        assert forall|i: int| 0 <= i < n - 1 implies !is_white(#[trigger] rest[i]) by {
            assert(!is_white(s[i + 1]));
        }
        if n < s.len() {
            assert(rest[n - 1] == s[n]);
        }
        lemma_word_len(rest, n - 1);
    }
}

/// The words of a text are what stands between its white space: a text without
/// white space is one word, and where white space stands the words before it
/// are followed by the words behind it.
pub proof fn words_are_what_stands_between_white_space(a: Seq<char>, c: char, b: Seq<char>)
    requires
        is_white(c),
    ensures
        words(a + seq![c] + b) == words(a) + words(b),
        (forall|i: int| 0 <= i < a.len() ==> !is_white(#[trigger] a[i])) && a.len() > 0 ==> words(a)
            == seq![a],
        words(Seq::empty()).len() == 0,
    decreases a.len(),
{
    let whole = a + seq![c] + b;
    if a.len() == 0 {
        assert(whole.skip(1) =~= b);
        assert(whole[0] == c);
        assert(words(whole) =~= words(a) + words(b));
    } else if is_white(a[0]) {
        words_are_what_stands_between_white_space(a.skip(1), c, b);
        assert(whole.skip(1) =~= a.skip(1) + seq![c] + b);
        assert(whole[0] == a[0]);
    } else {
        let n = lemma_first_word(a);
        lemma_word_len(a, n);
        assert forall|i: int| 0 <= i < n implies !is_white(#[trigger] whole[i]) by {
            assert(whole[i] == a[i]);
        }
        assert(is_white(whole[n])) by {
            if n < a.len() {
                assert(whole[n] == a[n]);
            }
        }
        lemma_word_len(whole, n);
        assert(whole.take(n) =~= a.take(n));
        assert(whole.skip(n) =~= a.skip(n) + seq![c] + b);
        words_are_what_stands_between_white_space(a.skip(n), c, b);
        assert(words(whole) =~= words(a) + words(b));
        if n == a.len() {
            assert(a.take(n) =~= a);
            assert(words(a) =~= seq![a]);
        } else {
            assert(is_white(a[n]));
        }
    }
}

proof fn lemma_first_word(s: Seq<char>) -> (n: int)
    requires
        s.len() > 0,
        !is_white(s[0]),
    ensures
        0 < n <= s.len(),
        forall|i: int| 0 <= i < n ==> !is_white(#[trigger] s[i]),
        n < s.len() ==> is_white(s[n]),
    decreases s.len(),
{
    if s.len() == 1 || is_white(s[1]) {
        1
    } else {
        let rest = s.skip(1);
        let m = lemma_first_word(rest);
        assert forall|i: int| 0 <= i < m + 1 implies !is_white(#[trigger] s[i]) by {
            if i > 0 {
                assert(!is_white(rest[i - 1]));
            }
        }
        if m < rest.len() {
            assert(rest[m] == s[m + 1]);
        }
        m + 1
    }
}

/// Texts are put together in order, with nothing between them and nothing left
/// out; joined, with what is put between each two and nowhere else.
pub proof fn texts_are_put_together_in_order(
    before: Seq<Seq<char>>,
    part: Seq<char>,
    after: Seq<Seq<char>>,
    sep: Seq<char>,
)
    ensures
        concat(before + seq![part] + after) == concat(before) + part + concat(after),
        concat(Seq::empty()).len() == 0,
        join(seq![part], sep) == part,
        after.len() > 0 ==> join(seq![part] + after, sep) == part + sep + join(after, sep),
        before.len() > 0 ==> join(before + seq![part], sep) == join(before, sep) + sep + part,
    decreases after.len(),
{
    let all = before + seq![part] + after;
    let none = Seq::<Seq<char>>::empty();
    if after.len() == 0 {
        assert(all.drop_last() =~= before);
        assert(concat(all) =~= concat(before) + part + concat(after));
    } else {
        texts_are_put_together_in_order(before, part, after.drop_last(), sep);
        assert(all.drop_last() =~= before + seq![part] + after.drop_last());
        assert(all.last() == after.last());
        assert(concat(all) =~= concat(before) + part + concat(after));
        assert((seq![part] + after).skip(1) =~= after);
    }
    assert(before + seq![part] =~= before.push(part));
    if before.len() > 0 {
        lemma_join_push(before, sep, part);
    }
}

/// What a text starts with is taken off, and only where the text starts with it.
pub proof fn what_a_text_starts_with_is_taken_off(s: Seq<char>, pat: Seq<char>, rest: Seq<char>)
    ensures
        strip_prefix(pat + rest, pat) == Some(rest),
        strip_prefix(s, pat) matches Some(left) ==> s == pat + left,
        strip_prefix(s, pat) is None ==> forall|left: Seq<char>| s != #[trigger] (pat + left),
{
    assert((pat + rest).take(pat.len() as int) =~= pat);
    assert((pat + rest).skip(pat.len() as int) =~= rest);
    if let Some(left) = strip_prefix(s, pat) {
        assert(s =~= pat + left);
    } else {
        assert forall|left: Seq<char>| s != #[trigger] (pat + left) by {
            if s == pat + left {
                assert(s.take(pat.len() as int) =~= pat);
            }
        }
    }
}

/// Taking a text from the start takes it as often as it stands there, and
/// nothing else: put in front once more it is taken once more, and what does not
/// start with it stays.
pub proof fn a_text_is_taken_from_the_start_as_often_as_it_stands_there(
    s: Seq<char>,
    pat: Seq<char>,
)
    requires
        pat.len() > 0,
    ensures
        trim_start_text(pat + s, pat) == trim_start_text(s, pat),
        !pat.is_prefix_of(s) ==> trim_start_text(s, pat) == s,
        !pat.is_prefix_of(trim_start_text(s, pat)),
    decreases s.len(),
{
    let more = pat + s;
    assert(more.take(pat.len() as int) =~= pat);
    assert(more.skip(pat.len() as int) =~= s);
    if pat.is_prefix_of(s) {
        a_text_is_taken_from_the_start_as_often_as_it_stands_there(s.skip(pat.len() as int), pat);
    }
}

} // verus!
