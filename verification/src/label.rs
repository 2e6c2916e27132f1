//! Host labels: what a plugin, a role, a tag and an instance may be called.
use vstd::prelude::*;
use vstd::string::*;

use crate::text::{characters, contains, holds};

verus! {

/// A lower-case ASCII letter.
pub open spec fn is_lower(c: char) -> bool {
    'a' <= c <= 'z'
}

/// A character of a label.
pub open spec fn label_char(c: char) -> bool {
    is_lower(c) || '0' <= c <= '9' || c == '-'
}

/// Lower-case letters, digits and single hyphens, from one to `most` of them,
/// a letter first and no hyphen last.
pub open spec fn label(s: Seq<char>, most: nat) -> bool {
    &&& 1 <= s.len() <= most
    &&& is_lower(s[0])
    &&& s.last() != '-'
    &&& forall|i: int| 0 <= i < s.len() ==> label_char(#[trigger] s[i])
    &&& !holds(s, "--"@)
}

/// Whether a text is a label of at most so many characters.
pub fn is_label(s: &str, most: usize) -> (r: bool)
    ensures
        r == label(s@, most as nat),
{
    let whole = characters(s);
    let n: usize = whole.len();
    if n < 1 || n > most {
        return false;
    }
    if !('a' <= whole[0] && whole[0] <= 'z') || whole[n - 1] == '-' {
        return false;
    }
    let mut i: usize = 0;
    while i < n
        invariant
            i <= n == whole@.len(),
            whole@ == s@,
            forall|j: int| 0 <= j < i ==> label_char(#[trigger] whole@[j]),
        decreases n - i,
    {
        let c: char = whole[i];
        if !(('a' <= c && c <= 'z') || ('0' <= c && c <= '9') || c == '-') {
            assert(!label_char(s@[i as int]));
            return false;
        }
        i += 1;
    }
    !contains(s, "--")
}

/// Labels are built from letters and digits with single hyphens between them: a
/// letter is one; one stays one with a letter or a digit behind it, or with a
/// hyphen and then one of those, for as long as it is not too long; and none
/// starts or ends with a hyphen, starts with a digit, or is empty.
pub proof fn labels_are_letters_and_digits_with_single_hyphens_between(
    s: Seq<char>,
    c: char,
    most: nat,
)
    requires
        'a' <= c <= 'z' || '0' <= c <= '9',
    ensures
        most > 0 ==> (label(seq![c], most) <==> 'a' <= c <= 'z'),
        label(s, most) && s.len() < most ==> label(s + seq![c], most),
        label(s, most) && s.len() + 1 < most ==> label(s + seq!['-', c], most),
        !label(s + seq!['-'], most),
        !label(seq!['-'] + s, most),
        !label(s + seq!['-', '-', c], most),
        '0' <= c <= '9' ==> !label(seq![c] + s, most),
        !label(Seq::empty(), most),
        label(s, most) ==> 1 <= s.len() <= most,
{
    reveal_strlit("--");
    let two = "--"@;
    assert(two =~= seq!['-', '-']);
    assert((s + seq!['-']).last() == '-');
    assert((seq!['-'] + s)[0] == '-');
    assert((seq![c] + s)[0] == c);
    let doubled = s + seq!['-', '-', c];
    assert(doubled.subrange(s.len() as int, s.len() as int + 2) =~= two);
    assert(crate::text::occurs_at(doubled, two, s.len() as int));
    let one = seq![c];
    assert(!holds(one, two)) by {
        if holds(one, two) {
            let i = choose|i: int| #[trigger] crate::text::occurs_at(one, two, i);
        }
    }
    if label(s, most) {
        lemma_no_pair(s, seq![c]);
        lemma_no_pair(s, seq!['-', c]);
        let more = s + seq![c];
        assert forall|i: int| 0 <= i < more.len() implies label_char(#[trigger] more[i]) by {
            if i < s.len() {
                assert(more[i] == s[i]);
            }
        }
        let joined = s + seq!['-', c];
        assert forall|i: int| 0 <= i < joined.len() implies label_char(#[trigger] joined[i]) by {
            if i < s.len() {
                assert(joined[i] == s[i]);
            }
        }
    }
}

proof fn lemma_no_pair(s: Seq<char>, tail: Seq<char>)
    requires
        !holds(s, "--"@),
        s.len() > 0,
        s.last() != '-',
        0 < tail.len() <= 2,
        tail.last() != '-',
    ensures
        !holds(s + tail, "--"@),
{
    reveal_strlit("--");
    let two = "--"@;
    assert(two =~= seq!['-', '-']);
    let whole = s + tail;
    if holds(whole, two) {
        let i = choose|i: int| #[trigger] crate::text::occurs_at(whole, two, i);
        assert(whole.subrange(i, i + 2)[0] == '-');
        assert(whole.subrange(i, i + 2)[1] == '-');
        assert(whole[i] == '-' && whole[i + 1] == '-');
        if i + 1 < s.len() {
            assert(s.subrange(i, i + 2) =~= two);
            assert(crate::text::occurs_at(s, two, i));
        } else if i + 1 == s.len() {
            assert(whole[i] == s.last());
        } else {
            assert(whole.last() == '-');
        }
    }
}

/// A label holds nothing but lower-case ASCII letters, digits and hyphens.
pub proof fn a_label_holds_nothing_else(s: Seq<char>, most: nat, i: int)
    requires
        0 <= i < s.len(),
        !('a' <= s[i] <= 'z' || '0' <= s[i] <= '9' || s[i] == '-'),
    ensures
        !label(s, most),
{
}

} // verus!
