//! What the wizard says back.
use vstd::prelude::*;
use vstd::string::*;

use crate::text::{
    contains, cut, cut_last, first_at, holds, lemma_nothing_sought, lemma_replace_first,
    lemma_replace_past, occurs_at, pieces, replace, replaced, rsplit_once, split, split_once, texts,
};

verus! {

/// A text of a page, with what stands for a character in markup read as that
/// character.
pub open spec fn plain_text(said: Seq<char>) -> Seq<char> {
    replace(
        replace(
            replace(
                replace(replace(said, "&lt;"@, "<"@), "&gt;"@, ">"@),
                "&quot;"@,
                "\""@,
            ),
            "&#39;"@,
            "'"@,
        ),
        "&amp;"@,
        "&"@,
    )
}

/// A text of a page, as it reads.
pub fn unescape(said: &str) -> (out: String)
    ensures
        out@ == plain_text(said@),
{
    proof {
        reveal_strlit("&lt;");
        reveal_strlit("&gt;");
        reveal_strlit("&quot;");
        reveal_strlit("&#39;");
        reveal_strlit("&amp;");
    }
    let out = replaced(said, "&lt;", "<");
    let out = replaced(out.as_str(), "&gt;", ">");
    let out = replaced(out.as_str(), "&quot;", "\"");
    let out = replaced(out.as_str(), "&#39;", "'");
    replaced(out.as_str(), "&amp;", "&")
}

/// The character that has so many before it in the order in which they are read
/// from markup.
pub open spec fn marked(n: int) -> char {
    if n == 0 {
        '<'
    } else if n == 1 {
        '>'
    } else if n == 2 {
        '"'
    } else if n == 3 {
        '\''
    } else {
        '&'
    }
}

/// What stands for that character in markup.
pub open spec fn mark(n: int) -> Seq<char> {
    if n == 0 {
        "&lt;"@
    } else if n == 1 {
        "&gt;"@
    } else if n == 2 {
        "&quot;"@
    } else if n == 3 {
        "&#39;"@
    } else {
        "&amp;"@
    }
}

/// A character as markup has it, from which the first so many are read already.
pub open spec fn still_marked(c: char, from: int) -> Seq<char> {
    if from <= 0 && c == '<' {
        mark(0)
    } else if from <= 1 && c == '>' {
        mark(1)
    } else if from <= 2 && c == '"' {
        mark(2)
    } else if from <= 3 && c == '\'' {
        mark(3)
    } else if from <= 4 && c == '&' {
        mark(4)
    } else {
        seq![c]
    }
}

/// A text as markup has it, from which the first so many are read already.
pub open spec fn partly_marked(s: Seq<char>, from: int) -> Seq<char>
    decreases s.len(),
{
    if s.len() == 0 {
        Seq::empty()
    } else {
        still_marked(s[0], from) + partly_marked(s.skip(1), from)
    }
}

/// A text as markup has it: each `&`, `<`, `>`, `"` and `'` in it as what stands
/// for it, and the rest as it is.
pub open spec fn in_markup(s: Seq<char>) -> Seq<char> {
    partly_marked(s, 0)
}

proof fn lemma_marks()
    ensures
        mark(0) == seq!['&', 'l', 't', ';'],
        mark(1) == seq!['&', 'g', 't', ';'],
        mark(2) == seq!['&', 'q', 'u', 'o', 't', ';'],
        mark(3) == seq!['&', '#', '3', '9', ';'],
        mark(4) == seq!['&', 'a', 'm', 'p', ';'],
{
    reveal_strlit("&lt;");
    reveal_strlit("&gt;");
    reveal_strlit("&quot;");
    reveal_strlit("&#39;");
    reveal_strlit("&amp;");
    assert(mark(0) =~= seq!['&', 'l', 't', ';']);
    assert(mark(1) =~= seq!['&', 'g', 't', ';']);
    assert(mark(2) =~= seq!['&', 'q', 'u', 'o', 't', ';']);
    assert(mark(3) =~= seq!['&', '#', '3', '9', ';']);
    assert(mark(4) =~= seq!['&', 'a', 'm', 'p', ';']);
}

/// Reading one of the five from what is still marked leaves what is marked but
/// for that one.
proof fn lemma_one_read(s: Seq<char>, n: int)
    requires
        0 <= n <= 4,
    ensures
        replace(partly_marked(s, n), mark(n), seq![marked(n)]) == partly_marked(s, n + 1),
    decreases s.len(),
{
    lemma_marks();
    let whole = partly_marked(s, n);
    let pat = mark(n);
    let to = seq![marked(n)];
    if s.len() == 0 {
        if holds(whole, pat) {
            let j = choose|j: int| occurs_at(whole, pat, j);
            assert(whole.len() >= pat.len());
        }
        lemma_nothing_sought(whole, pat, to);
    } else {
        let first = still_marked(s[0], n);
        let rest = partly_marked(s.skip(1), n);
        lemma_one_read(s.skip(1), n);
        assert(whole == first + rest);
        if s[0] == marked(n) {
            assert(first == pat);
            assert(whole.subrange(0, pat.len() as int) =~= pat);
            assert(occurs_at(whole, pat, 0));
            assert(first_at(whole, pat, 0));
            lemma_replace_first(whole, pat, to, 0);
            assert(whole.take(0) =~= Seq::<char>::empty());
            assert(whole.skip(pat.len() as int) =~= rest);
            assert(replace(whole, pat, to) =~= partly_marked(s, n + 1));
        } else {
            assert forall|j: int| 0 <= j < first.len() implies !#[trigger] occurs_at(
                first + rest,
                pat,
                j,
            ) by {
                if occurs_at(whole, pat, j) {
                    let found = whole.subrange(j, j + pat.len());
                    assert(found[0] == '&' && found[0] == first[j]);
                    assert(j == 0);
                    assert(first.len() > 1);
                    assert(found[1] == first[1]);
                    assert(found[1] == pat[1]);
                }
            }
            lemma_replace_past(first, rest, pat, to);
            assert(still_marked(s[0], n + 1) == first);
        }
    }
}

proof fn lemma_all_read(s: Seq<char>)
    ensures
        partly_marked(s, 5) == s,
    decreases s.len(),
{
    if s.len() > 0 {
        lemma_all_read(s.skip(1));
        assert(seq![s[0]] + s.skip(1) =~= s);
    } else {
        assert(partly_marked(s, 5) =~= s);
    }
}

/// Reading a text from markup undoes putting it there, by one level: what stood
/// for a character in the text itself stands for it still.
pub proof fn what_is_put_in_markup_reads_as_it_was(s: Seq<char>)
    ensures
        plain_text(in_markup(s)) == s,
{
    reveal_strlit("<");
    reveal_strlit(">");
    reveal_strlit("\"");
    reveal_strlit("'");
    reveal_strlit("&");
    assert("<"@ =~= seq![marked(0)]);
    assert(">"@ =~= seq![marked(1)]);
    assert("\""@ =~= seq![marked(2)]);
    assert("'"@ =~= seq![marked(3)]);
    assert("&"@ =~= seq![marked(4)]);
    lemma_one_read(s, 0);
    lemma_one_read(s, 1);
    lemma_one_read(s, 2);
    lemma_one_read(s, 3);
    lemma_one_read(s, 4);
    lemma_all_read(s);
}

/// What is before the first `pat`, or all of it.
pub open spec fn up_to(s: Seq<char>, pat: Seq<char>) -> Seq<char> {
    match split_once(s, pat) {
        Some((head, _)) => head,
        None => s,
    }
}

/// What is before the first `pat`, or all of it.
pub fn head(s: &str, pat: &str) -> (out: String)
    ensures
        out@ == up_to(s@, pat@),
{
    match cut(s, pat) {
        Some((head, _)) => head,
        None => s.to_owned(),
    }
}

/// The wizard's findings, as it lists them: what each item holds.
pub open spec fn items(page: Seq<char>) -> Seq<Seq<char>> {
    let parts = split(page, "<li>"@).skip(1);
    Seq::new(parts.len(), |i: int| plain_text(up_to(parts[i], "</li>"@)))
}

/// The wizard's findings, as it lists them.
pub fn findings(page: &str) -> (found: Vec<String>)
    ensures
        texts(found@) == items(page@),
{
    proof {
        reveal_strlit("<li>");
    }
    let parts = pieces(page, "<li>");
    let ghost all = items(page@);
    proof {
        crate::text::lemma_split_some(page@, "<li>"@);
    }
    let mut found: Vec<String> = Vec::new();
    let mut i: usize = 1;
    while i < parts.len()
        invariant
            1 <= i <= parts@.len(),
            texts(parts@) == split(page@, "<li>"@),
            all == items(page@),
            texts(found@) =~= all.take(i - 1),
        decreases parts@.len() - i,
    {
        let ghost before = texts(found@);
        let finding = unescape(head(parts[i].as_str(), "</li>").as_str());
        assert(texts(parts@).skip(1)[i - 1] == parts@[i as int]@);
        assert(finding@ == all[i - 1]);
        found.push(finding);
        assert(texts(found@) =~= before.push(all[i - 1]));
        i += 1;
    }
    assert(all.take(all.len() as int) =~= all);
    found
}

/// Whether the answers passed, by the class the wizard marks it with.
pub fn passes(page: &str) -> (r: bool)
    ensures
        r == holds(page@, "class=\"passed\""@),
{
    contains(page, "class=\"passed\"")
}

/// Whether this is the page that asks for a code, which is what the wizard
/// answers with when a session has gone.
pub fn wants_a_code(page: &str) -> (r: bool)
    ensures
        r == holds(page@, "first-run/claim"@),
{
    contains(page, "first-run/claim")
}

/// The first code on a page after it speaks of the first administrator's.
pub open spec fn code_on(page: Seq<char>) -> Option<Seq<char>> {
    match split_once(page, "Your first administrator's code"@) {
        None => None,
        Some((_, rest)) => match split_once(rest, "<code>"@) {
            None => None,
            Some((_, rest)) => match split_once(rest, "</code>"@) {
                None => None,
                Some((code, _)) => Some(plain_text(code)),
            },
        },
    }
}

/// The first administrator's code, shown once.
pub fn first_admin_code(page: &str) -> (r: Option<String>)
    ensures
        match r {
            Some(code) => code_on(page@) == Some(code@),
            None => code_on(page@) is None,
        },
{
    let (_, rest) = match cut(page, "Your first administrator's code") {
        Some(parts) => parts,
        None => {
            return None;
        },
    };
    let (_, rest) = match cut(rest.as_str(), "<code>") {
        Some(parts) => parts,
        None => {
            return None;
        },
    };
    match cut(rest.as_str(), "</code>") {
        Some((code, _)) => Some(unescape(code.as_str())),
        None => None,
    }
}

/// Who administers a deployment, by the paragraph that says so: the words from
/// the paragraph's start, with the emphasis taken off.
pub open spec fn administrator_on(page: Seq<char>) -> Option<Seq<char>> {
    match split_once(page, " administers this deployment"@) {
        None => None,
        Some((before, _)) => match rsplit_once(before, "<p>"@) {
            None => None,
            Some((_, who)) => Some(
                plain_text(replace(replace(who, "<strong>"@, ""@), "</strong>"@, ""@))
                    + " administers this deployment"@,
            ),
        },
    }
}

/// Who administers the deployment, as the page that the wizard answers with
/// says it once it is done, and nothing where the page does not say it.
pub fn administrator(page: &str) -> (r: Option<String>)
    ensures
        match r {
            Some(said) => administrator_on(page@) == Some(said@),
            None => administrator_on(page@) is None,
        },
{
    let (before, _) = match cut(page, " administers this deployment") {
        Some(parts) => parts,
        None => {
            return None;
        },
    };
    let (_, who) = match cut_last(before.as_str(), "<p>") {
        Some(parts) => parts,
        None => {
            return None;
        },
    };
    proof {
        reveal_strlit("<strong>");
        reveal_strlit("</strong>");
    }
    let who = replaced(replaced(who.as_str(), "<strong>", "").as_str(), "</strong>", "");
    let mut said = unescape(who.as_str());
    said.append(" administers this deployment");
    Some(said)
}

/// What the wizard said in refusing, with its markup taken off, after when it
/// was said.
pub open spec fn refused_on(page: Seq<char>, when: Seq<char>) -> Seq<char> {
    let parts = split(page, "class=\"refusal\">"@);
    let said = if parts.len() > 1 {
        up_to(parts[1], "<"@)
    } else {
        Seq::empty()
    };
    if said.len() == 0 {
        when
    } else {
        when + ": "@ + said
    }
}

/// What the wizard said in refusing, with its markup taken off.
pub fn refusal(page: &str, when: &str) -> (out: String)
    ensures
        out@ == refused_on(page@, when@),
{
    proof {
        reveal_strlit("class=\"refusal\">");
    }
    let parts = pieces(page, "class=\"refusal\">");
    let mut out = when.to_owned();
    if parts.len() > 1 {
        assert(texts(parts@)[1] == parts@[1]@);
        let said = head(parts[1].as_str(), "<");
        if said.as_str().unicode_len() > 0 {
            out.append(": ");
            out.append(said.as_str());
        }
    }
    out
}

// ── What a page says is what was put on it ───────────────────────────────────

proof fn lemma_no_tag(s: Seq<char>, from: int)
    requires
        0 <= from <= 4,
    ensures
        from == 0 ==> forall|i: int|
            0 <= i < partly_marked(s, from).len() ==> #[trigger] partly_marked(s, from)[i] != '<',
    decreases s.len(),
{
    if s.len() > 0 && from == 0 {
        lemma_no_tag(s.skip(1), from);
        lemma_marks();
        let first = still_marked(s[0], from);
        let rest = partly_marked(s.skip(1), from);
        assert forall|i: int| 0 <= i < first.len() implies first[i] != '<' by {}
        assert forall|i: int| 0 <= i < partly_marked(s, from).len() implies #[trigger] partly_marked(
            s,
            from,
        )[i] != '<' by {
            if i < first.len() {
                assert(partly_marked(s, from)[i] == first[i]);
            } else {
                assert(partly_marked(s, from)[i] == rest[i - first.len()]);
            }
        }
    }
}

/// A text that holds no `<` starts nothing that starts with one.
proof fn lemma_starts_no_tag(a: Seq<char>, rest: Seq<char>, pat: Seq<char>)
    requires
        pat.len() > 0,
        pat[0] == '<',
        forall|i: int| 0 <= i < a.len() ==> #[trigger] a[i] != '<',
    ensures
        forall|j: int| 0 <= j < a.len() ==> !#[trigger] occurs_at(a + rest, pat, j),
{
    let whole = a + rest;
    assert forall|j: int| 0 <= j < a.len() implies !#[trigger] occurs_at(whole, pat, j) by {
        if occurs_at(whole, pat, j) {
            assert(whole.subrange(j, j + pat.len())[0] == pat[0]);
            assert(whole[j] == a[j]);
        }
    }
}

/// Every item that a page lists is a finding, in order, as it reads: whatever
/// text is put into the first item of a page is the first finding, and the
/// findings of the rest of the page follow it.
pub proof fn every_item_that_a_page_lists_is_a_finding(
    before: Seq<char>,
    said: Seq<char>,
    after: Seq<char>,
)
    requires
        first_at(
            before + "<li>"@ + (in_markup(said) + ("</li>"@ + after)),
            "<li>"@,
            before.len() as int,
        ),
    ensures
        items(before + "<li>"@ + (in_markup(said) + ("</li>"@ + after))) == seq![said] + items(
            after,
        ),
{
    reveal_strlit("<li>");
    reveal_strlit("</li>");
    let open = "<li>"@;
    let close = "</li>"@;
    let m = in_markup(said);
    lemma_no_tag(said, 0);
    let rest = m + (close + after);
    let page = before + open + rest;
    crate::text::lemma_split_first(before, open, rest);
    lemma_starts_no_tag(m, close + after, open);
    crate::text::lemma_split_past(m, close + after, open);
    assert forall|j: int| 0 <= j < close.len() implies !#[trigger] occurs_at(
        close + after,
        open,
        j,
    ) by {
        if occurs_at(close + after, open, j) {
            assert((close + after).subrange(j, j + 4)[0] == open[0]);
            assert((close + after).subrange(j, j + 4)[1] == open[1]);
            assert((close + after)[j] == close[j]);
            assert(j == 0);
            assert((close + after)[1] == close[1]);
        }
    }
    crate::text::lemma_split_past(close, after, open);
    crate::text::lemma_split_some(after, open);
    let tail = split(after, open);
    let piece = m + (close + tail[0]);
    assert(split(rest, open) =~= seq![piece] + tail.skip(1));
    assert(split(page, open).skip(1) =~= seq![piece] + tail.skip(1));
    lemma_starts_no_tag(m, close + tail[0], close);
    assert(m + close + tail[0] =~= piece);
    assert(piece.subrange(m.len() as int, m.len() + close.len() as int) =~= close);
    assert(first_at(piece, close, m.len() as int));
    crate::text::lemma_split_first(m, close, tail[0]);
    assert(up_to(piece, close) == m);
    what_is_put_in_markup_reads_as_it_was(said);
    assert(items(page) =~= seq![said] + items(after));
}

/// A page without an item lists nothing.
pub proof fn a_page_without_an_item_lists_nothing(page: Seq<char>)
    requires
        !holds(page, "<li>"@),
    ensures
        items(page).len() == 0,
{
    lemma_nothing_sought(page, "<li>"@, page);
}

/// What the wizard said in refusing is said behind when it was said, where it
/// said anything, up to the tag that follows it.
pub proof fn what_the_wizard_said_in_refusing_is_said(
    before: Seq<char>,
    said: Seq<char>,
    after: Seq<char>,
    when: Seq<char>,
    other: Seq<char>,
)
    requires
        !said.contains('<'),
        said.len() > 0,
        first_at(
            before + "class=\"refusal\">"@ + (said + seq!['<'] + after),
            "class=\"refusal\">"@,
            before.len() as int,
        ),
        !holds(said + seq!['<'] + after, "class=\"refusal\">"@),
        !holds(other, "class=\"refusal\">"@),
    ensures
        refused_on(before + "class=\"refusal\">"@ + (said + seq!['<'] + after), when) == when
            + ": "@ + said,
        refused_on(other, when) == when,
{
    reveal_strlit("class=\"refusal\">");
    reveal_strlit("<");
    assert("<"@ =~= seq!['<']);
    let mark = "class=\"refusal\">"@;
    let rest = said + seq!['<'] + after;
    crate::text::lemma_split_first(before, mark, rest);
    lemma_nothing_sought(rest, mark, rest);
    lemma_nothing_sought(other, mark, other);
    crate::text::a_text_is_cut_where_it_was_put_together(said, '<', after);
    assert(split(before + mark + rest, mark) =~= seq![before, rest]);
}

/// Who administers the deployment is the person that the page emphasises where
/// it says so, whatever the person is called.
pub proof fn the_administrator_is_the_one_the_page_names(
    before: Seq<char>,
    who: Seq<char>,
    after: Seq<char>,
)
    requires
        first_at(
            before + "<p>"@ + ("<strong>"@ + in_markup(who) + "</strong>"@)
                + " administers this deployment"@ + after,
            " administers this deployment"@,
            (before + "<p>"@ + ("<strong>"@ + in_markup(who) + "</strong>"@)).len() as int,
        ),
    ensures
        administrator_on(
            before + "<p>"@ + ("<strong>"@ + in_markup(who) + "</strong>"@)
                + " administers this deployment"@ + after,
        ) == Some(who + " administers this deployment"@),
{
    reveal_strlit(" administers this deployment");
    let m = in_markup(who);
    let bold = "<strong>"@ + m + "</strong>"@;
    lemma_no_tag(who, 0);
    crate::text::lemma_split_first(
        before + "<p>"@ + bold,
        " administers this deployment"@,
        after,
    );
    lemma_last_paragraph(before, m);
    lemma_emphasis_opened(m);
    lemma_emphasis_closed(m);
    what_is_put_in_markup_reads_as_it_was(who);
}

/// The emphasis that is opened is taken off.
proof fn lemma_emphasis_opened(m: Seq<char>)
    requires
        forall|i: int| 0 <= i < m.len() ==> #[trigger] m[i] != '<',
    ensures
        replace("<strong>"@ + m + "</strong>"@, "<strong>"@, ""@) == m + "</strong>"@,
{
    reveal_strlit("<strong>");
    reveal_strlit("</strong>");
    reveal_strlit("");
    let open = "<strong>"@;
    let close = "</strong>"@;
    let none = ""@;
    let bold = open + m + close;
    assert(none =~= Seq::<char>::empty());
    assert(bold.subrange(0, 8) =~= open);
    assert(occurs_at(bold, open, 0));
    assert(first_at(bold, open, 0));
    lemma_replace_first(bold, open, none, 0);
    assert(bold.skip(8) =~= m + close);
    assert(bold.take(0) =~= Seq::<char>::empty());
    lemma_starts_no_tag(m, close, open);
    lemma_replace_past(m, close, open, none);
    assert(!holds(close, open)) by {
        if holds(close, open) {
            let j = choose|j: int| #[trigger] occurs_at(close, open, j);
            assert(close.subrange(j, j + 8)[1] == open[1]);
            assert(j == 0 || j == 1);
            assert(close.subrange(j, j + 8)[0] == open[0]);
        }
    }
    lemma_nothing_sought(close, open, none);
    assert(replace(bold, open, none) =~= m + close);
}

/// The emphasis that is closed is taken off.
proof fn lemma_emphasis_closed(m: Seq<char>)
    requires
        forall|i: int| 0 <= i < m.len() ==> #[trigger] m[i] != '<',
    ensures
        replace(m + "</strong>"@, "</strong>"@, ""@) == m,
{
    reveal_strlit("</strong>");
    reveal_strlit("");
    let close = "</strong>"@;
    let none = ""@;
    let empty = Seq::<char>::empty();
    assert(none =~= empty);
    lemma_starts_no_tag(m, close, close);
    lemma_replace_past(m, close, close, none);
    assert(close.subrange(0, 9) =~= close);
    assert(occurs_at(close, close, 0));
    assert(first_at(close, close, 0));
    lemma_replace_first(close, close, none, 0);
    assert(close.skip(9) =~= empty);
    assert(close.take(0) =~= empty);
    assert(!holds(empty, close)) by {
        if holds(empty, close) {
            let j = choose|j: int| #[trigger] occurs_at(empty, close, j);
        }
    }
    lemma_nothing_sought(empty, close, none);
    assert(replace(close, close, none) =~= empty);
    assert(replace(m + close, close, none) =~= m);
}

proof fn lemma_last_paragraph(before: Seq<char>, m: Seq<char>)
    requires
        forall|i: int| 0 <= i < m.len() ==> #[trigger] m[i] != '<',
    ensures
        rsplit_once(before + "<p>"@ + ("<strong>"@ + m + "</strong>"@), "<p>"@) == Some(
            (before, "<strong>"@ + m + "</strong>"@),
        ),
{
    reveal_strlit("<p>");
    reveal_strlit("<strong>");
    reveal_strlit("</strong>");
    let pat = "<p>"@;
    let bold = "<strong>"@ + m + "</strong>"@;
    let whole = before + pat + bold;
    let n = before.len() as int;
    assert(whole.subrange(n, n + 3) =~= pat);
    assert forall|j: int| n < j implies !#[trigger] occurs_at(whole, pat, j) by {
        if occurs_at(whole, pat, j) {
            assert(whole.subrange(j, j + 3)[0] == '<');
            assert(whole.subrange(j, j + 3)[1] == 'p');
            assert(whole[j] == '<' && whole[j + 1] == 'p');
            if j < n + 3 {
                assert(whole[j] == pat[j - n]);
            } else {
                let k = j - n - 3;
                assert(whole[j] == bold[k] && whole[j + 1] == bold[k + 1]);
                if k < 8 {
                    assert(bold[k] == "<strong>"@[k]);
                    assert(k == 0);
                    assert(bold[1] == "<strong>"@[1]);
                } else if k < 8 + m.len() {
                    assert(bold[k] == m[k - 8]);
                } else {
                    let i = k - 8 - m.len();
                    assert(bold[k] == "</strong>"@[i]);
                    assert(i == 0);
                    assert(bold[k + 1] == "</strong>"@[1]);
                }
            }
        }
    }
    assert(crate::text::last_at(whole, pat, n));
    crate::text::lemma_last_is(whole, pat, n);
    assert(whole.take(n) =~= before);
    assert(whole.skip(n + 3) =~= bold);
}

/// The first administrator's code is the first code on the page behind the words
/// that speak of it, as it reads.
pub proof fn the_first_code_behind_the_words_is_the_code(
    before: Seq<char>,
    between: Seq<char>,
    code: Seq<char>,
    after: Seq<char>,
)
    requires
        first_at(
            before + "Your first administrator's code"@ + (between + "<code>"@ + (in_markup(code)
                + "</code>"@ + after)),
            "Your first administrator's code"@,
            before.len() as int,
        ),
        first_at(
            between + "<code>"@ + (in_markup(code) + "</code>"@ + after),
            "<code>"@,
            between.len() as int,
        ),
    ensures
        code_on(
            before + "Your first administrator's code"@ + (between + "<code>"@ + (in_markup(code)
                + "</code>"@ + after)),
        ) == Some(code),
{
    reveal_strlit("Your first administrator's code");
    reveal_strlit("<code>");
    reveal_strlit("</code>");
    let m = in_markup(code);
    let close = "</code>"@;
    let rest = m + close + after;
    crate::text::lemma_split_first(
        before,
        "Your first administrator's code"@,
        between + "<code>"@ + rest,
    );
    crate::text::lemma_split_first(between, "<code>"@, rest);
    lemma_no_tag(code, 0);
    assert(rest =~= m + (close + after));
    lemma_starts_no_tag(m, close + after, close);
    assert(rest.subrange(m.len() as int, m.len() + close.len() as int) =~= close);
    assert(first_at(rest, close, m.len() as int));
    crate::text::lemma_split_first(m, close, after);
    what_is_put_in_markup_reads_as_it_was(code);
}

} // verus!
