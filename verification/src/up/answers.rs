//! The wizard's answers: read from a file, held to the wizard's own form, and
//! put together as a form post carries them.
use vstd::prelude::*;
use vstd::string::*;
use vstd::utf8::encode_utf8;

use crate::connect::{a_form_carries_what_was_put_in_it, form_read, form_text};
use crate::order::{as_map, ascending, lemma_as_map, names_of, pairs, Names, Table};
use crate::percent::{
    carried, encoded, encoded_text, encoding_carries_nothing_else, encoding_reads_back, unescaped,
};
use crate::text::{
    characters, contains, cut, holds, joined, lemma_each_one, lemma_holds_char, lemma_nothing_sought,
    lemma_replace_each, lemma_split_around, lemma_split_some, part, pieces, replace, replaced, same,
    split, split_once, texts,
};
use crate::up::page::{head, up_to};
use crate::yaml::{entries, from_yaml, string_in, yaml_read, Document, Written};

verus! {

// ── Where a credential comes from ────────────────────────────────────────────

/// A text in upper case.
pub uninterp spec fn uppercase(s: Seq<char>) -> Seq<char>;

/// An ASCII character in upper case.
pub open spec fn ascii_upper(c: char) -> char {
    if 'a' <= c <= 'z' {
        ((c as u32 - 32) as u32) as char
    } else {
        c
    }
}

/// `str::to_uppercase`: the text in upper case. An ASCII text keeps its length,
/// and of its characters only the letters from `a` to `z` change, each to the
/// capital it is the small letter of.
#[verifier::external_body]
fn upper_of(s: &str) -> (out: String)
    ensures
        out@ == uppercase(s@),
        (forall|i: int| 0 <= i < s@.len() ==> #[trigger] s@[i] <= '\u{7f}') ==> out@ == Seq::new(
            s@.len(),
            |i: int| ascii_upper(s@[i]),
        ),
{
    s.to_uppercase()
}

/// Where a credential comes from instead of the file.
pub open spec fn variable_of(field: Seq<char>) -> Seq<char> {
    "MERIDIAN_"@ + replace(uppercase(field), "-"@, "_"@)
}

/// Where a credential comes from, whose field's name is ASCII: the name in
/// capitals, with hyphens as underscores.
pub open spec fn ascii_variable(field: Seq<char>) -> Seq<char> {
    "MERIDIAN_"@ + Seq::new(
        field.len(),
        |i: int|
            if field[i] == '-' {
                '_'
            } else {
                ascii_upper(field[i])
            },
    )
}

/// Where a credential comes from instead of the file.
pub fn variable(field: &str) -> (out: String)
    ensures
        out@ == variable_of(field@),
        (forall|i: int| 0 <= i < field@.len() ==> #[trigger] field@[i] <= '\u{7f}') ==> out@
            == ascii_variable(field@),
{
    let upper = upper_of(field);
    proof {
        reveal_strlit("-");
        reveal_strlit("_");
        assert("-"@ =~= seq!['-']);
        assert("_"@ =~= seq!['_']);
        lemma_replace_each(upper@, '-', seq!['_']);
        lemma_each_one(upper@, '-', '_');
        if forall|i: int| 0 <= i < field@.len() ==> #[trigger] field@[i] <= '\u{7f}' {
            assert("MERIDIAN_"@ + replace(upper@, "-"@, "_"@) =~= ascii_variable(field@));
        }
    }
    variable_in(upper.as_str())
}

/// The variable is called `MERIDIAN_` and then by the field's name, character for
/// character: in capitals, an underscore where there was a hyphen. Of an ASCII
/// name that is so of each of its own characters.
pub proof fn a_variable_is_called_by_its_fields_name(field: Seq<char>)
    ensures
        variable_of(field).take(9) == seq!['M', 'E', 'R', 'I', 'D', 'I', 'A', 'N', '_'],
        variable_of(field).len() == 9 + uppercase(field).len(),
        forall|i: int|
            0 <= i < uppercase(field).len() ==> (#[trigger] variable_of(field)[9 + i]) == if uppercase(
                field,
            )[i] == '-' {
                '_'
            } else {
                uppercase(field)[i]
            },
        ascii_variable(field).take(9) == seq!['M', 'E', 'R', 'I', 'D', 'I', 'A', 'N', '_'],
        ascii_variable(field).len() == 9 + field.len(),
        forall|i: int|
            0 <= i < field.len() ==> (#[trigger] ascii_variable(field)[9 + i]) == if field[i] == '-' {
                '_'
            } else if 'a' <= field[i] <= 'z' {
                (field[i] as int - 'a' as int + 'A' as int) as char
            } else {
                field[i]
            },
{
    reveal_strlit("MERIDIAN_");
    reveal_strlit("-");
    reveal_strlit("_");
    assert("-"@ =~= seq!['-']);
    assert("_"@ =~= seq!['_']);
    lemma_replace_each(uppercase(field), '-', seq!['_']);
    lemma_each_one(uppercase(field), '-', '_');
    assert(variable_of(field).take(9) =~= "MERIDIAN_"@);
    assert(ascii_variable(field).take(9) =~= "MERIDIAN_"@);
    assert forall|i: int| 0 <= i < uppercase(field).len() implies (#[trigger] variable_of(field)[9
        + i]) == if uppercase(field)[i] == '-' {
        '_'
    } else {
        uppercase(field)[i]
    } by {
        let each_one = replace(uppercase(field), "-"@, "_"@);
        assert(variable_of(field)[9 + i] == each_one[i]);
    }
}

/// Where a credential comes from, given its field's name in upper case.
pub fn variable_in(upper: &str) -> (out: String)
    ensures
        out@ == "MERIDIAN_"@ + replace(upper@, "-"@, "_"@),
{
    proof {
        reveal_strlit("-");
    }
    let mut out = "MERIDIAN_".to_owned();
    out.append(replaced(upper, "-", "_").as_str());
    out
}

// ── The file ─────────────────────────────────────────────────────────────────

/// A name that says it is a credential's, which a params file may not hold.
///
/// The wizard's own form is the authority on which fields are credentials. This
/// is the refusal that happens first, so a file with a password in it is
/// refused on a machine that has never reached a cluster.
pub open spec fn sounds_secret(name: Seq<char>) -> bool {
    holds(name, "password"@) || holds(name, "secret"@) || holds(name, "token"@) || holds(
        name,
        "passphrase"@,
    )
}

/// The field and the answer that an entry of a params file is, or why it is
/// refused.
pub open spec fn answer_in(entry: (Written, Written)) -> Result<
    (Seq<char>, Seq<char>),
    Seq<char>,
> {
    match string_in(entry.0) {
        None => Err("every field in a params file is named by a string"@),
        Some(name) => if sounds_secret(name) {
            Err(
                "`"@ + name
                    + "` holds a credential, and a params file is a file that gets committed. Leave it out and put it in "@
                    + variable_of(name) + ", which this reads (spec/the-cli, requirement 10)."@,
            )
        } else {
            match entry.1 {
                Written::Text(said) => Ok((name, said)),
                Written::Number(number) => Ok((name, number)),
                Written::Flag(yes) => Ok(
                    (
                        name,
                        if yes {
                            "true"@
                        } else {
                            "false"@
                        },
                    ),
                ),
                _ => Err(
                    "`"@ + name
                        + "` answers with something that is not a scalar. The wizard's form is flat: every field is one answer."@,
                ),
            }
        },
    }
}

/// The answers in a params file's entries, or why the first that is refused is
/// refused.
pub open spec fn gathered(all: Seq<(Written, Written)>) -> Result<
    Map<Seq<char>, Seq<char>>,
    Seq<char>,
>
    decreases all.len(),
{
    if all.len() == 0 {
        Ok(Map::empty())
    } else {
        match gathered(all.drop_last()) {
            Err(why) => Err(why),
            Ok(answers) => match answer_in(all.last()) {
                Err(why) => Err(why),
                Ok((name, answer)) => Ok(answers.insert(name, answer)),
            },
        }
    }
}

/// The answers in a document.
///
/// Scalars only: the wizard's form is flat, and a nested document would be
/// answering a shape it does not have.
pub open spec fn params_in(written: Written) -> Result<Map<Seq<char>, Seq<char>>, Seq<char>> {
    match written {
        Written::Mapping(all) => gathered(all),
        _ => Err(
            "a params file is one flat mapping of the wizard's fields to answers"@,
        ),
    }
}

/// The answers in a params file.
pub open spec fn params_of(text: Seq<char>) -> Result<Map<Seq<char>, Seq<char>>, Seq<char>> {
    match yaml_read(text) {
        Ok(written) => params_in(written),
        Err(failed) => Err("that params file is not YAML: "@ + failed),
    }
}

/// What reading answers came to.
pub open spec fn table_read(r: Result<Table, String>) -> Result<
    Map<Seq<char>, Seq<char>>,
    Seq<char>,
> {
    match r {
        Ok(table) => Ok(table@),
        Err(why) => Err(why@),
    }
}

fn secret_by_name(name: &str) -> (r: bool)
    ensures
        r == sounds_secret(name@),
{
    contains(name, "password") || contains(name, "secret") || contains(name, "token") || contains(
        name,
        "passphrase",
    )
}

fn answer_of(name: &Document, answer: &Document) -> (r: Result<(String, String), String>)
    ensures
        match r {
            Ok((field, said)) => answer_in((name@, answer@)) == Ok::<
                (Seq<char>, Seq<char>),
                Seq<char>,
            >((field@, said@)),
            Err(why) => answer_in((name@, answer@)) == Err::<(Seq<char>, Seq<char>), Seq<char>>(
                why@,
            ),
        },
{
    let name = match name.string() {
        Some(name) => name,
        None => {
            return Err("every field in a params file is named by a string".to_owned());
        },
    };
    if secret_by_name(name.as_str()) {
        let mut why = "`".to_owned();
        why.append(name.as_str());
        why.append(
            "` holds a credential, and a params file is a file that gets committed. Leave it out and put it in ",
        );
        why.append(variable(name.as_str()).as_str());
        why.append(", which this reads (spec/the-cli, requirement 10).");
        return Err(why);
    }
    match answer {
        Document::Text(said) => Ok((name.clone(), said.clone())),
        Document::Number(number) => Ok((name.clone(), number.clone())),
        Document::Flag(yes) => {
            if *yes {
                Ok((name.clone(), "true".to_owned()))
            } else {
                Ok((name.clone(), "false".to_owned()))
            }
        },
        _ => {
            let mut why = "`".to_owned();
            why.append(name.as_str());
            why.append(
                "` answers with something that is not a scalar. The wizard's form is flat: every field is one answer.",
            );
            Err(why)
        },
    }
}

proof fn lemma_gathered_stops(all: Seq<(Written, Written)>, n: int)
    requires
        0 <= n <= all.len(),
        gathered(all.take(n)) is Err,
    ensures
        gathered(all) == gathered(all.take(n)),
    decreases all.len() - n,
{
    if n < all.len() {
        assert(all.take(n + 1).drop_last() =~= all.take(n));
        lemma_gathered_stops(all, n + 1);
    } else {
        assert(all.take(n) =~= all);
    }
}

/// The answers in a params file, given the document it is.
pub fn params_from_document(document: &Document) -> (r: Result<Table, String>)
    ensures
        table_read(r) == params_in(document@),
{
    let list = match document {
        Document::Mapping(list) => list,
        _ => {
            return Err(
                "a params file is one flat mapping of the wizard's fields to answers".to_owned(),
            );
        },
    };
    let ghost all = entries(list@);
    assert(document@ == Written::Mapping(all)) by {
        assert(crate::yaml::written(*document)->Mapping_0 =~= all);
    }
    let mut params = Table::new();
    let mut i: usize = 0;
    assert(all.take(0) =~= Seq::<(Written, Written)>::empty());
    while i < list.len()
        invariant
            i <= list@.len(),
            all == entries(list@),
            document@ == Written::Mapping(all),
            gathered(all.take(i as int)) == Ok::<Map<Seq<char>, Seq<char>>, Seq<char>>(params@),
        decreases list@.len() - i,
    {
        assert(all.take(i + 1).drop_last() =~= all.take(i as int));
        assert(all.take(i + 1).last() == all[i as int]);
        match answer_of(&list[i].0, &list[i].1) {
            Ok((name, answer)) => {
                params.insert(name, answer);
            },
            Err(why) => {
                proof {
                    assert(answer_in(all[i as int]) == Err::<(Seq<char>, Seq<char>), Seq<char>>(
                        why@,
                    ));
                    lemma_gathered_stops(all, i + 1);
                }
                return Err(why);
            },
        }
        i += 1;
    }
    assert(all.take(i as int) =~= all);
    Ok(params)
}

/// The answers, read from the file.
pub fn params_from(text: &str) -> (r: Result<Table, String>)
    ensures
        table_read(r) == params_of(text@),
{
    match from_yaml(text) {
        Ok(document) => params_from_document(&document),
        Err(failed) => {
            let mut why = "that params file is not YAML: ".to_owned();
            why.append(failed.as_str());
            Err(why)
        },
    }
}

proof fn lemma_no_secret(all: Seq<(Written, Written)>)
    ensures
        gathered(all) matches Ok(answers) ==> forall|name: Seq<char>| #[trigger]
            answers.dom().contains(name) ==> !sounds_secret(name),
    decreases all.len(),
{
    if all.len() > 0 {
        lemma_no_secret(all.drop_last());
    }
}

/// The file holds no credential: no field that an accepted params file names
/// sounds like one.
pub proof fn an_accepted_file_holds_no_credential(text: Seq<char>)
    ensures
        params_of(text) matches Ok(answers) ==> forall|name: Seq<char>| #[trigger]
            answers.dom().contains(name) ==> !sounds_secret(name),
{
    if let Ok(Written::Mapping(all)) = yaml_read(text) {
        lemma_no_secret(all);
    }
}

/// A name sounds like a credential's exactly where one of the four words stands
/// in it, wherever it stands.
pub proof fn four_words_sound_like_a_credential(before: Seq<char>, after: Seq<char>, name: Seq<char>)
    ensures
        sounds_secret(before + "password"@ + after),
        sounds_secret(before + "secret"@ + after),
        sounds_secret(before + "token"@ + after),
        sounds_secret(before + "passphrase"@ + after),
        sounds_secret(name) ==> holds(name, "password"@) || holds(name, "secret"@) || holds(
            name,
            "token"@,
        ) || holds(name, "passphrase"@),
{
    lemma_stands(before, "password"@, after);
    lemma_stands(before, "secret"@, after);
    lemma_stands(before, "token"@, after);
    lemma_stands(before, "passphrase"@, after);
}

proof fn lemma_stands(before: Seq<char>, word: Seq<char>, after: Seq<char>)
    ensures
        holds(before + word + after, word),
{
    let whole = before + word + after;
    let n = before.len() as int;
    assert(whole.subrange(n, n + word.len()) =~= word);
    assert(crate::text::occurs_at(whole, word, n));
}

/// An entry of a params file that is accepted: named by a string that does not
/// sound like a credential's, and answering with one scalar.
pub open spec fn acceptable(entry: (Written, Written)) -> bool {
    (string_in(entry.0) matches Some(name) && !sounds_secret(name)) && (entry.1 is Text
        || entry.1 is Number || entry.1 is Flag)
}

/// An answer says what a part of the file says: a text or a number as it is
/// written, and a boolean by its own word and by no other.
pub open spec fn says_the_same(answer: Seq<char>, part: Written) -> bool {
    match part {
        Written::Text(said) => answer == said,
        Written::Number(number) => answer == number,
        Written::Flag(yes) => (answer == "true"@ <==> yes) && (answer == "false"@ <==> !yes),
        _ => false,
    }
}

/// The last entry by its name stands there.
pub open spec fn last_by_name(all: Seq<(Written, Written)>, i: int) -> bool {
    0 <= i < all.len() && forall|j: int|
        i < j < all.len() ==> string_in((#[trigger] all[j]).0) != string_in(all[i].0)
}

/// Every field that a params file answers is answered with what the file says,
/// and nothing else is answered; and a file is accepted exactly where every one
/// of its entries is.
pub proof fn an_answer_says_what_the_file_says(text: Seq<char>, all: Seq<(Written, Written)>)
    ensures
        yaml_read(text) == Ok::<Written, Seq<char>>(Written::Mapping(all)) ==> {
            &&& params_of(text) is Ok <==> forall|i: int|
                0 <= i < all.len() ==> acceptable(#[trigger] all[i])
            &&& params_of(text) matches Ok(answers) ==> {
                &&& forall|i: int| #[trigger]
                    last_by_name(all, i) ==> string_in(all[i].0) is Some && answers.dom().contains(
                        string_in(all[i].0)->0,
                    ) && says_the_same(answers[string_in(all[i].0)->0], all[i].1)
                &&& forall|name: Seq<char>| #[trigger]
                    answers.dom().contains(name) ==> exists|i: int| #[trigger]
                        last_by_name(all, i) && string_in(all[i].0) == Some(name)
            }
        },
        !(yaml_read(text) matches Ok(Written::Mapping(_))) ==> params_of(text) is Err,
{
    lemma_gathered_says(all);
}

/// What is refused of a file is its first entry that is not accepted, and a
/// credential's refusal names it and the variable that it belongs in.
pub proof fn the_first_entry_that_is_refused_is_named(
    before: Seq<(Written, Written)>,
    entry: (Written, Written),
    after: Seq<(Written, Written)>,
)
    requires
        forall|i: int| 0 <= i < before.len() ==> acceptable(#[trigger] before[i]),
        !acceptable(entry),
    ensures
        gathered(before + seq![entry] + after) matches Err(why) && match string_in(entry.0) {
            None => why == "every field in a params file is named by a string"@,
            Some(name) => if sounds_secret(name) {
                exists|a: Seq<char>, b: Seq<char>|
                    why == #[trigger] ("`"@ + name + a + variable_of(name) + b)
            } else {
                ("`"@ + name).is_prefix_of(why)
            },
        },
{
    let all = before + seq![entry] + after;
    lemma_gathered_says(before);
    let n = before.len() as int;
    let some = all.take(n + 1);
    assert(some.drop_last() =~= before);
    assert(some.last() == entry);
    lemma_gathered_stops(all, n + 1);
    let why = gathered(all)->Err_0;
    if let Some(name) = string_in(entry.0) {
        if sounds_secret(name) {
            let a =
                "` holds a credential, and a params file is a file that gets committed. Leave it out and put it in "@;
            let b = ", which this reads (spec/the-cli, requirement 10)."@;
            assert(why == "`"@ + name + a + variable_of(name) + b);
        } else {
            assert(why.take(("`"@ + name).len() as int) =~= "`"@ + name);
        }
    }
}

proof fn lemma_gathered_says(all: Seq<(Written, Written)>)
    ensures
        gathered(all) is Ok <==> forall|i: int| 0 <= i < all.len() ==> acceptable(#[trigger] all[i]),
        gathered(all) matches Ok(answers) ==> {
            &&& forall|i: int| #[trigger]
                last_by_name(all, i) ==> string_in(all[i].0) is Some && answers.dom().contains(
                    string_in(all[i].0)->0,
                ) && says_the_same(answers[string_in(all[i].0)->0], all[i].1)
            &&& forall|name: Seq<char>| #[trigger]
                answers.dom().contains(name) ==> exists|i: int| #[trigger]
                    last_by_name(all, i) && string_in(all[i].0) == Some(name)
        },
    decreases all.len(),
{
    reveal_strlit("true");
    reveal_strlit("false");
    assert("true"@.len() == 4 && "false"@.len() == 5);
    if all.len() > 0 {
        let fewer = all.drop_last();
        let n = fewer.len() as int;
        lemma_gathered_says(fewer);
        assert(all[n] == all.last());
        assert forall|i: int| 0 <= i < n implies #[trigger] all[i] == fewer[i] by {}
        if forall|i: int| 0 <= i < n ==> acceptable(#[trigger] fewer[i]) {
            if acceptable(all[n]) {
                assert forall|i: int| 0 <= i < all.len() implies acceptable(#[trigger] all[i]) by {
                    if i < n {
                        assert(acceptable(fewer[i]));
                    }
                }
            }
        } else {
            let k = choose|k: int| 0 <= k < n && !acceptable(#[trigger] fewer[k]);
            assert(!acceptable(all[k]));
        }
        if let Ok(answers) = gathered(all) {
            let name = string_in(all[n].0)->0;
            assert(last_by_name(all, n));
            assert forall|i: int| #[trigger] last_by_name(all, i) implies string_in(all[i].0) is Some
                && answers.dom().contains(string_in(all[i].0)->0) && says_the_same(
                answers[string_in(all[i].0)->0],
                all[i].1,
            ) by {
                if i < n {
                    assert(string_in(all[n].0) != string_in(all[i].0));
                    assert(last_by_name(fewer, i)) by {
                        assert forall|j: int| i < j < n implies string_in((#[trigger] fewer[j]).0)
                            != string_in(fewer[i].0) by {
                            assert(string_in(all[j].0) != string_in(all[i].0));
                        }
                    }
                }
            }
            assert forall|other: Seq<char>| #[trigger] answers.dom().contains(other) implies exists|
                i: int,
            | #[trigger] last_by_name(all, i) && string_in(all[i].0) == Some(other) by {
                if other != name {
                    let i = choose|i: int| #[trigger]
                        last_by_name(fewer, i) && string_in(fewer[i].0) == Some(other);
                    assert(last_by_name(all, i)) by {
                        assert forall|j: int| i < j < all.len() implies string_in(
                            (#[trigger] all[j]).0,
                        ) != string_in(all[i].0) by {
                            if j < n {
                                assert(string_in(fewer[j].0) != string_in(fewer[i].0));
                            }
                        }
                    }
                }
            }
        }
    }
}

// ── The form ─────────────────────────────────────────────────────────────────

/// The end of an element's name in a tag.
pub open spec fn ends_element(c: char) -> bool {
    c == ' ' || c == '\t' || c == '\n'
}

/// What a tag is called.
pub open spec fn element(tag: Seq<char>) -> Seq<char>
    decreases tag.len(),
{
    if tag.len() == 0 || ends_element(tag[0]) {
        Seq::empty()
    } else {
        seq![tag[0]] + element(tag.skip(1))
    }
}

/// What an attribute of a tag is given as.
pub open spec fn attribute_of(tag: Seq<char>, name: Seq<char>) -> Option<Seq<char>> {
    match split_once(tag, name + "=\""@) {
        None => None,
        Some((_, rest)) => match split_once(rest, "\""@) {
            None => None,
            Some((value, _)) => Some(value),
        },
    }
}

/// The field that the tag at the start of a piece of a page asks for.
pub open spec fn field_asked(piece: Seq<char>) -> Option<Seq<char>> {
    let tag = up_to(piece, ">"@);
    let called = element(tag);
    if called == "input"@ || called == "select"@ || called == "textarea"@ {
        attribute_of(tag, "name"@)
    } else {
        None
    }
}

/// That tag asks for a password.
pub open spec fn asks_a_password(piece: Seq<char>) -> bool {
    attribute_of(up_to(piece, ">"@), "type"@) == Some("password"@)
}

/// The fields that the tags at the starts of pieces ask for; those that are
/// asked for as passwords, or all of them.
pub open spec fn asked(parts: Seq<Seq<char>>, passwords: bool) -> Set<Seq<char>>
    decreases parts.len(),
{
    if parts.len() == 0 {
        Set::empty()
    } else {
        let rest = asked(parts.drop_last(), passwords);
        match field_asked(parts.last()) {
            Some(name) => if !passwords || asks_a_password(parts.last()) {
                rest.insert(name)
            } else {
                rest
            },
            None => rest,
        }
    }
}

/// The pieces of a page that start with a tag.
pub open spec fn tags(page: Seq<char>) -> Seq<Seq<char>> {
    split(page, "<"@).skip(1)
}

fn element_of(tag: &str) -> (out: String)
    ensures
        out@ == element(tag@),
{
    let whole = characters(tag);
    let n: usize = whole.len();
    let mut i: usize = 0;
    assert(whole@.skip(0) =~= whole@);
    assert(element(whole@) =~= whole@.take(0) + element(whole@.skip(0)));
    while i < n && !(whole[i] == ' ' || whole[i] == '\t' || whole[i] == '\n')
        invariant
            i <= n,
            n == whole@.len(),
            element(whole@) == whole@.take(i as int) + element(whole@.skip(i as int)),
        decreases n - i,
    {
        let ghost rest = whole@.skip(i as int);
        assert(rest.skip(1) =~= whole@.skip(i + 1));
        assert(whole@.take(i as int) + element(rest) =~= whole@.take(i + 1) + element(
            rest.skip(1),
        ));
        i += 1;
    }
    assert(element(whole@.skip(i as int)) =~= Seq::<char>::empty());
    assert(element(whole@) =~= whole@.take(i as int));
    let out = part(&whole, 0, i);
    assert(out@ =~= whole@.take(i as int));
    out
}

/// What an attribute of a tag is given as.
pub fn attribute(tag: &str, name: &str) -> (r: Option<String>)
    ensures
        match r {
            Some(value) => attribute_of(tag@, name@) == Some(value@),
            None => attribute_of(tag@, name@) is None,
        },
{
    let mut sought = name.to_owned();
    sought.append("=\"");
    match cut(tag, sought.as_str()) {
        None => None,
        Some((_, rest)) => match cut(rest.as_str(), "\"") {
            None => None,
            Some((value, _)) => Some(value),
        },
    }
}

fn asked_by(piece: &str) -> (r: Option<(String, bool)>)
    ensures
        match r {
            Some((name, password)) => field_asked(piece@) == Some(name@) && password
                == asks_a_password(piece@),
            None => field_asked(piece@) is None,
        },
{
    let tag = head(piece, ">");
    let called = element_of(tag.as_str());
    if !(same(called.as_str(), "input") || same(called.as_str(), "select") || same(
        called.as_str(),
        "textarea",
    )) {
        return None;
    }
    match attribute(tag.as_str(), "name") {
        None => None,
        Some(name) => {
            let password = match attribute(tag.as_str(), "type") {
                Some(kind) => same(kind.as_str(), "password"),
                None => false,
            };
            Some((name, password))
        },
    }
}

/// What the wizard's own page asks for: every field, and which of them are
/// credentials.
///
/// Read from the page rather than from a list kept here, which would be a
/// second statement of the form.
pub fn asked_for(page: &str) -> (r: (Names, Names))
    ensures
        r.0.in_order().to_set() == asked(tags(page@), false),
        ascending(r.0.in_order()),
        r.1.in_order().to_set() == asked(tags(page@), true),
        ascending(r.1.in_order()),
{
    proof {
        reveal_strlit("<");
        lemma_split_some(page@, "<"@);
    }
    let parts = pieces(page, "<");
    let ghost all = tags(page@);
    let mut fields = Names::new();
    let mut credentials = Names::new();
    assert(fields.in_order().to_set() =~= Set::<Seq<char>>::empty());
    assert(credentials.in_order().to_set() =~= Set::<Seq<char>>::empty());
    let mut i: usize = 1;
    while i < parts.len()
        invariant
            1 <= i <= parts@.len(),
            texts(parts@) == split(page@, "<"@),
            all == tags(page@),
            ascending(fields.in_order()),
            ascending(credentials.in_order()),
            fields.in_order().to_set() == asked(all.take(i - 1), false),
            credentials.in_order().to_set() == asked(all.take(i - 1), true),
        decreases parts@.len() - i,
    {
        assert(all.take(i as int).drop_last() =~= all.take(i - 1));
        assert(all[i - 1] == parts@[i as int]@);
        assert(all.take(i as int).last() == parts@[i as int]@);
        if let Some((name, password)) = asked_by(parts[i].as_str()) {
            if password {
                credentials.insert(name.clone());
            }
            fields.insert(name);
        }
        i += 1;
    }
    assert(all.take(i - 1) =~= all);
    (fields, credentials)
}

/// Every credential that a page asks for is a field that it asks for.
pub proof fn a_credential_is_a_field(page: Seq<char>)
    ensures
        asked(tags(page), true).subset_of(asked(tags(page), false)),
{
    lemma_a_credential_is_a_field(tags(page));
}

proof fn lemma_a_credential_is_a_field(parts: Seq<Seq<char>>)
    ensures
        asked(parts, true).subset_of(asked(parts, false)),
    decreases parts.len(),
{
    if parts.len() > 0 {
        lemma_a_credential_is_a_field(parts.drop_last());
    }
}

proof fn lemma_asked_together(a: Seq<Seq<char>>, b: Seq<Seq<char>>, passwords: bool)
    ensures
        asked(a + b, passwords) == asked(a, passwords).union(asked(b, passwords)),
    decreases b.len(),
{
    if b.len() == 0 {
        assert(a + b =~= a);
    } else {
        lemma_asked_together(a, b.drop_last(), passwords);
        assert((a + b).drop_last() =~= a + b.drop_last());
        assert((a + b).last() == b.last());
    }
    assert(asked(a + b, passwords) =~= asked(a, passwords).union(asked(b, passwords)));
}

/// Two pages together ask for what either asks for, and for the same of it as
/// credentials: no field is lost, or becomes a credential, by what else a page
/// holds. The second starts with a tag.
pub proof fn pages_together_ask_for_what_either_asks_for(one: Seq<char>, other: Seq<char>)
    requires
        other.len() > 0,
        other[0] == '<',
    ensures
        asked(tags(one + other), false) == asked(tags(one), false).union(
            asked(tags(other), false),
        ),
        asked(tags(one + other), true) == asked(tags(one), true).union(asked(tags(other), true)),
{
    reveal_strlit("<");
    assert("<"@ =~= seq!['<']);
    let rest = other.skip(1);
    let none = Seq::<char>::empty();
    assert(one + other =~= one + seq!['<'] + rest);
    assert(other =~= none + seq!['<'] + rest);
    lemma_split_around(one, '<', rest);
    lemma_split_around(none, '<', rest);
    lemma_split_some(one, "<"@);
    lemma_holds_char(none, '<');
    lemma_nothing_sought(none, "<"@, none);
    assert(tags(other) =~= split(rest, "<"@));
    assert(tags(one + other) =~= tags(one) + tags(other));
    lemma_asked_together(tags(one), tags(other), false);
    lemma_asked_together(tags(one), tags(other), true);
}

proof fn lemma_element(kind: Seq<char>, rest: Seq<char>)
    requires
        forall|i: int| 0 <= i < kind.len() ==> !ends_element(#[trigger] kind[i]),
        rest.len() > 0 ==> ends_element(rest[0]),
    ensures
        element(kind + rest) == kind,
    decreases kind.len(),
{
    let whole = kind + rest;
    if kind.len() == 0 {
        assert(whole =~= rest);
        assert(element(whole) =~= kind);
    } else {
        let fewer = kind.skip(1);
        assert forall|i: int| 0 <= i < fewer.len() implies !ends_element(#[trigger] fewer[i]) by {
            assert(!ends_element(kind[i + 1]));
        }
        lemma_element(fewer, rest);
        assert(whole.skip(1) =~= fewer + rest);
        assert(whole[0] == kind[0]);
        assert(element(whole) =~= kind);
    }
}

/// An attribute is given as what stands in the quotes behind its name, where it
/// first stands.
pub proof fn an_attribute_is_what_stands_in_its_quotes(
    before: Seq<char>,
    name: Seq<char>,
    value: Seq<char>,
    after: Seq<char>,
)
    requires
        !value.contains('"'),
        crate::text::first_at(
            before + (name + "=\""@) + value + seq!['"'] + after,
            name + "=\""@,
            before.len() as int,
        ),
    ensures
        attribute_of(before + (name + "=\""@) + value + seq!['"'] + after, name) == Some(value),
{
    reveal_strlit("\"");
    assert("\""@ =~= seq!['"']);
    let pat = name + "=\""@;
    let tag = before + pat + value + seq!['"'] + after;
    crate::text::lemma_find_is(tag, pat, before.len() as int);
    assert(tag.skip((before.len() + pat.len()) as int) =~= value + seq!['"'] + after);
    crate::text::a_text_is_cut_where_it_was_put_together(value, '"', after);
}

/// A tag asks for the field that it names, if it is one that a person answers
/// in, and it is a credential exactly where its type is a password; no other tag
/// asks for anything. What the page asks for is what its tags ask for.
pub proof fn a_tag_asks_for_the_field_it_names(
    kind: Seq<char>,
    blank: char,
    attributes: Seq<char>,
    rest: Seq<char>,
    parts: Seq<Seq<char>>,
)
    requires
        !kind.contains('>'),
        !attributes.contains('>'),
        forall|i: int|
            0 <= i < kind.len() ==> #[trigger] kind[i] != ' ' && kind[i] != '\t' && kind[i] != '\n',
        blank == ' ' || blank == '\t' || blank == '\n',
    ensures
        ({
            let tag = kind + (seq![blank] + attributes);
            let piece = tag + seq!['>'] + rest;
            let answers = kind == "input"@ || kind == "select"@ || kind == "textarea"@;
            let field = attribute_of(tag, "name"@);
            &&& field_asked(piece) == if answers {
                field
            } else {
                None
            }
            &&& asks_a_password(piece) <==> attribute_of(tag, "type"@) == Some("password"@)
            &&& answers && field is Some ==> asked(parts + seq![piece], false) == asked(
                parts,
                false,
            ).insert(field->0)
            &&& !answers || field is None ==> asked(parts + seq![piece], false) == asked(
                parts,
                false,
            )
            &&& answers && field is Some && attribute_of(tag, "type"@) == Some("password"@)
                ==> asked(parts + seq![piece], true) == asked(parts, true).insert(field->0)
            &&& !answers || field is None || attribute_of(tag, "type"@) != Some("password"@)
                ==> asked(parts + seq![piece], true) == asked(parts, true)
            &&& asked(Seq::empty(), false) == Set::<Seq<char>>::empty()
        }),
{
    reveal_strlit(">");
    assert(">"@ =~= seq!['>']);
    let tag = kind + (seq![blank] + attributes);
    let piece = tag + seq!['>'] + rest;
    assert(!tag.contains('>')) by {
        if tag.contains('>') {
            let k = choose|k: int| 0 <= k < tag.len() && tag[k] == '>';
            if k < kind.len() {
                assert(kind[k] == '>');
            } else if k > kind.len() {
                assert(attributes[k - kind.len() - 1] == '>');
            }
        }
    }
    crate::text::a_text_is_cut_where_it_was_put_together(tag, '>', rest);
    assert(up_to(piece, ">"@) == tag);
    lemma_element(kind, seq![blank] + attributes);
    assert(element(tag) == kind);
    let more = parts + seq![piece];
    assert(more.drop_last() =~= parts);
    assert(more.last() == piece);
}

// ── The answers to post ──────────────────────────────────────────────────────

/// The first field whose name holds this name, or is held by it.
pub open spec fn near(fields: Seq<Seq<char>>, name: Seq<char>) -> Option<Seq<char>>
    decreases fields.len(),
{
    if fields.len() == 0 {
        None
    } else if holds(fields[0], name) || holds(name, fields[0]) {
        Some(fields[0])
    } else {
        near(fields.skip(1), name)
    }
}

/// The field that is offered for a name that the form does not ask for is one of
/// the form's, and the first of them whose name holds that name or is held by
/// it; and none is offered only where there is none.
pub proof fn a_field_that_is_offered_is_like_the_name(fields: Seq<Seq<char>>, name: Seq<char>)
    ensures
        match near(fields, name) {
            Some(field) => exists|i: int|
                0 <= i < fields.len() && #[trigger] fields[i] == field && (holds(field, name)
                    || holds(name, field)) && forall|j: int|
                    0 <= j < i ==> !holds(#[trigger] fields[j], name) && !holds(name, fields[j]),
            None => forall|j: int|
                0 <= j < fields.len() ==> !holds(#[trigger] fields[j], name) && !holds(
                    name,
                    fields[j],
                ),
        },
    decreases fields.len(),
{
    if fields.len() > 0 {
        let rest = fields.skip(1);
        if holds(fields[0], name) || holds(name, fields[0]) {
            assert(near(fields, name) == Some(fields[0]));
        } else {
            a_field_that_is_offered_is_like_the_name(rest, name);
            match near(fields, name) {
                Some(field) => {
                    let k = choose|k: int|
                        0 <= k < rest.len() && #[trigger] rest[k] == field && (holds(field, name)
                            || holds(name, field)) && forall|j: int|
                            0 <= j < k ==> !holds(#[trigger] rest[j], name) && !holds(name, rest[j]);
                    assert(fields[k + 1] == field);
                    assert forall|j: int| 0 <= j < k + 1 implies !holds(#[trigger] fields[j], name)
                        && !holds(name, fields[j]) by {
                        if j > 0 {
                            assert(!holds(rest[j - 1], name));
                        }
                    }
                },
                None => {
                    assert forall|j: int| 0 <= j < fields.len() implies !holds(
                        #[trigger] fields[j],
                        name,
                    ) && !holds(name, fields[j]) by {
                        if j > 0 {
                            assert(!holds(rest[j - 1], name));
                        }
                    }
                },
            }
        }
    }
}

/// Why an answer is refused, if it is.
pub open spec fn refused(name: Seq<char>, fields: Seq<Seq<char>>, credentials: Seq<Seq<char>>) -> Option<
    Seq<char>,
> {
    if credentials.contains(name) {
        Some(
            "`"@ + name + "` is a credential: the wizard asks for it as a password. Put it in "@
                + variable_of(name) + " instead."@,
        )
    } else if fields.contains(name) {
        None
    } else {
        match near(fields, name) {
            Some(field) => Some(
                "this wizard does not ask for `"@ + name + "`. Did you mean `"@ + field + "`?"@,
            ),
            None => Some("this wizard does not ask for `"@ + name + "`."@),
        }
    }
}

/// Why answers are refused, in order.
pub open spec fn refusals(
    params: Seq<(Seq<char>, Seq<char>)>,
    fields: Seq<Seq<char>>,
    credentials: Seq<Seq<char>>,
) -> Seq<Seq<char>>
    decreases params.len(),
{
    if params.len() == 0 {
        Seq::empty()
    } else {
        let rest = refusals(params.drop_last(), fields, credentials);
        match refused(params.last().0, fields, credentials) {
            Some(why) => rest.push(why),
            None => rest,
        }
    }
}

/// An answer is accepted exactly where the form asks for its field and does not
/// ask for it as a password; a credential's refusal names the variable to put it
/// in, and any other refusal the field that is meant, if there is one like it.
pub proof fn an_answer_is_accepted_where_the_form_asks_for_it(
    name: Seq<char>,
    fields: Seq<Seq<char>>,
    credentials: Seq<Seq<char>>,
)
    ensures
        refused(name, fields, credentials) is None <==> fields.contains(name)
            && !credentials.contains(name),
        refused(name, fields, credentials) matches Some(why) ==> if credentials.contains(name) {
            why == "`"@ + name + "` is a credential: the wizard asks for it as a password. Put it in "@
                + variable_of(name) + " instead."@
        } else {
            match near(fields, name) {
                Some(field) => why == "this wizard does not ask for `"@ + name
                    + "`. Did you mean `"@ + field + "`?"@,
                None => why == "this wizard does not ask for `"@ + name + "`."@,
            }
        },
{
}

/// Every answer that is refused is refused with its own reason, in order, and an
/// answer that is not refused adds none.
pub proof fn every_refused_answer_has_its_reason(
    before: Seq<(Seq<char>, Seq<char>)>,
    answer: (Seq<char>, Seq<char>),
    after: Seq<(Seq<char>, Seq<char>)>,
    fields: Seq<Seq<char>>,
    credentials: Seq<Seq<char>>,
)
    ensures
        refusals(Seq::empty(), fields, credentials).len() == 0,
        refusals(before + seq![answer] + after, fields, credentials) == refusals(
            before,
            fields,
            credentials,
        ) + (match refused(answer.0, fields, credentials) {
            Some(why) => seq![why],
            None => Seq::empty(),
        }) + refusals(after, fields, credentials),
    decreases after.len(),
{
    let all = before + seq![answer] + after;
    let mid = match refused(answer.0, fields, credentials) {
        Some(why) => seq![why],
        None => Seq::<Seq<char>>::empty(),
    };
    if after.len() == 0 {
        assert(all.drop_last() =~= before);
        assert(all.last() == answer);
    } else {
        every_refused_answer_has_its_reason(
            before,
            answer,
            after.drop_last(),
            fields,
            credentials,
        );
        assert(all.drop_last() =~= before + seq![answer] + after.drop_last());
        assert(all.last() == after.last());
    }
    assert(refusals(all, fields, credentials) =~= refusals(before, fields, credentials) + mid
        + refusals(after, fields, credentials));
}

/// A credential that the environment holds.
pub open spec fn supplied(
    name: Seq<char>,
    credentials: Seq<Seq<char>>,
    environment: Map<Seq<char>, Seq<char>>,
) -> bool {
    credentials.contains(name) && environment.dom().contains(variable_of(name))
}

/// The answers to post: each credential that the environment holds, from the
/// environment, and everything else that the form asks for from the file.
pub open spec fn posted(
    params: Map<Seq<char>, Seq<char>>,
    fields: Seq<Seq<char>>,
    credentials: Seq<Seq<char>>,
    environment: Map<Seq<char>, Seq<char>>,
) -> Map<Seq<char>, Seq<char>> {
    Map::new(
        |name: Seq<char>|
            supplied(name, credentials, environment) || (params.dom().contains(name) && refused(
                name,
                fields,
                credentials,
            ) is None),
        |name: Seq<char>|
            if supplied(name, credentials, environment) {
                environment[variable_of(name)]
            } else {
                params[name]
            },
    )
}

/// The answers that are taken from the file.
spec fn taken(
    params: Seq<(Seq<char>, Seq<char>)>,
    fields: Seq<Seq<char>>,
    credentials: Seq<Seq<char>>,
) -> Map<Seq<char>, Seq<char>>
    decreases params.len(),
{
    if params.len() == 0 {
        Map::empty()
    } else {
        let rest = taken(params.drop_last(), fields, credentials);
        if refused(params.last().0, fields, credentials) is None {
            rest.insert(params.last().0, params.last().1)
        } else {
            rest
        }
    }
}

/// The answers with those that the environment supplies.
spec fn completed(
    answers: Map<Seq<char>, Seq<char>>,
    credentials: Seq<Seq<char>>,
    environment: Map<Seq<char>, Seq<char>>,
) -> Map<Seq<char>, Seq<char>>
    decreases credentials.len(),
{
    if credentials.len() == 0 {
        answers
    } else {
        let rest = completed(answers, credentials.drop_last(), environment);
        let name = credentials.last();
        if environment.dom().contains(variable_of(name)) {
            rest.insert(name, environment[variable_of(name)])
        } else {
            rest
        }
    }
}

proof fn lemma_taken(
    params: Seq<(Seq<char>, Seq<char>)>,
    fields: Seq<Seq<char>>,
    credentials: Seq<Seq<char>>,
    name: Seq<char>,
)
    requires
        ascending(names_of(params)),
    ensures
        taken(params, fields, credentials).dom().contains(name) == (as_map(params).dom().contains(
            name,
        ) && refused(name, fields, credentials) is None),
        taken(params, fields, credentials).dom().contains(name) ==> taken(
            params,
            fields,
            credentials,
        )[name] == as_map(params)[name],
    decreases params.len(),
{
    if params.len() > 0 {
        let fewer = params.drop_last();
        let last = params.len() - 1;
        assert(names_of(fewer) =~= names_of(params).drop_last());
        assert(ascending(names_of(fewer))) by {
            assert forall|i: int, j: int| 0 <= i < j < names_of(fewer).len() implies crate::order::before(
                #[trigger] names_of(fewer)[i],
                #[trigger] names_of(fewer)[j],
            ) by {
                assert(names_of(fewer)[i] == names_of(params)[i]);
                assert(names_of(fewer)[j] == names_of(params)[j]);
            }
        }
        lemma_taken(fewer, fields, credentials, name);
        lemma_as_map(params, last);
        if as_map(fewer).dom().contains(name) {
            let k = choose|k: int| 0 <= k < names_of(fewer).len() && names_of(fewer)[k] == name;
            lemma_as_map(fewer, k);
            lemma_as_map(params, k);
            assert(names_of(params)[k] == name);
            crate::order::names_are_ordered(name, params[last].0);
            assert(crate::order::before(names_of(params)[k], names_of(params)[last]));
        } else if as_map(params).dom().contains(name) {
            let k = choose|k: int| 0 <= k < names_of(params).len() && names_of(params)[k] == name;
            if k < last {
                assert(names_of(fewer)[k] == name);
            }
        }
    }
}

proof fn lemma_completed(
    answers: Map<Seq<char>, Seq<char>>,
    credentials: Seq<Seq<char>>,
    environment: Map<Seq<char>, Seq<char>>,
    name: Seq<char>,
)
    ensures
        completed(answers, credentials, environment).dom().contains(name) == (supplied(
            name,
            credentials,
            environment,
        ) || answers.dom().contains(name)),
        supplied(name, credentials, environment) ==> completed(answers, credentials, environment)[name]
            == environment[variable_of(name)],
        !supplied(name, credentials, environment) ==> completed(answers, credentials, environment)[name]
            == answers[name],
    decreases credentials.len(),
{
    if credentials.len() > 0 {
        let fewer = credentials.drop_last();
        lemma_completed(answers, fewer, environment, name);
        assert(credentials.contains(name) == (fewer.contains(name) || name == credentials.last()))
            by {
            if credentials.contains(name) {
                let k = choose|k: int| 0 <= k < credentials.len() && credentials[k] == name;
                if k < fewer.len() {
                    assert(fewer[k] == name);
                }
            }
            if fewer.contains(name) {
                let k = choose|k: int| 0 <= k < fewer.len() && fewer[k] == name;
                assert(credentials[k] == name);
            }
            if name == credentials.last() {
                assert(credentials[credentials.len() - 1] == name);
            }
        }
    }
}

proof fn lemma_posted(
    params: Seq<(Seq<char>, Seq<char>)>,
    fields: Seq<Seq<char>>,
    credentials: Seq<Seq<char>>,
    environment: Map<Seq<char>, Seq<char>>,
)
    requires
        ascending(names_of(params)),
    ensures
        completed(taken(params, fields, credentials), credentials, environment) == posted(
            as_map(params),
            fields,
            credentials,
            environment,
        ),
{
    let all = completed(taken(params, fields, credentials), credentials, environment);
    let direct = posted(as_map(params), fields, credentials, environment);
    assert forall|name: Seq<char>| #[trigger] all.dom().contains(name) == direct.dom().contains(
        name,
    ) by {
        lemma_taken(params, fields, credentials, name);
        lemma_completed(taken(params, fields, credentials), credentials, environment, name);
    }
    assert forall|name: Seq<char>| all.dom().contains(name) implies #[trigger] all[name]
        == direct[name] by {
        lemma_taken(params, fields, credentials, name);
        lemma_completed(taken(params, fields, credentials), credentials, environment, name);
    }
    assert(all =~= direct);
}

fn near_to(fields: &Vec<String>, name: &str) -> (r: Option<String>)
    ensures
        match r {
            Some(field) => near(texts(fields@), name@) == Some(field@),
            None => near(texts(fields@), name@) is None,
        },
{
    let ghost all = texts(fields@);
    let mut i: usize = 0;
    assert(all.skip(0) =~= all);
    while i < fields.len()
        invariant
            i <= fields@.len(),
            all == texts(fields@),
            near(all, name@) == near(all.skip(i as int), name@),
        decreases fields@.len() - i,
    {
        if contains(fields[i].as_str(), name) || contains(name, fields[i].as_str()) {
            return Some(fields[i].clone());
        }
        assert(all.skip(i as int).skip(1) =~= all.skip(i + 1));
        i += 1;
    }
    None
}

fn refusal_of(name: &str, fields: &Names, credentials: &Names) -> (r: Option<String>)
    ensures
        match r {
            Some(why) => refused(name@, fields.in_order(), credentials.in_order()) == Some(why@),
            None => refused(name@, fields.in_order(), credentials.in_order()) is None,
        },
{
    if credentials.contains(name) {
        let mut why = "`".to_owned();
        why.append(name);
        why.append("` is a credential: the wizard asks for it as a password. Put it in ");
        why.append(variable(name).as_str());
        why.append(" instead.");
        return Some(why);
    }
    if fields.contains(name) {
        return None;
    }
    let mut why = "this wizard does not ask for `".to_owned();
    why.append(name);
    match near_to(fields.as_list(), name) {
        Some(field) => {
            why.append("`. Did you mean `");
            why.append(field.as_str());
            why.append("`?");
        },
        None => {
            why.append("`.");
        },
    }
    Some(why)
}

/// The answers to post, from the file and the environment, of which
/// `environment` is what is held there.
///
/// Refuses a field that the wizard does not ask for, because a typo in a
/// params file otherwise leaves that answer empty and the failure arrives three
/// steps later as a database that cannot be reached. A credential that the
/// environment does not hold is no refusal: choosing one way to sign in leaves
/// the others' fields empty, and the wizard's own check is what says whether an
/// answer is missing.
pub fn answers(params: &Table, fields: &Names, credentials: &Names, environment: &Table) -> (r:
    Result<Table, Vec<String>>)
    ensures
        match r {
            Ok(table) => refusals(
                params.in_order(),
                fields.in_order(),
                credentials.in_order(),
            ).len() == 0 && table@ == posted(
                params@,
                fields.in_order(),
                credentials.in_order(),
                environment@,
            ),
            Err(list) => list@.len() > 0 && texts(list@) == refusals(
                params.in_order(),
                fields.in_order(),
                credentials.in_order(),
            ),
        },
{
    let list = params.as_list();
    let ghost all = params.in_order();
    let ghost asked = fields.in_order();
    let ghost secret = credentials.in_order();
    let mut why: Vec<String> = Vec::new();
    let mut table = Table::new();
    let mut i: usize = 0;
    assert(texts(why@) =~= Seq::<Seq<char>>::empty());
    assert(all.take(0) =~= Seq::<(Seq<char>, Seq<char>)>::empty());
    while i < list.len()
        invariant
            i <= list@.len(),
            all == params.in_order(),
            pairs(list@) == all,
            asked == fields.in_order(),
            secret == credentials.in_order(),
            texts(why@) == refusals(all.take(i as int), asked, secret),
            table@ == taken(all.take(i as int), asked, secret),
        decreases list@.len() - i,
    {
        assert(all.take(i + 1).drop_last() =~= all.take(i as int));
        assert(all.take(i + 1).last() == (list@[i as int].0@, list@[i as int].1@));
        match refusal_of(list[i].0.as_str(), fields, credentials) {
            Some(refusal) => {
                let ghost before = texts(why@);
                let ghost said = refusal@;
                why.push(refusal);
                assert(texts(why@) =~= before.push(said));
            },
            None => {
                table.insert(list[i].0.clone(), list[i].1.clone());
            },
        }
        i += 1;
    }
    assert(all.take(i as int) =~= all);
    let names = credentials.as_list();
    let ghost file = table@;
    let mut k: usize = 0;
    assert(secret.take(0) =~= Seq::<Seq<char>>::empty());
    while k < names.len()
        invariant
            k <= names@.len(),
            texts(names@) == secret,
            table@ == completed(file, secret.take(k as int), environment@),
        decreases names@.len() - k,
    {
        assert(secret.take(k + 1).drop_last() =~= secret.take(k as int));
        assert(secret.take(k + 1).last() == names@[k as int]@);
        if let Some(held) = environment.get(variable(names[k].as_str()).as_str()) {
            table.insert(names[k].clone(), held.to_owned());
        }
        k += 1;
    }
    assert(secret.take(k as int) =~= secret);
    proof {
        lemma_posted(all, asked, secret, environment@);
    }
    if why.len() == 0 {
        Ok(table)
    } else {
        Err(why)
    }
}

/// The variables that credentials come from, in the order of the credentials.
pub fn variables(credentials: &Names) -> (out: Vec<String>)
    ensures
        texts(out@) == Seq::new(
            credentials.in_order().len(),
            |i: int| variable_of(credentials.in_order()[i]),
        ),
{
    let names = credentials.as_list();
    let ghost all = Seq::new(
        credentials.in_order().len(),
        |i: int| variable_of(credentials.in_order()[i]),
    );
    let mut out: Vec<String> = Vec::new();
    let mut i: usize = 0;
    while i < names.len()
        invariant
            i <= names@.len(),
            texts(names@) == credentials.in_order(),
            all == Seq::new(
                credentials.in_order().len(),
                |i: int| variable_of(credentials.in_order()[i]),
            ),
            texts(out@) =~= all.take(i as int),
        decreases names@.len() - i,
    {
        let ghost before = texts(out@);
        assert(credentials.in_order()[i as int] == names@[i as int]@);
        out.push(variable(names[i].as_str()));
        assert(texts(out@) =~= before.push(all[i as int]));
        i += 1;
    }
    assert(all.take(i as int) =~= all);
    out
}

proof fn lemma_no_refusals(
    params: Seq<(Seq<char>, Seq<char>)>,
    fields: Seq<Seq<char>>,
    credentials: Seq<Seq<char>>,
)
    requires
        refusals(params, fields, credentials).len() == 0,
    ensures
        forall|i: int|
            0 <= i < params.len() ==> refused((#[trigger] params[i]).0, fields, credentials) is None,
    decreases params.len(),
{
    if params.len() > 0 {
        lemma_no_refusals(params.drop_last(), fields, credentials);
        assert forall|i: int| 0 <= i < params.len() implies refused(
            (#[trigger] params[i]).0,
            fields,
            credentials,
        ) is None by {
            if i < params.len() - 1 {
                assert(params.drop_last()[i] == params[i]);
            }
        }
    }
}

/// Credentials come from the environment and the rest from the file: where no
/// answer is refused, every answer of the file is posted as the file gives it,
/// no credential among them, and every other answer that is posted is a
/// credential, as the environment holds it.
pub proof fn credentials_come_from_the_environment_and_the_rest_from_the_file(
    params: Seq<(Seq<char>, Seq<char>)>,
    fields: Seq<Seq<char>>,
    credentials: Seq<Seq<char>>,
    environment: Map<Seq<char>, Seq<char>>,
)
    requires
        ascending(names_of(params)),
        refusals(params, fields, credentials).len() == 0,
    ensures
        ({
            let all = posted(as_map(params), fields, credentials, environment);
            &&& forall|i: int|
                0 <= i < params.len() ==> fields.contains((#[trigger] params[i]).0)
                    && !credentials.contains(params[i].0) && all.dom().contains(params[i].0)
                    && all[params[i].0] == params[i].1
            &&& forall|name: Seq<char>| #[trigger]
                all.dom().contains(name) && !as_map(params).dom().contains(name)
                    ==> credentials.contains(name) && environment.dom().contains(variable_of(name))
                    && all[name] == environment[variable_of(name)]
        }),
{
    lemma_no_refusals(params, fields, credentials);
    let all = posted(as_map(params), fields, credentials, environment);
    assert forall|i: int| 0 <= i < params.len() implies fields.contains((#[trigger] params[i]).0)
        && !credentials.contains(params[i].0) && all.dom().contains(params[i].0)
        && all[params[i].0] == params[i].1 by {
        lemma_as_map(params, i);
        assert(refused(params[i].0, fields, credentials) is None);
    }
}

/// What is posted is what the form asks for and no more: a credential exactly
/// where the environment holds its variable, with what the variable holds; and
/// any other field exactly where the file answers it and the form asks for it,
/// with the file's answer.
pub proof fn nothing_is_posted_that_the_form_does_not_ask_for(
    params: Map<Seq<char>, Seq<char>>,
    fields: Seq<Seq<char>>,
    credentials: Seq<Seq<char>>,
    environment: Map<Seq<char>, Seq<char>>,
    name: Seq<char>,
)
    ensures
        ({
            let all = posted(params, fields, credentials, environment);
            let variable = variable_of(name);
            if credentials.contains(name) {
                (all.dom().contains(name) <==> environment.dom().contains(variable)) && (
                all.dom().contains(name) ==> all[name] == environment[variable])
            } else {
                (all.dom().contains(name) <==> params.dom().contains(name) && fields.contains(name))
                    && (all.dom().contains(name) ==> all[name] == params[name])
            }
        }),
{
}

// ── A form post ──────────────────────────────────────────────────────────────

/// The fields of a form with their names encoded.
pub open spec fn with_encoded_names(fields: Seq<(Seq<char>, Seq<char>)>) -> Seq<
    (Seq<char>, Seq<char>),
> {
    Seq::new(fields.len(), |i: int| (encoded_text(fields[i].0), fields[i].1))
}

/// The answers, as a form post carries them.
pub fn form_encoded(fields: &Table) -> (out: String)
    ensures
        out@ == form_text(with_encoded_names(fields.in_order())),
{
    let list = fields.as_list();
    let ghost all = crate::connect::form_fields(with_encoded_names(fields.in_order()));
    let mut parts: Vec<String> = Vec::new();
    let mut i: usize = 0;
    while i < list.len()
        invariant
            i <= list@.len(),
            pairs(list@) == fields.in_order(),
            all == crate::connect::form_fields(with_encoded_names(fields.in_order())),
            texts(parts@) =~= all.take(i as int),
        decreases list@.len() - i,
    {
        let ghost before = texts(parts@);
        let mut field = encoded(list[i].0.as_str());
        field.append("=");
        field.append(encoded(list[i].1.as_str()).as_str());
        assert(fields.in_order()[i as int] == (list@[i as int].0@, list@[i as int].1@));
        assert(field@ == all[i as int]);
        parts.push(field);
        assert(texts(parts@) =~= before.push(all[i as int]));
        i += 1;
    }
    assert(all.take(i as int) =~= all);
    joined(&parts, "&")
}

/// What a form post carries is what was put in it: every field, in order, its
/// name and its answer byte for byte, whatever either holds.
pub proof fn a_form_post_carries_what_was_answered(fields: Seq<(Seq<char>, Seq<char>)>)
    requires
        fields.len() > 0,
    ensures
        ({
            let read = form_read(form_text(with_encoded_names(fields)));
            read.len() == fields.len() && forall|i: int|
                0 <= i < fields.len() ==> ((#[trigger] read[i]) matches Some((name, value))
                    && unescaped(name) == encode_utf8(fields[i].0) && value == encode_utf8(
                    fields[i].1,
                ))
        }),
{
    let sent = with_encoded_names(fields);
    assert forall|i: int| 0 <= i < sent.len() implies !(#[trigger] sent[i]).0.contains('&')
        && !sent[i].0.contains('=') by {
        encoding_carries_nothing_else(encode_utf8(fields[i].0));
        let name = sent[i].0;
        if name.contains('&') {
            let k = choose|k: int| 0 <= k < name.len() && name[k] == '&';
            assert(carried(name[k]));
        }
        if name.contains('=') {
            let k = choose|k: int| 0 <= k < name.len() && name[k] == '=';
            assert(carried(name[k]));
        }
    }
    a_form_carries_what_was_put_in_it(sent);
    let read = form_read(form_text(sent));
    assert forall|i: int| 0 <= i < fields.len() implies ((#[trigger] read[i]) matches Some(
        (name, value),
    ) && unescaped(name) == encode_utf8(fields[i].0) && value == encode_utf8(fields[i].1)) by {
        encoding_reads_back(encode_utf8(fields[i].0));
    }
}

} // verus!
