//! Documents as they were read: what JSON and TOML have in common.
use vstd::prelude::*;
use vstd::string::*;

use crate::text::{same, texts};

verus! {

/// A document, or a part of one.
#[derive(Debug)]
pub enum Tree {
    /// Nothing: JSON's null.
    Null,
    /// True or false.
    Flag(bool),
    /// A number, a date, or anything else that is none of the others, as it
    /// is written.
    Other(String),
    /// A string.
    Text(String),
    /// A list of parts.
    List(Vec<Tree>),
    /// Parts by name.
    Table(Vec<(String, Tree)>),
}

/// What a document holds.
pub enum Holding {
    Null,
    Flag(bool),
    Other(Seq<char>),
    Text(Seq<char>),
    List(Seq<Holding>),
    Table(Seq<(Seq<char>, Holding)>),
}

/// What a document holds, part by part.
pub open spec fn holding(tree: Tree) -> Holding
    decreases tree,
{
    match tree {
        Tree::Null => Holding::Null,
        Tree::Flag(yes) => Holding::Flag(yes),
        Tree::Other(said) => Holding::Other(said@),
        Tree::Text(said) => Holding::Text(said@),
        Tree::List(items) => Holding::List(
            Seq::new(
                items@.len(),
                |i: int|
                    if 0 <= i < items@.len() {
                        holding(items@[i])
                    } else {
                        Holding::Null
                    },
            ),
        ),
        Tree::Table(entries) => Holding::Table(
            Seq::new(
                entries@.len(),
                |i: int|
                    if 0 <= i < entries@.len() {
                        (entries@[i].0@, holding(entries@[i].1))
                    } else {
                        (Seq::empty(), Holding::Null)
                    },
            ),
        ),
    }
}

impl View for Tree {
    type V = Holding;

    open spec fn view(&self) -> Holding {
        holding(*self)
    }
}

/// The first part by that name among the entries.
pub open spec fn lookup(entries: Seq<(Seq<char>, Holding)>, key: Seq<char>) -> Option<Holding>
    decreases entries.len(),
{
    if entries.len() == 0 {
        None
    } else if entries[0].0 == key {
        Some(entries[0].1)
    } else {
        lookup(entries.skip(1), key)
    }
}

/// The part by that name.
pub open spec fn member(h: Holding, key: Seq<char>) -> Option<Holding> {
    match h {
        Holding::Table(entries) => lookup(entries, key),
        _ => None,
    }
}

/// The part by that name, if it is a string.
pub open spec fn text_member(h: Holding, key: Seq<char>) -> Option<Seq<char>> {
    match member(h, key) {
        Some(Holding::Text(said)) => Some(said),
        _ => None,
    }
}

/// The string by that name, or nothing where there is none.
pub open spec fn text_or_empty(h: Holding, key: Seq<char>) -> Seq<char> {
    match text_member(h, key) {
        Some(said) => said,
        None => Seq::empty(),
    }
}

/// The list by that name.
pub open spec fn list_member(h: Holding, key: Seq<char>) -> Option<Seq<Holding>> {
    match member(h, key) {
        Some(Holding::List(items)) => Some(items),
        _ => None,
    }
}

/// The list by that name, or an empty one where there is none.
pub open spec fn list_or_empty(h: Holding, key: Seq<char>) -> Seq<Holding> {
    match list_member(h, key) {
        Some(items) => items,
        None => Seq::empty(),
    }
}

/// The flag by that name, which is unset where there is none.
pub open spec fn flag_member(h: Holding, key: Seq<char>) -> bool {
    member(h, key) == Some(Holding::Flag(true))
}

/// The strings among the parts of a list, in order.
pub open spec fn strings(items: Seq<Holding>) -> Seq<Seq<char>>
    decreases items.len(),
{
    if items.len() == 0 {
        Seq::empty()
    } else {
        let before = strings(items.drop_last());
        match items.last() {
            Holding::Text(said) => before.push(said),
            _ => before,
        }
    }
}

/// What each part of a list holds.
pub open spec fn holdings(items: Seq<Tree>) -> Seq<Holding> {
    Seq::new(items.len(), |i: int| items[i]@)
}

impl Tree {
    /// The part by that name.
    pub fn get(&self, key: &str) -> (r: Option<&Tree>)
        ensures
            match r {
                Some(part) => member(self@, key@) == Some(part@),
                None => member(self@, key@) is None,
            },
    {
        if let Tree::Table(entries) = self {
            let ghost all = self@->Table_0;
            let mut i: usize = 0;
            assert(all.skip(0) =~= all);
            while i < entries.len()
                invariant
                    i <= entries@.len(),
                    self@ == Holding::Table(all),
                    all.len() == entries@.len(),
                    forall|j: int| #![auto] 0 <= j < all.len() ==> all[j] == (entries@[j].0@, entries@[j].1@),
                    lookup(all, key@) == lookup(all.skip(i as int), key@),
                decreases entries@.len() - i,
            {
                if same(entries[i].0.as_str(), key) {
                    return Some(&entries[i].1);
                }
                assert(all.skip(i as int).skip(1) =~= all.skip(i + 1));
                i += 1;
            }
            None
        } else {
            None
        }
    }

    /// The part by that name, if it is a string.
    pub fn text_at(&self, key: &str) -> (r: Option<String>)
        ensures
            match r {
                Some(said) => text_member(self@, key@) == Some(said@),
                None => text_member(self@, key@) is None,
            },
    {
        match self.get(key) {
            Some(Tree::Text(said)) => Some(said.clone()),
            _ => None,
        }
    }

    /// The string by that name, or nothing where there is none.
    pub fn text_or_nothing(&self, key: &str) -> (said: String)
        ensures
            said@ == text_or_empty(self@, key@),
    {
        match self.text_at(key) {
            Some(said) => said,
            None => String::new(),
        }
    }

    /// The list by that name.
    pub fn list_at(&self, key: &str) -> (r: Option<&Vec<Tree>>)
        ensures
            match r {
                Some(items) => list_member(self@, key@) == Some(holdings(items@)),
                None => list_member(self@, key@) is None,
            },
    {
        match self.get(key) {
            Some(Tree::List(items)) => {
                assert(holding(Tree::List(*items))->List_0 =~= holdings(items@));
                Some(items)
            },
            _ => None,
        }
    }

    /// Whether the flag by that name is set.
    pub fn flag_at(&self, key: &str) -> (yes: bool)
        ensures
            yes == flag_member(self@, key@),
    {
        match self.get(key) {
            Some(Tree::Flag(yes)) => *yes,
            _ => false,
        }
    }

    /// The strings in the list by that name, in order.
    pub fn strings_at(&self, key: &str) -> (out: Vec<String>)
        ensures
            texts(out@) == strings(list_or_empty(self@, key@)),
    {
        let mut out: Vec<String> = Vec::new();
        if let Some(items) = self.list_at(key) {
            let ghost all = holdings(items@);
            let mut i: usize = 0;
            assert(all.take(0) =~= Seq::<Holding>::empty());
            assert(texts(out@) =~= Seq::<Seq<char>>::empty());
            while i < items.len()
                invariant
                    i <= items@.len(),
                    all == holdings(items@),
                    texts(out@) == strings(all.take(i as int)),
                decreases items@.len() - i,
            {
                assert(all.take(i + 1).drop_last() =~= all.take(i as int));
                let ghost before = texts(out@);
                if let Tree::Text(said) = &items[i] {
                    out.push(said.clone());
                    assert(texts(out@) =~= before.push(said@));
                }
                i += 1;
            }
            assert(all.take(i as int) =~= all);
        } else {
            assert(texts(out@) =~= Seq::<Seq<char>>::empty());
        }
        out
    }
}

// ── What a document is asked for ─────────────────────────────────────────────

/// A part is found by its name: the part that is found stands in the document
/// under that name, with none by that name before it, and where none is found
/// nothing in the document has that name.
pub proof fn a_part_is_found_by_its_name(entries: Seq<(Seq<char>, Holding)>, key: Seq<char>)
    ensures
        match member(Holding::Table(entries), key) {
            Some(part) => exists|i: int|
                0 <= i < entries.len() && #[trigger] entries[i] == (key, part) && forall|j: int|
                    0 <= j < i ==> (#[trigger] entries[j]).0 != key,
            None => forall|i: int| 0 <= i < entries.len() ==> (#[trigger] entries[i]).0 != key,
        },
    decreases entries.len(),
{
    if entries.len() > 0 && entries[0].0 != key {
        let rest = entries.skip(1);
        a_part_is_found_by_its_name(rest, key);
        assert forall|i: int| 0 < i < entries.len() implies #[trigger] entries[i] == rest[i - 1] by {
        }
        match member(Holding::Table(entries), key) {
            Some(part) => {
                let k = choose|k: int|
                    0 <= k < rest.len() && #[trigger] rest[k] == (key, part) && forall|j: int|
                        0 <= j < k ==> (#[trigger] rest[j]).0 != key;
                assert(entries[k + 1] == (key, part));
                assert forall|j: int| 0 <= j < k + 1 implies (#[trigger] entries[j]).0 != key by {
                    if j > 0 {
                        assert(rest[j - 1].0 != key);
                    }
                }
            },
            None => {
                assert forall|i: int| 0 <= i < entries.len() implies (#[trigger] entries[i]).0
                    != key by {
                    if i > 0 {
                        assert(rest[i - 1].0 != key);
                    }
                }
            },
        }
    } else if entries.len() > 0 {
        assert(entries[0] == (key, entries[0].1));
    }
}

/// A part is read as what it is: a string as its text, a list as its items, a
/// flag as whether it is set, and nothing as anything else. What is not a table
/// has no parts by name.
pub proof fn a_part_is_read_as_what_it_is(h: Holding, key: Seq<char>)
    ensures
        member(h, key) is Some ==> h is Table,
        match member(h, key) {
            Some(Holding::Text(said)) => text_member(h, key) == Some(said) && text_or_empty(h, key)
                == said && list_member(h, key) is None && list_or_empty(h, key).len() == 0
                && !flag_member(h, key),
            Some(Holding::List(items)) => list_member(h, key) == Some(items) && list_or_empty(
                h,
                key,
            ) == items && text_member(h, key) is None && text_or_empty(h, key).len() == 0
                && !flag_member(h, key),
            Some(Holding::Flag(yes)) => flag_member(h, key) == yes && text_member(h, key) is None
                && text_or_empty(h, key).len() == 0 && list_member(h, key) is None && list_or_empty(
                h,
                key,
            ).len() == 0,
            _ => text_member(h, key) is None && text_or_empty(h, key).len() == 0 && list_member(
                h,
                key,
            ) is None && list_or_empty(h, key).len() == 0 && !flag_member(h, key),
        },
{
}

/// The strings of a list are the strings that stand in it, every one of them,
/// in order, and what is no string is passed over wherever it stands.
pub proof fn the_strings_of_a_list_are_those_in_it(
    before: Seq<Holding>,
    part: Holding,
    after: Seq<Holding>,
)
    ensures
        strings(Seq::empty()).len() == 0,
        strings(before + seq![part] + after) == strings(before) + (match part {
            Holding::Text(said) => seq![said],
            _ => Seq::empty(),
        }) + strings(after),
    decreases after.len(),
{
    let all = before + seq![part] + after;
    if after.len() == 0 {
        assert(all.drop_last() =~= before);
        assert(all.last() == part);
    } else {
        the_strings_of_a_list_are_those_in_it(before, part, after.drop_last());
        assert(all.drop_last() =~= before + seq![part] + after.drop_last());
        assert(all.last() == after.last());
    }
    assert(strings(all) =~= strings(before) + (match part {
        Holding::Text(said) => seq![said],
        _ => Seq::empty(),
    }) + strings(after));
}

/// A list of names reads as those names, in that order.
pub proof fn a_list_of_names_reads_as_those_names(names: Seq<Seq<char>>)
    ensures
        name_list(names) matches Holding::List(items) && strings(items) == names,
    decreases names.len(),
{
    let items = name_list(names)->List_0;
    if names.len() == 0 {
        assert(strings(items) =~= names);
    } else {
        a_list_of_names_reads_as_those_names(names.drop_last());
        assert(items.drop_last() =~= name_list(names.drop_last())->List_0);
        assert(strings(items) =~= names);
    }
}

/// A JSON value of serde_json's: a string, a list, members by name, and so on.
#[verifier::external_type_specification]
#[verifier::external_body]
pub struct JsonValue(serde_json::Value);

/// The parts that a value of serde_json's is a collection of.
pub uninterp spec fn json_parts(value: serde_json::Value) -> Holding;

/// What a JSON text holds as serde_json reads it, or what serde_json says of a
/// text that is not JSON.
pub uninterp spec fn json_read(text: Seq<char>) -> Result<Holding, Seq<char>>;

/// What JSON bytes hold as serde_json reads them, or what serde_json says of
/// bytes that are not JSON.
pub uninterp spec fn json_read_bytes(bytes: Seq<u8>) -> Result<Holding, Seq<char>>;

/// `serde_json::from_str`, to a value or to its error as it is written.
#[verifier::external_body]
fn json_from_str(text: &str) -> (r: Result<serde_json::Value, String>)
    ensures
        match r {
            Ok(value) => json_read(text@) == Ok::<Holding, Seq<char>>(json_parts(value)),
            Err(said) => json_read(text@) == Err::<Holding, Seq<char>>(said@),
        },
{
    serde_json::from_str::<serde_json::Value>(text).map_err(|failed| failed.to_string())
}

/// `serde_json::from_slice`, to a value or to its error as it is written.
#[verifier::external_body]
fn json_from_slice(bytes: &[u8]) -> (r: Result<serde_json::Value, String>)
    ensures
        match r {
            Ok(value) => json_read_bytes(bytes@) == Ok::<Holding, Seq<char>>(json_parts(value)),
            Err(said) => json_read_bytes(bytes@) == Err::<Holding, Seq<char>>(said@),
        },
{
    serde_json::from_slice::<serde_json::Value>(bytes).map_err(|failed| failed.to_string())
}

/// A `serde_json::Value` as a tree, part for part: `serde_json::Map::into_iter`
/// hands out an object's members, each name once.
#[verifier::external_body]
fn json_tree(value: serde_json::Value) -> (tree: Tree)
    ensures
        tree@ == json_parts(value),
{
    match value {
        serde_json::Value::Null => Tree::Null,
        serde_json::Value::Bool(yes) => Tree::Flag(yes),
        serde_json::Value::Number(number) => Tree::Other(number.to_string()),
        serde_json::Value::String(said) => Tree::Text(said),
        serde_json::Value::Array(items) => Tree::List(items.into_iter().map(json_tree).collect()),
        serde_json::Value::Object(map) => Tree::Table(
            map.into_iter().map(|(key, part)| (key, json_tree(part))).collect(),
        ),
    }
}

/// A TOML value of the toml crate's.
#[verifier::external_type_specification]
#[verifier::external_body]
pub struct TomlValue(toml::Value);

/// The parts that a value of the toml crate's is a collection of.
pub uninterp spec fn toml_parts(value: toml::Value) -> Holding;

/// What a TOML text holds as the toml crate reads it, or what that crate says
/// of a text that is not TOML.
pub uninterp spec fn toml_read(text: Seq<char>) -> Result<Holding, Seq<char>>;

/// `str::parse::<toml::Table>`, to the table or to its error as it is written.
#[verifier::external_body]
fn toml_from_str(text: &str) -> (r: Result<toml::Value, String>)
    ensures
        match r {
            Ok(value) => toml_read(text@) == Ok::<Holding, Seq<char>>(toml_parts(value)),
            Err(said) => toml_read(text@) == Err::<Holding, Seq<char>>(said@),
        },
{
    text.parse::<toml::Table>().map(toml::Value::Table).map_err(|failed| failed.to_string())
}

/// A `toml::Value` as a tree, part for part: `toml::Table`'s `into_iter` hands
/// out a table's members, each name once.
#[verifier::external_body]
fn toml_tree(value: toml::Value) -> (tree: Tree)
    ensures
        tree@ == toml_parts(value),
{
    match value {
        toml::Value::String(said) => Tree::Text(said),
        toml::Value::Integer(number) => Tree::Other(number.to_string()),
        toml::Value::Float(number) => Tree::Other(number.to_string()),
        toml::Value::Boolean(yes) => Tree::Flag(yes),
        toml::Value::Datetime(date) => Tree::Other(date.to_string()),
        toml::Value::Array(items) => Tree::List(items.into_iter().map(toml_tree).collect()),
        toml::Value::Table(table) => Tree::Table(
            table.into_iter().map(|(key, part)| (key, toml_tree(part))).collect(),
        ),
    }
}

/// What a TOML text holds, or why it could not be read.
pub fn from_toml(text: &str) -> (r: Result<Tree, String>)
    ensures
        match r {
            Ok(tree) => toml_read(text@) == Ok::<Holding, Seq<char>>(tree@),
            Err(said) => toml_read(text@) == Err::<Holding, Seq<char>>(said@),
        },
{
    match toml_from_str(text) {
        Ok(value) => Ok(toml_tree(value)),
        Err(said) => Err(said),
    }
}

/// One member of a JSON object to write.
#[derive(Debug)]
pub enum Field {
    Text(String),
    Names(Vec<String>),
    Flag(bool),
}

impl View for Field {
    type V = Holding;

    open spec fn view(&self) -> Holding {
        match self {
            Field::Text(said) => Holding::Text(said@),
            Field::Names(names) => name_list(texts(names@)),
            Field::Flag(yes) => Holding::Flag(*yes),
        }
    }
}

/// A list of strings.
pub open spec fn name_list(names: Seq<Seq<char>>) -> Holding {
    Holding::List(Seq::new(names.len(), |i: int| Holding::Text(names[i])))
}

/// The members of an object to write, in order.
pub open spec fn members(fields: Seq<(String, Field)>) -> Seq<(Seq<char>, Holding)> {
    Seq::new(fields.len(), |i: int| (fields[i].0@, fields[i].1@))
}

/// No name comes twice.
pub open spec fn named_once(fields: Seq<(Seq<char>, Holding)>) -> bool {
    forall|i: int, j: int|
        0 <= i < j < fields.len() ==> (#[trigger] fields[i]).0 != (#[trigger] fields[j]).0
}

/// How serde_json writes an object of these members.
pub uninterp spec fn json_written(fields: Seq<(Seq<char>, Holding)>) -> Seq<char>;

/// A JSON text in which every one of these members can be read.
pub open spec fn json_tells(text: Seq<char>, fields: Seq<(Seq<char>, Holding)>) -> bool {
    json_read(text) matches Ok(read) && forall|i: int|
        0 <= i < fields.len() ==> member(read, (#[trigger] fields[i]).0) == Some(fields[i].1)
}

/// `serde_json::Value::to_string` on an object of the members: the compact JSON
/// text, in which serde_json reads every member again as it was.
#[verifier::external_body]
pub(crate) fn json_object(fields: Vec<(String, Field)>) -> (out: String)
    requires
        named_once(members(fields@)),
    ensures
        out@ == json_written(members(fields@)),
        json_tells(out@, members(fields@)),
{
    let object: serde_json::Map<String, serde_json::Value> = fields.into_iter().map(|(key, field)|
        (key, match field {
            Field::Text(said) => serde_json::Value::from(said),
            Field::Names(names) => serde_json::Value::from(names),
            Field::Flag(yes) => serde_json::Value::from(yes),
        })).collect();
    serde_json::Value::Object(object).to_string()
}

/// What a JSON text holds, or why it could not be read.
pub fn from_json(text: &str) -> (r: Result<Tree, String>)
    ensures
        match r {
            Ok(tree) => json_read(text@) == Ok::<Holding, Seq<char>>(tree@),
            Err(said) => json_read(text@) == Err::<Holding, Seq<char>>(said@),
        },
{
    match json_from_str(text) {
        Ok(value) => Ok(json_tree(value)),
        Err(said) => Err(said),
    }
}

/// What JSON bytes hold, or why they could not be read.
pub fn from_json_bytes(bytes: &[u8]) -> (r: Result<Tree, String>)
    ensures
        match r {
            Ok(tree) => json_read_bytes(bytes@) == Ok::<Holding, Seq<char>>(tree@),
            Err(said) => json_read_bytes(bytes@) == Err::<Holding, Seq<char>>(said@),
        },
{
    match json_from_slice(bytes) {
        Ok(value) => Ok(json_tree(value)),
        Err(said) => Err(said),
    }
}

/// A document holds what it is: each of its parts as itself, a list's in order,
/// and a table's under their names.
pub proof fn a_document_holds_what_it_is(tree: Tree)
    ensures
        match tree {
            Tree::Null => tree@ is Null,
            Tree::Flag(yes) => tree@ == Holding::Flag(yes),
            Tree::Other(said) => tree@ == Holding::Other(said@),
            Tree::Text(said) => tree@ == Holding::Text(said@),
            Tree::List(items) => tree@ == Holding::List(holdings(items@)),
            Tree::Table(entries) => tree@ matches Holding::Table(held) && held.len()
                == entries@.len() && forall|i: int|
                0 <= i < held.len() ==> #[trigger] held[i] == (entries@[i].0@, entries@[i].1@),
        },
{
    if let Tree::List(items) = tree {
        assert(holding(tree)->List_0 =~= holdings(items@));
    }
}

} // verus!
