//! A YAML document, as it was read.
use vstd::prelude::*;

verus! {

/// A document, or a part of one.
#[derive(Debug)]
pub enum Document {
    Null,
    Flag(bool),
    /// A number, as it is written.
    Number(String),
    Text(String),
    Sequence(Vec<Document>),
    /// Entries in order, each a name and what it holds.
    Mapping(Vec<(Document, Document)>),
    /// What stands under a tag.
    Tagged(Box<Document>),
}

/// The texts of a document.
pub enum Written {
    Null,
    Flag(bool),
    Number(Seq<char>),
    Text(Seq<char>),
    Sequence(Seq<Written>),
    Mapping(Seq<(Written, Written)>),
    Tagged(Box<Written>),
}

/// The texts of a document, part by part.
pub open spec fn written(document: Document) -> Written
    decreases document,
{
    match document {
        Document::Null => Written::Null,
        Document::Flag(yes) => Written::Flag(yes),
        Document::Number(number) => Written::Number(number@),
        Document::Text(said) => Written::Text(said@),
        Document::Sequence(items) => Written::Sequence(
            Seq::new(
                items@.len(),
                |i: int|
                    if 0 <= i < items@.len() {
                        written(items@[i])
                    } else {
                        Written::Null
                    },
            ),
        ),
        Document::Mapping(list) => Written::Mapping(
            Seq::new(
                list@.len(),
                |i: int|
                    if 0 <= i < list@.len() {
                        (written(list@[i].0), written(list@[i].1))
                    } else {
                        (Written::Null, Written::Null)
                    },
            ),
        ),
        Document::Tagged(part) => Written::Tagged(Box::new(written(*part))),
    }
}

impl View for Document {
    type V = Written;

    open spec fn view(&self) -> Written {
        written(*self)
    }
}

/// The texts of a mapping's entries, in order.
pub open spec fn entries(list: Seq<(Document, Document)>) -> Seq<(Written, Written)> {
    Seq::new(list.len(), |i: int| (list[i].0@, list[i].1@))
}

/// The string that a part is, under tags or not.
pub open spec fn string_in(part: Written) -> Option<Seq<char>>
    decreases part,
{
    match part {
        Written::Text(said) => Some(said),
        Written::Tagged(inner) => string_in(*inner),
        _ => None,
    }
}

impl Document {
    /// The string that a part is, under tags or not.
    pub fn string(&self) -> (r: Option<&String>)
        ensures
            match r {
                Some(said) => string_in(self@) == Some(said@),
                None => string_in(self@) is None,
            },
        decreases self,
    {
        match self {
            Document::Text(said) => Some(said),
            Document::Tagged(inner) => inner.string(),
            _ => None,
        }
    }
}

/// A YAML value of serde_yaml's.
#[verifier::external_type_specification]
#[verifier::external_body]
pub struct YamlValue(serde_yaml::Value);

/// The parts that a value of serde_yaml's is a collection of.
pub uninterp spec fn yaml_parts(value: serde_yaml::Value) -> Written;

/// What a YAML text holds as serde_yaml reads it, or what serde_yaml says of a
/// text that is not YAML.
pub uninterp spec fn yaml_read(text: Seq<char>) -> Result<Written, Seq<char>>;

/// `serde_yaml::from_str`, to a value or to its error as it is written.
#[verifier::external_body]
fn yaml_from_str(text: &str) -> (r: Result<serde_yaml::Value, String>)
    ensures
        match r {
            Ok(value) => yaml_read(text@) == Ok::<Written, Seq<char>>(yaml_parts(value)),
            Err(said) => yaml_read(text@) == Err::<Written, Seq<char>>(said@),
        },
{
    serde_yaml::from_str::<serde_yaml::Value>(text).map_err(|failed| failed.to_string())
}

/// A `serde_yaml::Value` as a document, part for part:
/// `serde_yaml::Mapping::into_iter` hands out a mapping's entries in order.
#[verifier::external_body]
fn yaml_document(value: serde_yaml::Value) -> (document: Document)
    ensures
        document@ == yaml_parts(value),
{
    match value {
        serde_yaml::Value::Null => Document::Null,
        serde_yaml::Value::Bool(yes) => Document::Flag(yes),
        serde_yaml::Value::Number(number) => Document::Number(number.to_string()),
        serde_yaml::Value::String(said) => Document::Text(said),
        serde_yaml::Value::Sequence(items) => Document::Sequence(
            items.into_iter().map(yaml_document).collect(),
        ),
        serde_yaml::Value::Mapping(mapping) => Document::Mapping(
            mapping.into_iter().map(|(k, v)| (yaml_document(k), yaml_document(v))).collect(),
        ),
        serde_yaml::Value::Tagged(tagged) => Document::Tagged(Box::new(yaml_document(tagged.value))),
    }
}

/// What a YAML text holds, or why it could not be read.
pub fn from_yaml(text: &str) -> (r: Result<Document, String>)
    ensures
        match r {
            Ok(document) => yaml_read(text@) == Ok::<Written, Seq<char>>(document@),
            Err(said) => yaml_read(text@) == Err::<Written, Seq<char>>(said@),
        },
{
    match yaml_from_str(text) {
        Ok(value) => Ok(yaml_document(value)),
        Err(said) => Err(said),
    }
}

/// A part is the string that it is, under any tags; and nothing else is one.
pub proof fn a_part_is_the_string_that_it_is(part: Written, said: Seq<char>)
    ensures
        string_in(Written::Text(said)) == Some(said),
        string_in(Written::Tagged(Box::new(part))) == string_in(part),
        part is Null || part is Flag || part is Number || part is Sequence || part is Mapping
            ==> string_in(part) is None,
{
}

/// A document's texts are those of its parts, each as itself, and a mapping's
/// entries in order.
pub proof fn a_document_is_written_as_it_is(document: Document)
    ensures
        match document {
            Document::Null => document@ is Null,
            Document::Flag(yes) => document@ == Written::Flag(yes),
            Document::Number(number) => document@ == Written::Number(number@),
            Document::Text(said) => document@ == Written::Text(said@),
            Document::Sequence(items) => document@ matches Written::Sequence(all) && all.len()
                == items@.len() && forall|i: int|
                0 <= i < all.len() ==> #[trigger] all[i] == items@[i]@,
            Document::Mapping(list) => document@ == Written::Mapping(entries(list@)),
            Document::Tagged(part) => document@ == Written::Tagged(Box::new(part@)),
        },
{
    if let Document::Mapping(list) = document {
        assert(written(document)->Mapping_0 =~= entries(list@));
    }
}

} // verus!
