//! A deployment's catalogue of plugins: what a plugin says of itself, what the
//! catalogue shows, and what is sent to change it.
//!
//! Upload builds the plugin's image, reads it back, and pushes it into the
//! deployment's registry through the dashboard, skipping every blob the
//! registry already holds. Then it sends what the plugin says of itself, and
//! the image's digest. Launch sends as approved what the version declares.
pub mod image;
pub mod registry;

use vstd::prelude::*;
use vstd::string::*;

use crate::label::{is_label, label};
use crate::request::{Reply, Request};
use crate::text::{
    concat, contains, holds, join, joined, same, starts_with, strip_prefix, texts, trim, trimmed,
    without_prefix,
};
use crate::tree::{
    flag_member, holding, holdings, from_json, from_toml, json_object, json_read, json_tells,
    json_written, list_or_empty, member, members, name_list, named_once, strings, text_member,
    text_or_empty, toml_read, Field, Holding, Tree,
};

verus! {

/// What a plugin says about itself, from its pyproject.toml.
#[derive(Debug, Clone, PartialEq, Eq)]
pub struct Metadata {
    pub name: String,
    pub version: String,
    pub roles: Vec<String>,
    pub tags: Vec<String>,
    pub interface: bool,
    pub sdk_version: String,
}

/// The texts that say it.
pub struct Declared {
    pub name: Seq<char>,
    pub version: Seq<char>,
    pub roles: Seq<Seq<char>>,
    pub tags: Seq<Seq<char>>,
    pub interface: bool,
    pub sdk_version: Seq<char>,
}

impl View for Metadata {
    type V = Declared;

    open spec fn view(&self) -> Declared {
        Declared {
            name: self.name@,
            version: self.version@,
            roles: texts(self.roles@),
            tags: texts(self.tags@),
            interface: self.interface,
            sdk_version: self.sdk_version@,
        }
    }
}

/// A host label, a letter first: a plugin's name, a role, a tag, an instance.
pub open spec fn host_label(s: Seq<char>) -> bool {
    label(s, 63)
}

/// A host label, a letter first: a plugin's name, a role, a tag, an instance.
pub fn is_name(name: &str) -> (r: bool)
    ensures
        r == host_label(name@),
{
    is_label(name, 63)
}

// ── What a plugin says about itself ──────────────────────────────────────────

/// The version that the first of the dependencies on the SDK pins.
pub open spec fn pinned(dependencies: Seq<Seq<char>>) -> Option<Seq<char>>
    decreases dependencies.len(),
{
    if dependencies.len() == 0 {
        None
    } else {
        match strip_prefix(dependencies[0], "open-meridian=="@) {
            Some(version) => Some(trim(version)),
            None => pinned(dependencies.skip(1)),
        }
    }
}

/// The items as strings, if all of them are.
pub open spec fn all_strings(items: Seq<Holding>) -> Option<Seq<Seq<char>>> {
    if forall|i: int| 0 <= i < items.len() ==> #[trigger] items[i] is Text {
        Some(Seq::new(items.len(), |i: int| items[i]->Text_0))
    } else {
        None
    }
}

/// The names under a key of [tool.meridian], or why they are not names.
pub open spec fn names_under(meridian: Holding, key: Seq<char>) -> Result<Seq<Seq<char>>, Seq<char>> {
    match member(meridian, key) {
        None => Ok(Seq::empty()),
        Some(Holding::List(items)) => match all_strings(items) {
            Some(names) => Ok(names),
            None => Err("[tool.meridian] "@ + key + " holds something that is not a name"@),
        },
        Some(_) => Err("[tool.meridian] "@ + key + " is not a list"@),
    }
}

/// The first of the texts that is not a host label.
pub open spec fn misnamed(parts: Seq<Seq<char>>) -> Option<Seq<char>>
    decreases parts.len(),
{
    if parts.len() == 0 {
        None
    } else if !host_label(parts[0]) {
        Some(parts[0])
    } else {
        misnamed(parts.skip(1))
    }
}

/// What was declared, if its name is a plugin's, it has a version, and its
/// roles and tags have their form.
pub open spec fn held_to_form(declared: Declared) -> Result<Declared, Seq<char>> {
    if !host_label(declared.name) {
        Err(
            "`"@ + declared.name
                + "` is not a plugin's name: lowercase letters, digits and single hyphens"@,
        )
    } else if declared.version.len() == 0 {
        Err("[project] has no version"@)
    } else {
        match misnamed(declared.roles + declared.tags) {
            Some(part) => Err("`"@ + part + "` is not a role or a tag's form"@),
            None => Ok(declared),
        }
    }
}

/// The table by that name.
pub open spec fn table_member(h: Holding, key: Seq<char>) -> Option<Holding> {
    match member(h, key) {
        Some(Holding::Table(entries)) => Some(Holding::Table(entries)),
        _ => None,
    }
}

/// The table [tool.meridian].
pub open spec fn meridian_table(project: Holding) -> Option<Holding> {
    match member(project, "tool"@) {
        Some(tool) => table_member(tool, "meridian"@),
        None => None,
    }
}

/// What a pyproject.toml declares, or what is wrong with it.
pub open spec fn declaration(pyproject: Holding) -> Result<Declared, Seq<char>> {
    match table_member(pyproject, "project"@) {
        None => Err("pyproject.toml has no [project]"@),
        Some(section) => match pinned(strings(list_or_empty(section, "dependencies"@))) {
            None => Err("[project] dependencies do not pin open-meridian==<version>"@),
            Some(sdk_version) => match meridian_table(pyproject) {
                None => Err(
                    "pyproject.toml has no [tool.meridian]: what the plugin declares for its deployment"@,
                ),
                Some(meridian) => match names_under(meridian, "roles"@) {
                    Err(why) => Err(why),
                    Ok(roles) => match names_under(meridian, "tags"@) {
                        Err(why) => Err(why),
                        Ok(tags) => held_to_form(
                            Declared {
                                name: text_or_empty(section, "name"@),
                                version: text_or_empty(section, "version"@),
                                roles,
                                tags,
                                interface: flag_member(meridian, "interface"@),
                                sdk_version,
                            },
                        ),
                    },
                },
            },
        },
    }
}

/// The version that the first of the dependencies on the SDK pins.
fn pinned_by(dependencies: &Vec<String>) -> (r: Option<String>)
    ensures
        match r {
            Some(version) => pinned(texts(dependencies@)) == Some(version@),
            None => pinned(texts(dependencies@)) is None,
        },
{
    let ghost all = texts(dependencies@);
    let mut i: usize = 0;
    assert(all.skip(0) =~= all);
    while i < dependencies.len()
        invariant
            i <= dependencies@.len(),
            all == texts(dependencies@),
            pinned(all) == pinned(all.skip(i as int)),
        decreases dependencies@.len() - i,
    {
        if let Some(version) = without_prefix(dependencies[i].as_str(), "open-meridian==") {
            return Some(trimmed(version.as_str()));
        }
        assert(all.skip(i as int).skip(1) =~= all.skip(i + 1));
        i += 1;
    }
    None
}

/// The names under a key of [tool.meridian].
fn names_at(meridian: &Tree, key: &str) -> (r: Result<Vec<String>, String>)
    ensures
        match r {
            Ok(names) => names_under(meridian@, key@) == Ok::<Seq<Seq<char>>, Seq<char>>(
                texts(names@),
            ),
            Err(why) => names_under(meridian@, key@) == Err::<Seq<Seq<char>>, Seq<char>>(why@),
        },
{
    let mut names: Vec<String> = Vec::new();
    match meridian.get(key) {
        None => {
            assert(texts(names@) =~= Seq::<Seq<char>>::empty());
            Ok(names)
        },
        Some(Tree::List(items)) => {
            let ghost all = holding(Tree::List(*items))->List_0;
            let mut i: usize = 0;
            while i < items.len()
                invariant
                    i <= items@.len(),
                    member(meridian@, key@) == Some(Holding::List(all)),
                    all.len() == items@.len(),
                    forall|j: int| 0 <= j < all.len() ==> #[trigger] all[j] == items@[j]@,
                    names@.len() == i,
                    forall|j: int| 0 <= j < i ==> #[trigger] all[j] == Holding::Text(names@[j]@),
                decreases items@.len() - i,
            {
                assert(all[i as int] == items@[i as int]@);
                if let Tree::Text(name) = &items[i] {
                    names.push(name.clone());
                } else {
                    assert(!(all[i as int] is Text));
                    let mut why = "[tool.meridian] ".to_owned();
                    why.append(key);
                    why.append(" holds something that is not a name");
                    return Err(why);
                }
                i += 1;
            }
            assert(texts(names@) =~= Seq::new(all.len(), |j: int| all[j]->Text_0));
            Ok(names)
        },
        Some(_) => {
            let mut why = "[tool.meridian] ".to_owned();
            why.append(key);
            why.append(" is not a list");
            Err(why)
        },
    }
}

/// The first of the texts that is not a host label.
fn misnamed_in(parts: &Vec<String>) -> (r: Option<String>)
    ensures
        match r {
            Some(part) => misnamed(texts(parts@)) == Some(part@),
            None => misnamed(texts(parts@)) is None,
        },
{
    let ghost all = texts(parts@);
    let mut i: usize = 0;
    assert(all.skip(0) =~= all);
    while i < parts.len()
        invariant
            i <= parts@.len(),
            all == texts(parts@),
            misnamed(all) == misnamed(all.skip(i as int)),
        decreases parts@.len() - i,
    {
        if !is_name(parts[i].as_str()) {
            return Some(parts[i].clone());
        }
        assert(all.skip(i as int).skip(1) =~= all.skip(i + 1));
        i += 1;
    }
    None
}

/// Nothing in the first list is misnamed, or what is in it is what is misnamed
/// in both.
proof fn lemma_misnamed_both(first: Seq<Seq<char>>, second: Seq<Seq<char>>)
    ensures
        misnamed(first + second) == match misnamed(first) {
            Some(part) => Some(part),
            None => misnamed(second),
        },
    decreases first.len(),
{
    if first.len() == 0 {
        assert(first + second =~= second);
    } else {
        lemma_misnamed_both(first.skip(1), second);
        assert((first + second).skip(1) =~= first.skip(1) + second);
        assert((first + second)[0] == first[0]);
    }
}

/// What was declared, held to the forms the deployment will hold it to.
fn checked(metadata: Metadata) -> (r: Result<Metadata, String>)
    ensures
        match r {
            Ok(held) => held_to_form(metadata@) == Ok::<Declared, Seq<char>>(held@),
            Err(why) => held_to_form(metadata@) == Err::<Declared, Seq<char>>(why@),
        },
{
    if !is_name(metadata.name.as_str()) {
        let mut why = "`".to_owned();
        why.append(metadata.name.as_str());
        why.append("` is not a plugin's name: lowercase letters, digits and single hyphens");
        return Err(why);
    }
    if metadata.version.as_str().is_empty() {
        return Err("[project] has no version".to_owned());
    }
    proof {
        lemma_misnamed_both(texts(metadata.roles@), texts(metadata.tags@));
    }
    let bad = match misnamed_in(&metadata.roles) {
        Some(part) => Some(part),
        None => misnamed_in(&metadata.tags),
    };
    match bad {
        Some(part) => {
            let mut why = "`".to_owned();
            why.append(part.as_str());
            why.append("` is not a role or a tag's form");
            Err(why)
        },
        None => Ok(metadata),
    }
}

/// The table by that name.
fn table_at<'a>(tree: &'a Tree, key: &str) -> (r: Option<&'a Tree>)
    ensures
        match r {
            Some(part) => table_member(tree@, key@) == Some(part@),
            None => table_member(tree@, key@) is None,
        },
{
    match tree.get(key) {
        Some(part) => match part {
            Tree::Table(_) => Some(part),
            _ => None,
        },
        None => None,
    }
}

/// What a pyproject.toml declares, as it was read.
pub fn metadata_in(pyproject: &Tree) -> (r: Result<Metadata, String>)
    ensures
        match r {
            Ok(held) => declaration(pyproject@) == Ok::<Declared, Seq<char>>(held@),
            Err(why) => declaration(pyproject@) == Err::<Declared, Seq<char>>(why@),
        },
{
    let section = match table_at(pyproject, "project") {
        Some(section) => section,
        None => {
            return Err("pyproject.toml has no [project]".to_owned());
        },
    };
    let name = section.text_or_nothing("name");
    let version = section.text_or_nothing("version");
    let sdk_version = match pinned_by(&section.strings_at("dependencies")) {
        Some(sdk_version) => sdk_version,
        None => {
            return Err("[project] dependencies do not pin open-meridian==<version>".to_owned());
        },
    };
    let found = match pyproject.get("tool") {
        Some(tool) => table_at(tool, "meridian"),
        None => None,
    };
    let meridian = match found {
        Some(meridian) => meridian,
        None => {
            return Err(
                "pyproject.toml has no [tool.meridian]: what the plugin declares for its deployment".to_owned(),
            );
        },
    };
    let roles = match names_at(meridian, "roles") {
        Ok(roles) => roles,
        Err(why) => {
            return Err(why);
        },
    };
    let tags = match names_at(meridian, "tags") {
        Ok(tags) => tags,
        Err(why) => {
            return Err(why);
        },
    };
    let interface = meridian.flag_at("interface");
    checked(Metadata { name, version, roles, tags, interface, sdk_version })
}

/// What a pyproject.toml's text declares, or what is wrong with it.
pub open spec fn metadata_of(pyproject: Seq<char>) -> Result<Declared, Seq<char>> {
    match toml_read(pyproject) {
        Ok(read) => declaration(read),
        Err(failed) => Err("pyproject.toml does not read: "@ + failed),
    }
}

/// The metadata in a pyproject.toml, held to the forms the deployment will
/// hold it to. Which roles exist is the deployment's to say, and it does,
/// refusing one it does not have when the version is recorded.
pub fn metadata(pyproject: &str) -> (r: Result<Metadata, String>)
    ensures
        match r {
            Ok(held) => metadata_of(pyproject@) == Ok::<Declared, Seq<char>>(held@),
            Err(why) => metadata_of(pyproject@) == Err::<Declared, Seq<char>>(why@),
        },
{
    match from_toml(pyproject) {
        Ok(read) => metadata_in(&read),
        Err(failed) => {
            let mut why = "pyproject.toml does not read: ".to_owned();
            why.append(failed.as_str());
            Err(why)
        },
    }
}

/// What is accepted is in form: a plugin's name, a version, and roles and tags
/// that are host labels, every one of them.
pub proof fn accepted_metadata_is_in_form(pyproject: Seq<char>)
    ensures
        metadata_of(pyproject) matches Ok(declared) ==> host_label(declared.name)
            && declared.version.len() > 0 && (forall|i: int|
            0 <= i < declared.roles.len() ==> host_label(#[trigger] declared.roles[i])) && (
        forall|i: int| 0 <= i < declared.tags.len() ==> host_label(#[trigger] declared.tags[i])),
{
    if let Ok(declared) = metadata_of(pyproject) {
        let all = declared.roles + declared.tags;
        lemma_well_named(all);
        assert forall|i: int| 0 <= i < declared.roles.len() implies host_label(
            #[trigger] declared.roles[i],
        ) by {
            assert(all[i] == declared.roles[i]);
        }
        assert forall|i: int| 0 <= i < declared.tags.len() implies host_label(
            #[trigger] declared.tags[i],
        ) by {
            assert(all[declared.roles.len() + i] == declared.tags[i]);
        }
    }
}

proof fn lemma_well_named(parts: Seq<Seq<char>>)
    requires
        misnamed(parts) is None,
    ensures
        forall|i: int| 0 <= i < parts.len() ==> host_label(#[trigger] parts[i]),
    decreases parts.len(),
{
    if parts.len() > 0 {
        lemma_well_named(parts.skip(1));
        assert forall|i: int| 0 <= i < parts.len() implies host_label(#[trigger] parts[i]) by {
            if i > 0 {
                assert(parts.skip(1)[i - 1] == parts[i]);
            }
        }
    }
}

/// What the plugin's image is called where it is built.
pub fn image_tag(metadata: &Metadata) -> (tag: String)
    ensures
        tag@ == "meridian-plugin/"@ + metadata.name@ + ":"@ + metadata.version@,
{
    let mut tag = "meridian-plugin/".to_owned();
    tag.append(metadata.name.as_str());
    tag.append(":");
    tag.append(metadata.version.as_str());
    tag
}

// ── What is sent, and what comes back ────────────────────────────────────────

/// Where an upload goes next: the registry's Location, on the dashboard unless
/// it names somewhere itself, with the blob's digest added.
pub open spec fn upload_address(address: Seq<char>, location: Seq<char>, digest: Seq<char>) -> Seq<
    char,
> {
    let whole = if "http://"@.is_prefix_of(location) || "https://"@.is_prefix_of(location) {
        location
    } else {
        address + location
    };
    let glue = if holds(whole, "?"@) {
        "&"@
    } else {
        "?"@
    };
    whole + glue + "digest="@ + digest
}

/// Where an upload goes next.
pub fn upload_url(address: &str, location: &str, digest: &str) -> (url: String)
    ensures
        url@ == upload_address(address@, location@, digest@),
{
    let mut url = if starts_with(location, "http://") || starts_with(location, "https://") {
        location.to_owned()
    } else {
        let mut whole = address.to_owned();
        whole.append(location);
        whole
    };
    if contains(url.as_str(), "?") {
        url.append("&");
    } else {
        url.append("?");
    }
    url.append("digest=");
    url.append(digest);
    url
}

/// Where a blob that another plugin's repository holds is mounted from there.
pub fn mount_url(repository: &str, digest: &str, from: &str) -> (url: String)
    ensures
        url@ == repository@ + "/blobs/uploads/?mount="@ + digest@ + "&from=plugins/"@ + from@,
{
    let mut url = repository.to_owned();
    url.append("/blobs/uploads/?mount=");
    url.append(digest);
    url.append("&from=plugins/");
    url.append(from);
    url
}

/// What a refusal says: the status, and the reason in the body, which is what
/// the body's JSON gives as its error, or else the body itself.
pub open spec fn refusal(status: Seq<char>, read: Result<Holding, Seq<char>>, body: Seq<char>) -> Seq<
    char,
> {
    let reason = match read {
        Ok(held) => match text_member(held, "error"@) {
            Some(error) => error,
            None => trim(body),
        },
        Err(_) => trim(body),
    };
    status + ": "@ + reason
}

/// What was read, or why it could not be.
pub open spec fn reading(read: Result<Tree, String>) -> Result<Holding, Seq<char>> {
    match read {
        Ok(tree) => Ok(tree@),
        Err(failed) => Err(failed@),
    }
}

/// What a refusal says, given its body as it was read.
pub fn said_of(status: &str, read: &Result<Tree, String>, body: &str) -> (said: String)
    ensures
        said@ == refusal(status@, reading(*read), body@),
{
    let error = match read {
        Ok(tree) => tree.text_at("error"),
        Err(_) => None,
    };
    let reason = match error {
        Some(error) => error,
        None => trimmed(body),
    };
    let mut said = status.to_owned();
    said.append(": ");
    said.append(reason.as_str());
    said
}

/// What a refusal says.
pub fn said(status: &str, body: &str) -> (said: String)
    ensures
        said@ == refusal(status@, json_read(body@), body@),
{
    said_of(status, &from_json(body), body)
}

/// What a reply comes to: its body as JSON, if it is a success.
pub open spec fn outcome(success: bool, status: Seq<char>, body: Seq<char>) -> Result<
    Holding,
    Seq<char>,
> {
    if !success {
        Err(refusal(status, json_read(body), body))
    } else {
        json_read(body)
    }
}

/// What a reply comes to, which is the catalogue where that was asked for.
pub fn answered(reply: &Reply) -> (r: Result<Tree, String>)
    ensures
        reading(r) == outcome(reply.success, reply.status@, reply.body@),
{
    if !reply.success {
        return Err(said(reply.status.as_str(), reply.body.as_str()));
    }
    from_json(reply.body.as_str())
}

/// Where the catalogue is.
pub fn catalogue_url(address: &str) -> (url: String)
    ensures
        url@ == address@ + "/terminal/plugins"@,
{
    let mut url = address.to_owned();
    url.append("/terminal/plugins");
    url
}

/// A request that posts a JSON object.
fn post(address: &str, path: &str, fields: Vec<(String, Field)>) -> (request: Request)
    requires
        named_once(members(fields@)),
    ensures
        request.url@ == address@ + path@,
        request.content_type@ == "application/json"@,
        request.body@ == json_written(members(fields@)),
        json_tells(request.body@, members(fields@)),
{
    let mut url = address.to_owned();
    url.append(path);
    Request { url, content_type: "application/json".to_owned(), body: json_object(fields) }
}

/// The strings of a list, again.
fn again(names: &Vec<String>) -> (out: Vec<String>)
    ensures
        texts(out@) == texts(names@),
{
    let mut out: Vec<String> = Vec::new();
    let mut i: usize = 0;
    while i < names.len()
        invariant
            i <= names@.len(),
            texts(out@) =~= texts(names@).take(i as int),
        decreases names@.len() - i,
    {
        let ghost before = texts(out@);
        out.push(names[i].clone());
        assert(texts(out@) =~= before.push(names@[i as int]@));
        i += 1;
    }
    out
}

/// What recording a version tells the deployment.
pub open spec fn record_members(declared: Declared, digest: Seq<char>) -> Seq<
    (Seq<char>, Holding),
> {
    seq![
        ("name"@, Holding::Text(declared.name)),
        ("version"@, Holding::Text(declared.version)),
        ("roles"@, name_list(declared.roles)),
        ("tags"@, name_list(declared.tags)),
        ("interface"@, Holding::Flag(declared.interface)),
        ("sdk_version"@, Holding::Text(declared.sdk_version)),
        ("image_digest"@, Holding::Text(digest)),
    ]
}

/// The request that records a version: what the plugin says about itself, and
/// the digest of its image.
pub fn record(address: &str, metadata: &Metadata, digest: &str) -> (request: Request)
    ensures
        request.url@ == address@ + "/terminal/plugins"@,
        request.content_type@ == "application/json"@,
        request.body@ == json_written(record_members(metadata@, digest@)),
        json_tells(request.body@, record_members(metadata@, digest@)),
{
    let mut fields: Vec<(String, Field)> = Vec::new();
    fields.push(("name".to_owned(), Field::Text(metadata.name.clone())));
    fields.push(("version".to_owned(), Field::Text(metadata.version.clone())));
    fields.push(("roles".to_owned(), Field::Names(again(&metadata.roles))));
    fields.push(("tags".to_owned(), Field::Names(again(&metadata.tags))));
    fields.push(("interface".to_owned(), Field::Flag(metadata.interface)));
    fields.push(("sdk_version".to_owned(), Field::Text(metadata.sdk_version.clone())));
    fields.push(("image_digest".to_owned(), Field::Text(digest.to_owned())));
    assert(members(fields@) =~= record_members(metadata@, digest@));
    proof {
        reveal_strlit("name");
        reveal_strlit("version");
        reveal_strlit("roles");
        reveal_strlit("tags");
        reveal_strlit("interface");
        reveal_strlit("sdk_version");
        reveal_strlit("image_digest");
        assert("name"@[0] == 'n' && "tags"@[0] == 't');
        assert("version"@.len() == 7 && "roles"@.len() == 5 && "interface"@.len() == 9
            && "sdk_version"@.len() == 11 && "image_digest"@.len() == 12);
        assert(named_once(members(fields@)));
    }
    post(address, "/terminal/plugins", fields)
}

/// Whether the deployment recorded the version, or what it said.
pub fn recorded(reply: &Reply) -> (r: Result<(), String>)
    ensures
        match r {
            Ok(_) => reply.success,
            Err(why) => !reply.success && why@ == "the version was not recorded: "@ + refusal(
                reply.status@,
                json_read(reply.body@),
                reply.body@,
            ),
        },
{
    if reply.success {
        return Ok(());
    }
    let mut why = "the version was not recorded: ".to_owned();
    why.append(said(reply.status.as_str(), reply.body.as_str()).as_str());
    Err(why)
}

/// What launching a version tells the deployment.
pub open spec fn launch_members(
    name: Seq<char>,
    version: Seq<char>,
    instance: Seq<char>,
    roles: Seq<Seq<char>>,
    tags: Seq<Seq<char>>,
) -> Seq<(Seq<char>, Holding)> {
    seq![
        ("name"@, Holding::Text(name)),
        ("version"@, Holding::Text(version)),
        ("instance_id"@, Holding::Text(instance)),
        ("approved_roles"@, name_list(roles)),
        ("approved_tags"@, name_list(tags)),
    ]
}

/// The request that launches a version, with what was approved.
pub fn launch(
    address: &str,
    name: &str,
    version: &str,
    instance: &str,
    roles: &Vec<String>,
    tags: &Vec<String>,
) -> (request: Request)
    ensures
        request.url@ == address@ + "/terminal/plugins/launch"@,
        request.content_type@ == "application/json"@,
        request.body@ == json_written(
            launch_members(name@, version@, instance@, texts(roles@), texts(tags@)),
        ),
        json_tells(
            request.body@,
            launch_members(name@, version@, instance@, texts(roles@), texts(tags@)),
        ),
{
    let mut fields: Vec<(String, Field)> = Vec::new();
    fields.push(("name".to_owned(), Field::Text(name.to_owned())));
    fields.push(("version".to_owned(), Field::Text(version.to_owned())));
    fields.push(("instance_id".to_owned(), Field::Text(instance.to_owned())));
    fields.push(("approved_roles".to_owned(), Field::Names(again(roles))));
    fields.push(("approved_tags".to_owned(), Field::Names(again(tags))));
    assert(members(fields@) =~= launch_members(
        name@,
        version@,
        instance@,
        texts(roles@),
        texts(tags@),
    ));
    proof {
        reveal_strlit("name");
        reveal_strlit("version");
        reveal_strlit("instance_id");
        reveal_strlit("approved_roles");
        reveal_strlit("approved_tags");
        assert("name"@.len() == 4 && "version"@.len() == 7 && "instance_id"@.len() == 11
            && "approved_roles"@.len() == 14 && "approved_tags"@.len() == 13);
        assert(named_once(members(fields@)));
    }
    post(address, "/terminal/plugins/launch", fields)
}

/// The request that stops a launched instance.
pub fn stop(address: &str, instance: &str) -> (request: Request)
    ensures
        request.url@ == address@ + "/terminal/plugins/stop"@,
        request.content_type@ == "application/json"@,
        request.body@ == json_written(seq![("instance_id"@, Holding::Text(instance@))]),
        json_tells(request.body@, seq![("instance_id"@, Holding::Text(instance@))]),
{
    let mut fields: Vec<(String, Field)> = Vec::new();
    fields.push(("instance_id".to_owned(), Field::Text(instance.to_owned())));
    assert(members(fields@) =~= seq![("instance_id"@, Holding::Text(instance@))]);
    post(address, "/terminal/plugins/stop", fields)
}

// ── What the catalogue shows ─────────────────────────────────────────────────

/// The names with commas between them, or that there are none.
pub open spec fn names_listed(names: Seq<Seq<char>>) -> Seq<char> {
    if names.len() == 0 {
        "none"@
    } else {
        join(names, ", "@)
    }
}

/// A version, on a line of its own.
pub open spec fn version_line(v: Holding) -> Seq<char> {
    "  "@ + text_or_empty(v, "name"@) + " "@ + text_or_empty(v, "version"@) + "  roles: "@
        + names_listed(strings(list_or_empty(v, "roles"@))) + "  tags: "@ + names_listed(
        strings(list_or_empty(v, "tags"@)),
    ) + "  page: "@ + (if flag_member(v, "interface"@) {
        "yes"@
    } else {
        "no"@
    }) + "  SDK "@ + text_or_empty(v, "sdk_version"@) + "\n"@
}

/// A launch, on a line of its own, with why it failed if it did.
pub open spec fn launch_line(l: Holding) -> Seq<char> {
    let failure = text_or_empty(l, "failure"@);
    "  "@ + text_or_empty(l, "instance_id"@) + "  "@ + text_or_empty(l, "name"@) + " "@
        + text_or_empty(l, "version"@) + "  "@ + text_or_empty(l, "state"@) + (if failure.len()
        == 0 {
        Seq::empty()
    } else {
        ": "@ + failure
    }) + "\n"@
}

/// A line for each of the items.
pub open spec fn lines(items: Seq<Holding>, line: spec_fn(Holding) -> Seq<char>) -> Seq<char> {
    concat(Seq::new(items.len(), |i: int| line(items[i])))
}

/// The catalogue, for a person to read.
pub open spec fn listing(catalogue: Holding) -> Seq<char> {
    let versions = list_or_empty(catalogue, "versions"@);
    let launches = list_or_empty(catalogue, "launches"@);
    "Versions:\n"@ + (if versions.len() == 0 {
        "  none uploaded\n"@
    } else {
        lines(versions, |v: Holding| version_line(v))
    }) + "Launches:\n"@ + (if launches.len() == 0 {
        "  none\n"@
    } else {
        lines(launches, |l: Holding| launch_line(l))
    })
}

/// The names with commas between them, or that there are none.
pub fn listed_names(names: &Vec<String>) -> (out: String)
    ensures
        out@ == names_listed(texts(names@)),
{
    if names.len() == 0 {
        "none".to_owned()
    } else {
        joined(names, ", ")
    }
}

fn version_said(v: &Tree) -> (out: String)
    ensures
        out@ == version_line(v@),
{
    let mut out = "  ".to_owned();
    out.append(v.text_or_nothing("name").as_str());
    out.append(" ");
    out.append(v.text_or_nothing("version").as_str());
    out.append("  roles: ");
    out.append(listed_names(&v.strings_at("roles")).as_str());
    out.append("  tags: ");
    out.append(listed_names(&v.strings_at("tags")).as_str());
    out.append("  page: ");
    if v.flag_at("interface") {
        out.append("yes");
    } else {
        out.append("no");
    }
    out.append("  SDK ");
    out.append(v.text_or_nothing("sdk_version").as_str());
    out.append("\n");
    out
}

fn launch_said(l: &Tree) -> (out: String)
    ensures
        out@ == launch_line(l@),
{
    let failure = l.text_or_nothing("failure");
    let mut out = "  ".to_owned();
    out.append(l.text_or_nothing("instance_id").as_str());
    out.append("  ");
    out.append(l.text_or_nothing("name").as_str());
    out.append(" ");
    out.append(l.text_or_nothing("version").as_str());
    out.append("  ");
    out.append(l.text_or_nothing("state").as_str());
    let ghost before = out@;
    if !failure.as_str().is_empty() {
        let mut tail = ": ".to_owned();
        tail.append(failure.as_str());
        out.append(tail.as_str());
    } else {
        assert(before + Seq::<char>::empty() =~= before);
    }
    out.append("\n");
    out
}

/// The catalogue, for a person to read.
pub fn listed(catalogue: &Tree) -> (out: String)
    ensures
        out@ == listing(catalogue@),
{
    let mut versions = String::new();
    if let Some(items) = catalogue.list_at("versions") {
        let ghost all = Seq::new(items@.len(), |i: int| version_line(holdings(items@)[i]));
        let mut i: usize = 0;
        assert(all.take(0) =~= Seq::<Seq<char>>::empty());
        while i < items.len()
            invariant
                i <= items@.len(),
                all == Seq::new(items@.len(), |i: int| version_line(holdings(items@)[i])),
                versions@ == concat(all.take(i as int)),
            decreases items@.len() - i,
        {
            assert(all.take(i + 1).drop_last() =~= all.take(i as int));
            assert(all.take(i + 1).last() == version_line(items@[i as int]@));
            versions.append(version_said(&items[i]).as_str());
            i += 1;
        }
        assert(all.take(i as int) =~= all);
        if items.len() == 0 {
            versions = "  none uploaded\n".to_owned();
        } else {
            assert(all =~= Seq::new(
                holdings(items@).len(),
                |i: int| (|v: Holding| version_line(v))(holdings(items@)[i]),
            ));
        }
    } else {
        versions = "  none uploaded\n".to_owned();
    }
    let mut launches = String::new();
    if let Some(items) = catalogue.list_at("launches") {
        let ghost all = Seq::new(items@.len(), |i: int| launch_line(holdings(items@)[i]));
        let mut i: usize = 0;
        assert(all.take(0) =~= Seq::<Seq<char>>::empty());
        while i < items.len()
            invariant
                i <= items@.len(),
                all == Seq::new(items@.len(), |i: int| launch_line(holdings(items@)[i])),
                launches@ == concat(all.take(i as int)),
            decreases items@.len() - i,
        {
            assert(all.take(i + 1).drop_last() =~= all.take(i as int));
            assert(all.take(i + 1).last() == launch_line(items@[i as int]@));
            launches.append(launch_said(&items[i]).as_str());
            i += 1;
        }
        assert(all.take(i as int) =~= all);
        if items.len() == 0 {
            launches = "  none\n".to_owned();
        } else {
            assert(all =~= Seq::new(
                holdings(items@).len(),
                |i: int| (|l: Holding| launch_line(l))(holdings(items@)[i]),
            ));
        }
    } else {
        launches = "  none\n".to_owned();
    }
    let mut out = "Versions:\n".to_owned();
    out.append(versions.as_str());
    out.append("Launches:\n");
    out.append(launches.as_str());
    out
}

/// The roles and tags of the first of the versions by that name and version.
pub open spec fn declared_by(versions: Seq<Holding>, name: Seq<char>, version: Seq<char>) -> Option<
    (Seq<Seq<char>>, Seq<Seq<char>>),
>
    decreases versions.len(),
{
    if versions.len() == 0 {
        None
    } else if text_member(versions[0], "name"@) == Some(name) && text_member(
        versions[0],
        "version"@,
    ) == Some(version) {
        Some(
            (
                strings(list_or_empty(versions[0], "roles"@)),
                strings(list_or_empty(versions[0], "tags"@)),
            ),
        )
    } else {
        declared_by(versions.skip(1), name, version)
    }
}

fn is_text(tree: &Tree, key: &str, wanted: &str) -> (r: bool)
    ensures
        r == (text_member(tree@, key@) == Some(wanted@)),
{
    match tree.text_at(key) {
        Some(held) => same(held.as_str(), wanted),
        None => false,
    }
}

/// A recorded version's roles and tags, which a launch approves.
pub fn declared(catalogue: &Tree, name: &str, version: &str) -> (r: Option<
    (Vec<String>, Vec<String>),
>)
    ensures
        match r {
            Some((roles, tags)) => declared_by(
                list_or_empty(catalogue@, "versions"@),
                name@,
                version@,
            ) == Some((texts(roles@), texts(tags@))),
            None => declared_by(list_or_empty(catalogue@, "versions"@), name@, version@) is None,
        },
{
    if let Some(items) = catalogue.list_at("versions") {
        let ghost all = holdings(items@);
        let mut i: usize = 0;
        assert(all.skip(0) =~= all);
        while i < items.len()
            invariant
                i <= items@.len(),
                all == holdings(items@),
                list_or_empty(catalogue@, "versions"@) == all,
                declared_by(all, name@, version@) == declared_by(
                    all.skip(i as int),
                    name@,
                    version@,
                ),
            decreases items@.len() - i,
        {
            let v = &items[i];
            if is_text(v, "name", name) && is_text(v, "version", version) {
                return Some((v.strings_at("roles"), v.strings_at("tags")));
            }
            assert(all.skip(i as int).skip(1) =~= all.skip(i + 1));
            i += 1;
        }
        None
    } else {
        None
    }
}

/// A version of the catalogue is this one of this plugin.
pub open spec fn is_of(v: Holding, name: Seq<char>, version: Seq<char>) -> bool {
    member(v, "name"@) == Some(Holding::Text(name)) && member(v, "version"@) == Some(
        Holding::Text(version),
    )
}

/// What a launch approves is what that plugin declared for that version: the
/// roles and tags that are found are those of the first version in the catalogue
/// with both the plugin's name and the version's number, and where none are
/// found no version has both.
pub proof fn what_is_declared_is_of_that_plugin_and_that_version(
    versions: Seq<Holding>,
    name: Seq<char>,
    version: Seq<char>,
)
    ensures
        match declared_by(versions, name, version) {
            Some((roles, tags)) => exists|i: int|
                0 <= i < versions.len() && is_of(#[trigger] versions[i], name, version) && (
                forall|j: int| 0 <= j < i ==> !is_of(#[trigger] versions[j], name, version))
                    && roles == strings(list_or_empty(versions[i], "roles"@)) && tags == strings(
                    list_or_empty(versions[i], "tags"@),
                ),
            None => forall|i: int|
                0 <= i < versions.len() ==> !is_of(#[trigger] versions[i], name, version),
        },
    decreases versions.len(),
{
    if versions.len() > 0 {
        let rest = versions.skip(1);
        if is_of(versions[0], name, version) {
            assert(declared_by(versions, name, version) is Some);
        } else {
            what_is_declared_is_of_that_plugin_and_that_version(rest, name, version);
            assert forall|i: int| 0 < i < versions.len() implies #[trigger] versions[i] == rest[i
                - 1] by {}
            match declared_by(versions, name, version) {
                Some((roles, tags)) => {
                    let k = choose|k: int|
                        0 <= k < rest.len() && is_of(#[trigger] rest[k], name, version) && (
                        forall|j: int| 0 <= j < k ==> !is_of(#[trigger] rest[j], name, version))
                            && roles == strings(list_or_empty(rest[k], "roles"@)) && tags
                            == strings(list_or_empty(rest[k], "tags"@));
                    assert(versions[k + 1] == rest[k]);
                    assert forall|j: int| 0 <= j < k + 1 implies !is_of(
                        #[trigger] versions[j],
                        name,
                        version,
                    ) by {
                        if j > 0 {
                            assert(!is_of(rest[j - 1], name, version));
                        }
                    }
                },
                None => {
                    assert forall|i: int| 0 <= i < versions.len() implies !is_of(
                        #[trigger] versions[i],
                        name,
                        version,
                    ) by {
                        if i > 0 {
                            assert(!is_of(rest[i - 1], name, version));
                        }
                    }
                },
            }
        }
    }
}

// ── What the file and the requests say ───────────────────────────────────────

/// Names that a table gives under a key: every item of the list there, each a
/// string, or none where the key is not there.
pub open spec fn gives_names(table: Holding, key: Seq<char>, names: Seq<Seq<char>>) -> bool {
    match member(table, key) {
        None => names.len() == 0,
        Some(Holding::List(items)) => items.len() == names.len() && forall|i: int|
            0 <= i < names.len() ==> #[trigger] items[i] == Holding::Text(names[i]),
        Some(_) => false,
    }
}

/// A dependency that pins the SDK to this version.
pub open spec fn pins(dependency: Seq<char>, version: Seq<char>) -> bool {
    exists|rest: Seq<char>|
        dependency == #[trigger] ("open-meridian=="@ + rest) && version == trim(rest)
}

/// Nothing among the first so many dependencies pins the SDK.
pub open spec fn none_pins(dependencies: Seq<Seq<char>>, n: int) -> bool {
    forall|j: int, version: Seq<char>|
        0 <= j < n ==> !#[trigger] pins(dependencies[j], version)
}

/// The first of the dependencies to pin the SDK stands there, and pins it to this
/// version.
pub open spec fn first_pin(dependencies: Seq<Seq<char>>, i: int, version: Seq<char>) -> bool {
    0 <= i < dependencies.len() && pins(dependencies[i], version) && none_pins(dependencies, i)
}

/// The first of the dependencies that pins the SDK is the one that counts.
pub proof fn the_first_pin_counts(dependencies: Seq<Seq<char>>)
    ensures
        match pinned(dependencies) {
            Some(version) => exists|i: int| #[trigger] first_pin(dependencies, i, version),
            None => none_pins(dependencies, dependencies.len() as int),
        },
    decreases dependencies.len(),
{
    if dependencies.len() > 0 {
        let first = dependencies[0];
        let sdk = "open-meridian=="@;
        let rest = dependencies.skip(1);
        crate::text::what_a_text_starts_with_is_taken_off(first, sdk, first);
        match strip_prefix(first, sdk) {
            Some(left) => {
                assert(first == sdk + left);
                assert(pins(dependencies[0], trim(left)));
                assert(first_pin(dependencies, 0, trim(left)));
                assert(pinned(dependencies) == Some(trim(left)));
            },
            None => {
                the_first_pin_counts(rest);
                assert forall|other: Seq<char>| !#[trigger] pins(first, other) by {
                    if pins(first, other) {
                        let left = choose|left: Seq<char>|
                            first == #[trigger] (sdk + left) && other == trim(left);
                        assert(first == sdk + left);
                    }
                }
                match pinned(rest) {
                    Some(version) => {
                        let k = choose|k: int| #[trigger] first_pin(rest, k, version);
                        assert(dependencies[k + 1] == rest[k]);
                        lemma_none_pins(dependencies, k);
                        assert(first_pin(dependencies, k + 1, version));
                        assert(pinned(dependencies) == Some(version));
                    },
                    None => {
                        lemma_none_pins(dependencies, rest.len() as int);
                        assert(rest.len() + 1 == dependencies.len());
                        assert(none_pins(dependencies, dependencies.len() as int));
                    },
                }
            },
        }
    }
    match pinned(dependencies) {
        Some(version) => {
            assert(exists|i: int| #[trigger] first_pin(dependencies, i, version));
        },
        None => {
            assert(none_pins(dependencies, dependencies.len() as int));
        },
    }
}

proof fn lemma_none_pins(dependencies: Seq<Seq<char>>, n: int)
    requires
        0 <= n < dependencies.len(),
        forall|other: Seq<char>| !#[trigger] pins(dependencies[0], other),
        none_pins(dependencies.skip(1), n),
    ensures
        none_pins(dependencies, n + 1),
{
    assert forall|j: int, other: Seq<char>| 0 <= j < n + 1 implies !#[trigger] pins(
        dependencies[j],
        other,
    ) by {
        if j > 0 {
            assert(dependencies[j] == dependencies.skip(1)[j - 1]);
            assert(!pins(dependencies.skip(1)[j - 1], other));
        }
    }
}

/// A plugin declares what its own file says: its name and version as [project]
/// gives them, its roles and tags and whether it has a page as [tool.meridian]
/// gives them, and the SDK that its dependencies pin.
pub proof fn a_plugin_declares_what_its_file_says(pyproject: Holding)
    ensures
        declaration(pyproject) matches Ok(declared) ==> {
            &&& member(pyproject, "project"@) matches Some(project)
            &&& member(pyproject, "tool"@) matches Some(tool)
            &&& member(tool, "meridian"@) matches Some(meridian)
            &&& member(project, "name"@) == Some(Holding::Text(declared.name))
            &&& member(project, "version"@) == Some(Holding::Text(declared.version))
            &&& gives_names(meridian, "roles"@, declared.roles)
            &&& gives_names(meridian, "tags"@, declared.tags)
            &&& declared.interface <==> member(meridian, "interface"@) == Some(Holding::Flag(true))
            &&& member(project, "dependencies"@) matches Some(Holding::List(items))
            &&& exists|i: int| #[trigger] first_pin(strings(items), i, declared.sdk_version)
        },
{
    if let Ok(declared) = declaration(pyproject) {
        let project = table_member(pyproject, "project"@)->0;
        let meridian = meridian_table(pyproject)->0;
        let dependencies = strings(list_or_empty(project, "dependencies"@));
        the_first_pin_counts(dependencies);
        assert(pinned(dependencies) == Some(declared.sdk_version));
        assert(declared.name.len() > 0);
        lemma_names_given(meridian, "roles"@);
        lemma_names_given(meridian, "tags"@);
        assert(member(project, "dependencies"@) matches Some(Holding::List(_)));
    }
}

/// A declaration that is in form is accepted: the file has both tables, the
/// dependencies pin the SDK, roles and tags are lists of names in form, the name
/// is in form, and there is a version. Where one of these fails it is refused.
pub proof fn a_declaration_in_form_is_accepted(
    pyproject: Holding,
    project: Seq<(Seq<char>, Holding)>,
    meridian: Seq<(Seq<char>, Holding)>,
    roles: Seq<Seq<char>>,
    tags: Seq<Seq<char>>,
)
    requires
        member(pyproject, "project"@) == Some(Holding::Table(project)),
        member(pyproject, "tool"@) matches Some(tool) && member(tool, "meridian"@) == Some(
            Holding::Table(meridian),
        ),
        gives_names(Holding::Table(meridian), "roles"@, roles),
        gives_names(Holding::Table(meridian), "tags"@, tags),
        pinned(strings(list_or_empty(Holding::Table(project), "dependencies"@))) is Some,
    ensures
        declaration(pyproject) is Ok <==> {
            &&& member(Holding::Table(project), "name"@) matches Some(Holding::Text(name))
                && host_label(name)
            &&& member(Holding::Table(project), "version"@) matches Some(Holding::Text(version))
                && version.len() > 0
            &&& forall|i: int| 0 <= i < roles.len() ==> host_label(#[trigger] roles[i])
            &&& forall|i: int| 0 <= i < tags.len() ==> host_label(#[trigger] tags[i])
        },
{
    let m = Holding::Table(meridian);
    lemma_names_under(m, "roles"@, roles);
    lemma_names_under(m, "tags"@, tags);
    let all = roles + tags;
    if misnamed(all) is None {
        lemma_well_named(all);
        assert forall|i: int| 0 <= i < roles.len() implies host_label(#[trigger] roles[i]) by {
            assert(all[i] == roles[i]);
        }
        assert forall|i: int| 0 <= i < tags.len() implies host_label(#[trigger] tags[i]) by {
            assert(all[roles.len() + i] == tags[i]);
        }
    } else {
        let k = lemma_misnamed_at(all);
        if k < roles.len() {
            assert(!host_label(roles[k]));
        } else {
            assert(!host_label(tags[k - roles.len()]));
        }
    }
}

proof fn lemma_names_given(meridian: Holding, key: Seq<char>)
    ensures
        names_under(meridian, key) matches Ok(names) ==> gives_names(meridian, key, names),
{
}

proof fn lemma_names_under(meridian: Holding, key: Seq<char>, names: Seq<Seq<char>>)
    requires
        gives_names(meridian, key, names),
    ensures
        names_under(meridian, key) == Ok::<Seq<Seq<char>>, Seq<char>>(names),
{
    if let Some(Holding::List(items)) = member(meridian, key) {
        assert forall|i: int| 0 <= i < items.len() implies #[trigger] items[i] is Text by {
            assert(items[i] == Holding::Text(names[i]));
        }
        assert(Seq::new(items.len(), |i: int| items[i]->Text_0) =~= names);
    } else {
        assert(names =~= Seq::<Seq<char>>::empty());
    }
}

proof fn lemma_misnamed_at(parts: Seq<Seq<char>>) -> (k: int)
    requires
        misnamed(parts) is Some,
    ensures
        0 <= k < parts.len(),
        !host_label(parts[k]),
    decreases parts.len(),
{
    if !host_label(parts[0]) {
        0
    } else {
        let k = lemma_misnamed_at(parts.skip(1));
        assert(parts.skip(1)[k] == parts[k + 1]);
        k + 1
    }
}

/// A host label is at most sixty-three characters: what a name may hold may be
/// that long and no longer.
pub proof fn a_name_is_a_label_of_at_most_sixty_three(s: Seq<char>)
    ensures
        host_label(s) ==> s.len() <= 63,
        host_label(s) <==> label(s, 63),
        s.len() <= 63 ==> (host_label(s) <==> label(s, s.len())),
{
}

/// An upload goes on where the registry said, with the blob's digest as one more
/// field of the query: at that location itself where it names a host, and else
/// at the dashboard, with a question mark before the field where there is no
/// query yet and an ampersand where there is.
pub proof fn an_upload_goes_on_where_the_registry_said(
    address: Seq<char>,
    location: Seq<char>,
    digest: Seq<char>,
)
    ensures
        ({
            let url = upload_address(address, location, digest);
            let elsewhere = "http://"@.is_prefix_of(location) || "https://"@.is_prefix_of(location);
            let base = if elsewhere {
                location
            } else {
                address + location
            };
            &&& base.contains('?') ==> url == base + seq!['&'] + "digest="@ + digest
            &&& !base.contains('?') ==> url == base + seq!['?'] + "digest="@ + digest
        }),
{
    reveal_strlit("?");
    reveal_strlit("&");
    assert("?"@ =~= seq!['?']);
    assert("&"@ =~= seq!['&']);
    let whole = if "http://"@.is_prefix_of(location) || "https://"@.is_prefix_of(location) {
        location
    } else {
        address + location
    };
    crate::text::lemma_holds_char(whole, '?');
}

/// What a refusal says is the status, and behind it the error that the answer's
/// own document gives, or else the answer itself without white space around it;
/// an answer that is a success is its document, and one that is not is a refusal.
pub proof fn a_refusal_says_what_the_answer_says(
    status: Seq<char>,
    body: Seq<char>,
    held: Holding,
    why: Seq<char>,
)
    ensures
        json_read(body) == Ok::<Holding, Seq<char>>(held) ==> {
            &&& outcome(true, status, body) == Ok::<Holding, Seq<char>>(held)
            &&& outcome(false, status, body) == Err::<Holding, Seq<char>>(
                status + ": "@ + (match member(held, "error"@) {
                    Some(Holding::Text(error)) => error,
                    _ => trim(body),
                }),
            )
        },
        json_read(body) == Err::<Holding, Seq<char>>(why) ==> {
            &&& outcome(true, status, body) == Err::<Holding, Seq<char>>(why)
            &&& outcome(false, status, body) == Err::<Holding, Seq<char>>(
                status + ": "@ + trim(body),
            )
        },
{
}

/// What recording a version sends reads as what the plugin declared, and as the
/// image's digest, each under the name that the deployment reads it by.
pub proof fn a_recorded_version_reads_as_what_was_declared(
    text: Seq<char>,
    declared: Declared,
    digest: Seq<char>,
)
    ensures
        json_tells(text, record_members(declared, digest)) ==> {
            &&& json_read(text) matches Ok(read)
            &&& member(read, "name"@) == Some(Holding::Text(declared.name))
            &&& member(read, "version"@) == Some(Holding::Text(declared.version))
            &&& gives_names(read, "roles"@, declared.roles)
            &&& gives_names(read, "tags"@, declared.tags)
            &&& member(read, "interface"@) == Some(Holding::Flag(declared.interface))
            &&& member(read, "sdk_version"@) == Some(Holding::Text(declared.sdk_version))
            &&& member(read, "image_digest"@) == Some(Holding::Text(digest))
        },
{
    let fields = record_members(declared, digest);
    let read = json_read(text)->Ok_0;
    if json_tells(text, fields) {
        assert(member(read, fields[0].0) == Some(fields[0].1));
        assert(member(read, fields[1].0) == Some(fields[1].1));
        assert(member(read, fields[2].0) == Some(fields[2].1));
        assert(member(read, fields[3].0) == Some(fields[3].1));
        assert(member(read, fields[4].0) == Some(fields[4].1));
        assert(member(read, fields[5].0) == Some(fields[5].1));
        assert(member(read, fields[6].0) == Some(fields[6].1));
    }
}

/// What launching a version sends reads as that plugin and version, as the
/// instance that it runs as, and as the roles and tags that were approved.
pub proof fn a_launch_reads_as_what_was_approved(
    text: Seq<char>,
    name: Seq<char>,
    version: Seq<char>,
    instance: Seq<char>,
    roles: Seq<Seq<char>>,
    tags: Seq<Seq<char>>,
)
    ensures
        json_tells(text, launch_members(name, version, instance, roles, tags)) ==> {
            &&& json_read(text) matches Ok(read)
            &&& member(read, "name"@) == Some(Holding::Text(name))
            &&& member(read, "version"@) == Some(Holding::Text(version))
            &&& member(read, "instance_id"@) == Some(Holding::Text(instance))
            &&& gives_names(read, "approved_roles"@, roles)
            &&& gives_names(read, "approved_tags"@, tags)
        },
{
    let fields = launch_members(name, version, instance, roles, tags);
    let read = json_read(text)->Ok_0;
    if json_tells(text, fields) {
        assert(member(read, fields[0].0) == Some(fields[0].1));
        assert(member(read, fields[1].0) == Some(fields[1].1));
        assert(member(read, fields[2].0) == Some(fields[2].1));
        assert(member(read, fields[3].0) == Some(fields[3].1));
        assert(member(read, fields[4].0) == Some(fields[4].1));
    }
}

/// Names are listed in order with commas between them, and that there are none
/// is said where there are none.
pub proof fn names_are_listed_in_order(names: Seq<Seq<char>>, name: Seq<char>)
    ensures
        names_listed(Seq::empty()) == "none"@,
        names_listed(seq![name]) == name,
        names.len() > 0 ==> names_listed(names + seq![name]) == names_listed(names) + ", "@ + name,
{
    crate::text::texts_are_put_together_in_order(names, name, Seq::empty(), ", "@);
}

/// A version is shown by what the catalogue holds of it: its name and version,
/// its roles and its tags each in their own place, whether it has a page, and
/// its SDK.
pub proof fn a_version_is_shown_as_the_catalogue_holds_it(
    v: Holding,
    name: Seq<char>,
    version: Seq<char>,
    roles: Seq<Seq<char>>,
    tags: Seq<Seq<char>>,
    sdk: Seq<char>,
)
    requires
        member(v, "name"@) == Some(Holding::Text(name)),
        member(v, "version"@) == Some(Holding::Text(version)),
        gives_names(v, "roles"@, roles),
        gives_names(v, "tags"@, tags),
        member(v, "sdk_version"@) == Some(Holding::Text(sdk)),
    ensures
        exists|shown: Seq<char>, tagged: Seq<char>, page: Seq<char>|
            {
                &&& version_line(v) == #[trigger] ("  "@ + name + " "@ + version + "  roles: "@ + shown
                    + "  tags: "@ + tagged + "  page: "@ + page + "  SDK "@ + sdk + "\n"@)
                &&& shown == names_listed(roles)
                &&& tagged == names_listed(tags)
                &&& page == (if member(v, "interface"@) == Some(Holding::Flag(true)) {
                    "yes"@
                } else {
                    "no"@
                })
            },
{
    lemma_strings_given(v, "roles"@, roles);
    lemma_strings_given(v, "tags"@, tags);
    let page = if member(v, "interface"@) == Some(Holding::Flag(true)) {
        "yes"@
    } else {
        "no"@
    };
    assert(version_line(v) == "  "@ + name + " "@ + version + "  roles: "@ + names_listed(roles)
        + "  tags: "@ + names_listed(tags) + "  page: "@ + page + "  SDK "@ + sdk + "\n"@);
}

proof fn lemma_strings_given(v: Holding, key: Seq<char>, names: Seq<Seq<char>>)
    requires
        gives_names(v, key, names),
    ensures
        strings(list_or_empty(v, key)) == names,
{
    if let Some(Holding::List(items)) = member(v, key) {
        crate::tree::a_list_of_names_reads_as_those_names(names);
        assert(items =~= name_list(names)->List_0);
    } else {
        assert(strings(list_or_empty(v, key)) =~= names);
    }
}

/// A launch is shown by what the catalogue holds of it, and why it failed is
/// shown where it says so and only there.
pub proof fn a_launch_is_shown_as_the_catalogue_holds_it(
    l: Holding,
    instance: Seq<char>,
    name: Seq<char>,
    version: Seq<char>,
    state: Seq<char>,
)
    requires
        member(l, "instance_id"@) == Some(Holding::Text(instance)),
        member(l, "name"@) == Some(Holding::Text(name)),
        member(l, "version"@) == Some(Holding::Text(version)),
        member(l, "state"@) == Some(Holding::Text(state)),
    ensures
        ({
            let shown = "  "@ + instance + "  "@ + name + " "@ + version + "  "@ + state;
            match member(l, "failure"@) {
                Some(Holding::Text(why)) => why.len() > 0 ==> launch_line(l) == shown + ": "@ + why
                    + "\n"@,
                _ => launch_line(l) == shown + "\n"@,
            }
        }),
{
    let shown = "  "@ + instance + "  "@ + name + " "@ + version + "  "@ + state;
    match member(l, "failure"@) {
        Some(Holding::Text(why)) => {
            if why.len() > 0 {
                assert(shown + (": "@ + why) + "\n"@ =~= shown + ": "@ + why + "\n"@);
            }
        },
        _ => {
            assert(shown + Seq::<char>::empty() + "\n"@ =~= shown + "\n"@);
        },
    }
}

/// Every version and every launch of the catalogue is shown, in order, the
/// versions first, and that there are none is said where there are none.
pub proof fn everything_in_the_catalogue_is_shown(
    catalogue: Holding,
    before: Seq<Holding>,
    item: Holding,
    after: Seq<Holding>,
)
    ensures
        ({
            let v = |items: Seq<Holding>| lines(items, |v: Holding| version_line(v));
            let l = |items: Seq<Holding>| lines(items, |l: Holding| launch_line(l));
            let versions = match member(catalogue, "versions"@) {
                Some(Holding::List(items)) => items,
                _ => Seq::empty(),
            };
            let launches = match member(catalogue, "launches"@) {
                Some(Holding::List(items)) => items,
                _ => Seq::empty(),
            };
            &&& v(before + seq![item] + after) == v(before) + version_line(item) + v(after)
            &&& l(before + seq![item] + after) == l(before) + launch_line(item) + l(after)
            &&& listing(catalogue) == "Versions:\n"@ + (if versions.len() > 0 {
                v(versions)
            } else {
                "  none uploaded\n"@
            }) + "Launches:\n"@ + (if launches.len() > 0 {
                l(launches)
            } else {
                "  none\n"@
            })
        }),
{
    lemma_lines(before, item, after, |v: Holding| version_line(v));
    lemma_lines(before, item, after, |l: Holding| launch_line(l));
}

proof fn lemma_lines(
    before: Seq<Holding>,
    item: Holding,
    after: Seq<Holding>,
    line: spec_fn(Holding) -> Seq<char>,
)
    ensures
        lines(before + seq![item] + after, line) == lines(before, line) + line(item) + lines(
            after,
            line,
        ),
{
    let all = before + seq![item] + after;
    let b = Seq::new(before.len(), |i: int| line(before[i]));
    let a = Seq::new(after.len(), |i: int| line(after[i]));
    assert(Seq::new(all.len(), |i: int| line(all[i])) =~= b + seq![line(item)] + a);
    crate::text::texts_are_put_together_in_order(b, line(item), a, Seq::empty());
}

/// What is no list of names is refused by the key it stands under: roles before
/// tags, a value that is no list apart from a list that holds anything but text.
pub proof fn what_is_no_list_of_names_is_refused_by_its_key(
    pyproject: Holding,
    project: Seq<(Seq<char>, Holding)>,
    meridian: Seq<(Seq<char>, Holding)>,
    roles: Seq<Seq<char>>,
    value: Holding,
    items: Seq<Holding>,
    i: int,
)
    requires
        member(pyproject, "project"@) == Some(Holding::Table(project)),
        member(pyproject, "tool"@) matches Some(tool) && member(tool, "meridian"@) == Some(
            Holding::Table(meridian),
        ),
        pinned(strings(list_or_empty(Holding::Table(project), "dependencies"@))) is Some,
        !(value is List),
        0 <= i < items.len() && !(items[i] is Text),
    ensures
        member(Holding::Table(meridian), "roles"@) == Some(value) ==> declaration(pyproject) == Err::<
            Declared,
            Seq<char>,
        >("[tool.meridian] "@ + "roles"@ + " is not a list"@),
        member(Holding::Table(meridian), "roles"@) == Some(Holding::List(items)) ==> declaration(
            pyproject,
        ) == Err::<Declared, Seq<char>>(
            "[tool.meridian] "@ + "roles"@ + " holds something that is not a name"@,
        ),
        gives_names(Holding::Table(meridian), "roles"@, roles) ==> {
            &&& member(Holding::Table(meridian), "tags"@) == Some(value) ==> declaration(pyproject)
                == Err::<Declared, Seq<char>>("[tool.meridian] "@ + "tags"@ + " is not a list"@)
            &&& member(Holding::Table(meridian), "tags"@) == Some(Holding::List(items))
                ==> declaration(pyproject) == Err::<Declared, Seq<char>>(
                "[tool.meridian] "@ + "tags"@ + " holds something that is not a name"@,
            )
        },
{
    assert(all_strings(items) is None);
    lemma_names_given(Holding::Table(meridian), "roles"@);
    if gives_names(Holding::Table(meridian), "roles"@, roles) {
        match member(Holding::Table(meridian), "roles"@) {
            Some(Holding::List(listed)) => {
                assert(all_strings(listed) is Some);
            },
            _ => {},
        }
        assert(names_under(Holding::Table(meridian), "roles"@) is Ok);
    }
}

} // verus!
