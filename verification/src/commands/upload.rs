//! `meridian plugin upload`: build, push and record.
//!
//! The image is built on this machine, as the plugin's Dockerfile says, read
//! back with `docker save`, and pushed into the deployment's registry; then the
//! version is recorded with what the plugin says about itself and the image's
//! digest. What a plugin may do is its roles', from that; nothing here writes a
//! grant.
use vstd::prelude::*;
use vstd::string::*;

use crate::catalogue::image;
use crate::catalogue::image::{bytes_read, Found, Image, Pushable, Search};
use crate::catalogue::registry;
use crate::catalogue::registry::{from_blob, other_plugins, others, Push};
use crate::catalogue::{
    answered, catalogue_url, image_tag, metadata, metadata_of, outcome, record, record_members,
    recorded, refusal, Declared, Metadata,
};
use crate::commands::said_of;
use crate::order::{lemma_sorted, sorted};
use crate::path::{joined_path, under};
use crate::request::{not_reached, Reply, Request};
use crate::text::{join, joined, texts};
use crate::tree::{json_read, json_tells, json_written, list_or_empty};

verus! {

/// Where an upload goes, and what from.
pub struct Plan {
    pub address: Seq<char>,
    /// The plugin's directory.
    pub dir: Seq<char>,
}

/// How far an upload has come.
pub enum Stage {
    /// What the plugin says about itself is to be read.
    Project,
    /// Its image is to be built.
    Build(Declared),
    /// A directory is needed to read the image back in.
    Scratch(Declared),
    /// The image is to be saved there.
    Save(Declared, Seq<char>),
    /// What was saved is to be unpacked.
    Unpack(Declared, Seq<char>),
    /// The image is looked for in what was unpacked.
    Search(Declared, Seq<char>, image::Stage),
    /// It was found; which other plugins the registry holds is to be seen.
    Others(Declared, Seq<char>, Pushable),
    /// It is pushed.
    Push(Declared, Seq<char>, registry::Plan, registry::Step),
    /// It was, with this digest, or why it was not; the directory is to be
    /// removed.
    Clean(Declared, Seq<char>, Result<Seq<char>, Seq<char>>),
    /// The version is to be recorded with this digest.
    Record(Declared, Seq<char>),
    /// This is what came of it.
    End(Result<Seq<char>, Seq<char>>),
}

/// What an upload needs next.
pub enum Need {
    /// The text of this file.
    Text(Seq<char>),
    /// docker, run with these arguments.
    Docker(Seq<Seq<char>>),
    /// A new directory.
    Scratch,
    /// tar, run with these arguments.
    Tar(Seq<Seq<char>>),
    /// What the search for the image needs.
    Search(image::Need),
    /// What this address answers.
    Catalogue(Seq<char>),
    /// What the push needs.
    Push(registry::Need),
    /// This directory, removed.
    Remove(Seq<char>),
    /// What a request to record this is answered with.
    Record(Seq<char>, Declared, Seq<char>),
    /// Nothing: this is what came of it.
    Nothing(Result<Seq<char>, Seq<char>>),
}

/// What the plugin's image is called where it is built.
pub open spec fn tag_of(declared: Declared) -> Seq<char> {
    "meridian-plugin/"@ + declared.name + ":"@ + declared.version
}

/// What builds the image.
pub open spec fn build_arguments(plan: Plan, declared: Declared) -> Seq<Seq<char>> {
    seq!["build"@, "-t"@, tag_of(declared), plan.dir]
}

/// What saves the image.
pub open spec fn save_arguments(declared: Declared, scratch: Seq<char>) -> Seq<Seq<char>> {
    seq!["save"@, "-o"@, under(scratch, "image.tar"@), tag_of(declared)]
}

/// What unpacks what was saved.
pub open spec fn unpack_arguments(scratch: Seq<char>) -> Seq<Seq<char>> {
    seq!["-xf"@, under(scratch, "image.tar"@), "-C"@, scratch]
}

/// What an upload needs next.
pub open spec fn need(plan: Plan, stage: Stage) -> Need {
    match stage {
        Stage::Project => Need::Text(under(plan.dir, "pyproject.toml"@)),
        Stage::Build(declared) => Need::Docker(build_arguments(plan, declared)),
        Stage::Scratch(_) => Need::Scratch,
        Stage::Save(declared, scratch) => Need::Docker(save_arguments(declared, scratch)),
        Stage::Unpack(_, scratch) => Need::Tar(unpack_arguments(scratch)),
        Stage::Search(_, scratch, search) => Need::Search(image::need(scratch, search)),
        Stage::Others(..) => Need::Catalogue(plan.address + "/terminal/plugins"@),
        Stage::Push(_, _, what, step) => Need::Push(registry::need(what, step)),
        Stage::Clean(_, scratch, _) => Need::Remove(scratch),
        Stage::Record(declared, digest) => Need::Record(
            plan.address + "/terminal/plugins"@,
            declared,
            digest,
        ),
        Stage::End(came) => Need::Nothing(came),
    }
}

/// What came of running a command.
pub enum RanCame {
    NotRun(Seq<char>),
    Exited(bool),
}

/// What came of a request.
pub enum Answer {
    Unanswered(Seq<char>),
    Answered { success: bool, status: Seq<char>, body: Seq<char> },
}

/// What came of what was needed.
pub enum Came {
    Text(Result<Seq<char>, Seq<char>>),
    Docker(RanCame),
    Scratch(Result<Seq<char>, Seq<char>>),
    Tar(RanCame),
    Index(Result<Seq<u8>, Seq<char>>),
    File(image::Lookup),
    Presence(bool),
    Catalogue(Answer),
    Push(registry::Came),
    Removed,
    Recorded(Answer),
    /// There was nothing to ask the deployment with.
    NoClient(Seq<char>),
}

/// An end with a reason.
pub open spec fn failed(why: Seq<char>) -> (Stage, Seq<char>) {
    (Stage::End(Err(why)), Seq::empty())
}

/// Why docker did not do what it was run for, if it did not.
pub open spec fn docker_failed(arguments: Seq<Seq<char>>, came: RanCame) -> Option<Seq<char>> {
    match came {
        RanCame::NotRun(why) => Some("docker could not be run: "@ + why),
        RanCame::Exited(success) => if success {
            None
        } else {
            Some("`docker "@ + join(arguments, " "@) + "` failed"@)
        },
    }
}

/// After a step of the search for the image.
pub open spec fn after_search(
    declared: Declared,
    scratch: Seq<char>,
    r: Result<image::Stage, Seq<char>>,
) -> (Stage, Seq<char>) {
    match r {
        Err(why) => failed(why),
        Ok(search) => match image::need(scratch, search) {
            image::Need::Nothing(found) => (
                Stage::Others(declared, scratch, found),
                Seq::empty(),
            ),
            image::Need::Refused(why) => failed(why),
            _ => (Stage::Search(declared, scratch, search), Seq::empty()),
        },
    }
}

/// The other plugins whose repositories a blob may be mounted from, by what the
/// catalogue answered: none where it could not be read.
pub open spec fn mountable(declared: Declared, answer: Answer) -> Seq<Seq<char>> {
    match answer {
        Answer::Answered { success, status, body } => match outcome(success, status, body) {
            Ok(held) => sorted(others(list_or_empty(held, "versions"@), declared.name)),
            Err(_) => Seq::empty(),
        },
        Answer::Unanswered(_) => Seq::empty(),
    }
}

/// After a step of the push.
pub open spec fn after_push(
    declared: Declared,
    scratch: Seq<char>,
    what: registry::Plan,
    r: Result<(registry::Step, Option<Seq<char>>), Seq<char>>,
) -> (Stage, Seq<char>) {
    match r {
        Err(why) => (Stage::Clean(declared, scratch, Err(why)), Seq::empty()),
        Ok((step, note)) => (
            if step is Done {
                Stage::Clean(declared, scratch, Ok(what.image.digest))
            } else {
                Stage::Push(declared, scratch, what, step)
            },
            match note {
                Some(note) => note + "\n"@,
                None => Seq::empty(),
            },
        ),
    }
}

/// What comes next, and what to print.
pub open spec fn after(plan: Plan, stage: Stage, came: Came) -> (Stage, Seq<char>) {
    match (stage, came) {
        (Stage::Project, Came::Text(read)) => match read {
            Err(why) => failed(plan.dir + " has no pyproject.toml: "@ + why),
            Ok(text) => match metadata_of(text) {
                Err(why) => failed(why),
                Ok(declared) => (
                    Stage::Build(declared),
                    "Building "@ + tag_of(declared) + " from "@ + plan.dir + " ...\n"@,
                ),
            },
        },
        (Stage::Build(declared), Came::Docker(came)) => match docker_failed(
            build_arguments(plan, declared),
            came,
        ) {
            Some(why) => failed(why),
            None => (Stage::Scratch(declared), Seq::empty()),
        },
        (Stage::Scratch(declared), Came::Scratch(made)) => match made {
            Err(why) => failed(why),
            Ok(scratch) => (Stage::Save(declared, scratch), Seq::empty()),
        },
        (Stage::Save(declared, scratch), Came::Docker(came)) => match docker_failed(
            save_arguments(declared, scratch),
            came,
        ) {
            Some(why) => failed(why),
            None => (Stage::Unpack(declared, scratch), Seq::empty()),
        },
        (Stage::Unpack(declared, scratch), Came::Tar(came)) => match came {
            RanCame::NotRun(why) => failed("tar could not be run: "@ + why),
            RanCame::Exited(success) => if success {
                (Stage::Search(declared, scratch, image::Stage::Opening), Seq::empty())
            } else {
                failed("the saved image could not be unpacked"@)
            },
        },
        (Stage::Search(declared, scratch, search), Came::Index(read)) => after_search(
            declared,
            scratch,
            image::after_index(scratch, search, read),
        ),
        (Stage::Search(declared, scratch, search), Came::File(found)) => after_search(
            declared,
            scratch,
            image::after_file(scratch, search, found),
        ),
        (Stage::Search(declared, scratch, search), Came::Presence(present)) => after_search(
            declared,
            scratch,
            image::after_presence(scratch, search, present),
        ),
        (Stage::Others(declared, scratch, found), Came::Catalogue(answer)) => {
            let what = registry::Plan {
                address: plan.address,
                name: declared.name,
                version: declared.version,
                image: found,
                others: mountable(declared, answer),
            };
            (Stage::Push(declared, scratch, what, from_blob(what, 0)), Seq::empty())
        },
        (Stage::Push(declared, scratch, what, step), Came::Push(came)) => after_push(
            declared,
            scratch,
            what,
            registry::after(what, step, came),
        ),
        (Stage::Clean(declared, _, pushed), Came::Removed) => match pushed {
            Ok(digest) => (Stage::Record(declared, digest), Seq::empty()),
            Err(why) => failed(why),
        },
        (Stage::Record(declared, digest), Came::Recorded(answer)) => match answer {
            Answer::Unanswered(why) => failed("could not reach "@ + plan.address + ": "@ + why),
            Answer::Answered { success, status, body } => if success {
                (Stage::End(Ok(digest)), Seq::empty())
            } else {
                failed(
                    "the version was not recorded: "@ + refusal(status, json_read(body), body),
                )
            },
        },
        (Stage::Others(declared, scratch, _), Came::NoClient(why)) => (
            Stage::Clean(declared, scratch, Err(why)),
            Seq::empty(),
        ),
        (Stage::Push(declared, scratch, _, _), Came::NoClient(why)) => (
            Stage::Clean(declared, scratch, Err(why)),
            Seq::empty(),
        ),
        (Stage::Record(..), Came::NoClient(why)) => failed(why),
        _ => (stage, Seq::empty()),
    }
}

// ── What holds of every course ───────────────────────────────────────────────

/// The digest that a version is recorded with, once it is known.
pub open spec fn digest_pushed(stage: Stage) -> Option<Seq<char>> {
    match stage {
        Stage::Clean(_, _, Ok(digest)) => Some(digest),
        Stage::Record(_, digest) => Some(digest),
        Stage::End(Ok(digest)) => Some(digest),
        _ => None,
    }
}

/// A version is recorded with what was pushed, and with nothing else: a digest
/// comes to be known as the push of an image with that digest is done, and from
/// then on it stays what it is.
pub proof fn a_version_is_recorded_with_what_was_pushed(plan: Plan, stage: Stage, came: Came)
    ensures
        digest_pushed(after(plan, stage, came).0) matches Some(digest) ==> {
            ||| digest_pushed(stage) == Some(digest)
            ||| stage matches Stage::Push(_, _, what, step) && what.image.digest == digest && (
            came matches Came::Push(came) && (registry::after(what, step, came) matches Ok((done, _))
                && done is Done))
        },
{
}

/// What is pushed is the image that was found, as the version that the plugin
/// says it is, into its own repository.
pub proof fn what_is_pushed_is_what_was_found(
    plan: Plan,
    declared: Declared,
    scratch: Seq<char>,
    found: Pushable,
    answer: Answer,
)
    ensures
        after(plan, Stage::Others(declared, scratch, found), Came::Catalogue(answer)).0 matches Stage::Push(
            still,
            there,
            what,
            step,
        ) && still == declared && there == scratch && what.image == found && what.name
            == declared.name && what.version == declared.version && what.address == plan.address
            && step == from_blob(what, 0),
{
}

/// An upload from its start to the search for the image: the plugin's own
/// pyproject.toml is read, what it declares is what is built, under the plugin's
/// name and version and from its own directory, and that image is saved into a
/// directory of its own and unpacked there. What cannot be read, is refused, or
/// cannot be built, saved or unpacked ends it.
pub proof fn an_upload_builds_and_reads_back_the_plugins_own_image(
    plan: Plan,
    text: Seq<char>,
    declared: Declared,
    scratch: Seq<char>,
    why: Seq<char>,
)
    ensures
        ({
            let tag = "meridian-plugin/"@ + declared.name + ":"@ + declared.version;
            let tar = under(scratch, "image.tar"@);
            let yes = RanCame::Exited(true);
            let no = RanCame::Exited(false);
            let lost = RanCame::NotRun(why);
            let saving = Stage::Save(declared, scratch);
            let unpacking = Stage::Unpack(declared, scratch);
            &&& need(plan, Stage::Project) == Need::Text(under(plan.dir, "pyproject.toml"@))
            &&& after(plan, Stage::Project, Came::Text(Err(why))).0 matches Stage::End(Err(_))
            &&& metadata_of(text) == Ok::<Declared, Seq<char>>(declared) ==> after(
                plan,
                Stage::Project,
                Came::Text(Ok(text)),
            ).0 == Stage::Build(declared)
            &&& metadata_of(text) == Err::<Declared, Seq<char>>(why) ==> after(
                plan,
                Stage::Project,
                Came::Text(Ok(text)),
            ).0 == Stage::End(Err(why))
            &&& need(plan, Stage::Build(declared)) == Need::Docker(
                seq!["build"@, "-t"@, tag, plan.dir],
            )
            &&& after(plan, Stage::Build(declared), Came::Docker(yes)).0 == Stage::Scratch(declared)
            &&& after(plan, Stage::Build(declared), Came::Docker(no)).0 == Stage::End(
                Err(
                    "`docker "@ + join(seq!["build"@, "-t"@, tag, plan.dir], " "@) + "` failed"@,
                ),
            )
            &&& after(plan, Stage::Build(declared), Came::Docker(lost)).0 == Stage::End(
                Err("docker could not be run: "@ + why),
            )
            &&& need(plan, Stage::Scratch(declared)) is Scratch
            &&& after(plan, Stage::Scratch(declared), Came::Scratch(Ok(scratch))).0 == saving
            &&& after(plan, Stage::Scratch(declared), Came::Scratch(Err(why))).0 == Stage::End(
                Err(why),
            )
            &&& need(plan, saving) == Need::Docker(seq!["save"@, "-o"@, tar, tag])
            &&& after(plan, saving, Came::Docker(yes)).0 == unpacking
            &&& after(plan, saving, Came::Docker(no)).0 matches Stage::End(Err(_))
            &&& after(plan, saving, Came::Docker(lost)).0 matches Stage::End(Err(_))
            &&& need(plan, unpacking) == Need::Tar(seq!["-xf"@, tar, "-C"@, scratch])
            &&& after(plan, unpacking, Came::Tar(yes)).0 == Stage::Search(
                declared,
                scratch,
                image::Stage::Opening,
            )
            &&& after(plan, unpacking, Came::Tar(no)).0 matches Stage::End(Err(_))
            &&& after(plan, unpacking, Came::Tar(lost)).0 matches Stage::End(Err(_))
        }),
{
}

/// A search that goes on goes on with what it was told; the image that it yields
/// is the one that is pushed, and what ends it ends the upload.
pub proof fn the_image_that_is_found_is_the_one_that_is_pushed(
    plan: Plan,
    declared: Declared,
    scratch: Seq<char>,
    search: image::Stage,
    read: Result<Seq<u8>, Seq<char>>,
    found: image::Lookup,
    present: bool,
)
    ensures
        ({
            let stage = Stage::Search(declared, scratch, search);
            let follows = |r: Result<image::Stage, Seq<char>>, next: Stage|
                match r {
                    Err(why) => next == Stage::End(Err(why)),
                    Ok(then) => match image::need(scratch, then) {
                        image::Need::Nothing(image) => next == Stage::Others(
                            declared,
                            scratch,
                            image,
                        ),
                        image::Need::Refused(why) => next == Stage::End(Err(why)),
                        _ => next == Stage::Search(declared, scratch, then),
                    },
                };
            &&& need(plan, stage) == Need::Search(image::need(scratch, search))
            &&& follows(
                image::after_index(scratch, search, read),
                after(plan, stage, Came::Index(read)).0,
            )
            &&& follows(
                image::after_file(scratch, search, found),
                after(plan, stage, Came::File(found)).0,
            )
            &&& follows(
                image::after_presence(scratch, search, present),
                after(plan, stage, Came::Presence(present)).0,
            )
        }),
{
}

/// An upload from the image that was found to its end: the catalogue is asked
/// for the other plugins, the image is pushed, the directory is removed whether
/// or not that went well, and only then is the version recorded, with what the
/// plugin declared and the image's digest; it is done where the deployment says
/// so.
pub proof fn an_upload_records_what_it_pushed_and_leaves_nothing(
    plan: Plan,
    declared: Declared,
    scratch: Seq<char>,
    found: Pushable,
    what: registry::Plan,
    step: registry::Step,
    came: registry::Came,
    success: bool,
    status: Seq<char>,
    body: Seq<char>,
    why: Seq<char>,
)
    ensures
        ({
            let pushing = Stage::Push(declared, scratch, what, step);
            let pushed = after(plan, pushing, Came::Push(came)).0;
            let recording = Stage::Record(declared, what.image.digest);
            let recorded = after(
                plan,
                recording,
                Came::Recorded(Answer::Answered { success, status, body }),
            ).0;
            &&& need(plan, Stage::Others(declared, scratch, found)) == Need::Catalogue(
                plan.address + "/terminal/plugins"@,
            )
            &&& need(plan, pushing) == Need::Push(registry::need(what, step))
            &&& match registry::after(what, step, came) {
                Err(failed) => pushed == Stage::Clean(declared, scratch, Err(failed)),
                Ok((next, _)) => if next is Done {
                    pushed == Stage::Clean(declared, scratch, Ok(what.image.digest))
                } else {
                    pushed == Stage::Push(declared, scratch, what, next)
                },
            }
            &&& need(plan, Stage::Clean(declared, scratch, Ok(what.image.digest))) == Need::Remove(
                scratch,
            )
            &&& need(plan, Stage::Clean(declared, scratch, Err(why))) == Need::Remove(scratch)
            &&& after(
                plan,
                Stage::Clean(declared, scratch, Ok(what.image.digest)),
                Came::Removed,
            ).0 == recording
            &&& after(plan, Stage::Clean(declared, scratch, Err(why)), Came::Removed).0
                == Stage::End(Err(why))
            &&& need(plan, recording) == Need::Record(
                plan.address + "/terminal/plugins"@,
                declared,
                what.image.digest,
            )
            &&& success ==> recorded == Stage::End(Ok(what.image.digest))
            &&& !success ==> (recorded matches Stage::End(Err(_)))
            &&& after(plan, recording, Came::Recorded(Answer::Unanswered(why))).0 matches Stage::End(
                Err(_),
            )
        }),
{
}

/// A blob may be mounted from another plugin that the catalogue names, never
/// from the plugin itself, and from none where the catalogue could not be read.
pub proof fn what_may_be_mounted_from_is_another_plugin(
    declared: Declared,
    status: Seq<char>,
    body: Seq<char>,
    why: Seq<char>,
)
    ensures
        mountable(declared, Answer::Unanswered(why)).len() == 0,
        mountable(declared, Answer::Answered { success: false, status, body }).len() == 0,
        json_read(body) matches Ok(held) ==> mountable(
            declared,
            Answer::Answered { success: true, status, body },
        ) == sorted(others(list_or_empty(held, "versions"@), declared.name)) && !others(
            list_or_empty(held, "versions"@),
            declared.name,
        ).contains(declared.name),
{
    if let Ok(held) = json_read(body) {
        registry::a_blob_is_mounted_from_other_plugins_only(
            list_or_empty(held, "versions"@),
            declared.name,
            declared.name,
        );
    }
}

// ── An upload ────────────────────────────────────────────────────────────────

/// What running a command came to.
#[derive(Debug)]
pub enum Ran {
    /// It could not be run.
    NotRun(String),
    /// It ended, successfully or not.
    Exited(bool),
}

impl View for Ran {
    type V = RanCame;

    open spec fn view(&self) -> RanCame {
        match self {
            Ran::NotRun(why) => RanCame::NotRun(why@),
            Ran::Exited(success) => RanCame::Exited(*success),
        }
    }
}

/// What came of a request.
pub open spec fn answer_of(r: Result<Reply, String>) -> Answer {
    match r {
        Ok(reply) => Answer::Answered {
            success: reply.success,
            status: reply.status@,
            body: reply.body@,
        },
        Err(why) => Answer::Unanswered(why@),
    }
}

/// What came of what an upload asked for.
#[derive(Debug)]
pub enum Heard {
    /// The file's text, or why it could not be read.
    Text(Result<String, String>),
    Docker(Ran),
    /// A new directory, or why there is none.
    Scratch(Result<String, String>),
    Tar(Ran),
    /// What the layout's index holds, or why it could not be read.
    Index(Result<Vec<u8>, String>),
    /// What was found where a file of the layout was looked for.
    File(Found),
    /// Whether a blob is there.
    Presence(bool),
    /// What the catalogue answered, or why it could not be reached.
    Catalogue(Result<Reply, String>),
    Push(registry::Heard),
    /// The directory was removed, or could not be.
    Removed,
    /// What the deployment answered, or why it could not be reached.
    Recorded(Result<Reply, String>),
    /// There was nothing to ask the deployment with.
    NoClient(String),
}

impl View for Heard {
    type V = Came;

    open spec fn view(&self) -> Came {
        match self {
            Heard::Text(read) => Came::Text(crate::up::run::text_read(*read)),
            Heard::Docker(ran) => Came::Docker(ran@),
            Heard::Scratch(made) => Came::Scratch(crate::up::run::text_read(*made)),
            Heard::Tar(ran) => Came::Tar(ran@),
            Heard::Index(read) => Came::Index(bytes_read(*read)),
            Heard::File(found) => Came::File(found@),
            Heard::Presence(present) => Came::Presence(*present),
            Heard::Catalogue(answer) => Came::Catalogue(answer_of(*answer)),
            Heard::Push(heard) => Came::Push(heard@),
            Heard::Removed => Came::Removed,
            Heard::Recorded(answer) => Came::Recorded(answer_of(*answer)),
            Heard::NoClient(why) => Came::NoClient(why@),
        }
    }
}

#[derive(Debug)]
enum At {
    Project,
    Build(Metadata),
    Scratch(Metadata),
    Save(Metadata, String),
    Unpack(Metadata, String),
    Search(Metadata, String, Search),
    Others(Metadata, String, Image),
    Push(Metadata, String, Push),
    Clean(Metadata, String, Result<String, String>),
    Record(Metadata, String),
    End(Result<String, String>),
}

impl View for At {
    type V = Stage;

    closed spec fn view(&self) -> Stage {
        match self {
            At::Project => Stage::Project,
            At::Build(declared) => Stage::Build(declared@),
            At::Scratch(declared) => Stage::Scratch(declared@),
            At::Save(declared, scratch) => Stage::Save(declared@, scratch@),
            At::Unpack(declared, scratch) => Stage::Unpack(declared@, scratch@),
            At::Search(declared, scratch, search) => Stage::Search(
                declared@,
                scratch@,
                search.stage(),
            ),
            At::Others(declared, scratch, found) => Stage::Others(declared@, scratch@, found@),
            At::Push(declared, scratch, push) => Stage::Push(
                declared@,
                scratch@,
                push.plan(),
                push.step(),
            ),
            At::Clean(declared, scratch, pushed) => Stage::Clean(
                declared@,
                scratch@,
                crate::up::run::text_read(*pushed),
            ),
            At::Record(declared, digest) => Stage::Record(declared@, digest@),
            At::End(came) => Stage::End(crate::up::run::text_read(*came)),
        }
    }
}

/// The search is of the directory that was unpacked in.
spec fn searches_there(at: At) -> bool {
    at matches At::Search(_, scratch, search) ==> search.layout() == scratch@
}

/// A plugin being uploaded.
#[derive(Debug)]
pub struct Uploading {
    address: String,
    dir: String,
    at: At,
}

/// What an upload asks for.
#[derive(Debug)]
pub enum Ask {
    /// The text of the file at this path.
    Text(String),
    /// docker, run with these arguments.
    Docker(Vec<String>),
    /// A new directory.
    Scratch,
    /// tar, run with these arguments.
    Tar(Vec<String>),
    /// What the search for the image asks for.
    Search(image::Ask),
    /// What this address answers.
    Catalogue(String),
    /// What the push asks for.
    Push(registry::Ask),
    /// The directory at this path, removed.
    Remove(String),
    /// What this request is answered with.
    Record(Request),
    /// Nothing: this is the digest that was recorded, or why none was.
    Nothing(Result<String, String>),
}

fn ended(why: String) -> (r: (At, String))
    ensures
        (r.0@, r.1@) == failed(why@),
        searches_there(r.0),
{
    (At::End(Err(why)), String::new())
}

fn build_words(dir: &str, declared: &Metadata, Ghost(plan): Ghost<Plan>) -> (out: Vec<String>)
    requires
        plan.dir == dir@,
    ensures
        texts(out@) == build_arguments(plan, declared@),
{
    let out = vec!["build".to_owned(), "-t".to_owned(), image_tag(declared), dir.to_owned()];
    assert(texts(out@) =~= build_arguments(plan, declared@));
    out
}

fn save_words(declared: &Metadata, scratch: &str) -> (out: Vec<String>)
    ensures
        texts(out@) == save_arguments(declared@, scratch@),
{
    let out = vec![
        "save".to_owned(),
        "-o".to_owned(),
        joined_path(scratch, "image.tar"),
        image_tag(declared),
    ];
    assert(texts(out@) =~= save_arguments(declared@, scratch@));
    out
}

fn unpack_words(scratch: &str) -> (out: Vec<String>)
    ensures
        texts(out@) == unpack_arguments(scratch@),
{
    let out = vec![
        "-xf".to_owned(),
        joined_path(scratch, "image.tar"),
        "-C".to_owned(),
        scratch.to_owned(),
    ];
    assert(texts(out@) =~= unpack_arguments(scratch@));
    out
}

fn docker(arguments: &Vec<String>, ran: &Ran) -> (r: Option<String>)
    ensures
        crate::catalogue::image::optional(r) == docker_failed(texts(arguments@), ran@),
{
    match ran {
        Ran::NotRun(why) => Some(said_of("docker could not be run: ", why.as_str())),
        Ran::Exited(success) => {
            if *success {
                return None;
            }
            let mut why = said_of("`docker ", joined(arguments, " ").as_str());
            why.append("` failed");
            Some(why)
        },
    }
}

fn searched(declared: Metadata, scratch: String, r: Result<Search, String>) -> (out: (At, String))
    requires
        r matches Ok(search) ==> search.layout() == scratch@,
    ensures
        (out.0@, out.1@) == after_search(declared@, scratch@, image::progress(r)),
        searches_there(out.0),
{
    let search = match r {
        Ok(search) => search,
        Err(why) => {
            return ended(why);
        },
    };
    match search.ask() {
        image::Ask::Nothing(found) => (At::Others(declared, scratch, found), String::new()),
        image::Ask::Refused(why) => ended(why),
        _ => (At::Search(declared, scratch, search), String::new()),
    }
}

/// The other plugins whose repositories a blob may be mounted from.
fn mounts(declared: &Metadata, answer: &Result<Reply, String>) -> (out: Vec<String>)
    ensures
        texts(out@) == mountable(declared@, answer_of(*answer)),
{
    let none: Vec<String> = Vec::new();
    assert(texts(none@) =~= Seq::<Seq<char>>::empty());
    let reply = match answer {
        Ok(reply) => reply,
        Err(_) => {
            return none;
        },
    };
    match answered(reply) {
        Ok(held) => {
            let names = other_plugins(&held, declared.name.as_str());
            proof {
                lemma_sorted(names.in_order());
            }
            let list = names.as_list();
            let mut out: Vec<String> = Vec::new();
            let mut i: usize = 0;
            while i < list.len()
                invariant
                    i <= list@.len(),
                    texts(out@) =~= texts(list@).take(i as int),
                decreases list@.len() - i,
            {
                let ghost before = texts(out@);
                out.push(list[i].clone());
                assert(texts(out@) =~= before.push(list@[i as int]@));
                i += 1;
            }
            assert(texts(out@) =~= texts(list@));
            out
        },
        Err(_) => none,
    }
}

fn pushed(
    declared: Metadata,
    scratch: String,
    digest: String,
    r: Result<(Push, Option<String>), String>,
    Ghost(what): Ghost<registry::Plan>,
) -> (out: (At, String))
    requires
        digest@ == what.image.digest,
        r matches Ok((next, _)) ==> next.plan() == what,
    ensures
        (out.0@, out.1@) == after_push(declared@, scratch@, what, registry::told_of(r)),
        searches_there(out.0),
{
    match r {
        Err(why) => (At::Clean(declared, scratch, Err(why)), String::new()),
        Ok((push, note)) => {
            let said = match note {
                Some(note) => said_of(note.as_str(), "\n"),
                None => String::new(),
            };
            if push.done() {
                (At::Clean(declared, scratch, Ok(digest)), said)
            } else {
                (At::Push(declared, scratch, push), said)
            }
        },
    }
}

impl Uploading {
    /// Where the upload goes, and what from.
    pub closed spec fn plan(&self) -> Plan {
        Plan { address: self.address@, dir: self.dir@ }
    }

    /// How far the upload has come.
    pub closed spec fn stage(&self) -> Stage {
        self.at@
    }

    #[verifier::type_invariant]
    spec fn searches_what_it_unpacked(&self) -> bool {
        searches_there(self.at)
    }

    /// An upload of the plugin in this directory, to the deployment at this
    /// address.
    pub fn begin(address: &str, dir: &str) -> (uploading: Uploading)
        ensures
            uploading.plan() == (Plan { address: address@, dir: dir@ }),
            uploading.stage() == Stage::Project,
    {
        Uploading { address: address.to_owned(), dir: dir.to_owned(), at: At::Project }
    }

    /// What the upload needs next.
    pub fn ask(&self) -> (ask: Ask)
        ensures
            match ask {
                Ask::Text(path) => need(self.plan(), self.stage()) == Need::Text(path@),
                Ask::Docker(arguments) => need(self.plan(), self.stage()) == Need::Docker(
                    texts(arguments@),
                ),
                Ask::Scratch => need(self.plan(), self.stage()) == Need::Scratch,
                Ask::Tar(arguments) => need(self.plan(), self.stage()) == Need::Tar(
                    texts(arguments@),
                ),
                Ask::Search(ask) => need(self.plan(), self.stage()) == Need::Search(ask@),
                Ask::Catalogue(url) => need(self.plan(), self.stage()) == Need::Catalogue(url@),
                Ask::Push(ask) => need(self.plan(), self.stage()) == Need::Push(ask@),
                Ask::Remove(path) => need(self.plan(), self.stage()) == Need::Remove(path@),
                Ask::Record(request) => need(self.plan(), self.stage()) matches Need::Record(
                    url,
                    declared,
                    digest,
                ) && request.url@ == url && request.content_type@ == "application/json"@
                    && request.body@ == json_written(record_members(declared, digest))
                    && json_tells(request.body@, record_members(declared, digest)),
                Ask::Nothing(came) => need(self.plan(), self.stage()) == Need::Nothing(
                    crate::up::run::text_read(came),
                ),
            },
    {
        proof {
            use_type_invariant(self);
        }
        match &self.at {
            At::Project => Ask::Text(joined_path(self.dir.as_str(), "pyproject.toml")),
            At::Build(declared) => Ask::Docker(
                build_words(self.dir.as_str(), declared, Ghost(self.plan())),
            ),
            At::Scratch(_) => Ask::Scratch,
            At::Save(declared, scratch) => Ask::Docker(save_words(declared, scratch.as_str())),
            At::Unpack(_, scratch) => Ask::Tar(unpack_words(scratch.as_str())),
            At::Search(_, _, search) => Ask::Search(search.ask()),
            At::Others(..) => Ask::Catalogue(catalogue_url(self.address.as_str())),
            At::Push(_, _, push) => Ask::Push(push.ask()),
            At::Clean(_, scratch, _) => Ask::Remove(scratch.clone()),
            At::Record(declared, digest) => Ask::Record(
                record(self.address.as_str(), declared, digest.as_str()),
            ),
            At::End(Ok(digest)) => Ask::Nothing(Ok(digest.clone())),
            At::End(Err(why)) => Ask::Nothing(Err(why.clone())),
        }
    }

    /// What comes next, after what came of what was asked for, and what to
    /// print. If that was not asked for, nothing changes.
    pub fn told(self, heard: Heard) -> (r: (Uploading, String))
        ensures
            (r.0.stage(), r.1@) == after(self.plan(), self.stage(), heard@),
            r.0.plan() == self.plan(),
    {
        proof {
            use_type_invariant(&self);
        }
        let ghost plan = self.plan();
        let address = self.address;
        let dir = self.dir;
        let (at, note) = match (self.at, heard) {
            (At::Project, Heard::Text(read)) => match read {
                Err(why) => {
                    let mut said = said_of(dir.as_str(), " has no pyproject.toml: ");
                    said.append(why.as_str());
                    ended(said)
                },
                Ok(text) => match metadata(text.as_str()) {
                    Err(why) => ended(why),
                    Ok(declared) => {
                        let mut note = said_of("Building ", image_tag(&declared).as_str());
                        note.append(" from ");
                        note.append(dir.as_str());
                        note.append(" ...\n");
                        (At::Build(declared), note)
                    },
                },
            },
            (At::Build(declared), Heard::Docker(ran)) => match docker(
                &build_words(dir.as_str(), &declared, Ghost(plan)),
                &ran,
            ) {
                Some(why) => ended(why),
                None => (At::Scratch(declared), String::new()),
            },
            (At::Scratch(declared), Heard::Scratch(made)) => match made {
                Err(why) => ended(why),
                Ok(scratch) => (At::Save(declared, scratch), String::new()),
            },
            (At::Save(declared, scratch), Heard::Docker(ran)) => match docker(
                &save_words(&declared, scratch.as_str()),
                &ran,
            ) {
                Some(why) => ended(why),
                None => (At::Unpack(declared, scratch), String::new()),
            },
            (At::Unpack(declared, scratch), Heard::Tar(ran)) => match ran {
                Ran::NotRun(why) => ended(said_of("tar could not be run: ", why.as_str())),
                Ran::Exited(success) => {
                    if success {
                        let search = Search::begin(scratch.as_str());
                        (At::Search(declared, scratch, search), String::new())
                    } else {
                        ended("the saved image could not be unpacked".to_owned())
                    }
                },
            },
            (At::Search(declared, scratch, search), Heard::Index(read)) => searched(
                declared,
                scratch,
                search.index(read),
            ),
            (At::Search(declared, scratch, search), Heard::File(found)) => searched(
                declared,
                scratch,
                search.file(found),
            ),
            (At::Search(declared, scratch, search), Heard::Presence(present)) => searched(
                declared,
                scratch,
                search.presence(present),
            ),
            (At::Others(declared, scratch, found), Heard::Catalogue(answer)) => {
                let others = mounts(&declared, &answer);
                let push = Push::begin(
                    address.as_str(),
                    declared.name.as_str(),
                    declared.version.as_str(),
                    found,
                    others,
                );
                (At::Push(declared, scratch, push), String::new())
            },
            (At::Push(declared, scratch, push), Heard::Push(heard)) => {
                let digest = push.digest();
                let ghost what = push.plan();
                pushed(declared, scratch, digest, push.told(heard), Ghost(what))
            },
            (At::Clean(declared, _, came), Heard::Removed) => match came {
                Ok(digest) => (At::Record(declared, digest), String::new()),
                Err(why) => ended(why),
            },
            (At::Record(_, digest), Heard::Recorded(answer)) => match answer {
                Err(why) => ended(not_reached(address.as_str(), why.as_str())),
                Ok(reply) => match recorded(&reply) {
                    Ok(_) => (At::End(Ok(digest)), String::new()),
                    Err(why) => ended(why),
                },
            },
            (At::Others(declared, scratch, _), Heard::NoClient(why)) => (
                At::Clean(declared, scratch, Err(why)),
                String::new(),
            ),
            (At::Push(declared, scratch, _), Heard::NoClient(why)) => (
                At::Clean(declared, scratch, Err(why)),
                String::new(),
            ),
            (At::Record(..), Heard::NoClient(why)) => ended(why),
            (at, _) => (at, String::new()),
        };
        (Uploading { address, dir, at }, note)
    }
}

} // verus!
