//! `meridian plugin`: what of it was asked for, and launching a version.
use vstd::prelude::*;
use vstd::string::*;

use crate::arguments::{
    a_flag_that_is_typed_last_counts, a_switch_or_a_word_that_is_typed_is_kept, is_switch, parsed,
    something_is_assumed_only_where_nothing_was_typed, the_last_value_given_is_the_flags_value,
    typed_or, value_of, value_or, was_typed, Arguments, Given,
};
use crate::catalogue::{
    answered, catalogue_url, declared, declared_by, host_label, is_name, is_of, launch,
    launch_members, listed_names, names_listed, outcome,
    what_is_declared_is_of_that_plugin_and_that_version,
};
use crate::commands::{badly, ended_badly, ended_misused, misused, said_of, End, Ended};
use crate::request::{not_reached, Reply, Request};
use crate::text::{same, texts, trim, trimmed};
use crate::tree::{
    json_read, json_tells, json_written, list_member, list_or_empty, member, strings, Holding,
};

verus! {

// ── What was asked for ───────────────────────────────────────────────────────

/// What of `meridian plugin` was asked for.
#[derive(Debug, PartialEq, Eq)]
pub enum Plugin {
    /// One of the catalogue's commands.
    Catalogue,
    /// A new plugin by this name, written there.
    New { name: String, into: String },
}

/// One of the catalogue's commands.
pub open spec fn catalogue_verb(verb: Seq<char>) -> bool {
    verb == "upload"@ || verb == "list"@ || verb == "launch"@ || verb == "stop"@
}

/// What of `meridian plugin` was asked for: nothing for the catalogue's
/// commands, or the name of a new plugin and where it is written.
pub open spec fn plugin_asked(given: Given) -> Result<Option<(Seq<char>, Seq<char>)>, Ended> {
    if given.words.len() > 0 && catalogue_verb(given.words[0]) {
        Ok(None)
    } else if given.words.len() == 2 && given.words[0] == "new"@ {
        Ok(
            Some(
                (
                    given.words[1],
                    value_or(given.flags, "--into"@, "--into"@, given.words[1]),
                ),
            ),
        )
    } else {
        Err(
            misused(
                "meridian: plugin takes `new <name>`, `upload`, `list`, `launch <name> <version>` or `stop <instance>`"@,
            ),
        )
    }
}

/// What of `meridian plugin` was asked for.
pub fn plugin_command(arguments: &Arguments) -> (r: Result<Plugin, End>)
    ensures
        match r {
            Ok(Plugin::Catalogue) => plugin_asked(arguments@) == Ok::<
                Option<(Seq<char>, Seq<char>)>,
                Ended,
            >(None),
            Ok(Plugin::New { name, into }) => plugin_asked(arguments@) == Ok::<
                Option<(Seq<char>, Seq<char>)>,
                Ended,
            >(Some((name@, into@))),
            Err(end) => plugin_asked(arguments@) == Err::<Option<(Seq<char>, Seq<char>)>, Ended>(
                end@,
            ),
        },
{
    let n: usize = arguments.words.len();
    if n > 0 {
        assert(arguments@.words[0] == arguments.words@[0]@);
        let verb = arguments.words[0].as_str();
        if same(verb, "upload") || same(verb, "list") || same(verb, "launch") || same(
            verb,
            "stop",
        ) {
            return Ok(Plugin::Catalogue);
        }
        if n == 2 && same(verb, "new") {
            assert(arguments@.words[1] == arguments.words@[1]@);
            let name = arguments.words[1].clone();
            let into = arguments.value_or("--into", "--into", name.as_str());
            return Ok(Plugin::New { name, into });
        }
    }
    Err(
        ended_misused(
            "meridian: plugin takes `new <name>`, `upload`, `list`, `launch <name> <version>` or `stop <instance>`",
        ),
    )
}

/// What is asked of the catalogue.
#[derive(Debug, PartialEq, Eq)]
pub enum Action {
    Upload { dir: String },
    List,
    /// With whether it was approved beforehand.
    Launch { name: String, version: String, instance: String, approved: bool },
    Stop { instance: String },
}

/// What is asked of the catalogue, in texts.
pub enum Acting {
    Upload(Seq<char>),
    List,
    Launch { name: Seq<char>, version: Seq<char>, instance: Seq<char>, approved: bool },
    Stop(Seq<char>),
}

impl View for Action {
    type V = Acting;

    open spec fn view(&self) -> Acting {
        match self {
            Action::Upload { dir } => Acting::Upload(dir@),
            Action::List => Acting::List,
            Action::Launch { name, version, instance, approved } => Acting::Launch {
                name: name@,
                version: version@,
                instance: instance@,
                approved: *approved,
            },
            Action::Stop { instance } => Acting::Stop(instance@),
        }
    }
}

/// The word that asks for it.
pub open spec fn verb_of(acting: Acting) -> Seq<char> {
    match acting {
        Acting::Upload(_) => "upload"@,
        Acting::List => "list"@,
        Acting::Launch { .. } => "launch"@,
        Acting::Stop(_) => "stop"@,
    }
}

impl Action {
    /// The word that asks for it, which a refusal names.
    pub fn verb(&self) -> (verb: String)
        ensures
            verb@ == verb_of(self@),
    {
        match self {
            Action::Upload { .. } => "upload".to_owned(),
            Action::List => "list".to_owned(),
            Action::Launch { .. } => "launch".to_owned(),
            Action::Stop { .. } => "stop".to_owned(),
        }
    }
}

/// What is asked of the catalogue, by what was typed.
pub open spec fn acting(given: Given) -> Result<Acting, Ended> {
    let words = given.words;
    if words.len() == 1 && words[0] == "upload"@ {
        Ok(Acting::Upload(value_or(given.flags, "--dir"@, "--dir"@, "."@)))
    } else if words.len() == 1 && words[0] == "list"@ {
        Ok(Acting::List)
    } else if words.len() == 3 && words[0] == "launch"@ {
        match value_of(given.flags, "--instance"@, "--instance"@) {
            None => Err(
                badly(2, "meridian plugin launch: --instance <id> names what it runs as"@),
            ),
            Some(instance) => if host_label(instance) {
                Ok(
                    Acting::Launch {
                        name: words[1],
                        version: words[2],
                        instance,
                        approved: given.switches.contains("--yes"@),
                    },
                )
            } else {
                Err(
                    badly(
                        2,
                        "meridian plugin launch: `"@ + instance
                            + "` is not an instance's name: lowercase letters, digits and single hyphens"@,
                    ),
                )
            },
        }
    } else if words.len() == 2 && words[0] == "stop"@ {
        Ok(Acting::Stop(words[1]))
    } else {
        Err(
            misused(
                "meridian: plugin takes `upload`, `list`, `launch <name> <version>` or `stop <instance>`"@,
            ),
        )
    }
}

/// What is asked of the catalogue, by what was typed.
pub fn action(arguments: &Arguments) -> (r: Result<Action, End>)
    ensures
        match r {
            Ok(action) => acting(arguments@) == Ok::<Acting, Ended>(action@),
            Err(end) => acting(arguments@) == Err::<Acting, Ended>(end@),
        },
{
    let words = &arguments.words;
    let n: usize = words.len();
    let ghost said = arguments@.words;
    if n > 0 {
        assert(said[0] == words@[0]@);
        let verb = words[0].as_str();
        if n == 1 && same(verb, "upload") {
            return Ok(Action::Upload { dir: arguments.value_or("--dir", "--dir", ".") });
        }
        if n == 1 && same(verb, "list") {
            return Ok(Action::List);
        }
        if n == 3 && same(verb, "launch") {
            assert(said[1] == words@[1]@ && said[2] == words@[2]@);
            return match arguments.value("--instance", "--instance") {
                None => Err(
                    ended_badly(
                        2,
                        "meridian plugin launch: --instance <id> names what it runs as".to_owned(),
                    ),
                ),
                Some(instance) => {
                    if is_name(instance) {
                        Ok(
                            Action::Launch {
                                name: words[1].clone(),
                                version: words[2].clone(),
                                instance: instance.to_owned(),
                                approved: arguments.set("--yes"),
                            },
                        )
                    } else {
                        let mut why = "meridian plugin launch: `".to_owned();
                        why.append(instance);
                        why.append(
                            "` is not an instance's name: lowercase letters, digits and single hyphens",
                        );
                        Err(ended_badly(2, why))
                    }
                },
            };
        }
        if n == 2 && same(verb, "stop") {
            assert(said[1] == words@[1]@);
            return Ok(Action::Stop { instance: words[1].clone() });
        }
    }
    Err(
        ended_misused(
            "meridian: plugin takes `upload`, `list`, `launch <name> <version>` or `stop <instance>`",
        ),
    )
}

/// How one of the catalogue's commands ends without a session to act through.
pub fn without_a_session(why: &str) -> (end: End)
    ensures
        end@ == badly(2, "meridian plugin: "@ + why@),
{
    ended_badly(2, said_of("meridian plugin: ", why))
}

/// How one of the catalogue's commands ends that did not get done.
pub fn not_done(verb: &str, why: &str) -> (end: End)
    ensures
        end@ == badly(1, "meridian plugin "@ + verb@ + ": "@ + why@),
{
    let mut said = said_of("meridian plugin ", verb);
    said.append(": ");
    said.append(why);
    ended_badly(1, said)
}

/// What is printed of an upload that is done.
pub fn uploaded(address: &str, digest: &str) -> (out: String)
    ensures
        out@ == "Uploaded to "@ + address@ + ", as "@ + digest@ + ".\n"@,
{
    let mut out = said_of("Uploaded to ", address);
    out.append(", as ");
    out.append(digest);
    out.append(".\n");
    out
}

/// What is printed of an instance that was stopped.
pub fn stopped(instance: &str) -> (out: String)
    ensures
        out@ == "Stopped "@ + instance@ + ".\n"@,
{
    let mut out = said_of("Stopped ", instance);
    out.append(".\n");
    out
}

// ── Launching a version ──────────────────────────────────────────────────────

/// What is launched, where, as what, and whether it was approved beforehand.
pub struct Plan {
    pub address: Seq<char>,
    pub name: Seq<char>,
    pub version: Seq<char>,
    pub instance: Seq<char>,
    pub approved: bool,
}

/// How far a launch has come.
pub enum Stage {
    /// What the version asks for is to be seen.
    Catalogue,
    /// It asks for these roles and these tags, which the person is to approve.
    Approve(Seq<Seq<char>>, Seq<Seq<char>>),
    /// They are approved, and it is to be launched with them.
    Launch(Seq<Seq<char>>, Seq<Seq<char>>),
    /// It is launched, and this is printed.
    Done(Seq<char>),
}

/// What a launch needs next.
pub enum Need {
    /// What this address answers.
    Get(Seq<char>),
    /// The person's answer to this question.
    Question(Seq<char>),
    /// What a request to launch this is answered with.
    Launch {
        url: Seq<char>,
        name: Seq<char>,
        version: Seq<char>,
        instance: Seq<char>,
        roles: Seq<Seq<char>>,
        tags: Seq<Seq<char>>,
    },
    /// Nothing: this is printed.
    Nothing(Seq<char>),
}

/// What a launch needs next.
pub open spec fn need(plan: Plan, stage: Stage) -> Need {
    match stage {
        Stage::Catalogue => Need::Get(plan.address + "/terminal/plugins"@),
        Stage::Approve(..) => Need::Question(
            "Launch it as "@ + plan.instance + ", with these? [y/N] "@,
        ),
        Stage::Launch(roles, tags) => Need::Launch {
            url: plan.address + "/terminal/plugins/launch"@,
            name: plan.name,
            version: plan.version,
            instance: plan.instance,
            roles,
            tags,
        },
        Stage::Done(said) => Need::Nothing(said),
    }
}

/// What came of what was needed.
pub enum Came {
    /// The deployment could not be reached.
    Unanswered(Seq<char>),
    /// There was nothing to ask it with.
    NoClient(Seq<char>),
    Answered { success: bool, status: Seq<char>, body: Seq<char> },
    /// What the person answered, where there is a terminal to ask at.
    Said(Option<Seq<char>>),
}

/// An answer that is yes; anything else is no.
pub open spec fn is_yes(answer: Seq<char>) -> bool {
    trim(answer) == "y"@ || trim(answer) == "Y"@ || trim(answer) == "yes"@ || trim(answer)
        == "Yes"@
}

/// What is printed of what a version asks for.
pub open spec fn asks_for(plan: Plan, roles: Seq<Seq<char>>, tags: Seq<Seq<char>>) -> Seq<char> {
    plan.name + " "@ + plan.version + " asks for\n  roles: "@ + names_listed(roles)
        + "\n  tags:  "@ + names_listed(tags) + "\n"@
}

/// After the catalogue was read.
pub open spec fn after_catalogue(plan: Plan, catalogue: Result<Holding, Seq<char>>) -> Result<
    (Stage, Seq<char>),
    Seq<char>,
> {
    match catalogue {
        Err(why) => Err(why),
        Ok(held) => match asked_by(held, plan.name, plan.version) {
            None => Err(
                plan.name + " "@ + plan.version + " is not in "@ + plan.address
                    + "'s catalogue: `meridian plugin list` shows what is"@,
            ),
            Some((roles, tags)) => Ok(
                (
                    if plan.approved {
                        Stage::Launch(roles, tags)
                    } else {
                        Stage::Approve(roles, tags)
                    },
                    asks_for(plan, roles, tags),
                ),
            ),
        },
    }
}

/// The roles and tags that a version in the catalogue asks for.
pub open spec fn asked_by(catalogue: Holding, name: Seq<char>, version: Seq<char>) -> Option<
    (Seq<Seq<char>>, Seq<Seq<char>>),
> {
    match list_member(catalogue, "versions"@) {
        Some(versions) => declared_by(versions, name, version),
        None => None,
    }
}

/// What comes next, and what to print.
pub open spec fn after(plan: Plan, stage: Stage, came: Came) -> Result<
    (Stage, Seq<char>),
    Seq<char>,
> {
    match (stage, came) {
        (Stage::Catalogue, Came::Answered { success, status, body }) => after_catalogue(
            plan,
            outcome(success, status, body),
        ),
        (Stage::Approve(roles, tags), Came::Said(answer)) => match answer {
            Some(said) if is_yes(said) => Ok((Stage::Launch(roles, tags), Seq::empty())),
            _ => Err(
                "not approved, so not launched. Where there is no terminal to ask at, --yes approves"@,
            ),
        },
        (Stage::Launch(..), Came::Answered { success, status, body }) => match outcome(
            success,
            status,
            body,
        ) {
            Err(why) => Err(why),
            Ok(_) => Ok(
                (
                    Stage::Done(
                        "Launched "@ + plan.instance + ": "@ + plan.name + " "@ + plan.version
                            + ".\n"@,
                    ),
                    Seq::empty(),
                ),
            ),
        },
        (Stage::Catalogue, Came::Unanswered(why)) => Err(
            "could not reach "@ + plan.address + ": "@ + why,
        ),
        (Stage::Launch(..), Came::Unanswered(why)) => Err(
            "could not reach "@ + plan.address + ": "@ + why,
        ),
        (Stage::Catalogue, Came::NoClient(why)) => Err(why),
        (Stage::Launch(..), Came::NoClient(why)) => Err(why),
        _ => Ok((stage, Seq::empty())),
    }
}

/// Nothing is launched that was not approved: a launch comes after the
/// person's yes, or where it was approved beforehand.
pub proof fn nothing_is_launched_that_was_not_approved(plan: Plan, stage: Stage, came: Came)
    ensures
        after(plan, stage, came) matches Ok((Stage::Launch(roles, tags), _)) ==> {
            ||| stage == Stage::Launch(roles, tags)
            ||| stage is Catalogue && plan.approved
            ||| stage == Stage::Approve(roles, tags) && (came matches Came::Said(Some(said))
                && is_yes(said))
        },
{
}

/// What is approved is what the version declared: the roles and tags that are
/// shown, asked about and sent are the catalogue's.
pub proof fn what_is_approved_is_what_the_version_declared(plan: Plan, came: Came)
    ensures
        after(plan, Stage::Catalogue, came) matches Ok((next, said)) ==> next == Stage::Catalogue
            || (came matches Came::Answered { success, status, body } && (outcome(
            success,
            status,
            body,
        ) matches Ok(held) && (asked_by(held, plan.name, plan.version) matches Some((roles, tags))
            && said == asks_for(plan, roles, tags) && (next == Stage::Approve(roles, tags) || next
            == Stage::Launch(roles, tags))))),
{
}

// ── What was typed, and what comes of it ─────────────────────────────────────

/// What is asked of the catalogue is what was typed: the word says which, the
/// words behind it and the options say of what, a launch has an instance's name
/// in form and is approved beforehand exactly where `--yes` was typed, and what
/// is none of these is refused as misuse.
pub proof fn what_is_asked_of_the_catalogue_is_what_was_typed(given: Given)
    ensures
        match acting(given) {
            Ok(Acting::Upload(dir)) => given.words == seq!["upload"@] && typed_or(
                given.flags,
                "--dir"@,
                "--dir"@,
                dir,
                "."@,
            ),
            Ok(Acting::List) => given.words == seq!["list"@],
            Ok(Acting::Launch { name, version, instance, approved }) => given.words == seq![
                "launch"@,
                name,
                version,
            ] && was_typed(given.flags, "--instance"@, "--instance"@, Some(instance)) && host_label(
                instance,
            ) && (approved <==> given.switches.contains("--yes"@)),
            Ok(Acting::Stop(instance)) => given.words == seq!["stop"@, instance],
            Err(end) => {
                &&& end.code == 2 && end.out.len() == 0
                &&& given.words != seq!["upload"@] && given.words != seq!["list"@]
                &&& !(given.words.len() == 2 && given.words[0] == "stop"@)
                &&& given.words.len() == 3 && given.words[0] == "launch"@ ==> !end.usage && (
                was_typed(given.flags, "--instance"@, "--instance"@, None) || exists|
                    instance: Seq<char>,
                | #[trigger]
                    was_typed(given.flags, "--instance"@, "--instance"@, Some(instance))
                        && !host_label(instance))
            },
        },
        acting(given) matches Ok(asked) ==> verb_of(asked) == given.words[0],
{
    something_is_assumed_only_where_nothing_was_typed(given.flags, "--dir"@, "--dir"@, "."@);
    the_last_value_given_is_the_flags_value(given.flags, "--instance"@, "--instance"@);
    let words = given.words;
    if words.len() == 1 && words[0] == "upload"@ {
        assert(words =~= seq!["upload"@]);
    } else if words.len() == 1 && words[0] == "list"@ {
        assert(words =~= seq!["list"@]);
    } else if words.len() == 3 && words[0] == "launch"@ {
        assert(words =~= seq!["launch"@, words[1], words[2]]);
    } else if words.len() == 2 && words[0] == "stop"@ {
        assert(words =~= seq!["stop"@, words[1]]);
    }
}

/// `plugin new` with a name is a new plugin of that name, written where was
/// typed or else in a directory of its name; the catalogue's words are the
/// catalogue's; and anything else is misuse.
pub proof fn a_new_plugin_is_called_and_written_as_was_typed(given: Given)
    ensures
        match plugin_asked(given) {
            Ok(Some((name, into))) => given.words == seq!["new"@, name] && typed_or(
                given.flags,
                "--into"@,
                "--into"@,
                into,
                name,
            ),
            Ok(None) => given.words.len() > 0 && (given.words[0] == "upload"@ || given.words[0]
                == "list"@ || given.words[0] == "launch"@ || given.words[0] == "stop"@),
            Err(end) => end.code == 2 && end.usage && !(given.words.len() == 2 && given.words[0]
                == "new"@) && (given.words.len() > 0 ==> given.words[0] != "upload"@
                && given.words[0] != "list"@ && given.words[0] != "launch"@ && given.words[0]
                != "stop"@),
        },
{
    reveal_strlit("new");
    reveal_strlit("upload");
    reveal_strlit("list");
    reveal_strlit("launch");
    reveal_strlit("stop");
    assert("new"@.len() == 3 && "upload"@.len() == 6 && "list"@.len() == 4 && "launch"@.len() == 6
        && "stop"@.len() == 4);
    if given.words.len() == 2 {
        something_is_assumed_only_where_nothing_was_typed(
            given.flags,
            "--into"@,
            "--into"@,
            given.words[1],
        );
        assert(given.words =~= seq![given.words[0], given.words[1]]);
    }
}

/// What is typed for the catalogue's commands is taken: the words that each of
/// them takes, the directory and the instance behind their options, and the
/// approval beforehand.
pub proof fn what_is_typed_for_a_plugin_is_taken(
    name: Seq<char>,
    version: Seq<char>,
    value: Seq<char>,
)
    requires
        !"-"@.is_prefix_of(name),
        !"-"@.is_prefix_of(version),
        !is_switch(value),
    ensures
        parsed(seq!["plugin"@, "upload"@, "--dir"@, value]) matches Ok(given) && acting(given) == Ok::<
            Acting,
            Ended,
        >(Acting::Upload(value)),
        parsed(seq!["plugin"@, "new"@, name, "--into"@, value]) matches Ok(given) && plugin_asked(
            given,
        ) == Ok::<Option<(Seq<char>, Seq<char>)>, Ended>(Some((name, value))),
        parsed(seq!["plugin"@, "launch"@, name, version, "--instance"@, value, "--yes"@]) matches Ok(
            given,
        ) && (host_label(value) ==> acting(given) == Ok::<Acting, Ended>(
            Acting::Launch { name, version, instance: value, approved: true },
        )),
        parsed(seq!["plugin"@, "launch"@, name, version, "--instance"@, value]) matches Ok(given)
            && (host_label(value) ==> acting(given) == Ok::<Acting, Ended>(
            Acting::Launch { name, version, instance: value, approved: false },
        )),
{
    reveal_strlit("-");
    reveal_strlit("upload");
    reveal_strlit("new");
    reveal_strlit("launch");
    reveal_strlit("list");
    reveal_strlit("stop");
    assert("-"@ =~= seq!['-']);
    assert("upload"@[0] == 'u' && "new"@[0] == 'n' && "launch"@[0] == 'l');
    lemma_word("upload"@);
    lemma_word("new"@);
    lemma_word("launch"@);
    assert("new"@.len() == 3 && "upload"@.len() == 6 && "list"@.len() == 4 && "launch"@.len() == 6
        && "stop"@.len() == 4);
    let none = Seq::<Seq<char>>::empty();
    let start = seq!["plugin"@];
    assert(start.skip(1) =~= none);
    let plain = Given {
        command: "plugin"@,
        words: none,
        flags: Seq::empty(),
        switches: none,
    };
    assert(parsed(start) == Ok::<Given, Seq<char>>(plain));
    // Uploading.
    let one = start + seq!["upload"@];
    a_switch_or_a_word_that_is_typed_is_kept(start, "upload"@);
    a_flag_that_is_typed_last_counts(one, "--dir"@, value);
    assert(one + seq!["--dir"@, value] =~= seq!["plugin"@, "upload"@, "--dir"@, value]);
    let given = parsed(one + seq!["--dir"@, value])->Ok_0;
    assert(given.words =~= seq!["upload"@]);
    assert(value_of(given.flags, "--dir"@, "--dir"@) == Some(value));
    // A new one.
    let one = start + seq!["new"@];
    let two = one + seq![name];
    a_switch_or_a_word_that_is_typed_is_kept(start, "new"@);
    a_switch_or_a_word_that_is_typed_is_kept(one, name);
    a_flag_that_is_typed_last_counts(two, "--into"@, value);
    assert(two + seq!["--into"@, value] =~= seq!["plugin"@, "new"@, name, "--into"@, value]);
    let given = parsed(two + seq!["--into"@, value])->Ok_0;
    assert(given.words =~= seq!["new"@, name]);
    assert(value_of(given.flags, "--into"@, "--into"@) == Some(value));
    // A launch.
    let one = start + seq!["launch"@];
    let two = one + seq![name];
    let three = two + seq![version];
    let four = three + seq!["--instance"@, value];
    a_switch_or_a_word_that_is_typed_is_kept(start, "launch"@);
    a_switch_or_a_word_that_is_typed_is_kept(one, name);
    a_switch_or_a_word_that_is_typed_is_kept(two, version);
    a_flag_that_is_typed_last_counts(three, "--instance"@, value);
    a_switch_or_a_word_that_is_typed_is_kept(four, "--yes"@);
    assert(four =~= seq!["plugin"@, "launch"@, name, version, "--instance"@, value]);
    assert(four + seq!["--yes"@] =~= seq![
        "plugin"@,
        "launch"@,
        name,
        version,
        "--instance"@,
        value,
        "--yes"@,
    ]);
    let given = parsed(four)->Ok_0;
    assert(given.words =~= seq!["launch"@, name, version]);
    assert(value_of(given.flags, "--instance"@, "--instance"@) == Some(value));
    assert(given.switches =~= none);
    assert(!given.switches.contains("--yes"@));
    let more = parsed(four + seq!["--yes"@])->Ok_0;
    assert(more.switches.last() == "--yes"@);
    assert(more.switches.contains("--yes"@));
}

proof fn lemma_word(word: Seq<char>)
    requires
        word.len() > 0,
        word[0] != '-',
    ensures
        !"-"@.is_prefix_of(word),
{
    reveal_strlit("-");
    if "-"@.is_prefix_of(word) {
        assert(word.take(1)[0] == "-"@[0]);
    }
}

/// Only a yes approves: the letter or the word, in small letters or with a
/// capital first, and with nothing but white space around it.
pub proof fn only_a_yes_approves(answer: Seq<char>)
    ensures
        is_yes(answer) <==> {
            let said = trim(answer);
            &&& said.len() == 1 || said.len() == 3
            &&& said[0] == 'y' || said[0] == 'Y'
            &&& said.len() == 3 ==> said[1] == 'e' && said[2] == 's'
        },
{
    reveal_strlit("y");
    reveal_strlit("Y");
    reveal_strlit("yes");
    reveal_strlit("Yes");
    let said = trim(answer);
    if said.len() == 1 {
        assert(said[0] == 'y' ==> said =~= "y"@);
        assert(said[0] == 'Y' ==> said =~= "Y"@);
    }
    if said.len() == 3 && said[1] == 'e' && said[2] == 's' {
        assert(said[0] == 'y' ==> said =~= "yes"@);
        assert(said[0] == 'Y' ==> said =~= "Yes"@);
    }
}

/// A launch from its start to its end: the catalogue is read, what the first
/// version there by that name and number declares is shown and asked about, or
/// is not asked about where it was approved beforehand, and that is what is sent,
/// with the name, the version and the instance that were asked for.
pub proof fn a_launch_sends_what_the_catalogue_declares(
    plan: Plan,
    status: Seq<char>,
    body: Seq<char>,
    versions: Seq<Holding>,
    i: int,
    answer: Seq<char>,
)
    requires
        0 <= i < versions.len(),
        is_of(versions[i], plan.name, plan.version),
        forall|j: int| 0 <= j < i ==> !is_of(#[trigger] versions[j], plan.name, plan.version),
    ensures
        (json_read(body) matches Ok(held) && member(held, "versions"@) == Some(
            Holding::List(versions),
        )) ==> {
            let roles = strings(list_or_empty(versions[i], "roles"@));
            let tags = strings(list_or_empty(versions[i], "tags"@));
            let came = Came::Answered { success: true, status, body };
            let launch = Need::Launch {
                url: plan.address + "/terminal/plugins/launch"@,
                name: plan.name,
                version: plan.version,
                instance: plan.instance,
                roles,
                tags,
            };
            &&& need(plan, Stage::Catalogue) == Need::Get(plan.address + "/terminal/plugins"@)
            &&& after(plan, Stage::Catalogue, came) matches Ok((next, shown))
            &&& shown == plan.name + " "@ + plan.version + " asks for\n  roles: "@ + names_listed(
                roles,
            ) + "\n  tags:  "@ + names_listed(tags) + "\n"@
            &&& plan.approved ==> need(plan, next) == launch
            &&& !plan.approved ==> {
                &&& need(plan, next) == Need::Question(
                    "Launch it as "@ + plan.instance + ", with these? [y/N] "@,
                )
                &&& after(plan, next, Came::Said(None)) is Err
                &&& match after(plan, next, Came::Said(Some(answer))) {
                    Ok((then, _)) => is_yes(answer) && need(plan, then) == launch,
                    Err(_) => !is_yes(answer),
                }
            }
        },
{
    what_is_declared_is_of_that_plugin_and_that_version(versions, plan.name, plan.version);
    assert(is_of(versions[i], plan.name, plan.version));
    let found = declared_by(versions, plan.name, plan.version)->0;
    let k = choose|k: int|
        0 <= k < versions.len() && is_of(#[trigger] versions[k], plan.name, plan.version) && (
        forall|j: int| 0 <= j < k ==> !is_of(#[trigger] versions[j], plan.name, plan.version))
            && found.0 == strings(list_or_empty(versions[k], "roles"@)) && found.1 == strings(
            list_or_empty(versions[k], "tags"@),
        );
    assert(k == i) by {
        if k < i {
            assert(!is_of(versions[k], plan.name, plan.version));
        }
        if i < k {
            assert(!is_of(versions[i], plan.name, plan.version));
        }
    }
}

/// A version that the catalogue does not hold is not launched, and a launch is
/// done exactly where the deployment says so.
pub proof fn a_launch_is_done_where_the_deployment_says_so(
    plan: Plan,
    roles: Seq<Seq<char>>,
    tags: Seq<Seq<char>>,
    success: bool,
    status: Seq<char>,
    body: Seq<char>,
    versions: Seq<Holding>,
)
    ensures
        ({
            let came = Came::Answered { success, status, body };
            let then = after(plan, Stage::Launch(roles, tags), came);
            &&& then is Ok <==> success && json_read(body) is Ok
            &&& then matches Ok((next, _)) ==> need(plan, next) == Need::Nothing(
                "Launched "@ + plan.instance + ": "@ + plan.name + " "@ + plan.version + ".\n"@,
            )
            &&& !success ==> after(plan, Stage::Catalogue, came) is Err
            &&& (json_read(body) matches Ok(held) && member(held, "versions"@) == Some(
                Holding::List(versions),
            ) && forall|j: int|
                0 <= j < versions.len() ==> !is_of(#[trigger] versions[j], plan.name, plan.version))
                ==> after(plan, Stage::Catalogue, came) is Err
        }),
{
    what_is_declared_is_of_that_plugin_and_that_version(versions, plan.name, plan.version);
}

#[derive(Debug)]
enum At {
    Catalogue,
    Approve(Vec<String>, Vec<String>),
    Launch(Vec<String>, Vec<String>),
    Done(String),
}

impl View for At {
    type V = Stage;

    closed spec fn view(&self) -> Stage {
        match self {
            At::Catalogue => Stage::Catalogue,
            At::Approve(roles, tags) => Stage::Approve(texts(roles@), texts(tags@)),
            At::Launch(roles, tags) => Stage::Launch(texts(roles@), texts(tags@)),
            At::Done(said) => Stage::Done(said@),
        }
    }
}

/// A version being launched.
#[derive(Debug)]
pub struct Launching {
    address: String,
    name: String,
    version: String,
    instance: String,
    approved: bool,
    at: At,
}

/// What a launch asks for.
#[derive(Debug)]
pub enum Ask {
    /// What this address answers.
    Get(String),
    /// The person's answer to this question.
    Question(String),
    /// What this request is answered with.
    Launch(Request),
    /// Nothing: this is printed.
    Nothing(String),
}

/// What came of what a launch asked for.
#[derive(Debug)]
pub enum Heard {
    /// The deployment could not be reached.
    Unanswered(String),
    /// There was nothing to ask it with.
    NoClient(String),
    Answered(Reply),
    /// What the person answered, where there is a terminal to ask at.
    Said(Option<String>),
}

impl View for Heard {
    type V = Came;

    open spec fn view(&self) -> Came {
        match self {
            Heard::Unanswered(why) => Came::Unanswered(why@),
            Heard::NoClient(why) => Came::NoClient(why@),
            Heard::Answered(reply) => Came::Answered {
                success: reply.success,
                status: reply.status@,
                body: reply.body@,
            },
            Heard::Said(answer) => Came::Said(crate::catalogue::image::optional(*answer)),
        }
    }
}

/// How far a launch came and what to print, or why it ended.
pub open spec fn progress(r: Result<(Launching, String), String>) -> Result<
    (Stage, Seq<char>),
    Seq<char>,
> {
    match r {
        Ok((launching, note)) => Ok((launching.stage(), note@)),
        Err(why) => Err(why@),
    }
}

/// Whether an answer is yes; anything else is no.
pub fn says_yes(answer: &str) -> (r: bool)
    ensures
        r == is_yes(answer@),
{
    let said = trimmed(answer);
    same(said.as_str(), "y") || same(said.as_str(), "Y") || same(said.as_str(), "yes") || same(
        said.as_str(),
        "Yes",
    )
}

impl Launching {
    /// What is launched.
    pub closed spec fn plan(&self) -> Plan {
        Plan {
            address: self.address@,
            name: self.name@,
            version: self.version@,
            instance: self.instance@,
            approved: self.approved,
        }
    }

    /// How far the launch has come.
    pub closed spec fn stage(&self) -> Stage {
        self.at@
    }

    /// A version to launch as an instance, at the deployment with this address.
    /// `approved` says that what it asks for was read and approved beforehand.
    pub fn begin(address: &str, name: &str, version: &str, instance: &str, approved: bool) -> (launching:
        Launching)
        ensures
            launching.plan() == (Plan {
                address: address@,
                name: name@,
                version: version@,
                instance: instance@,
                approved,
            }),
            launching.stage() == Stage::Catalogue,
    {
        Launching {
            address: address.to_owned(),
            name: name.to_owned(),
            version: version.to_owned(),
            instance: instance.to_owned(),
            approved,
            at: At::Catalogue,
        }
    }

    /// What the launch needs next.
    pub fn ask(&self) -> (ask: Ask)
        ensures
            match ask {
                Ask::Get(url) => need(self.plan(), self.stage()) == Need::Get(url@),
                Ask::Question(question) => need(self.plan(), self.stage()) == Need::Question(
                    question@,
                ),
                Ask::Launch(request) => need(self.plan(), self.stage()) matches Need::Launch {
                    url,
                    name,
                    version,
                    instance,
                    roles,
                    tags,
                } && request.url@ == url && request.content_type@ == "application/json"@
                    && request.body@ == json_written(
                    launch_members(name, version, instance, roles, tags),
                ) && json_tells(
                    request.body@,
                    launch_members(name, version, instance, roles, tags),
                ),
                Ask::Nothing(said) => need(self.plan(), self.stage()) == Need::Nothing(said@),
            },
    {
        match &self.at {
            At::Catalogue => Ask::Get(catalogue_url(self.address.as_str())),
            At::Approve(..) => {
                let mut question = said_of("Launch it as ", self.instance.as_str());
                question.append(", with these? [y/N] ");
                Ask::Question(question)
            },
            At::Launch(roles, tags) => Ask::Launch(
                launch(
                    self.address.as_str(),
                    self.name.as_str(),
                    self.version.as_str(),
                    self.instance.as_str(),
                    roles,
                    tags,
                ),
            ),
            At::Done(said) => Ask::Nothing(said.clone()),
        }
    }

    fn on(self, at: At, note: String) -> (r: Result<(Launching, String), String>)
        ensures
            progress(r) == Ok::<(Stage, Seq<char>), Seq<char>>((at@, note@)),
            r matches Ok((next, _)) && next.plan() == self.plan(),
    {
        Ok(
            (
                Launching {
                    address: self.address,
                    name: self.name,
                    version: self.version,
                    instance: self.instance,
                    approved: self.approved,
                    at,
                },
                note,
            ),
        )
    }

    fn asks(&self, roles: &Vec<String>, tags: &Vec<String>) -> (out: String)
        ensures
            out@ == asks_for(self.plan(), texts(roles@), texts(tags@)),
    {
        let mut out = said_of(self.name.as_str(), " ");
        out.append(self.version.as_str());
        out.append(" asks for\n  roles: ");
        out.append(listed_names(roles).as_str());
        out.append("\n  tags:  ");
        out.append(listed_names(tags).as_str());
        out.append("\n");
        out
    }

    fn catalogue(self, reply: &Reply) -> (r: Result<(Launching, String), String>)
        ensures
            progress(r) == after_catalogue(
                self.plan(),
                outcome(reply.success, reply.status@, reply.body@),
            ),
            r matches Ok((next, _)) ==> next.plan() == self.plan(),
    {
        let held = match answered(reply) {
            Ok(held) => held,
            Err(why) => {
                return Err(why);
            },
        };
        match declared(&held, self.name.as_str(), self.version.as_str()) {
            None => {
                let mut why = said_of(self.name.as_str(), " ");
                why.append(self.version.as_str());
                why.append(" is not in ");
                why.append(self.address.as_str());
                why.append("'s catalogue: `meridian plugin list` shows what is");
                Err(why)
            },
            Some((roles, tags)) => {
                let note = self.asks(&roles, &tags);
                if self.approved {
                    self.on(At::Launch(roles, tags), note)
                } else {
                    self.on(At::Approve(roles, tags), note)
                }
            },
        }
    }

    /// What comes next, after what came of what was asked for, and what to
    /// print, or why the launch ends. If that was not asked for, nothing
    /// changes.
    pub fn told(self, heard: Heard) -> (r: Result<(Launching, String), String>)
        ensures
            progress(r) == after(self.plan(), self.stage(), heard@),
            r matches Ok((next, _)) ==> next.plan() == self.plan(),
    {
        match heard {
            Heard::Unanswered(why) => match &self.at {
                At::Catalogue => Err(not_reached(self.address.as_str(), why.as_str())),
                At::Launch(..) => Err(not_reached(self.address.as_str(), why.as_str())),
                _ => Ok((self, String::new())),
            },
            Heard::NoClient(why) => match &self.at {
                At::Catalogue => Err(why),
                At::Launch(..) => Err(why),
                _ => Ok((self, String::new())),
            },
            Heard::Answered(reply) => match &self.at {
                At::Catalogue => self.catalogue(&reply),
                At::Launch(..) => match answered(&reply) {
                    Err(why) => Err(why),
                    Ok(_) => {
                        let mut said = said_of("Launched ", self.instance.as_str());
                        said.append(": ");
                        said.append(self.name.as_str());
                        said.append(" ");
                        said.append(self.version.as_str());
                        said.append(".\n");
                        self.on(At::Done(said), String::new())
                    },
                },
                _ => Ok((self, String::new())),
            },
            Heard::Said(answer) => {
                let yes = match &answer {
                    Some(said) => says_yes(said.as_str()),
                    None => false,
                };
                match self.at {
                    At::Approve(roles, tags) => {
                        if !yes {
                            return Err(
                                "not approved, so not launched. Where there is no terminal to ask at, --yes approves".to_owned(),
                            );
                        }
                        Ok(
                            (
                                Launching {
                                    address: self.address,
                                    name: self.name,
                                    version: self.version,
                                    instance: self.instance,
                                    approved: self.approved,
                                    at: At::Launch(roles, tags),
                                },
                                String::new(),
                            ),
                        )
                    },
                    at => Ok(
                        (
                            Launching {
                                address: self.address,
                                name: self.name,
                                version: self.version,
                                instance: self.instance,
                                approved: self.approved,
                                at,
                            },
                            String::new(),
                        ),
                    ),
                }
            },
        }
    }
}

/// A version that the catalogue does not have is refused by its name, its version
/// and the deployment that was asked.
pub proof fn a_version_that_is_not_there_is_named(
    plan: Plan,
    status: Seq<char>,
    body: Seq<char>,
    versions: Seq<Holding>,
)
    requires
        forall|j: int|
            0 <= j < versions.len() ==> !is_of(#[trigger] versions[j], plan.name, plan.version),
    ensures
        (json_read(body) matches Ok(held) && member(held, "versions"@) == Some(
            Holding::List(versions),
        )) ==> after(plan, Stage::Catalogue, Came::Answered { success: true, status, body })
            == Err::<(Stage, Seq<char>), Seq<char>>(
            plan.name + " "@ + plan.version + " is not in "@ + plan.address
                + "'s catalogue: `meridian plugin list` shows what is"@,
        ),
{
    what_is_declared_is_of_that_plugin_and_that_version(versions, plan.name, plan.version);
}

} // verus!
