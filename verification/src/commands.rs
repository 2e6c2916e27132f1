//! What each command does, one step after the other.
//!
//! Which step comes next and what is said is decided here; the steps that reach
//! the world are the caller's.
use vstd::prelude::*;
use vstd::string::*;

use crate::arguments::{
    a_switch_or_a_word_that_is_typed_is_kept, parsed,
    something_is_assumed_only_where_nothing_was_typed, typed_or, value_or, Arguments, Given,
};
use crate::doctor::{Intended, Meant};
use crate::text::same;

pub mod bring;
pub mod connect;
pub mod plugin;
pub mod session;
pub mod sign_out;
pub mod upload;

verus! {

/// What was asked of the program.
#[derive(Debug, PartialEq, Eq)]
pub enum Command {
    Help,
    Doctor,
    Up,
    Plugin,
    Connect,
    SignOut,
    /// This is not a command.
    Unknown(String),
}

/// What was asked, in texts.
pub enum Chosen {
    Help,
    Doctor,
    Up,
    Plugin,
    Connect,
    SignOut,
    Unknown(Seq<char>),
}

impl View for Command {
    type V = Chosen;

    open spec fn view(&self) -> Chosen {
        match self {
            Command::Help => Chosen::Help,
            Command::Doctor => Chosen::Doctor,
            Command::Up => Chosen::Up,
            Command::Plugin => Chosen::Plugin,
            Command::Connect => Chosen::Connect,
            Command::SignOut => Chosen::SignOut,
            Command::Unknown(other) => Chosen::Unknown(other@),
        }
    }
}

/// What was asked of the program. Help wins over everything.
pub open spec fn chosen(given: Given) -> Chosen {
    if given.switches.contains("-h"@) || given.switches.contains("--help"@) {
        Chosen::Help
    } else if given.command == "doctor"@ {
        Chosen::Doctor
    } else if given.command == "up"@ {
        Chosen::Up
    } else if given.command == "plugin"@ {
        Chosen::Plugin
    } else if given.command == "connect"@ {
        Chosen::Connect
    } else if given.command == "sign-out"@ {
        Chosen::SignOut
    } else if given.command == "-h"@ || given.command == "--help"@ || given.command == "help"@
        || given.command == ""@ {
        Chosen::Help
    } else {
        Chosen::Unknown(given.command)
    }
}

/// What was asked of the program.
pub fn command(arguments: &Arguments) -> (asked: Command)
    ensures
        asked@ == chosen(arguments@),
{
    let said = arguments.command.as_str();
    if arguments.set("-h") || arguments.set("--help") {
        Command::Help
    } else if same(said, "doctor") {
        Command::Doctor
    } else if same(said, "up") {
        Command::Up
    } else if same(said, "plugin") {
        Command::Plugin
    } else if same(said, "connect") {
        Command::Connect
    } else if same(said, "sign-out") {
        Command::SignOut
    } else if same(said, "-h") || same(said, "--help") || same(said, "help") || same(said, "") {
        Command::Help
    } else {
        Command::Unknown(said.to_owned())
    }
}

/// What the deployment is meant to be, by what was typed.
pub open spec fn meant(given: Given) -> Meant {
    Meant {
        namespace: value_or(given.flags, "--namespace"@, "-n"@, "meridian"@),
        platform: value_or(
            given.flags,
            "--platform"@,
            "--platform"@,
            "https://open-meridian.com"@,
        ),
        image: value_or(
            given.flags,
            "--image"@,
            "--image"@,
            "ghcr.io/open-meridian/meridian-runtime:latest"@,
        ),
    }
}

/// What the deployment is meant to be, by what was typed.
pub fn intended(arguments: &Arguments) -> (intended: Intended)
    ensures
        intended@ == meant(arguments@),
{
    Intended {
        namespace: arguments.value_or("--namespace", "-n", "meridian"),
        platform: arguments.value_or("--platform", "--platform", "https://open-meridian.com"),
        image: arguments.value_or(
            "--image",
            "--image",
            "ghcr.io/open-meridian/meridian-runtime:latest",
        ),
    }
}

/// How a command ended.
#[derive(Debug, PartialEq, Eq)]
pub struct End {
    /// What to exit with.
    pub code: i32,
    /// What to print.
    pub out: String,
    /// What to say of what went wrong.
    pub err: String,
    /// Whether to say how the program is used, too.
    pub usage: bool,
}

/// How a command ended, in texts.
pub struct Ended {
    pub code: int,
    pub out: Seq<char>,
    pub err: Seq<char>,
    pub usage: bool,
}

impl View for End {
    type V = Ended;

    open spec fn view(&self) -> Ended {
        Ended { code: self.code as int, out: self.out@, err: self.err@, usage: self.usage }
    }
}

/// A command that ended well, with this to print.
pub open spec fn well(out: Seq<char>) -> Ended {
    Ended { code: 0, out, err: Seq::empty(), usage: false }
}

/// A command that ended badly, with this to say.
pub open spec fn badly(code: int, err: Seq<char>) -> Ended {
    Ended { code, out: Seq::empty(), err, usage: false }
}

/// A command that was not used as it is meant to be.
pub open spec fn misused(err: Seq<char>) -> Ended {
    Ended { code: 2, out: Seq::empty(), err, usage: true }
}

/// A command that ended well, with this to print.
pub fn ended_well(out: String) -> (end: End)
    ensures
        end@ == well(out@),
{
    End { code: 0, out, err: String::new(), usage: false }
}

/// A command that ended badly, with this to say.
pub fn ended_badly(code: i32, err: String) -> (end: End)
    ensures
        end@ == badly(code as int, err@),
{
    End { code, out: String::new(), err, usage: false }
}

/// A command that was not used as it is meant to be.
pub fn ended_misused(err: &str) -> (end: End)
    ensures
        end@ == misused(err@),
{
    End { code: 2, out: String::new(), err: err.to_owned(), usage: true }
}

/// A text after another.
pub fn said_of(what: &str, why: &str) -> (out: String)
    ensures
        out@ == what@ + why@,
{
    let mut out = what.to_owned();
    out.append(why);
    out
}

/// A command is called by its name, and help wins over every command: each name
/// is that command and no other, help is asked for by either of its switches, by
/// its own names, or by no command at all, and any other name is no command.
pub proof fn a_command_is_called_by_its_name(given: Given)
    ensures
        ({
            let said = given.command;
            let asks = given.switches.contains("-h"@) || given.switches.contains("--help"@);
            &&& asks ==> chosen(given) is Help
            &&& !asks ==> match chosen(given) {
                Chosen::Doctor => said == "doctor"@,
                Chosen::Up => said == "up"@,
                Chosen::Plugin => said == "plugin"@,
                Chosen::Connect => said == "connect"@,
                Chosen::SignOut => said == "sign-out"@,
                Chosen::Help => said == "help"@ || said == "-h"@ || said == "--help"@ || said.len()
                    == 0,
                Chosen::Unknown(other) => other == said && said != "doctor"@ && said != "up"@ && said
                    != "plugin"@ && said != "connect"@ && said != "sign-out"@ && said != "help"@
                    && said != "-h"@ && said != "--help"@ && said.len() > 0,
            }
        }),
{
    reveal_strlit("");
    if given.command.len() == 0 {
        assert(given.command =~= ""@);
    }
}

/// What a deployment is meant to be is what was typed, and is assumed only where
/// nothing was typed.
pub proof fn what_is_meant_is_what_was_typed(given: Given)
    ensures
        typed_or(given.flags, "--namespace"@, "-n"@, meant(given).namespace, "meridian"@),
        typed_or(
            given.flags,
            "--platform"@,
            "--platform"@,
            meant(given).platform,
            "https://open-meridian.com"@,
        ),
        typed_or(
            given.flags,
            "--image"@,
            "--image"@,
            meant(given).image,
            "ghcr.io/open-meridian/meridian-runtime:latest"@,
        ),
{
    something_is_assumed_only_where_nothing_was_typed(
        given.flags,
        "--namespace"@,
        "-n"@,
        "meridian"@,
    );
    something_is_assumed_only_where_nothing_was_typed(
        given.flags,
        "--platform"@,
        "--platform"@,
        "https://open-meridian.com"@,
    );
    something_is_assumed_only_where_nothing_was_typed(
        given.flags,
        "--image"@,
        "--image"@,
        "ghcr.io/open-meridian/meridian-runtime:latest"@,
    );
}

/// A command that ended well exits with nothing wrong to say, one that ended
/// badly says it and prints nothing, and only one that was misused says how the
/// program is used.
pub proof fn how_a_command_ended_is_told_apart(code: int, said: Seq<char>)
    ensures
        well(said).code == 0 && well(said).out == said && well(said).err.len() == 0 && !well(
            said,
        ).usage,
        badly(code, said).code == code && badly(code, said).err == said && badly(
            code,
            said,
        ).out.len() == 0 && !badly(code, said).usage,
        misused(said).code == 2 && misused(said).err == said && misused(said).out.len() == 0
            && misused(said).usage,
{
}

/// Help that is typed last is help, whatever was typed before it; and what is
/// typed first is the command.
pub proof fn help_that_is_typed_wins(said: Seq<Seq<char>>, switch: Seq<char>)
    requires
        said.len() > 0,
        parsed(said) is Ok,
        switch == "-h"@ || switch == "--help"@,
    ensures
        parsed(said + seq![switch]) matches Ok(given) && chosen(given) is Help,
        parsed(said + seq!["-v"@]) matches Ok(given) && chosen(given) == chosen(parsed(said)->Ok_0),
        parsed(said)->Ok_0.command == said[0],
{
    a_switch_or_a_word_that_is_typed_is_kept(said, switch);
    let given = parsed(said + seq![switch])->Ok_0;
    assert(given.switches.last() == switch);
    assert(given.switches.contains(switch));
    a_switch_or_a_word_that_is_typed_is_kept(said, "-v"@);
    let before = parsed(said)->Ok_0;
    let more = parsed(said + seq!["-v"@])->Ok_0;
    crate::arguments::what_is_not_known_is_refused(
        Given { command: said[0], words: Seq::empty(), flags: Seq::empty(), switches: Seq::empty() },
        said.skip(1),
    );
    reveal_strlit("-v");
    reveal_strlit("-h");
    reveal_strlit("--help");
    assert("-v"@ != "-h"@) by {
        assert("-v"@[1] == 'v' && "-h"@[1] == 'h');
    }
    assert("-v"@.len() != "--help"@.len());
    assert(more.switches =~= before.switches.push("-v"@));
    lemma_still_there(before.switches, "-v"@, "-h"@);
    lemma_still_there(before.switches, "-v"@, "--help"@);
}

proof fn lemma_still_there(list: Seq<Seq<char>>, last: Seq<char>, sought: Seq<char>)
    requires
        last != sought,
    ensures
        list.push(last).contains(sought) == list.contains(sought),
{
    let more = list.push(last);
    if list.contains(sought) {
        let i = choose|i: int| 0 <= i < list.len() && list[i] == sought;
        assert(more[i] == sought);
    }
    if more.contains(sought) {
        let i = choose|i: int| 0 <= i < more.len() && more[i] == sought;
        assert(i < list.len());
        assert(list[i] == sought);
    }
}

} // verus!
