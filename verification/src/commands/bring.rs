//! `meridian up`: the checks first, and then the install.
use vstd::prelude::*;
use vstd::string::*;

use crate::arguments;
use crate::arguments::{
    a_credential_is_what_was_typed_or_what_the_environment_holds, credential, every_value,
    secret_of, something_is_assumed_only_where_nothing_was_typed,
    the_last_value_given_is_the_flags_value, typed_or, value_of, value_or, was_typed, Arguments,
    Given,
};
use crate::catalogue::image::optional;
use crate::commands::{intended, meant, said_of};
use crate::doctor::examination;
use crate::doctor::examination::{
    after_clock, after_fetch, after_run, enter, examine, Exam, Examination, Part,
};
use crate::doctor::{
    fetched, found, ran, stopping, summary, verdict, Answer, Answered, Failed, Failure,
};
use crate::number::{number_of, parsed};
use crate::up::install::{
    arguments, helm_is_told_what_the_install_says, names_file, Install, Installing,
};
use crate::up::run;
use crate::up::run::{start, Up};

verus! {

/// What was typed, and what the environment holds of the two codes.
pub struct Plan {
    pub given: Given,
    pub enrolment_code: Option<Seq<char>>,
    pub first_run_code: Option<Seq<char>>,
}

/// What an install is told, and the port that the wizard is forwarded to, or
/// what is missing.
pub open spec fn to_install(given: Given, held: Option<Seq<char>>) -> Result<
    (Installing, nat),
    Seq<char>,
> {
    let flags = given.flags;
    match value_of(flags, "--id"@, "--id"@) {
        None => Err(
            "meridian up: --id is this deployment's identifier, which the platform gave you when you registered it."@,
        ),
        Some(deployment_id) => match secret_of(flags, "--enrolment-code"@, held) {
            None => Err(
                "meridian up: this install carries a one-time enrolment code in place of a key. Put it in MERIDIAN_ENROLMENT_CODE, or pass --enrolment-code."@,
            ),
            Some(enrolment_code) => match parsed(
                value_or(flags, "--port"@, "--port"@, "8443"@),
                u16::MAX as nat,
            ) {
                None => Err("meridian up: --port takes a port number"@),
                Some(port) => Ok(
                    (
                        Installing {
                            release: value_or(flags, "--release"@, "--release"@, "meridian"@),
                            namespace: meant(given).namespace,
                            chart: value_or(
                                flags,
                                "--chart"@,
                                "--chart"@,
                                "oci://ghcr.io/open-meridian/charts/meridian-runtime"@,
                            ),
                            chart_version: value_of(
                                flags,
                                "--chart-version"@,
                                "--chart-version"@,
                            ),
                            deployment_id,
                            enrolment_code,
                            // Passed through only when given: the chart holds
                            // the address, so an install that has not been told
                            // one should not write it down.
                            platform: value_of(flags, "--platform"@, "--platform"@),
                            image: value_of(flags, "--image"@, "--image"@),
                            values: every_value(flags, "--values"@, "-f"@),
                            timeout: value_or(flags, "--timeout"@, "--timeout"@, "10m"@),
                        },
                        port,
                    ),
                ),
            },
        },
    }
}

/// How far the command has come.
pub enum Stage {
    /// The checks are made.
    Doctor(Exam),
    /// The deployment is brought up.
    Up(run::Plan, run::Stage),
    /// It is over, and this is what to exit with.
    End(int),
}

/// What to print, and what to say of what went wrong.
pub struct Words {
    pub out: Seq<char>,
    pub err: Seq<char>,
}

/// Nothing to say.
pub open spec fn silence() -> Words {
    Words { out: Seq::empty(), err: Seq::empty() }
}

/// The install starts, or what is missing ends it. `said` is printed first.
pub open spec fn installs(plan: Plan, said: Seq<char>) -> (Stage, Words) {
    match to_install(plan.given, plan.enrolment_code) {
        Err(why) => (Stage::End(2), Words { out: said, err: why + "\n"@ }),
        Ok((install, port)) => {
            let what = run::Plan {
                install,
                port,
                first_run_code: secret_of(
                    plan.given.flags,
                    "--first-run-code"@,
                    plan.first_run_code,
                ),
            };
            let (stage, note) = start(what, value_of(plan.given.flags, "--params"@, "-p"@));
            (Stage::Up(what, stage), Words { out: said + note, err: Seq::empty() })
        },
    }
}

/// The command starts: with the checks, unless they are to be skipped.
pub open spec fn begun(plan: Plan) -> (Stage, Words) {
    if plan.given.switches.contains("--no-doctor"@) {
        installs(plan, Seq::empty())
    } else {
        (Stage::Doctor(enter(meant(plan.given), false, Part::Helm, Seq::empty())), silence())
    }
}

/// After a check: the next one, or the verdict, and the install only where
/// nothing would stop it.
pub open spec fn after_check(plan: Plan, exam: Exam) -> (Stage, Words) {
    if !(exam.stage is End) {
        (Stage::Doctor(exam), silence())
    } else if stopping(exam.findings) > 0 {
        (
            Stage::End(1),
            Words {
                out: summary(exam.findings),
                err:
                    "Nothing was installed. Fix the above, or run again with --no-doctor.\n"@,
            },
        )
    } else {
        installs(plan, summary(exam.findings) + "\n"@)
    }
}

/// After a step of bringing it up.
pub open spec fn after_step(what: run::Plan, next: (run::Stage, Seq<char>)) -> (Stage, Words) {
    match next.0 {
        run::Stage::End(Ok(_)) => (Stage::End(0), Words { out: next.1, err: Seq::empty() }),
        run::Stage::End(Err(why)) => (
            Stage::End(1),
            Words { out: next.1, err: "\nmeridian up: "@ + why + "\n"@ },
        ),
        stage => (Stage::Up(what, stage), Words { out: next.1, err: Seq::empty() }),
    }
}

/// What came of what was needed.
pub enum Came {
    Ran(Result<Seq<char>, Failed>),
    Fetched(Result<Answer, Seq<char>>),
    Clock(u64),
    Up(run::Came),
}

/// What comes next, and what to say.
pub open spec fn after(plan: Plan, stage: Stage, came: Came) -> (Stage, Words) {
    match (stage, came) {
        (Stage::Doctor(exam), Came::Ran(said)) => after_check(plan, after_run(exam, said)),
        (Stage::Doctor(exam), Came::Fetched(answer)) => after_check(
            plan,
            after_fetch(exam, answer),
        ),
        (Stage::Doctor(exam), Came::Clock(now)) => after_check(plan, after_clock(exam, now)),
        (Stage::Up(what, step), Came::Up(came)) => after_step(what, run::after(what, step, came)),
        _ => (stage, silence()),
    }
}

/// A check that nobody runs does not exist: unless they are to be skipped, the
/// checks come first, and nothing is brought up while one of their findings
/// would stop an install.
pub proof fn nothing_is_installed_past_a_finding_that_stops_it(
    plan: Plan,
    stage: Stage,
    came: Came,
)
    ensures
        !plan.given.switches.contains("--no-doctor"@) ==> begun(plan).0 is Doctor,
        stage is Doctor && after(plan, stage, came).0 is Up ==> {
            let exam = stage->Doctor_0;
            let last = match came {
                Came::Ran(said) => after_run(exam, said),
                Came::Fetched(answer) => after_fetch(exam, answer),
                Came::Clock(now) => after_clock(exam, now),
                Came::Up(_) => exam,
            };
            last.stage is End && stopping(last.findings) == 0
        },
        stage is End ==> after(plan, stage, came).0 == stage,
{
}

/// What an install is told comes from what was typed: the platform and the
/// image only where they were named.
pub proof fn an_install_is_told_only_what_was_typed(plan: Plan)
    ensures
        to_install(plan.given, plan.enrolment_code) matches Ok((install, port)) ==> {
            &&& install.platform == value_of(plan.given.flags, "--platform"@, "--platform"@)
            &&& install.image == value_of(plan.given.flags, "--image"@, "--image"@)
            &&& install.enrolment_code.len() > 0
            &&& port <= u16::MAX
        },
{
}

/// What was typed reaches the install: each thing that it is told is the last
/// that was typed for it, under either of the option's names, and is assumed only
/// where nothing was typed; a credential comes from the environment where none
/// was typed; and the install is refused exactly where it has no identifier, no
/// credential, or no number for a port.
pub proof fn what_was_typed_reaches_the_install(given: Given, held: Option<Seq<char>>)
    ensures
        ({
            let flags = given.flags;
            match to_install(given, held) {
                Ok((install, port)) => {
                    &&& typed_or(flags, "--release"@, "--release"@, install.release, "meridian"@)
                    &&& typed_or(flags, "--namespace"@, "-n"@, install.namespace, "meridian"@)
                    &&& typed_or(
                        flags,
                        "--chart"@,
                        "--chart"@,
                        install.chart,
                        "oci://ghcr.io/open-meridian/charts/meridian-runtime"@,
                    )
                    &&& was_typed(
                        flags,
                        "--chart-version"@,
                        "--chart-version"@,
                        install.chart_version,
                    )
                    &&& was_typed(flags, "--id"@, "--id"@, Some(install.deployment_id))
                    &&& install.enrolment_code.len() > 0
                    &&& was_typed(
                        flags,
                        "--enrolment-code"@,
                        "--enrolment-code"@,
                        Some(install.enrolment_code),
                    ) || was_typed(flags, "--enrolment-code"@, "--enrolment-code"@, None) && held
                        == Some(install.enrolment_code)
                    &&& was_typed(flags, "--platform"@, "--platform"@, install.platform)
                    &&& was_typed(flags, "--image"@, "--image"@, install.image)
                    &&& install.values == every_value(flags, "--values"@, "-f"@)
                    &&& typed_or(flags, "--timeout"@, "--timeout"@, install.timeout, "10m"@)
                    &&& exists|digits: Seq<char>| #[trigger]
                        typed_or(flags, "--port"@, "--port"@, digits, "8443"@) && parsed(
                            digits,
                            65535,
                        ) == Some(port)
                },
                Err(_) => {
                    ||| was_typed(flags, "--id"@, "--id"@, None)
                    ||| was_typed(
                        flags,
                        "--enrolment-code"@,
                        "--enrolment-code"@,
                        Some(Seq::empty()),
                    )
                    ||| was_typed(flags, "--enrolment-code"@, "--enrolment-code"@, None) && (
                    held matches Some(code) ==> code.len() == 0)
                    ||| exists|digits: Seq<char>| #[trigger]
                        typed_or(flags, "--port"@, "--port"@, digits, "8443"@) && parsed(
                            digits,
                            65535,
                        ) is None
                },
            }
        }),
{
    let flags = given.flags;
    something_is_assumed_only_where_nothing_was_typed(
        flags,
        "--release"@,
        "--release"@,
        "meridian"@,
    );
    something_is_assumed_only_where_nothing_was_typed(flags, "--namespace"@, "-n"@, "meridian"@);
    something_is_assumed_only_where_nothing_was_typed(
        flags,
        "--chart"@,
        "--chart"@,
        "oci://ghcr.io/open-meridian/charts/meridian-runtime"@,
    );
    something_is_assumed_only_where_nothing_was_typed(flags, "--timeout"@, "--timeout"@, "10m"@);
    something_is_assumed_only_where_nothing_was_typed(flags, "--port"@, "--port"@, "8443"@);
    the_last_value_given_is_the_flags_value(flags, "--chart-version"@, "--chart-version"@);
    the_last_value_given_is_the_flags_value(flags, "--id"@, "--id"@);
    the_last_value_given_is_the_flags_value(flags, "--platform"@, "--platform"@);
    the_last_value_given_is_the_flags_value(flags, "--image"@, "--image"@);
    a_credential_is_what_was_typed_or_what_the_environment_holds(
        flags,
        "--enrolment-code"@,
        held,
    );
    let digits = value_or(flags, "--port"@, "--port"@, "8443"@);
    assert(typed_or(flags, "--port"@, "--port"@, digits, "8443"@));
}

/// What was typed reaches Helm: the argument behind `--namespace` in what Helm
/// is run with is the namespace that was typed, the two behind `upgrade
/// --install` are the release and the chart, the one behind `--timeout` the
/// timeout, and each is what is assumed only where nothing was typed.
pub proof fn what_was_typed_reaches_helm(given: Given, held: Option<Seq<char>>)
    ensures
        to_install(given, held) matches Ok((install, _)) ==> {
            let all = arguments(install);
            let flags = given.flags;
            let files = every_value(flags, "--values"@, "-f"@);
            let told = all.len() - 4 - 2 * files.len();
            &&& all[0] == "upgrade"@ && all[1] == "--install"@
            &&& typed_or(flags, "--release"@, "--release"@, all[2], "meridian"@)
            &&& typed_or(
                flags,
                "--chart"@,
                "--chart"@,
                all[3],
                "oci://ghcr.io/open-meridian/charts/meridian-runtime"@,
            )
            &&& all[4] == "--namespace"@
            &&& typed_or(flags, "--namespace"@, "-n"@, all[5], "meridian"@)
            &&& told == 7 && was_typed(flags, "--chart-version"@, "--chart-version"@, None) || told
                == 9 && all[7] == "--version"@ && was_typed(
                flags,
                "--chart-version"@,
                "--chart-version"@,
                Some(all[8]),
            )
            &&& forall|i: int|
                0 <= i < files.len() ==> names_file(all, told + 2 * i, #[trigger] files[i])
            &&& all[all.len() - 2] == "--timeout"@
            &&& typed_or(flags, "--timeout"@, "--timeout"@, all[all.len() - 1], "10m"@)
        },
{
    what_was_typed_reaches_the_install(given, held);
    if let Ok((install, _)) = to_install(given, held) {
        helm_is_told_what_the_install_says(install);
    }
}

/// An option that is typed last reaches the install, whatever was typed before
/// it: it is taken, and the install is told the value behind it.
pub proof fn an_option_that_is_typed_last_reaches_the_install(
    said: Seq<Seq<char>>,
    held: Option<Seq<char>>,
    flag: Seq<char>,
    value: Seq<char>,
)
    requires
        said.len() > 0,
        arguments::parsed(said) is Ok,
        !arguments::is_switch(value),
        flag == "--release"@ || flag == "--namespace"@ || flag == "-n"@ || flag == "--chart"@ || flag
            == "--chart-version"@ || flag == "--id"@ || flag == "--enrolment-code"@ || flag
            == "--platform"@ || flag == "--image"@ || flag == "--values"@ || flag == "-f"@ || flag
            == "--timeout"@ || flag == "--port"@,
    ensures
        arguments::parsed(said + seq![flag, value]) matches Ok(given) && (to_install(given, held) matches Ok(
            (install, port),
        ) ==> {
            &&& flag == "--release"@ ==> install.release == value
            &&& flag == "--namespace"@ || flag == "-n"@ ==> install.namespace == value
            &&& flag == "--chart"@ ==> install.chart == value
            &&& flag == "--chart-version"@ ==> install.chart_version == Some(value)
            &&& flag == "--id"@ ==> install.deployment_id == value
            &&& flag == "--enrolment-code"@ ==> install.enrolment_code == value
            &&& flag == "--platform"@ ==> install.platform == Some(value)
            &&& flag == "--image"@ ==> install.image == Some(value)
            &&& flag == "--values"@ || flag == "-f"@ ==> install.values.last() == value
            &&& flag == "--timeout"@ ==> install.timeout == value
            &&& flag == "--port"@ ==> parsed(value, 65535) == Some(port)
        }),
{
    arguments::a_flag_that_is_typed_last_counts(said, flag, value);
    let given = arguments::parsed(said + seq![flag, value])->Ok_0;
    assert(value_of(given.flags, flag, flag) == Some(value));
    assert(flag == "--namespace"@ || flag == "-n"@ ==> value_of(given.flags, "--namespace"@, "-n"@)
        == Some(value));
    assert(flag == "--values"@ || flag == "-f"@ ==> value_of(given.flags, "--values"@, "-f"@)
        == Some(value));
}

/// The command from what was typed to its end: the checks are made first, of what
/// was typed, unless they are skipped; a finding that would stop an install ends
/// it with the findings printed and a failure; something missing ends it as
/// misuse; otherwise the install starts, with the params file and the first-run
/// code that were typed; and the command fails exactly where bringing it up does.
pub proof fn the_command_ends_as_what_it_does_ends(
    plan: Plan,
    exam: Exam,
    what: run::Plan,
    stage: run::Stage,
    note: Seq<char>,
    why: Seq<char>,
)
    ensures
        ({
            let skipped = plan.given.switches.contains("--no-doctor"@);
            let first = begun(plan);
            let checked = after_check(plan, exam);
            let flags = plan.given.flags;
            &&& !skipped ==> first.0 == Stage::Doctor(
                enter(meant(plan.given), false, Part::Helm, Seq::empty()),
            )
            &&& skipped ==> first == installs(plan, Seq::empty())
            &&& !(exam.stage is End) ==> checked == (Stage::Doctor(exam), silence())
            &&& exam.stage is End && stopping(exam.findings) > 0 ==> checked.0 == Stage::End(1)
                && checked.1.out == summary(exam.findings) && checked.1.err.len() > 0
            &&& exam.stage is End && stopping(exam.findings) == 0 ==> checked == installs(
                plan,
                summary(exam.findings) + "\n"@,
            )
            &&& match to_install(plan.given, plan.enrolment_code) {
                Err(missing) => installs(plan, note) == (
                    Stage::End(2),
                    Words { out: note, err: missing + "\n"@ },
                ),
                Ok((install, port)) => {
                    &&& installs(plan, note).0 matches Stage::Up(up, next)
                    &&& up.install == install && up.port == port
                    &&& match up.first_run_code {
                        Some(code) => code.len() > 0 && (was_typed(
                            flags,
                            "--first-run-code"@,
                            "--first-run-code"@,
                            Some(code),
                        ) || was_typed(flags, "--first-run-code"@, "--first-run-code"@, None)
                            && plan.first_run_code == Some(code)),
                        None => true,
                    }
                    &&& match next {
                        run::Stage::Params(path) => was_typed(flags, "--params"@, "-p"@, Some(path)),
                        run::Stage::Helm(None) => was_typed(flags, "--params"@, "-p"@, None),
                        _ => false,
                    }
                    &&& note.is_prefix_of(installs(plan, note).1.out)
                    &&& installs(plan, note).1.err.len() == 0
                },
            }
            &&& after_step(what, (run::Stage::End(Ok(())), note)).0 == Stage::End(0)
            &&& after_step(what, (run::Stage::End(Err(why)), note)) == (
                Stage::End(1),
                Words { out: note, err: "\nmeridian up: "@ + why + "\n"@ },
            )
            &&& !(stage is End) ==> after_step(what, (stage, note)) == (
                Stage::Up(what, stage),
                Words { out: note, err: Seq::empty() },
            )
        }),
{
    let flags = plan.given.flags;
    a_credential_is_what_was_typed_or_what_the_environment_holds(
        flags,
        "--first-run-code"@,
        plan.first_run_code,
    );
    the_last_value_given_is_the_flags_value(flags, "--params"@, "-p"@);
    reveal_strlit("Nothing was installed. Fix the above, or run again with --no-doctor.\n");
    if to_install(plan.given, plan.enrolment_code) is Ok {
        let out = installs(plan, note).1.out;
        assert(out.take(note.len() as int) =~= note);
    }
}

/// The params file, the first-run code and the skipping of the checks reach the
/// command, whatever was typed before them.
pub proof fn what_is_typed_last_reaches_the_command(
    said: Seq<Seq<char>>,
    value: Seq<char>,
    enrolment_code: Option<Seq<char>>,
    first_run_code: Option<Seq<char>>,
)
    requires
        said.len() > 0,
        arguments::parsed(said) is Ok,
        !arguments::is_switch(value),
    ensures
        arguments::parsed(said + seq!["--no-doctor"@]) matches Ok(given) && begun(
            Plan { given, enrolment_code, first_run_code },
        ) == installs(Plan { given, enrolment_code, first_run_code }, Seq::empty()),
        arguments::parsed(said + seq!["--params"@, value]) matches Ok(given) && value_of(
            given.flags,
            "--params"@,
            "-p"@,
        ) == Some(value),
        arguments::parsed(said + seq!["-p"@, value]) matches Ok(given) && value_of(
            given.flags,
            "--params"@,
            "-p"@,
        ) == Some(value),
        arguments::parsed(said + seq!["--first-run-code"@, value]) matches Ok(given) && (value.len()
            > 0 ==> secret_of(given.flags, "--first-run-code"@, first_run_code) == Some(value)),
{
    arguments::a_switch_or_a_word_that_is_typed_is_kept(said, "--no-doctor"@);
    let given = arguments::parsed(said + seq!["--no-doctor"@])->Ok_0;
    assert(given.switches.last() == "--no-doctor"@);
    assert(given.switches.contains("--no-doctor"@));
    arguments::a_flag_that_is_typed_last_counts(said, "--params"@, value);
    arguments::a_flag_that_is_typed_last_counts(said, "-p"@, value);
    arguments::a_flag_that_is_typed_last_counts(said, "--first-run-code"@, value);
}

#[derive(Debug)]
enum At {
    Doctor(Examination),
    Up(Up),
    End(i32),
}

impl View for At {
    type V = Stage;

    closed spec fn view(&self) -> Stage {
        match self {
            At::Doctor(examination) => Stage::Doctor(examination@),
            At::Up(up) => Stage::Up(up.plan(), up.stage()),
            At::End(code) => Stage::End(*code as int),
        }
    }
}

/// The command, as it goes on.
#[derive(Debug)]
pub struct Bringing {
    arguments: Arguments,
    enrolment_code: Option<String>,
    first_run_code: Option<String>,
    at: At,
}

/// What to print, and what to say of what went wrong.
#[derive(Debug, PartialEq, Eq)]
pub struct Said {
    pub out: String,
    pub err: String,
}

impl View for Said {
    type V = Words;

    open spec fn view(&self) -> Words {
        Words { out: self.out@, err: self.err@ }
    }
}

/// What the command asks for.
#[derive(Debug)]
pub enum Ask {
    /// What the checks ask for.
    Doctor(examination::Ask),
    /// What bringing it up asks for.
    Up(run::Ask),
    /// Nothing: this is what to exit with.
    Nothing(i32),
}

/// What came of what the command asked for.
#[derive(Debug)]
pub enum Heard {
    Ran(Result<String, Failure>),
    Fetched(Result<Answered, String>),
    /// This machine's clock, in seconds since the epoch.
    Clock(u64),
    Up(run::Heard),
}

impl View for Heard {
    type V = Came;

    open spec fn view(&self) -> Came {
        match self {
            Heard::Ran(said) => Came::Ran(ran(*said)),
            Heard::Fetched(answer) => Came::Fetched(fetched(*answer)),
            Heard::Clock(now) => Came::Clock(*now),
            Heard::Up(heard) => Came::Up(heard@),
        }
    }
}

fn nothing_said() -> (said: Said)
    ensures
        said@ == silence(),
{
    Said { out: String::new(), err: String::new() }
}

/// What an install is told, and the port that the wizard is forwarded to, or
/// what is missing.
pub fn install_of(arguments: &Arguments, enrolment_code: Option<String>) -> (r: Result<
    (Install, u16),
    String,
>)
    ensures
        match r {
            Ok((install, port)) => to_install(arguments@, optional(enrolment_code)) == Ok::<
                (Installing, nat),
                Seq<char>,
            >((install@, port as nat)),
            Err(why) => to_install(arguments@, optional(enrolment_code)) == Err::<
                (Installing, nat),
                Seq<char>,
            >(why@),
        },
{
    let deployment_id = match arguments.owned("--id", "--id") {
        Some(id) => id,
        None => {
            return Err(
                "meridian up: --id is this deployment's identifier, which the platform gave you when you registered it.".to_owned(),
            );
        },
    };
    let enrolment_code = match credential(arguments, "--enrolment-code", enrolment_code) {
        Some(code) => code,
        None => {
            return Err(
                "meridian up: this install carries a one-time enrolment code in place of a key. Put it in MERIDIAN_ENROLMENT_CODE, or pass --enrolment-code.".to_owned(),
            );
        },
    };
    let port = match number_of(
        arguments.value_or("--port", "--port", "8443").as_str(),
        u16::MAX as u64,
    ) {
        Some(port) => port as u16,
        None => {
            return Err("meridian up: --port takes a port number".to_owned());
        },
    };
    let install = Install {
        release: arguments.value_or("--release", "--release", "meridian"),
        namespace: intended(arguments).namespace,
        chart: arguments.value_or(
            "--chart",
            "--chart",
            "oci://ghcr.io/open-meridian/charts/meridian-runtime",
        ),
        chart_version: arguments.owned("--chart-version", "--chart-version"),
        deployment_id,
        enrolment_code,
        platform: arguments.owned("--platform", "--platform"),
        image: arguments.owned("--image", "--image"),
        values: arguments.every("--values", "-f"),
        timeout: arguments.value_or("--timeout", "--timeout", "10m"),
    };
    Ok((install, port))
}

fn again(held: &Option<String>) -> (out: Option<String>)
    ensures
        optional(out) == optional(*held),
{
    match held {
        Some(held) => Some(held.clone()),
        None => None,
    }
}

impl Bringing {
    /// What was typed, and what the environment holds.
    pub closed spec fn plan(&self) -> Plan {
        Plan {
            given: self.arguments@,
            enrolment_code: optional(self.enrolment_code),
            first_run_code: optional(self.first_run_code),
        }
    }

    /// How far the command has come.
    pub closed spec fn stage(&self) -> Stage {
        self.at@
    }

    fn install(
        arguments: &Arguments,
        enrolment_code: &Option<String>,
        first_run_code: &Option<String>,
        said: String,
        Ghost(plan): Ghost<Plan>,
    ) -> (r: (At, Said))
        requires
            plan.given == arguments@,
            plan.enrolment_code == optional(*enrolment_code),
            plan.first_run_code == optional(*first_run_code),
        ensures
            (r.0@, r.1@) == installs(plan, said@),
    {
        match install_of(arguments, again(enrolment_code)) {
            Err(why) => {
                (At::End(2), Said { out: said, err: said_of(why.as_str(), "\n") })
            },
            Ok((install, port)) => {
                let code = credential(arguments, "--first-run-code", again(first_run_code));
                let params = arguments.owned("--params", "-p");
                let (up, note) = Up::begin(install, port, params, code);
                let mut out = said;
                out.append(note.as_str());
                (At::Up(up), Said { out, err: String::new() })
            },
        }
    }

    fn checked(
        arguments: &Arguments,
        enrolment_code: &Option<String>,
        first_run_code: &Option<String>,
        examination: Examination,
        Ghost(plan): Ghost<Plan>,
    ) -> (r: (At, Said))
        requires
            plan.given == arguments@,
            plan.enrolment_code == optional(*enrolment_code),
            plan.first_run_code == optional(*first_run_code),
        ensures
            (r.0@, r.1@) == after_check(plan, examination@),
    {
        if !examination.over() {
            return (At::Doctor(examination), nothing_said());
        }
        let findings = examination.findings();
        let (said, code) = verdict(findings.as_slice());
        proof {
            crate::doctor::lemma_stopping(found(findings@));
            let all = found(findings@);
            if code == 0 {
                assert forall|i: int| 0 <= i < all.len() implies !((#[trigger] all[i]) is Stops) by {
                    assert(all[i] == findings@[i]@);
                }
            } else {
                let i = choose|i: int| 0 <= i < findings@.len() && (#[trigger] findings@[i])@ is Stops;
                assert(all[i] is Stops);
            }
        }
        if code != 0 {
            return (
                At::End(1),
                Said {
                    out: said,
                    err: "Nothing was installed. Fix the above, or run again with --no-doctor.\n".to_owned(),
                },
            );
        }
        Bringing::install(
            arguments,
            enrolment_code,
            first_run_code,
            said_of(said.as_str(), "\n"),
            Ghost(plan),
        )
    }

    /// The command, by what was typed and what the environment holds of the
    /// two codes, and what to say first.
    pub fn begin(
        arguments: Arguments,
        enrolment_code: Option<String>,
        first_run_code: Option<String>,
    ) -> (r: (Bringing, Said))
        ensures
            r.0.plan() == (Plan {
                given: arguments@,
                enrolment_code: optional(enrolment_code),
                first_run_code: optional(first_run_code),
            }),
            (r.0.stage(), r.1@) == begun(r.0.plan()),
    {
        let ghost plan = Plan {
            given: arguments@,
            enrolment_code: optional(enrolment_code),
            first_run_code: optional(first_run_code),
        };
        let (at, said) = if arguments.set("--no-doctor") {
            Bringing::install(
                &arguments,
                &enrolment_code,
                &first_run_code,
                String::new(),
                Ghost(plan),
            )
        } else {
            (At::Doctor(examine(intended(&arguments))), nothing_said())
        };
        (Bringing { arguments, enrolment_code, first_run_code, at }, said)
    }

    /// What the command needs next.
    pub fn ask(&self) -> (ask: Ask)
        ensures
            match ask {
                Ask::Doctor(ask) => self.stage() matches Stage::Doctor(exam) && ask@
                    == examination::need(exam),
                Ask::Up(ask) => self.stage() matches Stage::Up(what, step) && ask@ == run::need(
                    what,
                    step,
                ),
                Ask::Nothing(code) => self.stage() == Stage::End(code as int),
            },
    {
        match &self.at {
            At::Doctor(examination) => Ask::Doctor(examination.ask()),
            At::Up(up) => Ask::Up(up.ask()),
            At::End(code) => Ask::Nothing(*code),
        }
    }

    /// What comes next, after what came of what was asked for, and what to say.
    /// If that was not asked for, nothing changes.
    pub fn told(self, heard: Heard) -> (r: (Bringing, Said))
        ensures
            (r.0.stage(), r.1@) == after(self.plan(), self.stage(), heard@),
            r.0.plan() == self.plan(),
    {
        let ghost plan = self.plan();
        let arguments = self.arguments;
        let enrolment_code = self.enrolment_code;
        let first_run_code = self.first_run_code;
        let (at, said) = match (self.at, heard) {
            (At::Doctor(examination), Heard::Ran(said)) => {
                let mut examination = examination;
                examination.run(&said);
                Bringing::checked(
                    &arguments,
                    &enrolment_code,
                    &first_run_code,
                    examination,
                    Ghost(plan),
                )
            },
            (At::Doctor(examination), Heard::Fetched(answer)) => {
                let mut examination = examination;
                examination.fetch(&answer);
                Bringing::checked(
                    &arguments,
                    &enrolment_code,
                    &first_run_code,
                    examination,
                    Ghost(plan),
                )
            },
            (At::Doctor(examination), Heard::Clock(now)) => {
                let mut examination = examination;
                examination.clock(now);
                Bringing::checked(
                    &arguments,
                    &enrolment_code,
                    &first_run_code,
                    examination,
                    Ghost(plan),
                )
            },
            (At::Up(up), Heard::Up(heard)) => {
                let (up, note) = up.told(heard);
                match up.ended() {
                    Some(Ok(_)) => (At::End(0), Said { out: note, err: String::new() }),
                    Some(Err(why)) => {
                        let mut err = said_of("\nmeridian up: ", why.as_str());
                        err.append("\n");
                        (At::End(1), Said { out: note, err })
                    },
                    None => (At::Up(up), Said { out: note, err: String::new() }),
                }
            },
            (at, _) => (at, nothing_said()),
        };
        (Bringing { arguments, enrolment_code, first_run_code, at }, said)
    }
}

} // verus!
