//! Bringing it up: the commands, the port-forward and the wizard, in order.
//!
//! What comes next, and what went wrong at the step it went wrong on, is
//! decided here; running the commands and reaching the wizard are the caller's.
use vstd::prelude::*;
use vstd::string::*;

use crate::catalogue::image::optional;
use crate::number::{decimal, decimal_of};
use crate::order::Table;
use crate::text::{
    debug_of, debugged, every_word, join, joined, lossy, lossy_text, replace, replaced, texts,
    trim, trimmed, words,
};
use crate::up::answers::{params_from, params_of};
use crate::up::install::{
    arguments, document, helm_arguments, shown, shown_command, values_document, Install,
    Installing,
};
use crate::up::script;
use crate::up::script::{not_answered, unanswered, Script};

verus! {

/// How long to wait for the dashboard to answer before saying so, in seconds.
pub const DASHBOARD_TIMEOUT: u64 = 300;

/// What is brought up, and how it is answered.
pub struct Plan {
    pub install: Installing,
    /// The local port that the wizard is forwarded to.
    pub port: nat,
    pub first_run_code: Option<Seq<char>>,
}

/// How far it has come. The answers are those of the params file, where there
/// is one.
pub enum Stage {
    /// The params file is to be read.
    Params(Seq<char>),
    /// The chart is to be installed.
    Helm(Option<Map<Seq<char>, Seq<char>>>),
    /// The dashboard's service is to be found.
    Service(Option<Map<Seq<char>, Seq<char>>>),
    /// Its rollout is to be waited for.
    Rollout(Option<Map<Seq<char>, Seq<char>>>, Seq<char>),
    /// A port is to be forwarded to it.
    Forward(Option<Map<Seq<char>, Seq<char>>>, Seq<char>),
    /// The wizard is to be reached through the forward.
    Knock(Option<Map<Seq<char>, Seq<char>>>),
    /// The forward is held for a person.
    Hold,
    /// The wizard is answered from the file.
    Script(script::Plan, script::Step),
    /// The forward is to be closed, and then this is what came of it.
    Close(Result<(), Seq<char>>),
    /// This is what came of it.
    End(Result<(), Seq<char>>),
}

/// What is needed next.
pub enum Need {
    /// The text of this file.
    Text(Seq<char>),
    /// Helm, run with these arguments and this document on its input.
    Helm(Seq<Seq<char>>, Seq<char>),
    /// kubectl, run with these arguments.
    Kubectl(Seq<Seq<char>>),
    /// kubectl, started with these arguments and left running.
    Forward(Seq<Seq<char>>),
    /// This address, tried until it answers or there is no time left.
    Knock(Seq<char>),
    /// The person's word that the wizard is done.
    Interrupt,
    /// The page at this address.
    Get(Seq<char>),
    /// The page that this form, posted to this address, is answered with.
    Post(Seq<char>, Seq<char>),
    /// What these variables hold, of the environment.
    Variables(Seq<Seq<char>>),
    /// An end to what was left running.
    Kill,
    /// Nothing: this is what came of it.
    Nothing(Result<(), Seq<char>>),
}

/// Where the wizard is reached through the forward.
pub open spec fn wizard_address(plan: Plan) -> Seq<char> {
    "http://127.0.0.1:"@ + decimal(plan.port)
}

/// What kubectl is told besides the namespace, to find the dashboard's
/// service. Asked of the cluster rather than rebuilt from the chart's naming
/// rules, which are the chart's business and change without telling this.
pub open spec fn service_arguments(install: Installing) -> Seq<Seq<char>> {
    seq![
        "get"@,
        "service"@,
        "-l"@,
        "app.kubernetes.io/instance="@ + install.release
            + ",meridian.dev/component=dashboard"@,
        "-o"@,
        "name"@,
    ]
}

/// What kubectl is told besides the namespace, to wait for the rollout.
pub open spec fn rollout_arguments(service: Seq<char>) -> Seq<Seq<char>> {
    seq![
        "rollout"@,
        "status"@,
        replace(service, "service/"@, "deployment/"@),
        "--timeout"@,
        decimal(DASHBOARD_TIMEOUT as nat) + "s"@,
    ]
}

/// Arguments for kubectl, in the install's namespace.
pub open spec fn namespaced(install: Installing, rest: Seq<Seq<char>>) -> Seq<Seq<char>> {
    seq!["--namespace"@, install.namespace] + rest
}

/// What is needed next.
pub open spec fn need(plan: Plan, stage: Stage) -> Need {
    match stage {
        Stage::Params(path) => Need::Text(path),
        Stage::Helm(_) => Need::Helm(arguments(plan.install), document(plan.install)),
        Stage::Service(_) => Need::Kubectl(
            namespaced(plan.install, service_arguments(plan.install)),
        ),
        Stage::Rollout(_, service) => Need::Kubectl(
            namespaced(plan.install, rollout_arguments(service)),
        ),
        Stage::Forward(_, service) => Need::Forward(
            namespaced(
                plan.install,
                seq!["port-forward"@, service, decimal(plan.port) + ":80"@],
            ),
        ),
        Stage::Knock(_) => Need::Knock(wizard_address(plan) + "/first-run"@),
        Stage::Hold => Need::Interrupt,
        Stage::Script(answers, step) => match script::need(answers, step) {
            script::Need::Get(path) => Need::Get(wizard_address(plan) + path),
            script::Need::Post(path, form) => Need::Post(wizard_address(plan) + path, form),
            script::Need::Variables(names) => Need::Variables(names),
            script::Need::Nothing => Need::Kill,
        },
        Stage::Close(_) => Need::Kill,
        Stage::End(outcome) => Need::Nothing(outcome),
    }
}

/// What came of running Helm.
pub enum HelmCame {
    NotRun(Seq<char>),
    /// There was no input to give it its values on.
    NoInput,
    NotTaken(Seq<char>),
    Exited(bool, Seq<char>),
    Lost(Seq<char>),
}

/// What came of running kubectl.
pub enum KubectlCame {
    NotRun(Seq<char>),
    Exited { success: bool, stdout: Seq<u8>, stderr: Seq<u8> },
}

/// What came of trying the wizard's address.
pub enum KnockCame {
    /// There was nothing to try it with.
    NoClient(Seq<char>),
    Unanswered(Seq<char>),
    Answered(u16, Seq<char>),
}

/// What came of what was needed.
pub enum Came {
    Text(Result<Seq<char>, Seq<char>>),
    Helm(HelmCame),
    Kubectl(KubectlCame),
    Forwarded(Result<(), Seq<char>>),
    /// With whether there is time left.
    Knocked(KnockCame, bool),
    Interrupted,
    Page(Result<Seq<char>, Seq<char>>),
    Environment(Map<Seq<char>, Seq<char>>),
    Killed,
}

/// What is printed as an install starts: the command, so that somebody can do
/// the same by hand.
pub open spec fn installing(install: Installing) -> Seq<char> {
    "Installing "@ + install.release + " into "@ + install.namespace + ":\n\n  "@ + replace(
        shown_command(install),
        "\n"@,
        "\n  "@,
    ) + "\n\n"@
}

/// Where it starts, and what to print. The params file is read before anything
/// is installed: a file with a password in it is refused on the person's own
/// machine, not after a release exists.
pub open spec fn start(plan: Plan, params: Option<Seq<char>>) -> (Stage, Seq<char>) {
    match params {
        Some(path) => (Stage::Params(path), Seq::empty()),
        None => (Stage::Helm(None), installing(plan.install)),
    }
}

/// An end with a reason.
pub open spec fn failed(why: Seq<char>) -> (Stage, Seq<char>) {
    (Stage::End(Err(why)), Seq::empty())
}

/// A reason to close the forward.
pub open spec fn closing(why: Seq<char>) -> (Stage, Seq<char>) {
    (Stage::Close(Err(why)), Seq::empty())
}

/// After the params file.
pub open spec fn after_text(plan: Plan, path: Seq<char>, read: Result<Seq<char>, Seq<char>>) -> (
    Stage,
    Seq<char>,
) {
    match read {
        Err(why) => failed(path + " could not be read: "@ + why),
        Ok(text) => match params_of(text) {
            Err(why) => failed(path + ": "@ + why),
            Ok(answers) => (Stage::Helm(Some(answers)), installing(plan.install)),
        },
    }
}

/// After Helm.
pub open spec fn after_helm(answers: Option<Map<Seq<char>, Seq<char>>>, came: HelmCame) -> (
    Stage,
    Seq<char>,
) {
    match came {
        HelmCame::NotRun(why) => failed("helm could not be run: "@ + why + ". Is it installed?"@),
        HelmCame::NoInput => failed("helm would not take its values"@),
        HelmCame::NotTaken(why) => failed("helm would not take its values: "@ + why),
        HelmCame::Lost(why) => failed("helm could not be waited for: "@ + why),
        HelmCame::Exited(success, status) => if success {
            (Stage::Service(answers), "Installed.\n"@)
        } else {
            failed(
                "helm refused this install ("@ + status
                    + "). Nothing was forwarded and nothing was answered."@,
            )
        },
    }
}

/// What kubectl said, run with these arguments besides the namespace.
pub open spec fn kubectl_said(rest: Seq<Seq<char>>, came: KubectlCame) -> Result<
    Seq<char>,
    Seq<char>,
> {
    match came {
        KubectlCame::NotRun(why) => Err("kubectl could not be run: "@ + why),
        KubectlCame::Exited { success, stdout, stderr } => kubectl_came(
            rest,
            success,
            lossy_text(stdout),
            lossy_text(stderr),
        ),
    }
}

/// What kubectl said that ran, by its two outputs, or why it failed.
pub open spec fn kubectl_came(
    rest: Seq<Seq<char>>,
    success: bool,
    out: Seq<char>,
    err: Seq<char>,
) -> Result<Seq<char>, Seq<char>> {
    if success {
        Ok(out)
    } else {
        Err("kubectl "@ + join(rest, " "@) + ": "@ + trim(err))
    }
}

/// The dashboard's service, by what kubectl said when asked for its name: the
/// first that it names.
pub open spec fn service_in(said: Seq<char>) -> Result<Seq<char>, Seq<char>> {
    if words(said).len() == 0 {
        Err(
            "this release has no dashboard service, so there is no wizard to open. A deployment installed with dashboard.enabled=false is configured by values rather than by a wizard."@,
        )
    } else {
        Ok(words(said)[0])
    }
}

/// After the dashboard's service was looked for.
pub open spec fn after_service(
    plan: Plan,
    answers: Option<Map<Seq<char>, Seq<char>>>,
    came: KubectlCame,
) -> (Stage, Seq<char>) {
    match kubectl_said(service_arguments(plan.install), came) {
        Err(why) => failed(why),
        Ok(said) => match service_in(said) {
            Err(why) => failed(why),
            Ok(service) => (
                Stage::Rollout(answers, service),
                "Waiting for "@ + service + " to answer its health check.\n"@,
            ),
        },
    }
}

/// After the rollout was waited for.
pub open spec fn after_rollout(
    answers: Option<Map<Seq<char>, Seq<char>>>,
    service: Seq<char>,
    came: KubectlCame,
) -> (Stage, Seq<char>) {
    match kubectl_said(rollout_arguments(service), came) {
        Err(why) => failed(why),
        Ok(said) => (Stage::Forward(answers, service), said),
    }
}

/// What an answer that is no answer looks like to a programmer.
pub open spec fn looks_like(came: KnockCame) -> Seq<char> {
    match came {
        KnockCame::Answered(code, body) => "Ok(("@ + decimal(code as nat) + ", "@ + debugged(body)
            + "))"@,
        KnockCame::Unanswered(why) => "Err("@ + debugged(unanswered(why)) + ")"@,
        KnockCame::NoClient(why) => why,
    }
}

/// After the wizard's address was tried.
pub open spec fn after_knock(
    plan: Plan,
    answers: Option<Map<Seq<char>, Seq<char>>>,
    came: KnockCame,
    in_time: bool,
) -> (Stage, Seq<char>) {
    match came {
        KnockCame::NoClient(why) => closing(why),
        KnockCame::Answered(200, _) => match answers {
            None => (
                Stage::Hold,
                "\nThe wizard is at "@ + wizard_address(plan)
                    + "/first-run\nIt asks for a first-run code, which a deployment administrator issues on the platform.\n\nThis forward is held open here. Press Ctrl-C when the wizard says it is done.\n"@,
            ),
            Some(params) => match plan.first_run_code {
                None => closing(
                    "answering the wizard needs a first-run claim code: --first-run-code, or MERIDIAN_FIRST_RUN_CODE, which keeps it out of a shell history."@,
                ),
                Some(code) => (
                    Stage::Script(script::Plan { params, code }, script::Step::Claim),
                    Seq::empty(),
                ),
            },
        },
        KnockCame::Answered(404, _) => closing(
            "this deployment has been through first run already. Sign in at its own address."@,
        ),
        _ => if in_time {
            (Stage::Knock(answers), Seq::empty())
        } else {
            closing(
                "the wizard never answered at "@ + wizard_address(plan) + ": "@ + looks_like(came)
                    + ". The dashboard is running; the forward is what did not carry."@,
            )
        },
    }
}

/// After a step of the script.
pub open spec fn after_script(
    answers: script::Plan,
    r: Result<(script::Step, Seq<char>), Seq<char>>,
) -> (Stage, Seq<char>) {
    match r {
        Err(why) => closing(why),
        Ok((step, note)) => if step is Done {
            (Stage::Close(Ok(())), note)
        } else {
            (Stage::Script(answers, step), note)
        },
    }
}

/// What comes next, and what to print.
pub open spec fn after(plan: Plan, stage: Stage, came: Came) -> (Stage, Seq<char>) {
    match (stage, came) {
        (Stage::Params(path), Came::Text(read)) => after_text(plan, path, read),
        (Stage::Helm(answers), Came::Helm(came)) => after_helm(answers, came),
        (Stage::Service(answers), Came::Kubectl(came)) => after_service(plan, answers, came),
        (Stage::Rollout(answers, service), Came::Kubectl(came)) => after_rollout(
            answers,
            service,
            came,
        ),
        (Stage::Forward(answers, _), Came::Forwarded(started)) => match started {
            Ok(_) => (Stage::Knock(answers), Seq::empty()),
            Err(why) => failed("kubectl could not be run: "@ + why),
        },
        (Stage::Knock(answers), Came::Knocked(came, in_time)) => after_knock(
            plan,
            answers,
            came,
            in_time,
        ),
        (Stage::Hold, Came::Interrupted) => (
            Stage::Close(Ok(())),
            "\nForward closed. Nothing else was left running.\n"@,
        ),
        (Stage::Script(answers, step), Came::Page(Ok(page))) => after_script(
            answers,
            script::after_page(answers, step, page),
        ),
        (Stage::Script(answers, step), Came::Page(Err(why))) => closing(unanswered(why)),
        (Stage::Script(answers, step), Came::Environment(environment)) => after_script(
            answers,
            script::after_environment(answers, step, environment),
        ),
        (Stage::Close(outcome), Came::Killed) => (Stage::End(outcome), Seq::empty()),
        _ => (stage, Seq::empty()),
    }
}

// ── What holds of every course ───────────────────────────────────────────────

/// Something was left running, and runs.
pub open spec fn forwarded(stage: Stage) -> bool {
    stage is Knock || stage is Hold || stage is Script || stage is Close
}

/// Nothing is installed before the params file is read and accepted.
pub proof fn nothing_is_installed_before_the_answers_are_read(
    plan: Plan,
    path: Seq<char>,
    came: Came,
)
    ensures
        start(plan, Some(path)).0 == Stage::Params(path),
        after(plan, Stage::Params(path), came).0 != Stage::Params(path) ==> (came matches Came::Text(
            read,
        ) && match read {
            Ok(text) => match params_of(text) {
                Ok(answers) => after(plan, Stage::Params(path), came).0 == Stage::Helm(
                    Some(answers),
                ),
                Err(why) => after(plan, Stage::Params(path), came).0 == Stage::End(
                    Err(path + ": "@ + why),
                ),
            },
            Err(why) => after(plan, Stage::Params(path), came).0 == Stage::End(
                Err(path + " could not be read: "@ + why),
            ),
        }),
{
}

/// Without a params file the install starts at once; and as an install starts,
/// the release, the namespace and the command are shown.
pub proof fn an_install_is_shown_as_it_starts(plan: Plan)
    ensures
        start(plan, None) == (Stage::Helm(None), installing(plan.install)),
        exists|shown: Seq<char>|
            installing(plan.install) == #[trigger] ("Installing "@ + plan.install.release + " into "@
                + plan.install.namespace + ":\n\n  "@ + shown + "\n\n"@) && shown == replace(
                shown_command(plan.install),
                "\n"@,
                "\n  "@,
            ),
{
    let shown = replace(shown_command(plan.install), "\n"@, "\n  "@);
    assert(installing(plan.install) == "Installing "@ + plan.install.release + " into "@
        + plan.install.namespace + ":\n\n  "@ + shown + "\n\n"@);
}

/// A service is waited for as the deployment behind it, which has its name.
pub proof fn a_service_is_waited_for_by_its_own_name(name: Seq<char>)
    requires
        !crate::text::holds(name, "service/"@),
    ensures
        rollout_arguments("service/"@ + name) == seq![
            "rollout"@,
            "status"@,
            "deployment/"@ + name,
            "--timeout"@,
            "300s"@,
        ],
{
    reveal_strlit("service/");
    reveal_strlit("300s");
    reveal_strlit("s");
    let pat = "service/"@;
    let whole = pat + name;
    assert(whole.subrange(0, pat.len() as int) =~= pat);
    assert(crate::text::first_at(whole, pat, 0));
    crate::text::lemma_replace_first(whole, pat, "deployment/"@, 0);
    crate::text::lemma_nothing_sought(name, pat, "deployment/"@);
    assert(whole.skip(pat.len() as int) =~= name);
    assert(whole.take(0) =~= Seq::<char>::empty());
    assert(replace(whole, pat, "deployment/"@) =~= "deployment/"@ + name);
    reveal_with_fuel(decimal, 4);
    assert(decimal(300) =~= seq!['3', '0', '0']);
    assert(decimal(DASHBOARD_TIMEOUT as nat) + "s"@ =~= "300s"@);
    assert(rollout_arguments(whole) =~= seq![
        "rollout"@,
        "status"@,
        "deployment/"@ + name,
        "--timeout"@,
        "300s"@,
    ]);
}

/// Bringing a deployment up goes from the install to the dashboard, each step in
/// the install's own namespace and each only after the one before it went well:
/// Helm is run, the release's own dashboard service is looked for, and the first
/// that is named is waited for and forwarded to, on the port that was asked for.
pub proof fn each_step_of_bringing_it_up_follows_the_one_before(
    plan: Plan,
    answers: Option<Map<Seq<char>, Seq<char>>>,
    service: Seq<char>,
    stdout: Seq<u8>,
    stderr: Seq<u8>,
    said: Seq<char>,
)
    ensures
        ({
            let space = plan.install.namespace;
            let yes = KubectlCame::Exited { success: true, stdout, stderr };
            let no = KubectlCame::Exited { success: false, stdout, stderr };
            let lost = KubectlCame::NotRun(said);
            let ends_badly = |next: (Stage, Seq<char>)| next.0 matches Stage::End(Err(_));
            let looked = after(plan, Stage::Service(answers), Came::Kubectl(yes));
            let names = words(lossy_text(stdout));
            &&& need(plan, Stage::Helm(answers)) == Need::Helm(
                arguments(plan.install),
                document(plan.install),
            )
            &&& after(plan, Stage::Helm(answers), Came::Helm(HelmCame::Exited(true, said))).0
                == Stage::Service(answers)
            &&& after(plan, Stage::Helm(answers), Came::Helm(HelmCame::Exited(false, said))).0
                == Stage::End(
                Err(
                    "helm refused this install ("@ + said
                        + "). Nothing was forwarded and nothing was answered."@,
                ),
            )
            &&& ends_badly(after(plan, Stage::Helm(answers), Came::Helm(HelmCame::NotRun(said))))
            &&& ends_badly(after(plan, Stage::Helm(answers), Came::Helm(HelmCame::NoInput)))
            &&& ends_badly(after(plan, Stage::Helm(answers), Came::Helm(HelmCame::NotTaken(said))))
            &&& ends_badly(after(plan, Stage::Helm(answers), Came::Helm(HelmCame::Lost(said))))
            &&& need(plan, Stage::Service(answers)) == Need::Kubectl(
                seq![
                    "--namespace"@,
                    space,
                    "get"@,
                    "service"@,
                    "-l"@,
                    "app.kubernetes.io/instance="@ + plan.install.release
                        + ",meridian.dev/component=dashboard"@,
                    "-o"@,
                    "name"@,
                ],
            )
            &&& if names.len() > 0 {
                looked.0 == Stage::Rollout(answers, names[0])
            } else {
                ends_badly(looked)
            }
            &&& after(plan, Stage::Service(answers), Came::Kubectl(no)).0 == Stage::End(
                Err(
                    "kubectl "@ + join(service_arguments(plan.install), " "@) + ": "@ + trim(
                        lossy_text(stderr),
                    ),
                ),
            )
            &&& after(plan, Stage::Service(answers), Came::Kubectl(lost)).0 == Stage::End(
                Err("kubectl could not be run: "@ + said),
            )
            &&& need(plan, Stage::Rollout(answers, service)) == Need::Kubectl(
                seq!["--namespace"@, space] + rollout_arguments(service),
            )
            &&& after(plan, Stage::Rollout(answers, service), Came::Kubectl(yes)) == (
                Stage::Forward(answers, service),
                lossy_text(stdout),
            )
            &&& after(plan, Stage::Rollout(answers, service), Came::Kubectl(no)).0 == Stage::End(
                Err(
                    "kubectl "@ + join(rollout_arguments(service), " "@) + ": "@ + trim(
                        lossy_text(stderr),
                    ),
                ),
            )
            &&& ends_badly(after(plan, Stage::Rollout(answers, service), Came::Kubectl(lost)))
            &&& need(plan, Stage::Forward(answers, service)) == Need::Forward(
                seq![
                    "--namespace"@,
                    space,
                    "port-forward"@,
                    service,
                    decimal(plan.port) + ":80"@,
                ],
            )
            &&& after(plan, Stage::Forward(answers, service), Came::Forwarded(Ok(()))).0
                == Stage::Knock(answers)
            &&& ends_badly(
                after(plan, Stage::Forward(answers, service), Came::Forwarded(Err(said))),
            )
        }),
{
    let space = plan.install.namespace;
    assert(namespaced(plan.install, service_arguments(plan.install)) =~= seq![
        "--namespace"@,
        space,
        "get"@,
        "service"@,
        "-l"@,
        "app.kubernetes.io/instance="@ + plan.install.release
            + ",meridian.dev/component=dashboard"@,
        "-o"@,
        "name"@,
    ]);
    assert(namespaced(
        plan.install,
        seq!["port-forward"@, service, decimal(plan.port) + ":80"@],
    ) =~= seq!["--namespace"@, space, "port-forward"@, service, decimal(plan.port) + ":80"@]);
}

/// The wizard is reached through the forward, at its own port and page: an
/// answer that it is there is held for a person where nobody gave answers, and is
/// answered from the file, behind the code, where somebody did; without a code,
/// or once first run is over, the forward is closed; anything else is tried
/// again for as long as there is time.
pub proof fn the_wizard_is_answered_once_it_is_there(
    plan: Plan,
    answers: Option<Map<Seq<char>, Seq<char>>>,
    code: u16,
    body: Seq<char>,
    why: Seq<char>,
    in_time: bool,
    outcome: Result<(), Seq<char>>,
)
    ensures
        ({
            let knocked = |came: KnockCame|
                after(plan, Stage::Knock(answers), Came::Knocked(came, in_time)).0;
            let closes = |stage: Stage| stage matches Stage::Close(Err(_));
            let there = knocked(KnockCame::Answered(200, body));
            let other = knocked(KnockCame::Answered(code, body));
            &&& need(plan, Stage::Knock(answers)) == Need::Knock(
                "http://127.0.0.1:"@ + decimal(plan.port) + "/first-run"@,
            )
            &&& answers is None ==> there is Hold
            &&& answers is Some && plan.first_run_code is None ==> closes(there)
            &&& answers is Some && plan.first_run_code is Some ==> there == Stage::Script(
                script::Plan { params: answers->0, code: plan.first_run_code->0 },
                script::Step::Claim,
            )
            &&& closes(knocked(KnockCame::Answered(404, body)))
            &&& closes(knocked(KnockCame::NoClient(why)))
            &&& code != 200 && code != 404 ==> if in_time {
                other == Stage::Knock(answers)
            } else {
                closes(other)
            }
            &&& if in_time {
                knocked(KnockCame::Unanswered(why)) == Stage::Knock(answers)
            } else {
                closes(knocked(KnockCame::Unanswered(why)))
            }
            &&& need(plan, Stage::Hold) is Interrupt
            &&& after(plan, Stage::Hold, Came::Interrupted).0 == Stage::Close(Ok(()))
            &&& need(plan, Stage::Close(outcome)) is Kill
            &&& after(plan, Stage::Close(outcome), Came::Killed).0 == Stage::End(outcome)
            &&& need(plan, Stage::End(outcome)) == Need::Nothing(outcome)
        }),
{
}

/// What the script asks for is asked of the wizard behind the forward, and what
/// it ends with ends the forward.
pub proof fn the_script_is_played_through_the_forward(
    plan: Plan,
    answers: script::Plan,
    step: script::Step,
    page: Seq<char>,
    why: Seq<char>,
    environment: Map<Seq<char>, Seq<char>>,
)
    ensures
        ({
            let at = "http://127.0.0.1:"@ + decimal(plan.port);
            let stage = Stage::Script(answers, step);
            let follows = |r: Result<(script::Step, Seq<char>), Seq<char>>, next: (Stage, Seq<char>)|
                match r {
                    Err(said) => next.0 == Stage::Close(Err(said)),
                    Ok((then, note)) => next.1 == note && if then is Done {
                        next.0 == Stage::Close(Ok(()))
                    } else {
                        next.0 == Stage::Script(answers, then)
                    },
                };
            &&& match script::need(answers, step) {
                script::Need::Get(path) => need(plan, stage) == Need::Get(at + path),
                script::Need::Post(path, form) => need(plan, stage) == Need::Post(at + path, form),
                script::Need::Variables(names) => need(plan, stage) == Need::Variables(names),
                script::Need::Nothing => need(plan, stage) is Kill,
            }
            &&& follows(
                script::after_page(answers, step, page),
                after(plan, stage, Came::Page(Ok(page))),
            )
            &&& follows(
                script::after_environment(answers, step, environment),
                after(plan, stage, Came::Environment(environment)),
            )
            &&& after(plan, stage, Came::Page(Err(why))).0 matches Stage::Close(Err(_))
        }),
{
}

/// Nothing outlives it: once the forward runs, the course ends only after the
/// forward was ended, with the outcome that it was ended for.
pub proof fn a_forward_never_outlives_the_command(plan: Plan, stage: Stage, came: Came)
    requires
        forwarded(stage),
    ensures
        ({
            let next = after(plan, stage, came).0;
            forwarded(next) || (came is Killed && stage is Close && next == Stage::End(
                stage->Close_0,
            ))
        }),
{
}

/// Nothing is forwarded that was not installed: the forward is started only
/// where Helm succeeded and the cluster named a service whose rollout ended
/// well, each in its turn.
pub proof fn nothing_is_forwarded_that_was_not_installed(plan: Plan, stage: Stage, came: Came)
    ensures
        after(plan, stage, came).0 is Service && !(stage is Service) ==> stage is Helm && (
        came matches Came::Helm(HelmCame::Exited(success, _)) && success),
        after(plan, stage, came).0 is Rollout && !(stage is Rollout) ==> stage is Service && (
        came matches Came::Kubectl(KubectlCame::Exited { success, .. }) && success),
        after(plan, stage, came).0 is Forward && !(stage is Forward) ==> stage is Rollout && (
        came matches Came::Kubectl(KubectlCame::Exited { success, .. }) && success),
        forwarded(after(plan, stage, came).0) && !forwarded(stage) ==> stage is Forward,
{
}

// ── The course, as it is kept ────────────────────────────────────────────────

/// What running Helm came to.
#[derive(Debug)]
pub enum HelmRan {
    /// It could not be run.
    NotRun(String),
    /// It had no input to give it its values on.
    NoInput,
    /// It would not take its values.
    NotTaken(String),
    /// It ended, successfully or not, with this status as it is written.
    Exited(bool, String),
    /// It could not be waited for.
    Lost(String),
}

impl View for HelmRan {
    type V = HelmCame;

    open spec fn view(&self) -> HelmCame {
        match self {
            HelmRan::NotRun(why) => HelmCame::NotRun(why@),
            HelmRan::NoInput => HelmCame::NoInput,
            HelmRan::NotTaken(why) => HelmCame::NotTaken(why@),
            HelmRan::Exited(success, status) => HelmCame::Exited(*success, status@),
            HelmRan::Lost(why) => HelmCame::Lost(why@),
        }
    }
}

/// What running kubectl came to.
#[derive(Debug)]
pub enum KubectlRan {
    /// It could not be run.
    NotRun(String),
    /// It ended, with this on its outputs.
    Exited { success: bool, stdout: Vec<u8>, stderr: Vec<u8> },
}

impl View for KubectlRan {
    type V = KubectlCame;

    open spec fn view(&self) -> KubectlCame {
        match self {
            KubectlRan::NotRun(why) => KubectlCame::NotRun(why@),
            KubectlRan::Exited { success, stdout, stderr } => KubectlCame::Exited {
                success: *success,
                stdout: stdout@,
                stderr: stderr@,
            },
        }
    }
}

/// What trying the wizard's address came to.
#[derive(Debug)]
pub enum Knocked {
    /// There was nothing to try it with.
    NoClient(String),
    /// It could not be reached.
    Unanswered(String),
    /// It answered, with this status and this body.
    Answered(u16, String),
}

impl View for Knocked {
    type V = KnockCame;

    open spec fn view(&self) -> KnockCame {
        match self {
            Knocked::NoClient(why) => KnockCame::NoClient(why@),
            Knocked::Unanswered(why) => KnockCame::Unanswered(why@),
            Knocked::Answered(code, body) => KnockCame::Answered(*code, body@),
        }
    }
}

/// What came of what was asked for.
#[derive(Debug)]
pub enum Heard {
    /// The file's text, or why it could not be read.
    Text(Result<String, String>),
    Helm(HelmRan),
    Kubectl(KubectlRan),
    /// kubectl was started, or could not be.
    Forwarded(Result<(), String>),
    /// What came of trying the address, and whether there is time left.
    Knocked(Knocked, bool),
    /// The person said that the wizard is done.
    Interrupted,
    /// The page, or why there was none.
    Page(Result<String, String>),
    /// What the environment holds, of the variables that were asked for.
    Environment(Table),
    /// What was left running was ended.
    Killed,
}

/// A text, or why there is none.
pub open spec fn text_read(r: Result<String, String>) -> Result<Seq<char>, Seq<char>> {
    match r {
        Ok(text) => Ok(text@),
        Err(why) => Err(why@),
    }
}

/// What came of something.
pub open spec fn outcome(r: Result<(), String>) -> Result<(), Seq<char>> {
    match r {
        Ok(_) => Ok(()),
        Err(why) => Err(why@),
    }
}

impl View for Heard {
    type V = Came;

    open spec fn view(&self) -> Came {
        match self {
            Heard::Text(read) => Came::Text(text_read(*read)),
            Heard::Helm(ran) => Came::Helm(ran@),
            Heard::Kubectl(ran) => Came::Kubectl(ran@),
            Heard::Forwarded(started) => Came::Forwarded(outcome(*started)),
            Heard::Knocked(knocked, in_time) => Came::Knocked(knocked@, *in_time),
            Heard::Interrupted => Came::Interrupted,
            Heard::Page(page) => Came::Page(text_read(*page)),
            Heard::Environment(held) => Came::Environment(held@),
            Heard::Killed => Came::Killed,
        }
    }
}

/// What is asked for next.
#[derive(Debug)]
pub enum Ask {
    /// The text of the file at this path.
    Text(String),
    /// Helm, run with these arguments and this document on its input.
    Helm(Vec<String>, String),
    /// kubectl, run with these arguments.
    Kubectl(Vec<String>),
    /// kubectl, started with these arguments and left running.
    Forward(Vec<String>),
    /// This address, tried.
    Knock(String),
    /// The person's word that the wizard is done.
    Interrupt,
    /// The page at this address.
    Get(String),
    /// The page that this form, posted to this address, is answered with.
    Post(String, String),
    /// What these variables hold, of the environment.
    Variables(Vec<String>),
    /// An end to what was left running.
    Kill,
    /// Nothing: this is what came of it.
    Nothing(Result<(), String>),
}

impl View for Ask {
    type V = Need;

    open spec fn view(&self) -> Need {
        match self {
            Ask::Text(path) => Need::Text(path@),
            Ask::Helm(arguments, document) => Need::Helm(texts(arguments@), document@),
            Ask::Kubectl(arguments) => Need::Kubectl(texts(arguments@)),
            Ask::Forward(arguments) => Need::Forward(texts(arguments@)),
            Ask::Knock(url) => Need::Knock(url@),
            Ask::Interrupt => Need::Interrupt,
            Ask::Get(url) => Need::Get(url@),
            Ask::Post(url, form) => Need::Post(url@, form@),
            Ask::Variables(names) => Need::Variables(texts(names@)),
            Ask::Kill => Need::Kill,
            Ask::Nothing(came) => Need::Nothing(outcome(*came)),
        }
    }
}

/// The answers of a params file, where there is one.
pub open spec fn answers_of(params: Option<Table>) -> Option<Map<Seq<char>, Seq<char>>> {
    match params {
        Some(params) => Some(params@),
        None => None,
    }
}

#[derive(Debug)]
enum At {
    Params(String),
    Helm(Option<Table>),
    Service(Option<Table>),
    Rollout(Option<Table>, String),
    Forward(Option<Table>, String),
    Knock(Option<Table>),
    Hold,
    Script(Script),
    Close(Result<(), String>),
    End(Result<(), String>),
}

impl View for At {
    type V = Stage;

    closed spec fn view(&self) -> Stage {
        match self {
            At::Params(path) => Stage::Params(path@),
            At::Helm(params) => Stage::Helm(answers_of(*params)),
            At::Service(params) => Stage::Service(answers_of(*params)),
            At::Rollout(params, service) => Stage::Rollout(answers_of(*params), service@),
            At::Forward(params, service) => Stage::Forward(answers_of(*params), service@),
            At::Knock(params) => Stage::Knock(answers_of(*params)),
            At::Hold => Stage::Hold,
            At::Script(script) => Stage::Script(script.plan(), script.step()),
            At::Close(came) => Stage::Close(outcome(*came)),
            At::End(came) => Stage::End(outcome(*came)),
        }
    }
}

/// A deployment being brought up, from an empty namespace to the wizard.
#[derive(Debug)]
pub struct Up {
    install: Install,
    port: u16,
    first_run_code: Option<String>,
    at: At,
}

fn ended(why: String) -> (r: (At, String))
    ensures
        (r.0@, r.1@) == failed(why@),
{
    (At::End(Err(why)), String::new())
}

fn ending(why: String) -> (r: (At, String))
    ensures
        (r.0@, r.1@) == closing(why@),
{
    (At::Close(Err(why)), String::new())
}

fn both(a: &str, b: &str) -> (out: String)
    ensures
        out@ == a@ + b@,
{
    let mut out = a.to_owned();
    out.append(b);
    out
}

fn start_said(install: &Install) -> (out: String)
    ensures
        out@ == installing(install@),
{
    let mut out = "Installing ".to_owned();
    out.append(install.release.as_str());
    out.append(" into ");
    out.append(install.namespace.as_str());
    out.append(":\n\n  ");
    proof {
        reveal_strlit("\n");
    }
    out.append(replaced(shown(install).as_str(), "\n", "\n  ").as_str());
    out.append("\n\n");
    out
}

/// What kubectl is told besides the namespace, to find the dashboard's
/// service.
fn service_words(install: &Install) -> (out: Vec<String>)
    ensures
        texts(out@) == service_arguments(install@),
{
    let mut label = "app.kubernetes.io/instance=".to_owned();
    label.append(install.release.as_str());
    label.append(",meridian.dev/component=dashboard");
    let out = vec![
        "get".to_owned(),
        "service".to_owned(),
        "-l".to_owned(),
        label,
        "-o".to_owned(),
        "name".to_owned(),
    ];
    assert(texts(out@) =~= service_arguments(install@));
    out
}

/// What kubectl is told besides the namespace, to wait for the rollout.
fn rollout_words(service: &str) -> (out: Vec<String>)
    ensures
        texts(out@) == rollout_arguments(service@),
{
    proof {
        reveal_strlit("service/");
    }
    let out = vec![
        "rollout".to_owned(),
        "status".to_owned(),
        replaced(service, "service/", "deployment/"),
        "--timeout".to_owned(),
        both(decimal_of(DASHBOARD_TIMEOUT).as_str(), "s"),
    ];
    assert(texts(out@) =~= rollout_arguments(service@));
    out
}

fn in_namespace(install: &Install, rest: Vec<String>) -> (out: Vec<String>)
    ensures
        texts(out@) == namespaced(install@, texts(rest@)),
{
    let mut rest = rest;
    let ghost words = texts(rest@);
    let mut out = vec!["--namespace".to_owned(), install.namespace.clone()];
    assert(texts(out@) =~= seq!["--namespace"@, install.namespace@]);
    let ghost before = texts(out@);
    out.append(&mut rest);
    assert(texts(out@) =~= before + words);
    out
}

/// What kubectl said, run with these arguments besides the namespace.
pub fn kubectl(rest: &Vec<String>, ran: &KubectlRan) -> (r: Result<String, String>)
    ensures
        text_read(r) == kubectl_said(texts(rest@), ran@),
{
    match ran {
        KubectlRan::NotRun(why) => Err(both("kubectl could not be run: ", why.as_str())),
        KubectlRan::Exited { success, stdout, stderr } => kubectl_saying(
            rest,
            *success,
            lossy(stdout.as_slice()),
            lossy(stderr.as_slice()).as_str(),
        ),
    }
}

/// What kubectl said that ran, by its two outputs.
pub fn kubectl_saying(rest: &Vec<String>, success: bool, out: String, err: &str) -> (r: Result<
    String,
    String,
>)
    ensures
        text_read(r) == kubectl_came(texts(rest@), success, out@, err@),
{
    if success {
        return Ok(out);
    }
    let mut why = "kubectl ".to_owned();
    why.append(joined(rest, " ").as_str());
    why.append(": ");
    why.append(trimmed(err).as_str());
    Err(why)
}

/// The dashboard's service, by what kubectl said when asked for its name. Asked
/// of the cluster rather than rebuilt from the chart's naming rules, which are
/// the chart's business and change without telling this.
pub fn dashboard_service(said: &str) -> (r: Result<String, String>)
    ensures
        text_read(r) == service_in(said@),
{
    let named = every_word(said);
    if named.len() == 0 {
        assert(texts(named@).len() == 0);
        return Err(
            "this release has no dashboard service, so there is no wizard to open. A deployment installed with dashboard.enabled=false is configured by values rather than by a wizard.".to_owned(),
        );
    }
    assert(texts(named@)[0] == named@[0]@);
    Ok(named[0].clone())
}

fn text_told(install: &Install, path: String, read: Result<String, String>, Ghost(plan): Ghost<
    Plan,
>) -> (r: (At, String))
    requires
        plan.install == install@,
    ensures
        (r.0@, r.1@) == after_text(plan, path@, text_read(read)),
{
    match read {
        Err(why) => {
            let mut said = path;
            said.append(" could not be read: ");
            said.append(why.as_str());
            ended(said)
        },
        Ok(text) => match params_from(text.as_str()) {
            Err(why) => {
                let mut said = path;
                said.append(": ");
                said.append(why.as_str());
                ended(said)
            },
            Ok(params) => (At::Helm(Some(params)), start_said(install)),
        },
    }
}

fn helm_told(params: Option<Table>, ran: HelmRan) -> (r: (At, String))
    ensures
        (r.0@, r.1@) == after_helm(answers_of(params), ran@),
{
    match ran {
        HelmRan::NotRun(why) => {
            let mut said = both("helm could not be run: ", why.as_str());
            said.append(". Is it installed?");
            ended(said)
        },
        HelmRan::NoInput => ended("helm would not take its values".to_owned()),
        HelmRan::NotTaken(why) => ended(both("helm would not take its values: ", why.as_str())),
        HelmRan::Lost(why) => ended(both("helm could not be waited for: ", why.as_str())),
        HelmRan::Exited(success, status) => {
            if success {
                (At::Service(params), "Installed.\n".to_owned())
            } else {
                let mut said = both("helm refused this install (", status.as_str());
                said.append("). Nothing was forwarded and nothing was answered.");
                ended(said)
            }
        },
    }
}

fn service_told(install: &Install, params: Option<Table>, ran: KubectlRan, Ghost(plan): Ghost<
    Plan,
>) -> (r: (At, String))
    requires
        plan.install == install@,
    ensures
        (r.0@, r.1@) == after_service(plan, answers_of(params), ran@),
{
    let said = match kubectl(&service_words(install), &ran) {
        Ok(said) => said,
        Err(why) => {
            return ended(why);
        },
    };
    match dashboard_service(said.as_str()) {
        Err(why) => ended(why),
        Ok(service) => {
            let mut note = both("Waiting for ", service.as_str());
            note.append(" to answer its health check.\n");
            (At::Rollout(params, service), note)
        },
    }
}

fn knock_told(
    first_run_code: &Option<String>,
    port: u16,
    params: Option<Table>,
    knocked: Knocked,
    in_time: bool,
    Ghost(plan): Ghost<Plan>,
) -> (r: (At, String))
    requires
        plan.first_run_code == optional(*first_run_code),
        plan.port == port,
    ensures
        (r.0@, r.1@) == after_knock(plan, answers_of(params), knocked@, in_time),
{
    let address = both("http://127.0.0.1:", decimal_of(port as u64).as_str());
    let other = match &knocked {
        Knocked::NoClient(why) => {
            return ending(why.clone());
        },
        Knocked::Answered(code, body) => {
            let code: u16 = *code;
            if code == 200 {
                return match params {
                    None => {
                        let mut note = both("\nThe wizard is at ", address.as_str());
                        note.append(
                            "/first-run\nIt asks for a first-run code, which a deployment administrator issues on the platform.\n\nThis forward is held open here. Press Ctrl-C when the wizard says it is done.\n",
                        );
                        (At::Hold, note)
                    },
                    Some(params) => match first_run_code {
                        None => ending(
                            "answering the wizard needs a first-run claim code: --first-run-code, or MERIDIAN_FIRST_RUN_CODE, which keeps it out of a shell history.".to_owned(),
                        ),
                        Some(code) => (
                            At::Script(Script::begin(params, code.as_str())),
                            String::new(),
                        ),
                    },
                };
            }
            if code == 404 {
                return ending(
                    "this deployment has been through first run already. Sign in at its own address.".to_owned(),
                );
            }
            let mut other = both("Ok((", decimal_of(code as u64).as_str());
            other.append(", ");
            other.append(debug_of(body.as_str()).as_str());
            other.append("))");
            other
        },
        Knocked::Unanswered(why) => {
            let mut other = both("Err(", debug_of(not_answered(why.as_str()).as_str()).as_str());
            other.append(")");
            other
        },
    };
    if in_time {
        return (At::Knock(params), String::new());
    }
    let mut why = both("the wizard never answered at ", address.as_str());
    why.append(": ");
    why.append(other.as_str());
    why.append(". The dashboard is running; the forward is what did not carry.");
    ending(why)
}

fn script_told(r: Result<(Script, String), String>, Ghost(answers): Ghost<script::Plan>) -> (out: (
    At,
    String,
))
    requires
        r matches Ok((next, _)) ==> next.plan() == answers,
    ensures
        (out.0@, out.1@) == after_script(answers, script::progress(r)),
{
    match r {
        Err(why) => ending(why),
        Ok((script, note)) => {
            if script.done() {
                (At::Close(Ok(())), note)
            } else {
                (At::Script(script), note)
            }
        },
    }
}

impl Up {
    /// What is brought up, and how it is answered.
    pub closed spec fn plan(&self) -> Plan {
        Plan {
            install: self.install@,
            port: self.port as nat,
            first_run_code: optional(self.first_run_code),
        }
    }

    /// How far it has come.
    pub closed spec fn stage(&self) -> Stage {
        self.at@
    }

    /// A deployment to bring up, answered from the params file at this path
    /// where there is one, and what to print.
    pub fn begin(
        install: Install,
        port: u16,
        params: Option<String>,
        first_run_code: Option<String>,
    ) -> (r: (Up, String))
        ensures
            r.0.plan() == (Plan {
                install: install@,
                port: port as nat,
                first_run_code: optional(first_run_code),
            }),
            (r.0.stage(), r.1@) == start(r.0.plan(), optional(params)),
    {
        match params {
            Some(path) => {
                (Up { install, port, first_run_code, at: At::Params(path) }, String::new())
            },
            None => {
                let note = start_said(&install);
                (Up { install, port, first_run_code, at: At::Helm(None) }, note)
            },
        }
    }

    fn at_wizard(&self, path: &str) -> (url: String)
        ensures
            url@ == wizard_address(self.plan()) + path@,
    {
        let mut url = "http://127.0.0.1:".to_owned();
        url.append(decimal_of(self.port as u64).as_str());
        url.append(path);
        url
    }

    /// What came of it, once it is over.
    pub fn ended(&self) -> (r: Option<Result<(), String>>)
        ensures
            match r {
                Some(came) => self.stage() == Stage::End(outcome(came)),
                None => !(self.stage() is End),
            },
    {
        match &self.at {
            At::End(Ok(_)) => Some(Ok(())),
            At::End(Err(why)) => Some(Err(why.clone())),
            _ => None,
        }
    }

    /// What is needed next.
    pub fn ask(&self) -> (ask: Ask)
        ensures
            ask@ == need(self.plan(), self.stage()),
    {
        match &self.at {
            At::Params(path) => Ask::Text(path.clone()),
            At::Helm(_) => Ask::Helm(helm_arguments(&self.install), values_document(&self.install)),
            At::Service(_) => Ask::Kubectl(
                in_namespace(&self.install, service_words(&self.install)),
            ),
            At::Rollout(_, service) => Ask::Kubectl(
                in_namespace(&self.install, rollout_words(service.as_str())),
            ),
            At::Forward(_, service) => {
                let rest = vec![
                    "port-forward".to_owned(),
                    service.clone(),
                    both(decimal_of(self.port as u64).as_str(), ":80"),
                ];
                assert(texts(rest@) =~= seq![
                    "port-forward"@,
                    service@,
                    decimal(self.port as nat) + ":80"@,
                ]);
                Ask::Forward(in_namespace(&self.install, rest))
            },
            At::Knock(_) => Ask::Knock(self.at_wizard("/first-run")),
            At::Hold => Ask::Interrupt,
            At::Script(script) => match script.ask() {
                script::Ask::Get(path) => Ask::Get(self.at_wizard(path.as_str())),
                script::Ask::Post(path, form) => Ask::Post(self.at_wizard(path.as_str()), form),
                script::Ask::Variables(names) => Ask::Variables(names),
                script::Ask::Nothing => Ask::Kill,
            },
            At::Close(_) => Ask::Kill,
            At::End(Ok(_)) => Ask::Nothing(Ok(())),
            At::End(Err(why)) => Ask::Nothing(Err(why.clone())),
        }
    }

    /// What comes next, after what came of what was asked for, and what to
    /// print. If that was not asked for, nothing changes.
    pub fn told(self, heard: Heard) -> (r: (Up, String))
        ensures
            (r.0.stage(), r.1@) == after(self.plan(), self.stage(), heard@),
            r.0.plan() == self.plan(),
    {
        let ghost plan = self.plan();
        let install = self.install;
        let port: u16 = self.port;
        let first_run_code = self.first_run_code;
        let (at, note) = match (self.at, heard) {
            (At::Params(path), Heard::Text(read)) => text_told(&install, path, read, Ghost(plan)),
            (At::Helm(params), Heard::Helm(ran)) => helm_told(params, ran),
            (At::Service(params), Heard::Kubectl(ran)) => service_told(
                &install,
                params,
                ran,
                Ghost(plan),
            ),
            (At::Rollout(params, service), Heard::Kubectl(ran)) => match kubectl(
                &rollout_words(service.as_str()),
                &ran,
            ) {
                Ok(said) => (At::Forward(params, service), said),
                Err(why) => ended(why),
            },
            (At::Forward(params, _), Heard::Forwarded(started)) => match started {
                Ok(_) => (At::Knock(params), String::new()),
                Err(why) => ended(both("kubectl could not be run: ", why.as_str())),
            },
            (At::Knock(params), Heard::Knocked(knocked, in_time)) => knock_told(
                &first_run_code,
                port,
                params,
                knocked,
                in_time,
                Ghost(plan),
            ),
            (At::Hold, Heard::Interrupted) => (
                At::Close(Ok(())),
                "\nForward closed. Nothing else was left running.\n".to_owned(),
            ),
            (At::Script(script), Heard::Page(Ok(page))) => {
                let ghost answers = script.plan();
                script_told(script.page(page.as_str()), Ghost(answers))
            },
            (At::Script(_), Heard::Page(Err(why))) => ending(not_answered(why.as_str())),
            (At::Script(script), Heard::Environment(held)) => {
                let ghost answers = script.plan();
                script_told(script.environment(&held), Ghost(answers))
            },
            (At::Close(came), Heard::Killed) => (At::End(came), String::new()),
            (at, _) => (at, String::new()),
        };
        (Up { install, port, first_run_code, at }, note)
    }
}

/// A wizard that did not answer in time is given up by its own address, with what
/// came last.
pub proof fn what_did_not_answer_is_said_as_it_came(
    plan: Plan,
    answers: Option<Map<Seq<char>, Seq<char>>>,
    code: u16,
    body: Seq<char>,
    why: Seq<char>,
)
    requires
        code != 200,
        code != 404,
    ensures
        ({
            let late = |came: KnockCame|
                after(plan, Stage::Knock(answers), Came::Knocked(came, false)).0;
            let given_up = |last: Seq<char>|
                Stage::Close(
                    Err(
                        "the wizard never answered at "@ + ("http://127.0.0.1:"@ + decimal(
                            plan.port,
                        )) + ": "@ + last
                            + ". The dashboard is running; the forward is what did not carry."@,
                    ),
                );
            &&& late(KnockCame::Answered(code, body)) == given_up(
                "Ok(("@ + decimal(code as nat) + ", "@ + debugged(body) + "))"@,
            )
            &&& late(KnockCame::Unanswered(why)) == given_up(
                "Err("@ + debugged(unanswered(why)) + ")"@,
            )
            &&& late(KnockCame::NoClient(why)) == Stage::Close(Err(why))
        }),
{
}

} // verus!
