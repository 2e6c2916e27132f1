//! Answering the wizard from a file: the same endpoints a browser posts to,
//! behind the same code.
//!
//! What to ask the wizard next, and what its pages mean, is decided here; the
//! requests are the caller's.
use vstd::prelude::*;
use vstd::string::*;
use vstd::utf8::encode_utf8;

use crate::connect::{form_read, form_text};
use crate::number::{decimal, decimal_of};
use crate::order::{
    as_map, ascending, lemma_as_map, lemma_listed, lemma_sorted, listed, names_of, pairs, sorted,
    Names, Table,
};
use crate::text::{holds, join, joined, texts};
use crate::up::answers::{
    answers, asked, asked_for, form_encoded, posted, refusals, tags, variable_of, variables,
    with_encoded_names,
};
use crate::up::page::{
    administrator, administrator_on, findings, items, passes, refusal, refused_on, wants_a_code,
};

verus! {

/// What a script answers with.
pub struct Plan {
    pub params: Map<Seq<char>, Seq<char>>,
    pub code: Seq<char>,
}

/// How far a script has come.
pub enum Step {
    /// The code is to be redeemed.
    Claim,
    /// It was, and the form is to be read.
    Form,
    /// The form asks for these fields, these of them as passwords.
    Environment(Set<Seq<char>>, Set<Seq<char>>),
    /// These are the answers, to be tested.
    Check(Map<Seq<char>, Seq<char>>),
    /// They pass, and are to be applied.
    Apply(Map<Seq<char>, Seq<char>>),
    /// They are applied.
    Done,
}

/// What a script needs next.
pub enum Need {
    /// The page at this path.
    Get(Seq<char>),
    /// The page that this form, posted to this path, is answered with.
    Post(Seq<char>, Seq<char>),
    /// What these variables hold, of the environment.
    Variables(Seq<Seq<char>>),
    /// Nothing.
    Nothing,
}

/// Answers as a form post carries them.
pub open spec fn form_of(answers: Map<Seq<char>, Seq<char>>) -> Seq<char> {
    form_text(with_encoded_names(listed(answers)))
}

/// What a script needs next.
pub open spec fn need(plan: Plan, step: Step) -> Need {
    match step {
        Step::Claim => Need::Post(
            "/first-run/claim"@,
            form_of(Map::<Seq<char>, Seq<char>>::empty().insert("code"@, plan.code)),
        ),
        Step::Form => Need::Get("/first-run"@),
        Step::Environment(_, credentials) => Need::Variables(
            Seq::new(
                sorted(credentials).len(),
                |i: int| variable_of(sorted(credentials)[i]),
            ),
        ),
        Step::Check(answers) => Need::Post("/first-run/check"@, form_of(answers)),
        Step::Apply(answers) => Need::Post("/first-run/apply"@, form_of(answers)),
        Step::Done => Need::Nothing,
    }
}

/// A list of things said, one to a line, after what it is a list of.
pub open spec fn itemised(what: Seq<char>, list: Seq<Seq<char>>) -> Seq<char> {
    what + ":\n  - "@ + join(list, "\n  - "@)
}

/// The script after a page, and what to print.
///
/// A redeemed code is answered with a redirect and a session; a refused one
/// with the page that asks again, and the platform's reason.
pub open spec fn after_page(plan: Plan, step: Step, page: Seq<char>) -> Result<
    (Step, Seq<char>),
    Seq<char>,
> {
    match step {
        Step::Claim => if holds(page, "first-run/claim"@) {
            Err(refused_on(page, "that first-run code was refused"@))
        } else {
            Ok((Step::Form, Seq::empty()))
        },
        Step::Form => Ok(
            (Step::Environment(asked(tags(page), false), asked(tags(page), true)), Seq::empty()),
        ),
        Step::Check(answers) => if holds(page, "class=\"passed\""@) {
            Ok((Step::Apply(answers), "They pass. Applying.\n"@))
        } else {
            Err(itemised("the wizard refuses these answers, and wrote nothing"@, items(page)))
        },
        Step::Apply(_) => match administrator_on(page) {
            Some(who) => Ok(
                (
                    Step::Done,
                    "\nThis deployment is configured. "@ + who
                        + ".\nSign in at its dashboard the way you chose; there is nothing to redeem.\n"@,
                ),
            ),
            None => Err(itemised("applying did not finish"@, items(page))),
        },
        _ => Ok((step, Seq::empty())),
    }
}

/// What the environment holds something in: a variable that is empty is as good
/// as none.
pub open spec fn filled(environment: Map<Seq<char>, Seq<char>>) -> Map<Seq<char>, Seq<char>> {
    Map::new(
        |name: Seq<char>| environment.dom().contains(name) && environment[name].len() > 0,
        |name: Seq<char>| environment[name],
    )
}

/// The script after what the environment holds, and what to print.
pub open spec fn after_environment(
    plan: Plan,
    step: Step,
    environment: Map<Seq<char>, Seq<char>>,
) -> Result<(Step, Seq<char>), Seq<char>> {
    match step {
        Step::Environment(fields, credentials) => {
            let refused = refusals(listed(plan.params), sorted(fields), sorted(credentials));
            let answers = posted(
                plan.params,
                sorted(fields),
                sorted(credentials),
                filled(environment),
            );
            if refused.len() > 0 {
                Err(itemised("these answers are not this wizard's"@, refused))
            } else {
                Ok(
                    (
                        Step::Check(answers),
                        "\nTesting "@ + decimal(listed(answers).len()) + " answers.\n"@,
                    ),
                )
            }
        },
        _ => Ok((step, Seq::empty())),
    }
}

/// The wizard did not answer.
pub open spec fn unanswered(failed: Seq<char>) -> Seq<char> {
    "the wizard did not answer: "@ + failed
}

/// What was tested is what is applied, and only once the wizard said that it
/// passes.
pub proof fn only_what_passes_is_applied(plan: Plan, step: Step, page: Seq<char>)
    ensures
        after_page(plan, step, page) matches Ok((Step::Apply(applied), _)) ==> step == Step::Check(
            applied,
        ) && holds(page, "class=\"passed\""@),
{
}

/// Nothing is answered before the code is redeemed: whatever a page says, a
/// script that has not redeemed its code posts that and nothing else.
pub proof fn nothing_is_answered_before_the_code_is_redeemed(plan: Plan, page: Seq<char>)
    ensures
        need(plan, Step::Claim) matches Need::Post(path, _) && path == "/first-run/claim"@,
        after_page(plan, Step::Claim, page) matches Ok((next, _)) ==> next == Step::Form && !holds(
            page,
            "first-run/claim"@,
        ),
{
}

/// The script goes from the code to the end in order, each step behind the page
/// that answers the one before it: the code is redeemed, the form is read for
/// what it asks, the answers are tested, and what was tested is applied, each at
/// the page of its own. A page that asks for the code again, that does not pass
/// the answers, or that names no administrator ends it.
pub proof fn the_script_goes_from_the_code_to_the_end(
    plan: Plan,
    page: Seq<char>,
    answers: Map<Seq<char>, Seq<char>>,
)
    ensures
        need(plan, Step::Claim) matches Need::Post(path, form) && path == "/first-run/claim"@
            && form_read(form) == seq![Some(("code"@, encode_utf8(plan.code)))],
        holds(page, "first-run/claim"@) ==> after_page(plan, Step::Claim, page) == Err::<
            (Step, Seq<char>),
            Seq<char>,
        >(refused_on(page, "that first-run code was refused"@)),
        !holds(page, "first-run/claim"@) ==> after_page(plan, Step::Claim, page) == Ok::<
            (Step, Seq<char>),
            Seq<char>,
        >((Step::Form, Seq::empty())),
        need(plan, Step::Form) == Need::Get("/first-run"@),
        after_page(plan, Step::Form, page) matches Ok((next, _)) && next == Step::Environment(
            asked(tags(page), false),
            asked(tags(page), true),
        ),
        need(plan, Step::Check(answers)) == Need::Post("/first-run/check"@, form_of(answers)),
        need(plan, Step::Apply(answers)) == Need::Post("/first-run/apply"@, form_of(answers)),
        match after_page(plan, Step::Check(answers), page) {
            Ok((next, _)) => holds(page, "class=\"passed\""@) && next == Step::Apply(answers),
            Err(why) => !holds(page, "class=\"passed\""@) && why
                == "the wizard refuses these answers, and wrote nothing"@ + ":\n  - "@ + join(
                items(page),
                "\n  - "@,
            ),
        },
        match after_page(plan, Step::Apply(answers), page) {
            Ok((next, said)) => next is Done && (administrator_on(page) matches Some(who)
                && crate::doctor::checks::tells(said, who)),
            Err(why) => administrator_on(page) is None && why == "applying did not finish"@
                + ":\n  - "@ + join(items(page), "\n  - "@),
        },
        need(plan, Step::Done) is Nothing,
{
    let list = seq![("code"@, plan.code)];
    let table = Map::<Seq<char>, Seq<char>>::empty().insert("code"@, plan.code);
    assert(names_of(list) =~= seq!["code"@]);
    assert(ascending(names_of(list)));
    lemma_as_map(list, 0);
    assert(as_map(list) =~= table) by {
        assert forall|name: Seq<char>| #[trigger] as_map(list).dom().contains(name)
            == table.dom().contains(name) by {
            if name == "code"@ {
                assert(names_of(list)[0] == name);
            }
            if names_of(list).contains(name) {
                let k = choose|k: int| 0 <= k < names_of(list).len() && names_of(list)[k] == name;
                assert(k == 0);
            }
        }
    }
    lemma_listed(list);
    reveal_strlit("code");
    lemma_unreserved_name(plan.code);
    if let Some(who) = administrator_on(page) {
        let start = "\nThis deployment is configured. "@;
        let end =
            ".\nSign in at its dashboard the way you chose; there is nothing to redeem.\n"@;
        assert(crate::doctor::checks::tells(start + who + end, who));
    }
}

proof fn lemma_unreserved_name(code: Seq<char>)
    ensures
        form_read(form_text(with_encoded_names(seq![("code"@, code)]))) == seq![
            Some(("code"@, encode_utf8(code))),
        ],
{
    reveal_strlit("code");
    crate::connect::lemma_unreserved_goes_as_it_is("code"@);
    let sent = with_encoded_names(seq![("code"@, code)]);
    assert(sent =~= seq![("code"@, code)]);
    crate::connect::a_form_carries_what_was_put_in_it(sent);
    assert(form_read(form_text(sent)) =~= seq![Some(("code"@, encode_utf8(code)))]);
}

/// Each credential that the form asks for is looked for in a variable of its
/// own, and an empty variable is as good as none; the answers are refused, with
/// every reason, where one of them is not this form's, and are otherwise tested
/// as they are posted.
pub proof fn answers_are_refused_before_they_are_tested(
    plan: Plan,
    fields: Set<Seq<char>>,
    credentials: Set<Seq<char>>,
    environment: Map<Seq<char>, Seq<char>>,
    name: Seq<char>,
)
    ensures
        ({
            let step = Step::Environment(fields, credentials);
            let refused = refusals(listed(plan.params), sorted(fields), sorted(credentials));
            &&& need(plan, step) matches Need::Variables(asked) && asked.len() == sorted(
                credentials,
            ).len() && forall|i: int|
                0 <= i < asked.len() ==> #[trigger] asked[i] == variable_of(sorted(credentials)[i])
            &&& filled(environment).dom().contains(name) <==> environment.dom().contains(name)
                && environment[name].len() > 0
            &&& filled(environment).dom().contains(name) ==> filled(environment)[name]
                == environment[name]
            &&& match after_environment(plan, step, environment) {
                Err(why) => refused.len() > 0 && why == "these answers are not this wizard's"@
                    + ":\n  - "@ + join(refused, "\n  - "@),
                Ok((next, note)) => {
                    let answers = posted(
                        plan.params,
                        sorted(fields),
                        sorted(credentials),
                        filled(environment),
                    );
                    refused.len() == 0 && next == Step::Check(answers) && note == "\nTesting "@
                        + decimal(listed(answers).len()) + " answers.\n"@
                },
            }
        }),
{
}

/// A list of things said, one to a line.
fn itemise(what: &str, list: &Vec<String>) -> (out: String)
    ensures
        out@ == itemised(what@, texts(list@)),
{
    let mut out = what.to_owned();
    out.append(":\n  - ");
    out.append(joined(list, "\n  - ").as_str());
    out
}

#[derive(Debug)]
enum At {
    Claim,
    Form,
    Environment(Names, Names),
    Check(Table),
    Apply(Table),
    Done,
}

impl View for At {
    type V = Step;

    closed spec fn view(&self) -> Step {
        match self {
            At::Claim => Step::Claim,
            At::Form => Step::Form,
            At::Environment(fields, credentials) => Step::Environment(
                fields.in_order().to_set(),
                credentials.in_order().to_set(),
            ),
            At::Check(answers) => Step::Check(answers@),
            At::Apply(answers) => Step::Apply(answers@),
            At::Done => Step::Done,
        }
    }
}

/// A script that answers the wizard.
#[derive(Debug)]
pub struct Script {
    params: Table,
    code: String,
    at: At,
}

/// What a script asks for.
#[derive(Debug)]
pub enum Ask {
    /// The page at this path.
    Get(String),
    /// The page that this form, posted to this path, is answered with.
    Post(String, String),
    /// What these variables hold, of the environment.
    Variables(Vec<String>),
    /// Nothing.
    Nothing,
}

impl View for Ask {
    type V = Need;

    open spec fn view(&self) -> Need {
        match self {
            Ask::Get(path) => Need::Get(path@),
            Ask::Post(path, form) => Need::Post(path@, form@),
            Ask::Variables(names) => Need::Variables(texts(names@)),
            Ask::Nothing => Need::Nothing,
        }
    }
}

/// How far a script came and what to print, or why it ended.
pub open spec fn progress(r: Result<(Script, String), String>) -> Result<
    (Step, Seq<char>),
    Seq<char>,
> {
    match r {
        Ok((script, note)) => Ok((script.step(), note@)),
        Err(why) => Err(why@),
    }
}

fn post(path: &str, answers: &Table) -> (ask: Ask)
    ensures
        ask@ == Need::Post(path@, form_of(answers@)),
{
    let _ = answers.as_list();
    proof {
        lemma_listed(answers.in_order());
    }
    Ask::Post(path.to_owned(), form_encoded(answers))
}

/// What the environment holds something in.
pub fn without_empty(environment: &Table) -> (out: Table)
    ensures
        out@ == filled(environment@),
{
    let entries = environment.as_list();
    let ghost list = environment.in_order();
    let mut out = Table::new();
    let mut i: usize = 0;
    while i < entries.len()
        invariant
            i <= entries@.len(),
            list == pairs(entries@),
            ascending(names_of(list)),
            forall|j: int|
                0 <= j < i && (#[trigger] list[j]).1.len() > 0 ==> out@.dom().contains(list[j].0),
            forall|name: Seq<char>| #[trigger]
                out@.dom().contains(name) ==> as_map(list).dom().contains(name) && as_map(
                    list,
                )[name].len() > 0 && out@[name] == as_map(list)[name],
        decreases entries@.len() - i,
    {
        proof {
            lemma_as_map(list, i as int);
        }
        assert(list[i as int] == (entries@[i as int].0@, entries@[i as int].1@));
        if entries[i].1.as_str().unicode_len() > 0 {
            out.insert(entries[i].0.clone(), entries[i].1.clone());
        }
        i += 1;
    }
    assert forall|name: Seq<char>| out@.dom().contains(name) == filled(environment@).dom().contains(
        name,
    ) by {
        if filled(environment@).dom().contains(name) {
            let k = choose|k: int| 0 <= k < list.len() && names_of(list)[k] == name;
            lemma_as_map(list, k);
            assert(list[k].1.len() > 0);
        }
    }
    assert(out@ =~= filled(environment@));
    out
}

impl Script {
    /// What the script answers with.
    pub closed spec fn plan(&self) -> Plan {
        Plan { params: self.params@, code: self.code@ }
    }

    /// How far the script has come.
    pub closed spec fn step(&self) -> Step {
        self.at@
    }

    /// A script that answers the wizard with these answers, behind this code.
    pub fn begin(params: Table, code: &str) -> (script: Script)
        ensures
            script.plan() == (Plan { params: params@, code: code@ }),
            script.step() == Step::Claim,
    {
        Script { params, code: code.to_owned(), at: At::Claim }
    }

    /// Whether the answers are applied.
    pub fn done(&self) -> (r: bool)
        ensures
            r == (self.step() is Done),
    {
        match &self.at {
            At::Done => true,
            _ => false,
        }
    }

    /// What the script needs next.
    pub fn ask(&self) -> (ask: Ask)
        ensures
            ask@ == need(self.plan(), self.step()),
    {
        match &self.at {
            At::Claim => {
                let mut claim = Table::new();
                claim.insert("code".to_owned(), self.code.clone());
                post("/first-run/claim", &claim)
            },
            At::Form => Ask::Get("/first-run".to_owned()),
            At::Environment(_, credentials) => {
                let _ = credentials.as_list();
                proof {
                    lemma_sorted(credentials.in_order());
                }
                Ask::Variables(variables(credentials))
            },
            At::Check(answers) => post("/first-run/check", answers),
            At::Apply(answers) => post("/first-run/apply", answers),
            At::Done => Ask::Nothing,
        }
    }

    /// The script after the page it asked for. If it asked for none, nothing
    /// changes.
    pub fn page(self, page: &str) -> (r: Result<(Script, String), String>)
        ensures
            progress(r) == after_page(self.plan(), self.step(), page@),
            r matches Ok((next, _)) ==> next.plan() == self.plan(),
    {
        let params = self.params;
        let code = self.code;
        match self.at {
            At::Claim => {
                if wants_a_code(page) {
                    return Err(refusal(page, "that first-run code was refused"));
                }
                Ok((Script { params, code, at: At::Form }, String::new()))
            },
            At::Form => {
                let (fields, credentials) = asked_for(page);
                Ok((Script { params, code, at: At::Environment(fields, credentials) }, String::new()))
            },
            At::Check(answers) => {
                if !passes(page) {
                    return Err(
                        itemise(
                            "the wizard refuses these answers, and wrote nothing",
                            &findings(page),
                        ),
                    );
                }
                Ok((Script { params, code, at: At::Apply(answers) }, "They pass. Applying.\n".to_owned()))
            },
            At::Apply(answers) => match administrator(page) {
                Some(who) => {
                    let mut note = "\nThis deployment is configured. ".to_owned();
                    note.append(who.as_str());
                    note.append(
                        ".\nSign in at its dashboard the way you chose; there is nothing to redeem.\n",
                    );
                    Ok((Script { params, code, at: At::Done }, note))
                },
                None => Err(itemise("applying did not finish", &findings(page))),
            },
            at => Ok((Script { params, code, at }, String::new())),
        }
    }

    /// The script after what the environment holds of the variables it asked
    /// for. If it asked for none, nothing changes.
    pub fn environment(self, environment: &Table) -> (r: Result<(Script, String), String>)
        ensures
            progress(r) == after_environment(self.plan(), self.step(), environment@),
            r matches Ok((next, _)) ==> next.plan() == self.plan(),
    {
        let params = self.params;
        let code = self.code;
        match self.at {
            At::Environment(fields, credentials) => {
                let _ = params.as_list();
                let _ = fields.as_list();
                let _ = credentials.as_list();
                proof {
                    lemma_listed(params.in_order());
                    lemma_sorted(fields.in_order());
                    lemma_sorted(credentials.in_order());
                }
                match answers(&params, &fields, &credentials, &without_empty(environment)) {
                    Ok(answers) => {
                        let _ = answers.as_list();
                        proof {
                            lemma_listed(answers.in_order());
                        }
                        let mut note = "\nTesting ".to_owned();
                        note.append(decimal_of(answers.len() as u64).as_str());
                        note.append(" answers.\n");
                        Ok((Script { params, code, at: At::Check(answers) }, note))
                    },
                    Err(refused) => {
                        assert(texts(refused@).len() > 0);
                        Err(itemise("these answers are not this wizard's", &refused))
                    },
                }
            },
            at => Ok((Script { params, code, at }, String::new())),
        }
    }
}

/// What is said when the wizard does not answer.
pub fn not_answered(failed: &str) -> (said: String)
    ensures
        said@ == unanswered(failed@),
{
    let mut said = "the wizard did not answer: ".to_owned();
    said.append(failed);
    said
}

} // verus!
