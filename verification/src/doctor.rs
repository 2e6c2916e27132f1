//! Whether this machine and this cluster can run a deployment.
//!
//! Every answer names the fix rather than the symptom, because the failures
//! this exists to prevent are the ones that surface three minutes into an
//! install as something else.
//!
//! What to ask of the machine and what its answers mean is decided here; the
//! asking is the caller's. It changes nothing: every command only reads.
use vstd::prelude::*;
use vstd::string::*;

use crate::number::{decimal, decimal_of};
use crate::text::concat;

pub use crate::doctor::examination::examine;

pub mod checks;
pub mod examination;

verus! {

/// What one check found.
#[derive(Debug, Clone, PartialEq, Eq)]
pub enum Finding {
    /// Nothing to do.
    Fine(String),
    /// Would stop an install, with the fix.
    Stops { what: String, fix: String },
    /// Worth knowing, and not in the way.
    Worth { what: String, why: String },
    /// Could not be checked from here, which is not the same as passing.
    Unknown { what: String, why: String },
}

/// What a finding says.
pub enum Found {
    Fine(Seq<char>),
    Stops { what: Seq<char>, fix: Seq<char> },
    Worth { what: Seq<char>, why: Seq<char> },
    Unknown { what: Seq<char>, why: Seq<char> },
}

impl View for Finding {
    type V = Found;

    open spec fn view(&self) -> Found {
        match self {
            Finding::Fine(what) => Found::Fine(what@),
            Finding::Stops { what, fix } => Found::Stops { what: what@, fix: fix@ },
            Finding::Worth { what, why } => Found::Worth { what: what@, why: why@ },
            Finding::Unknown { what, why } => Found::Unknown { what: what@, why: why@ },
        }
    }
}

/// What findings say, in order.
pub open spec fn found(findings: Seq<Finding>) -> Seq<Found> {
    Seq::new(findings.len(), |i: int| findings[i]@)
}

/// A finding as it is printed.
pub open spec fn printed(found: Found) -> Seq<char> {
    match found {
        Found::Fine(what) => "  ok       "@ + what,
        Found::Stops { what, fix } => "  stops    "@ + what + "\n           "@ + fix,
        Found::Worth { what, why } => "  worth    "@ + what + "\n           "@ + why,
        Found::Unknown { what, why } => "  unknown  "@ + what + "\n           "@ + why,
    }
}

fn two_lines(mark: &str, first: &str, second: &str) -> (out: String)
    ensures
        out@ == mark@ + first@ + "\n           "@ + second@,
{
    let mut out = mark.to_owned();
    out.append(first);
    out.append("\n           ");
    out.append(second);
    out
}

impl Finding {
    /// Whether this would stop an install.
    pub fn stops(&self) -> (r: bool)
        ensures
            r == (self@ is Stops),
    {
        match self {
            Finding::Stops { .. } => true,
            _ => false,
        }
    }

    /// The finding, as it is printed.
    pub fn text(&self) -> (out: String)
        ensures
            out@ == printed(self@),
    {
        match self {
            Finding::Fine(what) => {
                let mut out = "  ok       ".to_owned();
                out.append(what.as_str());
                out
            },
            Finding::Stops { what, fix } => two_lines("  stops    ", what.as_str(), fix.as_str()),
            Finding::Worth { what, why } => two_lines("  worth    ", what.as_str(), why.as_str()),
            Finding::Unknown { what, why } => two_lines(
                "  unknown  ",
                what.as_str(),
                why.as_str(),
            ),
        }
    }

    /// The same finding, once more.
    pub fn again(&self) -> (finding: Finding)
        ensures
            finding@ == self@,
    {
        match self {
            Finding::Fine(what) => Finding::Fine(what.clone()),
            Finding::Stops { what, fix } => Finding::Stops { what: what.clone(), fix: fix.clone() },
            Finding::Worth { what, why } => Finding::Worth { what: what.clone(), why: why.clone() },
            Finding::Unknown { what, why } => Finding::Unknown {
                what: what.clone(),
                why: why.clone(),
            },
        }
    }
}

/// Why a command did not answer.
///
/// The two are different fixes: a missing `kubectl` is not an unreachable
/// cluster.
#[derive(Debug, Clone, PartialEq, Eq)]
pub enum Failure {
    /// The program is not installed here.
    Missing(String),
    /// It ran, and this is what it said.
    Said(String),
}

/// What a failure says.
pub enum Failed {
    Missing(Seq<char>),
    Said(Seq<char>),
}

impl View for Failure {
    type V = Failed;

    open spec fn view(&self) -> Failed {
        match self {
            Failure::Missing(program) => Failed::Missing(program@),
            Failure::Said(said) => Failed::Said(said@),
        }
    }
}

/// A failure in words.
pub open spec fn explained(failed: Failed) -> Seq<char> {
    match failed {
        Failed::Missing(program) => program + " is not installed here"@,
        Failed::Said(said) => said,
    }
}

impl Failure {
    /// The failure, in words.
    pub fn text(&self) -> (out: String)
        ensures
            out@ == explained(self@),
    {
        match self {
            Failure::Missing(program) => {
                let mut out = program.clone();
                out.append(" is not installed here");
                out
            },
            Failure::Said(said) => said.clone(),
        }
    }
}

/// What running a command came to.
pub open spec fn ran(r: Result<String, Failure>) -> Result<Seq<char>, Failed> {
    match r {
        Ok(said) => Ok(said@),
        Err(failed) => Err(failed@),
    }
}

/// What a server answered.
#[derive(Debug, Clone)]
pub struct Answered {
    pub status: u16,
    pub body: String,
    /// As the server stated it, in seconds since the epoch.
    pub date_s: Option<u64>,
}

/// What an answer holds.
pub struct Answer {
    pub status: u16,
    pub body: Seq<char>,
    pub date_s: Option<u64>,
}

impl View for Answered {
    type V = Answer;

    open spec fn view(&self) -> Answer {
        Answer { status: self.status, body: self.body@, date_s: self.date_s }
    }
}

impl Default for Answered {
    fn default() -> (answered: Answered)
        ensures
            answered@ == (Answer { status: 0, body: Seq::empty(), date_s: None }),
    {
        Answered { status: 0, body: String::new(), date_s: None }
    }
}

/// What fetching came to.
pub open spec fn fetched(r: Result<Answered, String>) -> Result<Answer, Seq<char>> {
    match r {
        Ok(answered) => Ok(answered@),
        Err(failed) => Err(failed@),
    }
}

/// What the deployment being checked is meant to be.
#[derive(Debug, Clone)]
pub struct Intended {
    pub namespace: String,
    pub platform: String,
    pub image: String,
}

/// The texts of what is intended.
pub struct Meant {
    pub namespace: Seq<char>,
    pub platform: Seq<char>,
    pub image: Seq<char>,
}

impl View for Intended {
    type V = Meant;

    open spec fn view(&self) -> Meant {
        Meant { namespace: self.namespace@, platform: self.platform@, image: self.image@ }
    }
}

// ── The verdict ──────────────────────────────────────────────────────────────

/// How many of the findings would stop an install.
pub open spec fn stopping(all: Seq<Found>) -> nat
    decreases all.len(),
{
    if all.len() == 0 {
        0
    } else {
        stopping(all.drop_last()) + if all.last() is Stops {
            1nat
        } else {
            0nat
        }
    }
}

/// The findings as they are printed, a line or two each.
pub open spec fn listed(all: Seq<Found>) -> Seq<char> {
    concat(Seq::new(all.len(), |i: int| printed(all[i]) + "\n"@))
}

/// What to print.
pub open spec fn summary(all: Seq<Found>) -> Seq<char> {
    if stopping(all) == 0 {
        listed(all) + "\ndoctor: nothing here would stop an install\n"@
    } else {
        listed(all) + "\ndoctor: "@ + decimal(stopping(all))
            + " thing(s) would stop an install, each with its fix above\n"@
    }
}

proof fn lemma_listed(all: Seq<Found>, n: int)
    requires
        0 <= n < all.len(),
    ensures
        listed(all.take(n + 1)) == listed(all.take(n)) + (printed(all[n]) + "\n"@),
{
    let more = all.take(n + 1);
    let lines = Seq::new(more.len(), |i: int| printed(more[i]) + "\n"@);
    let fewer = all.take(n);
    assert(lines.drop_last() =~= Seq::new(fewer.len(), |i: int| printed(fewer[i]) + "\n"@));
    assert(lines.last() == printed(all[n]) + "\n"@);
}

/// There is something that would stop an install exactly where a finding
/// would.
pub proof fn lemma_stopping(all: Seq<Found>)
    ensures
        stopping(all) <= all.len(),
        stopping(all) == 0 <==> forall|i: int| 0 <= i < all.len() ==> !((#[trigger] all[i]) is Stops),
    decreases all.len(),
{
    if all.len() > 0 {
        lemma_stopping(all.drop_last());
        assert(all[all.len() - 1] == all.last());
        assert forall|i: int| 0 <= i < all.len() - 1 implies all[i] == #[trigger] all.drop_last()[i] by {
        }
        if stopping(all) == 0 {
            assert forall|i: int| 0 <= i < all.len() implies !((#[trigger] all[i]) is Stops) by {
                if i < all.len() - 1 {
                    assert(all.drop_last()[i] == all[i]);
                }
            }
        } else if !(all.last() is Stops) {
            let i = choose|i: int|
                0 <= i < all.drop_last().len() && (#[trigger] all.drop_last()[i]) is Stops;
            assert(all[i] is Stops);
        }
    }
}

/// What to print, and what to exit with: zero exactly where nothing that was
/// found would stop an install.
pub fn verdict(findings: &[Finding]) -> (r: (String, i32))
    ensures
        r.0@ == summary(found(findings@)),
        r.1 == 0 || r.1 == 1,
        r.1 == 0 <==> forall|i: int| 0 <= i < findings@.len() ==> !((#[trigger] findings@[i])@ is Stops),
{
    let ghost all = found(findings@);
    let mut said = String::new();
    let mut stops: usize = 0;
    let mut i: usize = 0;
    let n: usize = findings.len();
    assert(all.take(0) =~= Seq::<Found>::empty());
    assert(listed(all.take(0)) =~= Seq::<char>::empty());
    while i < n
        invariant
            i <= n,
            n == findings@.len(),
            all == found(findings@),
            said@ == listed(all.take(i as int)),
            stops == stopping(all.take(i as int)),
            stops <= i,
        decreases n - i,
    {
        let line = findings[i].text();
        said.append(line.as_str());
        said.append("\n");
        proof {
            lemma_listed(all, i as int);
            assert(all.take(i + 1).drop_last() =~= all.take(i as int));
            assert(said@ =~= listed(all.take(i as int)) + (printed(all[i as int]) + "\n"@));
        }
        if findings[i].stops() {
            stops += 1;
        }
        i += 1;
    }
    assert(all.take(n as int) =~= all);
    proof {
        lemma_stopping(all);
        assert forall|j: int| 0 <= j < findings@.len() implies (#[trigger] findings@[j])@
            == all[j] by {
        }
        if stopping(all) == 0 {
            assert forall|j: int| 0 <= j < findings@.len() implies !((#[trigger] findings@[j])@ is Stops) by {
                assert(!(all[j] is Stops));
            }
        } else {
            let j = choose|j: int| 0 <= j < all.len() && (#[trigger] all[j]) is Stops;
            assert(findings@[j]@ is Stops);
        }
    }
    if stops == 0 {
        said.append("\ndoctor: nothing here would stop an install\n");
        return (said, 0);
    }
    said.append("\ndoctor: ");
    said.append(decimal_of(stops as u64).as_str());
    said.append(" thing(s) would stop an install, each with its fix above\n");
    (said, 1)
}

// ── What is printed ──────────────────────────────────────────────────────────

/// What would stop an install is counted, wherever it stands, and nothing else
/// is.
pub proof fn what_stops_an_install_is_counted(before: Seq<Found>, finding: Found, after: Seq<Found>)
    ensures
        stopping(Seq::empty()) == 0,
        stopping(before + seq![finding] + after) == stopping(before) + stopping(after) + (
        if finding is Stops {
            1nat
        } else {
            0nat
        }),
    decreases after.len(),
{
    let all = before + seq![finding] + after;
    if after.len() == 0 {
        assert(all.drop_last() =~= before);
        assert(all.last() == finding);
    } else {
        what_stops_an_install_is_counted(before, finding, after.drop_last());
        assert(all.drop_last() =~= before + seq![finding] + after.drop_last());
        assert(all.last() == after.last());
    }
}

/// What is said of a finding, and the fix or the reason with it where there is
/// one.
pub open spec fn said_of(finding: Found) -> (Seq<char>, Option<Seq<char>>) {
    match finding {
        Found::Fine(what) => (what, None),
        Found::Stops { what, fix } => (what, Some(fix)),
        Found::Worth { what, why } => (what, Some(why)),
        Found::Unknown { what, why } => (what, Some(why)),
    }
}

/// Every finding is printed, in order, on lines of its own: its own mark first,
/// by which the four kinds are told apart, then what was found, and the fix or
/// the reason on the line below. The last line says that nothing would stop an
/// install exactly where nothing found would.
pub proof fn every_finding_is_printed_with_its_fix(
    before: Seq<Found>,
    finding: Found,
    after: Seq<Found>,
    other: Found,
)
    ensures
        listed(before + seq![finding] + after) == listed(before) + printed(finding) + "\n"@ + listed(
            after,
        ),
        ({
            let mark = printed(finding).take(11);
            let (what, more) = said_of(finding);
            &&& printed(finding) == mark + what + (match more {
                Some(more) => "\n           "@ + more,
                None => Seq::empty(),
            })
            &&& mark == printed(other).take(11) <==> (finding is Fine <==> other is Fine) && (
            finding is Stops <==> other is Stops) && (finding is Worth <==> other is Worth)
        }),
        ({
            let all = before + seq![finding] + after;
            &&& listed(all).is_prefix_of(summary(all))
            &&& stopping(all) == 0 <==> "\ndoctor: nothing here would stop an install\n"@
                == summary(all).skip(listed(all).len() as int)
            &&& stopping(all) > 0 ==> summary(all) == listed(all) + "\ndoctor: "@ + decimal(
                stopping(all),
            ) + " thing(s) would stop an install, each with its fix above\n"@
        }),
{
    let all = before + seq![finding] + after;
    let line = |f: Found| printed(f) + "\n"@;
    let lines = |fs: Seq<Found>| Seq::new(fs.len(), |i: int| printed(fs[i]) + "\n"@);
    assert(lines(all) =~= lines(before) + seq![line(finding)] + lines(after));
    crate::text::texts_are_put_together_in_order(
        lines(before),
        line(finding),
        lines(after),
        Seq::empty(),
    );
    assert(listed(before) + (printed(finding) + "\n"@) + listed(after) =~= listed(before) + printed(
        finding,
    ) + "\n"@ + listed(after));
    lemma_marks();
    lemma_printed(finding);
    lemma_printed(other);
    let said = summary(all);
    let n = listed(all).len() as int;
    assert(said.take(n) =~= listed(all));
    if stopping(all) == 0 {
        assert(said.skip(n) =~= "\ndoctor: nothing here would stop an install\n"@);
    } else {
        reveal_strlit("\ndoctor: nothing here would stop an install\n");
        reveal_strlit("\ndoctor: ");
        let d = decimal(stopping(all));
        lemma_first_digit(stopping(all));
        assert(said.skip(n)[9] == d[0]);
    }
}

proof fn lemma_first_digit(n: nat)
    ensures
        decimal(n).len() > 0,
        '0' <= decimal(n)[0] <= '9',
    decreases n,
{
    if n >= 10 {
        lemma_first_digit(n / 10);
        assert(decimal(n)[0] == decimal(n / 10)[0]);
    }
}

proof fn lemma_marks()
    ensures
        "  ok       "@.len() == 11,
        "  stops    "@.len() == 11,
        "  worth    "@.len() == 11,
        "  unknown  "@.len() == 11,
        "  ok       "@ != "  stops    "@,
        "  ok       "@ != "  worth    "@,
        "  ok       "@ != "  unknown  "@,
        "  stops    "@ != "  worth    "@,
        "  stops    "@ != "  unknown  "@,
        "  worth    "@ != "  unknown  "@,
{
    reveal_strlit("  ok       ");
    reveal_strlit("  stops    ");
    reveal_strlit("  worth    ");
    reveal_strlit("  unknown  ");
    assert("  ok       "@[2] == 'o');
    assert("  stops    "@[2] == 's');
    assert("  worth    "@[2] == 'w');
    assert("  unknown  "@[2] == 'u');
}

proof fn lemma_printed(finding: Found)
    ensures
        printed(finding).take(11) == (match finding {
            Found::Fine(_) => "  ok       "@,
            Found::Stops { .. } => "  stops    "@,
            Found::Worth { .. } => "  worth    "@,
            Found::Unknown { .. } => "  unknown  "@,
        }),
        printed(finding) == printed(finding).take(11) + said_of(finding).0 + (match said_of(
            finding,
        ).1 {
            Some(more) => "\n           "@ + more,
            None => Seq::empty(),
        }),
{
    lemma_marks();
    let all = printed(finding);
    match finding {
        Found::Fine(what) => {
            assert(all.take(11) =~= "  ok       "@);
            assert(all =~= all.take(11) + what + Seq::<char>::empty());
        },
        Found::Stops { what, fix } => {
            assert(all.take(11) =~= "  stops    "@);
            assert(all =~= all.take(11) + what + ("\n           "@ + fix));
        },
        Found::Worth { what, why } => {
            assert(all.take(11) =~= "  worth    "@);
            assert(all =~= all.take(11) + what + ("\n           "@ + why));
        },
        Found::Unknown { what, why } => {
            assert(all.take(11) =~= "  unknown  "@);
            assert(all =~= all.take(11) + what + ("\n           "@ + why));
        },
    }
}

/// A failure is explained by what it was: a program that is missing by its name,
/// and one that ran by what it said.
pub proof fn a_failure_is_explained_by_what_it_was(said: Seq<char>)
    ensures
        explained(Failed::Said(said)) == said,
        explained(Failed::Missing(said)) == said + " is not installed here"@,
{
}

} // verus!
