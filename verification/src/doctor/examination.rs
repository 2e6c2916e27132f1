//! Every check, one question after the other, in the order somebody reads the
//! answers.
use vstd::prelude::*;
use vstd::string::*;

use crate::doctor::checks::{
    clock, helm, image, may_create, named_by, named_image, needed, of_clock, of_cluster_info,
    of_helm, of_manifest, of_platform, of_right, of_storage, of_token, platform, reachable,
    storage_class, token, what_is_needed,
};
use crate::doctor::{
    fetched, found, ran, Answer, Answered, Failed, Failure, Finding, Found, Intended, Meant,
};
use crate::order::pairs;
use crate::text::texts;

verus! {

/// What is checked.
#[derive(Debug, Clone, Copy)]
pub enum Part {
    Helm,
    Cluster,
    StorageClass,
    Image,
    Platform,
}

/// How far an examination has come.
pub enum Stage {
    Helm,
    Reach,
    /// The rights before this one are known.
    Right(int),
    Storage,
    /// The image is this one of the registry's.
    Token(Seq<char>, Seq<char>),
    /// And this token was issued for it.
    Manifest(Seq<char>, Seq<char>, Seq<char>),
    Platform,
    /// The platform stated this date.
    Clock(u64),
    End,
}

/// An examination: of what, whether of one part alone, how far it has come,
/// and what was found.
pub struct Exam {
    pub meant: Meant,
    pub alone: bool,
    pub stage: Stage,
    pub findings: Seq<Found>,
}

/// What an examination needs next.
pub enum Need {
    /// What this program says, run with these arguments.
    Run(Seq<char>, Seq<Seq<char>>),
    /// What this address answers, asked with these headers.
    Fetch(Seq<char>, Seq<(Seq<char>, Seq<char>)>),
    /// This machine's clock.
    Clock,
    /// Nothing.
    Nothing,
}

/// What a registry may answer a manifest request with.
pub open spec fn manifest_types() -> Seq<char> {
    "application/vnd.oci.image.index.v1+json,application/vnd.oci.image.manifest.v1+json,application/vnd.docker.distribution.manifest.list.v2+json,application/vnd.docker.distribution.manifest.v2+json"@
}

/// What an examination needs next.
///
/// A registry's token goes in the header it asks for: as a query parameter it
/// is answered as if the image might not be pulled. And the types say that an
/// index of many architectures is an answer too.
pub open spec fn need(exam: Exam) -> Need {
    match exam.stage {
        Stage::Helm => Need::Run("helm"@, seq!["version"@, "--short"@]),
        Stage::Reach => Need::Run("kubectl"@, seq!["cluster-info"@]),
        Stage::Right(which) => Need::Run(
            "kubectl"@,
            seq!["auth"@, "can-i"@, "create"@, needed(which).0, "-n"@, exam.meant.namespace],
        ),
        Stage::Storage => Need::Run(
            "kubectl"@,
            seq!["get"@, "storageclass"@, "-o"@, "name"@],
        ),
        Stage::Token(path, _) => Need::Fetch(
            "https://ghcr.io/token?scope=repository:"@ + path + ":pull&service=ghcr.io"@,
            Seq::empty(),
        ),
        Stage::Manifest(path, reference, token) => Need::Fetch(
            "https://ghcr.io/v2/"@ + path + "/manifests/"@ + reference,
            seq![
                ("Authorization"@, "Bearer "@ + token),
                ("Accept"@, manifest_types()),
            ],
        ),
        Stage::Platform => Need::Fetch(exam.meant.platform, Seq::empty()),
        Stage::Clock(_) => Need::Clock,
        Stage::End => Need::Nothing,
    }
}

/// An examination that comes to a part.
pub open spec fn enter(meant: Meant, alone: bool, part: Part, findings: Seq<Found>) -> Exam {
    match part {
        Part::Helm => Exam { meant, alone, stage: Stage::Helm, findings },
        Part::Cluster => Exam { meant, alone, stage: Stage::Reach, findings },
        Part::StorageClass => Exam { meant, alone, stage: Stage::Storage, findings },
        Part::Image => match named_by(meant.image) {
            Ok((path, reference)) => Exam {
                meant,
                alone,
                stage: Stage::Token(path, reference),
                findings,
            },
            Err(finding) => Exam {
                meant,
                alone,
                stage: if alone {
                    Stage::End
                } else {
                    Stage::Platform
                },
                findings: findings.push(finding),
            },
        },
        Part::Platform => Exam { meant, alone, stage: Stage::Platform, findings },
    }
}

/// An examination that is done with a part.
pub open spec fn leave(meant: Meant, alone: bool, part: Part, findings: Seq<Found>) -> Exam {
    let end = Exam { meant, alone, stage: Stage::End, findings };
    if alone {
        end
    } else {
        match part {
            Part::Helm => enter(meant, alone, Part::Cluster, findings),
            Part::Cluster => enter(meant, alone, Part::StorageClass, findings),
            Part::StorageClass => enter(meant, alone, Part::Image, findings),
            Part::Image => enter(meant, alone, Part::Platform, findings),
            Part::Platform => end,
        }
    }
}

/// The examination after a command was run.
pub open spec fn after_run(exam: Exam, said: Result<Seq<char>, Failed>) -> Exam {
    match exam.stage {
        Stage::Helm => leave(exam.meant, exam.alone, Part::Helm, exam.findings.push(of_helm(said))),
        Stage::Reach => match of_cluster_info(said) {
            Ok(finding) => Exam {
                stage: Stage::Right(0),
                findings: exam.findings.push(finding),
                ..exam
            },
            Err(finding) => leave(
                exam.meant,
                exam.alone,
                Part::Cluster,
                exam.findings.push(finding),
            ),
        },
        Stage::Right(which) => {
            let findings = exam.findings.push(of_right(which, exam.meant.namespace, said));
            if which < 2 {
                Exam { stage: Stage::Right(which + 1), findings, ..exam }
            } else {
                leave(exam.meant, exam.alone, Part::Cluster, findings)
            }
        },
        Stage::Storage => leave(
            exam.meant,
            exam.alone,
            Part::StorageClass,
            exam.findings.push(of_storage(said)),
        ),
        _ => exam,
    }
}

/// The examination after an address was fetched.
pub open spec fn after_fetch(exam: Exam, answer: Result<Answer, Seq<char>>) -> Exam {
    match exam.stage {
        Stage::Token(path, reference) => match of_token(exam.meant.image, answer) {
            Ok(token) => Exam { stage: Stage::Manifest(path, reference, token), ..exam },
            Err(finding) => leave(
                exam.meant,
                exam.alone,
                Part::Image,
                exam.findings.push(finding),
            ),
        },
        Stage::Manifest(..) => leave(
            exam.meant,
            exam.alone,
            Part::Image,
            exam.findings.push(of_manifest(exam.meant.image, answer)),
        ),
        Stage::Platform => {
            let (findings, date) = of_platform(exam.meant.platform, answer);
            match date {
                Some(theirs) => Exam {
                    stage: Stage::Clock(theirs),
                    findings: exam.findings + findings,
                    ..exam
                },
                None => leave(exam.meant, exam.alone, Part::Platform, exam.findings + findings),
            }
        },
        _ => exam,
    }
}

/// The examination after this machine's clock was read.
pub open spec fn after_clock(exam: Exam, now: u64) -> Exam {
    match exam.stage {
        Stage::Clock(theirs) => leave(
            exam.meant,
            exam.alone,
            Part::Platform,
            exam.findings.push(of_clock(now as int, theirs as int)),
        ),
        _ => exam,
    }
}

// ── What an examination comes to ─────────────────────────────────────────────

/// A machine and what it can reach, as the checks see them.
pub struct World {
    pub run: spec_fn(Seq<char>, Seq<Seq<char>>) -> Result<Seq<char>, Failed>,
    pub fetch: spec_fn(Seq<char>, Seq<(Seq<char>, Seq<char>)>) -> Result<Answer, Seq<char>>,
    pub now: u64,
}

/// The examination after the world answered what it needs.
pub open spec fn answered(world: World, exam: Exam) -> Exam {
    match need(exam) {
        Need::Run(program, arguments) => after_run(exam, (world.run)(program, arguments)),
        Need::Fetch(url, headers) => after_fetch(exam, (world.fetch)(url, headers)),
        Need::Clock => after_clock(exam, world.now),
        Need::Nothing => exam,
    }
}

/// The examination after the world answered so many times.
pub open spec fn answered_often(world: World, exam: Exam, times: nat) -> Exam
    decreases times,
{
    if times == 0 {
        exam
    } else {
        answered_often(world, answered(world, exam), (times - 1) as nat)
    }
}

/// The world's answers, no more of them than this, end the examination with
/// these findings.
pub open spec fn ends_with(world: World, exam: Exam, findings: Seq<Found>, most: nat) -> bool {
    exists|times: nat|
        times <= most && (#[trigger] answered_often(world, exam, times)) == (Exam {
            stage: Stage::End,
            findings,
            ..exam
        })
}

/// What the cluster checks find in a world.
pub open spec fn cluster_in(world: World, namespace: Seq<char>) -> Seq<Found> {
    let right = |which: int|
        of_right(
            which,
            namespace,
            (world.run)(
                "kubectl"@,
                seq!["auth"@, "can-i"@, "create"@, needed(which).0, "-n"@, namespace],
            ),
        );
    match of_cluster_info((world.run)("kubectl"@, seq!["cluster-info"@])) {
        Ok(finding) => seq![finding, right(0), right(1), right(2)],
        Err(finding) => seq![finding],
    }
}

/// What the image check finds in a world.
pub open spec fn image_in(world: World, image: Seq<char>) -> Found {
    match named_by(image) {
        Err(finding) => finding,
        Ok((path, reference)) => match of_token(
            image,
            (world.fetch)(
                "https://ghcr.io/token?scope=repository:"@ + path + ":pull&service=ghcr.io"@,
                Seq::empty(),
            ),
        ) {
            Err(finding) => finding,
            Ok(token) => of_manifest(
                image,
                (world.fetch)(
                    "https://ghcr.io/v2/"@ + path + "/manifests/"@ + reference,
                    seq![
                        ("Authorization"@, "Bearer "@ + token),
                        ("Accept"@, manifest_types()),
                    ],
                ),
            ),
        },
    }
}

/// What the platform's checks find in a world.
pub open spec fn platform_in(world: World, platform: Seq<char>) -> Seq<Found> {
    let (findings, date) = of_platform(platform, (world.fetch)(platform, Seq::empty()));
    match date {
        Some(theirs) => findings.push(of_clock(world.now as int, theirs as int)),
        None => findings,
    }
}

/// What every check finds in a world, in the order somebody reads it.
pub open spec fn found_in(world: World, meant: Meant) -> Seq<Found> {
    seq![of_helm((world.run)("helm"@, seq!["version"@, "--short"@]))] + cluster_in(
        world,
        meant.namespace,
    ) + seq![
        of_storage((world.run)("kubectl"@, seq!["get"@, "storageclass"@, "-o"@, "name"@])),
        image_in(world, meant.image),
    ] + platform_in(world, meant.platform)
}

/// What one check finds in a world.
pub open spec fn part_in(world: World, meant: Meant, part: Part) -> Seq<Found> {
    match part {
        Part::Helm => seq![of_helm((world.run)("helm"@, seq!["version"@, "--short"@]))],
        Part::Cluster => cluster_in(world, meant.namespace),
        Part::StorageClass => seq![
            of_storage((world.run)("kubectl"@, seq!["get"@, "storageclass"@, "-o"@, "name"@])),
        ],
        Part::Image => seq![image_in(world, meant.image)],
        Part::Platform => platform_in(world, meant.platform),
    }
}

proof fn lemma_ended(world: World, exam: Exam, most: nat)
    requires
        exam.stage is End,
    ensures
        ends_with(world, exam, exam.findings, most),
{
    assert(answered_often(world, exam, 0) == exam);
}

proof fn lemma_one_more(world: World, exam: Exam, findings: Seq<Found>, most: nat)
    requires
        most > 0,
        ends_with(world, answered(world, exam), findings, (most - 1) as nat),
    ensures
        ends_with(world, exam, findings, most),
{
    let next = answered(world, exam);
    assert(next.meant == exam.meant && next.alone == exam.alone);
    let times = choose|times: nat|
        times <= most - 1 && (#[trigger] answered_often(world, next, times)) == (Exam {
            stage: Stage::End,
            findings,
            ..next
        });
    assert(answered_often(world, exam, times + 1) == answered_often(world, next, times));
}

/// From the platform on.
proof fn lemma_platform(world: World, meant: Meant, alone: bool, findings: Seq<Found>)
    ensures
        ends_with(
            world,
            enter(meant, alone, Part::Platform, findings),
            findings + platform_in(world, meant.platform),
            2,
        ),
{
    let exam = enter(meant, alone, Part::Platform, findings);
    let next = answered(world, exam);
    let all = findings + platform_in(world, meant.platform);
    if next.stage is End {
        assert(next.findings =~= all);
        lemma_ended(world, next, 1);
    } else {
        let last = answered(world, next);
        assert(last.findings =~= all);
        lemma_ended(world, last, 0);
        lemma_one_more(world, next, all, 1);
    }
    lemma_one_more(world, exam, all, 2);
}

/// What the image check is followed by.
pub open spec fn then_platform(world: World, meant: Meant, alone: bool) -> Seq<Found> {
    if alone {
        Seq::empty()
    } else {
        platform_in(world, meant.platform)
    }
}

proof fn lemma_after_image(world: World, meant: Meant, alone: bool, findings: Seq<Found>)
    ensures
        ends_with(
            world,
            leave(meant, alone, Part::Image, findings),
            findings + then_platform(world, meant, alone),
            2,
        ),
{
    if alone {
        assert(findings + Seq::<Found>::empty() =~= findings);
        lemma_ended(world, leave(meant, alone, Part::Image, findings), 2);
    } else {
        lemma_platform(world, meant, alone, findings);
    }
}

/// From the image on.
proof fn lemma_image(world: World, meant: Meant, alone: bool, findings: Seq<Found>)
    ensures
        ends_with(
            world,
            enter(meant, alone, Part::Image, findings),
            findings + seq![image_in(world, meant.image)] + then_platform(world, meant, alone),
            4,
        ),
{
    let exam = enter(meant, alone, Part::Image, findings);
    let with = findings.push(image_in(world, meant.image));
    let all = findings + seq![image_in(world, meant.image)] + then_platform(world, meant, alone);
    assert(with + then_platform(world, meant, alone) =~= all);
    lemma_after_image(world, meant, alone, with);
    if named_by(meant.image) is Err {
        assert(exam == leave(meant, alone, Part::Image, with));
        lemma_more(world, exam, all, 2, 4);
    } else {
        let next = answered(world, exam);
        if next.stage is Manifest {
            assert(answered(world, next) == leave(meant, alone, Part::Image, with));
            lemma_one_more(world, next, all, 3);
        } else {
            assert(next == leave(meant, alone, Part::Image, with));
            lemma_more(world, next, all, 2, 3);
        }
        lemma_one_more(world, exam, all, 4);
    }
}

proof fn lemma_more(world: World, exam: Exam, findings: Seq<Found>, most: nat, more: nat)
    requires
        most <= more,
        ends_with(world, exam, findings, most),
    ensures
        ends_with(world, exam, findings, more),
{
}

/// The cluster's checks, to where they are left.
proof fn lemma_cluster(
    world: World,
    meant: Meant,
    alone: bool,
    findings: Seq<Found>,
    all: Seq<Found>,
    most: nat,
)
    requires
        ends_with(
            world,
            leave(meant, alone, Part::Cluster, findings + cluster_in(world, meant.namespace)),
            all,
            most,
        ),
    ensures
        ends_with(world, enter(meant, alone, Part::Cluster, findings), all, most + 4),
{
    let exam = enter(meant, alone, Part::Cluster, findings);
    let ended = leave(meant, alone, Part::Cluster, findings + cluster_in(world, meant.namespace));
    let one = answered(world, exam);
    if one.stage is Right {
        let two = answered(world, one);
        let three = answered(world, two);
        let four = answered(world, three);
        assert(three.findings.push(
            of_right(
                2,
                meant.namespace,
                (world.run)(
                    "kubectl"@,
                    seq!["auth"@, "can-i"@, "create"@, needed(2).0, "-n"@, meant.namespace],
                ),
            ),
        ) =~= findings + cluster_in(world, meant.namespace));
        assert(four == ended);
        lemma_one_more(world, three, all, most + 1);
        lemma_one_more(world, two, all, most + 2);
        lemma_one_more(world, one, all, most + 3);
    } else {
        assert(findings + cluster_in(world, meant.namespace) =~= findings.push(
            cluster_in(world, meant.namespace)[0],
        ));
        assert(one == ended);
        lemma_more(world, one, all, most, most + 3);
    }
    lemma_one_more(world, exam, all, most + 4);
}

/// A whole examination ends after no more than ten answers, with what every
/// check finds in the world that answers, in the order somebody reads it.
pub proof fn an_examination_finds_what_every_check_finds(world: World, meant: Meant)
    ensures
        ends_with(
            world,
            enter(meant, false, Part::Helm, Seq::empty()),
            found_in(world, meant),
            10,
        ),
{
    let all = found_in(world, meant);
    let helm = of_helm((world.run)("helm"@, seq!["version"@, "--short"@]));
    let storage = of_storage(
        (world.run)("kubectl"@, seq!["get"@, "storageclass"@, "-o"@, "name"@]),
    );
    let first = Seq::<Found>::empty().push(helm);
    let second = first + cluster_in(world, meant.namespace);
    let third = second.push(storage);
    assert(third + seq![image_in(world, meant.image)] + then_platform(world, meant, false) =~= all);
    lemma_image(world, meant, false, third);
    let at_storage = enter(meant, false, Part::StorageClass, second);
    assert(answered(world, at_storage) == enter(meant, false, Part::Image, third));
    lemma_one_more(world, at_storage, all, 5);
    lemma_cluster(world, meant, false, first, all, 5);
    let at_helm = enter(meant, false, Part::Helm, Seq::empty());
    assert(answered(world, at_helm) == enter(meant, false, Part::Cluster, first));
    lemma_one_more(world, at_helm, all, 10);
}

/// An examination of one part alone ends after no more than four answers, with
/// what that check finds in the world that answers.
pub proof fn a_part_finds_what_its_check_finds(world: World, meant: Meant, part: Part)
    ensures
        ends_with(
            world,
            enter(meant, true, part, Seq::empty()),
            part_in(world, meant, part),
            4,
        ),
{
    let none = Seq::<Found>::empty();
    let exam = enter(meant, true, part, none);
    let all = part_in(world, meant, part);
    match part {
        Part::Cluster => {
            assert(none + all =~= all);
            lemma_ended(world, leave(meant, true, part, all), 0);
            lemma_cluster(world, meant, true, none, all, 0);
        },
        Part::Image => {
            lemma_image(world, meant, true, none);
            assert(none + all + Seq::<Found>::empty() =~= all);
        },
        Part::Platform => {
            lemma_platform(world, meant, true, none);
            assert(none + all =~= all);
            lemma_more(world, exam, all, 2, 4);
        },
        _ => {
            let next = answered(world, exam);
            assert(next.findings =~= all);
            lemma_ended(world, next, 3);
            lemma_one_more(world, exam, all, 4);
        },
    }
}

/// A command that reads and changes nothing.
pub open spec fn only_reads(program: Seq<char>, arguments: Seq<Seq<char>>) -> bool {
    ||| program == "helm"@ && arguments == seq!["version"@, "--short"@]
    ||| program == "kubectl"@ && arguments == seq!["cluster-info"@]
    ||| program == "kubectl"@ && arguments.len() == 6 && arguments.take(3) == seq![
        "auth"@,
        "can-i"@,
        "create"@,
    ]
    ||| program == "kubectl"@ && arguments == seq!["get"@, "storageclass"@, "-o"@, "name"@]
}

/// It changes nothing: every command that an examination runs only reads.
pub proof fn an_examination_changes_nothing(exam: Exam)
    ensures
        need(exam) matches Need::Run(program, arguments) ==> only_reads(program, arguments),
{
    if let Need::Run(program, arguments) = need(exam) {
        if exam.stage is Right {
            assert(arguments.take(3) =~= seq!["auth"@, "can-i"@, "create"@]);
        }
    }
}

/// Whatever would stop an install comes with its fix.
pub open spec fn fixable(findings: Seq<Found>) -> bool {
    forall|i: int|
        0 <= i < findings.len() ==> ((#[trigger] findings[i]) matches Found::Stops { fix, .. }
            ==> fix.len() > 0)
}

/// Every finding that would stop an install names the fix, whatever the world
/// answers.
pub proof fn what_stops_an_install_comes_with_its_fix(
    exam: Exam,
    said: Result<Seq<char>, Failed>,
    answer: Result<Answer, Seq<char>>,
    now: u64,
)
    requires
        fixable(exam.findings),
    ensures
        fixable(after_run(exam, said).findings),
        fixable(after_fetch(exam, answer).findings),
        fixable(after_clock(exam, now).findings),
{
    reveal_strlit(
        "Install Helm 3. This drives your own helm rather than embedding one, so the chart stays the only thing that says what runs.",
    );
    reveal_strlit(
        "Install 3.12 or newer: the chart renders Secrets from what they already hold, which older Helm does not keep.",
    );
    reveal_strlit(
        "Install kubectl. This drives your own, so what it is pointed at is what gets the deployment.",
    );
    reveal_strlit("Point KUBECONFIG at the cluster this deployment is for, or start one.");
    reveal_strlit("Ask for rights to ");
    reveal_strlit(
        "The deployment's key lives in a volume only its conductor mounts, and a cluster with no storage class cannot make one. Install a provisioner, or name a class the chart should use.",
    );
    reveal_strlit(
        "Name the tag the deployment should run, so an upgrade is a deliberate act.",
    );
    reveal_strlit("Name a tag that was published, or check the repository.");
    reveal_strlit(
        "A deployment enrols its key and redeems its claim code through the platform. Check the address, and whether this network may reach it.",
    );
    reveal_strlit(
        "Every request carries a note good for at most 60s, and one signed by a clock this far out is refused as expired -- which reads exactly like a bad key. Turn on time synchronisation.",
    );
}

// ── An examination ───────────────────────────────────────────────────────────

#[derive(Debug)]
enum At {
    Helm,
    Reach,
    Right(usize),
    Storage,
    Token(String, String),
    Manifest(String, String, String),
    Platform,
    Clock(u64),
    End,
}

impl View for At {
    type V = Stage;

    closed spec fn view(&self) -> Stage {
        match self {
            At::Helm => Stage::Helm,
            At::Reach => Stage::Reach,
            At::Right(which) => Stage::Right(*which as int),
            At::Storage => Stage::Storage,
            At::Token(path, reference) => Stage::Token(path@, reference@),
            At::Manifest(path, reference, token) => Stage::Manifest(path@, reference@, token@),
            At::Platform => Stage::Platform,
            At::Clock(theirs) => Stage::Clock(*theirs),
            At::End => Stage::End,
        }
    }
}

/// An examination of this machine and this cluster.
#[derive(Debug)]
pub struct Examination {
    intended: Intended,
    alone: bool,
    at: At,
    findings: Vec<Finding>,
}

impl View for Examination {
    type V = Exam;

    closed spec fn view(&self) -> Exam {
        Exam {
            meant: self.intended@,
            alone: self.alone,
            stage: self.at@,
            findings: found(self.findings@),
        }
    }
}

/// What an examination asks for.
#[derive(Debug)]
pub enum Ask {
    /// What this program says, run with these arguments.
    Run(String, Vec<String>),
    /// What this address answers, asked with these headers.
    Fetch(String, Vec<(String, String)>),
    /// This machine's clock, in seconds since the epoch.
    Clock,
    /// Nothing.
    Nothing,
}

impl View for Ask {
    type V = Need;

    open spec fn view(&self) -> Need {
        match self {
            Ask::Run(program, arguments) => Need::Run(program@, texts(arguments@)),
            Ask::Fetch(url, headers) => Need::Fetch(url@, pairs(headers@)),
            Ask::Clock => Need::Clock,
            Ask::Nothing => Need::Nothing,
        }
    }
}

/// Every check, of what is intended.
pub fn examine(intended: Intended) -> (examination: Examination)
    ensures
        examination@ == enter(intended@, false, Part::Helm, Seq::empty()),
{
    let examination = Examination { intended, alone: false, at: At::Helm, findings: Vec::new() };
    assert(examination@.findings =~= Seq::<Found>::empty());
    examination
}

/// One check alone, of what is intended.
pub fn examine_part(part: Part, intended: Intended) -> (examination: Examination)
    ensures
        examination@ == enter(intended@, true, part, Seq::empty()),
{
    let mut examination = Examination {
        intended,
        alone: true,
        at: At::Helm,
        findings: Vec::new(),
    };
    assert(examination@.findings =~= Seq::<Found>::empty());
    examination.enter(part);
    examination
}

fn asked_with(program: &str, arguments: Vec<String>) -> (ask: Ask)
    ensures
        ask@ == Need::Run(program@, texts(arguments@)),
{
    Ask::Run(program.to_owned(), arguments)
}

impl Examination {
    /// What was found so far, in the order somebody reads it.
    pub fn findings(&self) -> (findings: &Vec<Finding>)
        ensures
            found(findings@) == self@.findings,
    {
        &self.findings
    }

    /// Whether there is nothing left to ask.
    pub fn over(&self) -> (r: bool)
        ensures
            r == (self@.stage is End),
    {
        match &self.at {
            At::End => true,
            _ => false,
        }
    }

    fn keep(&mut self, finding: Finding)
        ensures
            final(self)@ == (Exam {
                findings: old(self)@.findings.push(finding@),
                ..old(self)@
            }),
    {
        let ghost before = found(self.findings@);
        let ghost said = finding@;
        self.findings.push(finding);
        assert(found(self.findings@) =~= before.push(said));
    }

    fn enter(&mut self, part: Part)
        ensures
            final(self)@ == enter(old(self)@.meant, old(self)@.alone, part, old(self)@.findings),
    {
        match part {
            Part::Helm => {
                self.at = At::Helm;
            },
            Part::Cluster => {
                self.at = At::Reach;
            },
            Part::StorageClass => {
                self.at = At::Storage;
            },
            Part::Image => {
                match named_image(self.intended.image.as_str()) {
                    Ok((path, reference)) => {
                        self.at = At::Token(path, reference);
                    },
                    Err(finding) => {
                        self.keep(finding);
                        if self.alone {
                            self.at = At::End;
                        } else {
                            self.at = At::Platform;
                        }
                    },
                }
            },
            Part::Platform => {
                self.at = At::Platform;
            },
        }
    }

    fn leave(&mut self, part: Part)
        ensures
            final(self)@ == leave(old(self)@.meant, old(self)@.alone, part, old(self)@.findings),
    {
        if self.alone {
            self.at = At::End;
            return;
        }
        match part {
            Part::Helm => self.enter(Part::Cluster),
            Part::Cluster => self.enter(Part::StorageClass),
            Part::StorageClass => self.enter(Part::Image),
            Part::Image => self.enter(Part::Platform),
            Part::Platform => {
                self.at = At::End;
            },
        }
    }

    /// What the examination needs next.
    pub fn ask(&self) -> (ask: Ask)
        ensures
            ask@ == need(self@),
    {
        match &self.at {
            At::Helm => {
                let arguments = vec!["version".to_owned(), "--short".to_owned()];
                assert(texts(arguments@) =~= seq!["version"@, "--short"@]);
                asked_with("helm", arguments)
            },
            At::Reach => {
                let arguments = vec!["cluster-info".to_owned()];
                assert(texts(arguments@) =~= seq!["cluster-info"@]);
                asked_with("kubectl", arguments)
            },
            At::Right(which) => {
                let (resource, _) = what_is_needed(*which);
                let arguments = vec![
                    "auth".to_owned(),
                    "can-i".to_owned(),
                    "create".to_owned(),
                    resource.to_owned(),
                    "-n".to_owned(),
                    self.intended.namespace.clone(),
                ];
                assert(texts(arguments@) =~= seq![
                    "auth"@,
                    "can-i"@,
                    "create"@,
                    needed(*which as int).0,
                    "-n"@,
                    self@.meant.namespace,
                ]);
                asked_with("kubectl", arguments)
            },
            At::Storage => {
                let arguments = vec![
                    "get".to_owned(),
                    "storageclass".to_owned(),
                    "-o".to_owned(),
                    "name".to_owned(),
                ];
                assert(texts(arguments@) =~= seq!["get"@, "storageclass"@, "-o"@, "name"@]);
                asked_with("kubectl", arguments)
            },
            At::Token(path, _) => {
                let mut url = "https://ghcr.io/token?scope=repository:".to_owned();
                url.append(path.as_str());
                url.append(":pull&service=ghcr.io");
                let headers: Vec<(String, String)> = Vec::new();
                assert(pairs(headers@) =~= Seq::<(Seq<char>, Seq<char>)>::empty());
                Ask::Fetch(url, headers)
            },
            At::Manifest(path, reference, token) => {
                let mut url = "https://ghcr.io/v2/".to_owned();
                url.append(path.as_str());
                url.append("/manifests/");
                url.append(reference.as_str());
                let mut bearer = "Bearer ".to_owned();
                bearer.append(token.as_str());
                let headers = vec![
                    ("Authorization".to_owned(), bearer),
                    (
                        "Accept".to_owned(),
                        "application/vnd.oci.image.index.v1+json,application/vnd.oci.image.manifest.v1+json,application/vnd.docker.distribution.manifest.list.v2+json,application/vnd.docker.distribution.manifest.v2+json".to_owned(),
                    ),
                ];
                assert(pairs(headers@) =~= seq![
                    ("Authorization"@, "Bearer "@ + token@),
                    ("Accept"@, manifest_types()),
                ]);
                Ask::Fetch(url, headers)
            },
            At::Platform => {
                let headers: Vec<(String, String)> = Vec::new();
                assert(pairs(headers@) =~= Seq::<(Seq<char>, Seq<char>)>::empty());
                Ask::Fetch(self.intended.platform.clone(), headers)
            },
            At::Clock(_) => Ask::Clock,
            At::End => Ask::Nothing,
        }
    }

    /// The command that was asked for was run, and this came of it. If none
    /// was asked for, nothing changes.
    pub fn run(&mut self, said: &Result<String, Failure>)
        ensures
            final(self)@ == after_run(old(self)@, ran(*said)),
    {
        match &self.at {
            At::Helm => {
                self.keep(helm(said));
                self.leave(Part::Helm);
            },
            At::Reach => {
                match reachable(said) {
                    Ok(finding) => {
                        self.keep(finding);
                        self.at = At::Right(0);
                    },
                    Err(finding) => {
                        self.keep(finding);
                        self.leave(Part::Cluster);
                    },
                }
            },
            At::Right(which) => {
                let which: usize = *which;
                let finding = may_create(which, self.intended.namespace.as_str(), said);
                self.keep(finding);
                if which < 2 {
                    self.at = At::Right(which + 1);
                } else {
                    self.leave(Part::Cluster);
                }
            },
            At::Storage => {
                self.keep(storage_class(said));
                self.leave(Part::StorageClass);
            },
            _ => {},
        }
    }

    /// The address that was asked for was fetched, and this came of it. If
    /// none was asked for, nothing changes.
    pub fn fetch(&mut self, answer: &Result<Answered, String>)
        ensures
            final(self)@ == after_fetch(old(self)@, fetched(*answer)),
    {
        match &self.at {
            At::Token(path, reference) => {
                match token(self.intended.image.as_str(), answer) {
                    Ok(token) => {
                        self.at = At::Manifest(path.clone(), reference.clone(), token);
                    },
                    Err(finding) => {
                        self.keep(finding);
                        self.leave(Part::Image);
                    },
                }
            },
            At::Manifest(..) => {
                let finding = image(self.intended.image.as_str(), answer);
                self.keep(finding);
                self.leave(Part::Image);
            },
            At::Platform => {
                let (findings, date) = platform(self.intended.platform.as_str(), answer);
                let mut findings = findings;
                let ghost before = found(self.findings@);
                let ghost more = found(findings@);
                self.findings.append(&mut findings);
                assert(found(self.findings@) =~= before + more);
                match date {
                    Some(theirs) => {
                        self.at = At::Clock(theirs);
                    },
                    None => {
                        self.leave(Part::Platform);
                    },
                }
            },
            _ => {},
        }
    }

    /// This machine's clock was read, and this is what it said. If it was not
    /// asked for, nothing changes.
    pub fn clock(&mut self, now: u64)
        ensures
            final(self)@ == after_clock(old(self)@, now),
    {
        match &self.at {
            At::Clock(theirs) => {
                let finding = clock(now, *theirs);
                self.keep(finding);
                self.leave(Part::Platform);
            },
            _ => {},
        }
    }
}

/// A registry may answer with a manifest or an index of many, of either kind.
pub proof fn a_registry_may_answer_with_an_index_of_many()
    ensures
        manifest_types() == "application/vnd.oci.image.index.v1+json"@ + ","@
            + "application/vnd.oci.image.manifest.v1+json"@ + ","@
            + "application/vnd.docker.distribution.manifest.list.v2+json"@ + ","@
            + "application/vnd.docker.distribution.manifest.v2+json"@,
{
    reveal_strlit(
        "application/vnd.oci.image.index.v1+json,application/vnd.oci.image.manifest.v1+json,application/vnd.docker.distribution.manifest.list.v2+json,application/vnd.docker.distribution.manifest.v2+json",
    );
    reveal_strlit("application/vnd.oci.image.index.v1+json");
    reveal_strlit("application/vnd.oci.image.manifest.v1+json");
    reveal_strlit("application/vnd.docker.distribution.manifest.list.v2+json");
    reveal_strlit("application/vnd.docker.distribution.manifest.v2+json");
    reveal_strlit(",");
    assert(manifest_types() =~= "application/vnd.oci.image.index.v1+json"@ + ","@
        + "application/vnd.oci.image.manifest.v1+json"@ + ","@
        + "application/vnd.docker.distribution.manifest.list.v2+json"@ + ","@
        + "application/vnd.docker.distribution.manifest.v2+json"@);
}

} // verus!
