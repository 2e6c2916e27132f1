//! The checks themselves. Each answers one question and names one fix.
use vstd::prelude::*;
use vstd::string::*;

use crate::doctor::{explained, fetched, ran, Answer, Answered, Failed, Failure, Finding, Found};
use crate::number::{a_digit, decimal, decimal_of, is_digit, number_of, parsed};
use crate::text::{
    characters, cut_last, debug_of, debugged, part, pieces, rsplit_once, same, split, strip_prefix,
    texts, trim, trim_start_char, trimmed, trimmed_start, without_prefix,
};
use crate::tree::{from_json, json_read, text_member, Holding, Tree};

verus! {

/// How long a note that a request carries is good for, in seconds.
pub const MAX_LIFETIME_SECONDS: u64 = 60;

/// A text put together from two.
fn both(a: &str, b: &str) -> (out: String)
    ensures
        out@ == a@ + b@,
{
    let mut out = a.to_owned();
    out.append(b);
    out
}

/// A text put together from three.
fn three(a: &str, b: &str, c: &str) -> (out: String)
    ensures
        out@ == a@ + b@ + c@,
{
    let mut out = a.to_owned();
    out.append(b);
    out.append(c);
    out
}

// ── Helm ─────────────────────────────────────────────────────────────────────

/// The digits and dots that a text starts with.
pub open spec fn leading_version(s: Seq<char>) -> Seq<char>
    decreases s.len(),
{
    if s.len() > 0 && (is_digit(s[0]) || s[0] == '.') {
        seq![s[0]] + leading_version(s.skip(1))
    } else {
        Seq::empty()
    }
}

/// The major and the minor version in what Helm says: `v3.16.2+g1234`, and the
/// other shapes it prints.
pub open spec fn version_in(said: Seq<char>) -> Option<(nat, nat)> {
    let parts = split(leading_version(trim_start_char(trim(said), 'v')), "."@);
    if parts.len() < 2 {
        None
    } else {
        match (parsed(parts[0], u32::MAX as nat), parsed(parts[1], u32::MAX as nat)) {
            (Some(major), Some(minor)) => Some((major, minor)),
            _ => None,
        }
    }
}

fn version_text(s: &str) -> (out: String)
    ensures
        out@ == leading_version(s@),
{
    let whole = characters(s);
    let n: usize = whole.len();
    let mut i: usize = 0;
    assert(whole@.skip(0) =~= whole@);
    assert(whole@.take(0) =~= Seq::<char>::empty());
    assert(leading_version(whole@) =~= whole@.take(0) + leading_version(whole@.skip(0)));
    while i < n && (a_digit(whole[i]) || whole[i] == '.')
        invariant
            i <= n,
            n == whole@.len(),
            leading_version(whole@) == whole@.take(i as int) + leading_version(
                whole@.skip(i as int),
            ),
        decreases n - i,
    {
        let ghost rest = whole@.skip(i as int);
        assert(rest.skip(1) =~= whole@.skip(i + 1));
        assert(whole@.take(i + 1) =~= whole@.take(i as int) + seq![whole@[i as int]]);
        assert(whole@.take(i as int) + leading_version(rest) =~= whole@.take(i + 1)
            + leading_version(rest.skip(1)));
        i += 1;
    }
    assert(leading_version(whole@.skip(i as int)) =~= Seq::<char>::empty());
    assert(whole@.take(i as int) + Seq::<char>::empty() =~= whole@.take(i as int));
    let out = part(&whole, 0, i);
    assert(whole@.subrange(0, i as int) =~= whole@.take(i as int));
    out
}

/// The version in what Helm says.
pub fn version(said: &str) -> (r: Option<(u32, u32)>)
    ensures
        match r {
            Some((major, minor)) => version_in(said@) == Some((major as nat, minor as nat)),
            None => version_in(said@) is None,
        },
{
    let digits = version_text(trimmed_start(trimmed(said).as_str(), 'v').as_str());
    proof {
        reveal_strlit(".");
    }
    let parts = pieces(digits.as_str(), ".");
    if parts.len() < 2 {
        return None;
    }
    assert(texts(parts@)[0] == parts@[0]@);
    assert(texts(parts@)[1] == parts@[1]@);
    match (
        number_of(parts[0].as_str(), u32::MAX as u64),
        number_of(parts[1].as_str(), u32::MAX as u64),
    ) {
        (Some(major), Some(minor)) => Some((major as u32, minor as u32)),
        _ => None,
    }
}

/// A version of Helm that this chart was built against, or a newer one.
pub open spec fn recent_enough(major: nat, minor: nat) -> bool {
    major > 3 || (major == 3 && minor >= 12)
}

/// What Helm's answer means.
pub open spec fn of_helm(said: Result<Seq<char>, Failed>) -> Found {
    match said {
        Err(failed) => Found::Stops {
            what: match failed {
                Failed::Missing(_) => "helm is not installed here"@,
                Failed::Said(said) => "helm does not run here: "@ + said,
            },
            fix:
                "Install Helm 3. This drives your own helm rather than embedding one, so the chart stays the only thing that says what runs."@,
        },
        Ok(said) => match version_in(said) {
            Some((major, minor)) => if recent_enough(major, minor) {
                Found::Fine(
                    "helm "@ + decimal(major) + "."@ + decimal(minor) + " is recent enough"@,
                )
            } else {
                Found::Stops {
                    what: "helm is "@ + decimal(major) + "."@ + decimal(minor),
                    fix:
                        "Install 3.12 or newer: the chart renders Secrets from what they already hold, which older Helm does not keep."@,
                }
            },
            None => Found::Unknown {
                what: "helm's version could not be read"@,
                why: "`helm version --short` said "@ + debugged(said),
            },
        },
    }
}

/// What `helm version --short` means.
pub fn helm(said: &Result<String, Failure>) -> (finding: Finding)
    ensures
        finding@ == of_helm(ran(*said)),
{
    let said = match said {
        Ok(said) => said,
        Err(failed) => {
            return Finding::Stops {
                what: match failed {
                    Failure::Missing(_) => "helm is not installed here".to_owned(),
                    Failure::Said(said) => both("helm does not run here: ", said.as_str()),
                },
                fix:
                    "Install Helm 3. This drives your own helm rather than embedding one, so the chart stays the only thing that says what runs.".to_owned(),
            };
        },
    };
    match version(said.as_str()) {
        Some((major, minor)) => {
            let mut what = "helm ".to_owned();
            if major > 3 || (major == 3 && minor >= 12) {
                what.append(decimal_of(major as u64).as_str());
                what.append(".");
                what.append(decimal_of(minor as u64).as_str());
                what.append(" is recent enough");
                return Finding::Fine(what);
            }
            let mut what = "helm is ".to_owned();
            what.append(decimal_of(major as u64).as_str());
            what.append(".");
            what.append(decimal_of(minor as u64).as_str());
            Finding::Stops {
                what,
                fix:
                    "Install 3.12 or newer: the chart renders Secrets from what they already hold, which older Helm does not keep.".to_owned(),
            }
        },
        None => Finding::Unknown {
            what: "helm's version could not be read".to_owned(),
            why: both("`helm version --short` said ", debug_of(said.as_str()).as_str()),
        },
    }
}

// ── The cluster ──────────────────────────────────────────────────────────────

/// What being asked for the cluster means: that it is there, or what stops the
/// checks of it.
pub open spec fn of_cluster_info(said: Result<Seq<char>, Failed>) -> Result<Found, Found> {
    match said {
        Ok(_) => Ok(Found::Fine("a cluster is reachable"@)),
        Err(Failed::Missing(program)) => Err(
            Found::Stops {
                what: program + " is not installed here"@,
                fix:
                    "Install kubectl. This drives your own, so what it is pointed at is what gets the deployment."@,
            },
        ),
        Err(Failed::Said(failed)) => Err(
            Found::Stops {
                what: "no cluster is reachable: "@ + failed,
                fix:
                    "Point KUBECONFIG at the cluster this deployment is for, or start one."@,
            },
        ),
    }
}

/// What `kubectl cluster-info` means. Two failures with two fixes: telling
/// somebody to check KUBECONFIG on a machine that has no kubectl to read it
/// with sends an afternoon in the wrong direction.
pub fn reachable(said: &Result<String, Failure>) -> (r: Result<Finding, Finding>)
    ensures
        match r {
            Ok(finding) => of_cluster_info(ran(*said)) == Ok::<Found, Found>(finding@),
            Err(finding) => of_cluster_info(ran(*said)) == Err::<Found, Found>(finding@),
        },
{
    match said {
        Ok(_) => Ok(Finding::Fine("a cluster is reachable".to_owned())),
        Err(Failure::Missing(program)) => Err(
            Finding::Stops {
                what: both(program.as_str(), " is not installed here"),
                fix:
                    "Install kubectl. This drives your own, so what it is pointed at is what gets the deployment.".to_owned(),
            },
        ),
        Err(Failure::Said(failed)) => Err(
            Finding::Stops {
                what: both("no cluster is reachable: ", failed.as_str()),
                fix:
                    "Point KUBECONFIG at the cluster this deployment is for, or start one.".to_owned(),
            },
        ),
    }
}

/// What an install needs to create, and what for: the first, the second and
/// the third of them.
pub open spec fn needed(which: int) -> (Seq<char>, Seq<char>) {
    if which == 0 {
        ("deployments"@, "run its components"@)
    } else if which == 1 {
        ("secrets"@, "hold what the wizard writes"@)
    } else {
        ("jobs"@, "migrate and set itself up"@)
    }
}

/// What an install needs to create, and what for.
pub fn what_is_needed(which: usize) -> (r: (&'static str, &'static str))
    ensures
        (r.0@, r.1@) == needed(which as int),
{
    if which == 0 {
        ("deployments", "run its components")
    } else if which == 1 {
        ("secrets", "hold what the wizard writes")
    } else {
        ("jobs", "migrate and set itself up")
    }
}

/// What being asked for a right means.
pub open spec fn of_right(which: int, namespace: Seq<char>, said: Result<Seq<char>, Failed>) -> Found {
    let (resource, what) = needed(which);
    match said {
        Ok(said) => if trim(said) == "yes"@ {
            Found::Fine("this account may create "@ + resource + " in "@ + namespace)
        } else {
            Found::Stops {
                what: "this account may not create "@ + resource + " in "@ + namespace,
                fix: "Ask for rights to "@ + what + " in "@ + namespace
                    + ", or install into a namespace you administer."@,
            }
        },
        Err(failed) => Found::Unknown {
            what: "whether this account may create "@ + resource + " is unknown"@,
            why: explained(failed),
        },
    }
}

/// What `kubectl auth can-i create` means. Asked of the cluster rather than
/// assumed from a role name: the cluster is the only thing that knows.
pub fn may_create(which: usize, namespace: &str, said: &Result<String, Failure>) -> (finding:
    Finding)
    ensures
        finding@ == of_right(which as int, namespace@, ran(*said)),
{
    let (resource, what) = what_is_needed(which);
    match said {
        Ok(said) => {
            if same(trimmed(said.as_str()).as_str(), "yes") {
                let mut text = three("this account may create ", resource, " in ");
                text.append(namespace);
                return Finding::Fine(text);
            }
            let mut text = three("this account may not create ", resource, " in ");
            text.append(namespace);
            let mut fix = three("Ask for rights to ", what, " in ");
            fix.append(namespace);
            fix.append(", or install into a namespace you administer.");
            Finding::Stops { what: text, fix }
        },
        Err(failed) => Finding::Unknown {
            what: three("whether this account may create ", resource, " is unknown"),
            why: failed.text(),
        },
    }
}

/// How many of the parts are more than white space.
pub open spec fn written(parts: Seq<Seq<char>>) -> nat
    decreases parts.len(),
{
    if parts.len() == 0 {
        0
    } else {
        written(parts.drop_last()) + if trim(parts.last()).len() > 0 {
            1nat
        } else {
            0nat
        }
    }
}

/// What being asked for storage classes means.
pub open spec fn of_storage(said: Result<Seq<char>, Failed>) -> Found {
    match said {
        Ok(said) => if trim(said).len() == 0 {
            Found::Stops {
                what: "this cluster has no storage class"@,
                fix:
                    "The deployment's key lives in a volume only its conductor mounts, and a cluster with no storage class cannot make one. Install a provisioner, or name a class the chart should use."@,
            }
        } else {
            Found::Fine(
                decimal(written(split(said, "\n"@)))
                    + " storage class(es) for the key's volume"@,
            )
        },
        Err(failed) => Found::Unknown {
            what: "the cluster's storage classes could not be read"@,
            why: explained(failed),
        },
    }
}

fn written_in(parts: &Vec<String>) -> (count: usize)
    ensures
        count == written(texts(parts@)),
{
    let ghost all = texts(parts@);
    let mut count: usize = 0;
    let mut i: usize = 0;
    let n: usize = parts.len();
    while i < n
        invariant
            i <= n,
            n == parts@.len(),
            all == texts(parts@),
            count == written(all.take(i as int)),
            count <= i,
        decreases n - i,
    {
        assert(all.take(i + 1).drop_last() =~= all.take(i as int));
        let kept = characters(trimmed(parts[i].as_str()).as_str());
        if kept.len() > 0 {
            count += 1;
        }
        i += 1;
    }
    assert(all.take(n as int) =~= all);
    count
}

/// What `kubectl get storageclass -o name` means.
pub fn storage_class(said: &Result<String, Failure>) -> (finding: Finding)
    ensures
        finding@ == of_storage(ran(*said)),
{
    match said {
        Ok(said) => {
            let kept = characters(trimmed(said.as_str()).as_str());
            if kept.len() == 0 {
                return Finding::Stops {
                    what: "this cluster has no storage class".to_owned(),
                    fix:
                        "The deployment's key lives in a volume only its conductor mounts, and a cluster with no storage class cannot make one. Install a provisioner, or name a class the chart should use.".to_owned(),
                };
            }
            proof {
                reveal_strlit("\n");
            }
            let lines = pieces(said.as_str(), "\n");
            Finding::Fine(
                both(
                    decimal_of(written_in(&lines) as u64).as_str(),
                    " storage class(es) for the key's volume",
                ),
            )
        },
        Err(failed) => Finding::Unknown {
            what: "the cluster's storage classes could not be read".to_owned(),
            why: failed.text(),
        },
    }
}

// ── The image ────────────────────────────────────────────────────────────────

/// The repository and the tag that an image names at the registry that can be
/// asked, or what is found without asking.
pub open spec fn named_by(image: Seq<char>) -> Result<(Seq<char>, Seq<char>), Found> {
    match rsplit_once(image, ":"@) {
        None => Err(
            Found::Stops {
                what: image + " names no tag"@,
                fix:
                    "Name the tag the deployment should run, so an upgrade is a deliberate act."@,
            },
        ),
        Some((repository, reference)) => match strip_prefix(repository, "ghcr.io/"@) {
            None => Err(
                Found::Unknown {
                    what: repository + " is not a registry this can ask"@,
                    why:
                        "Only ghcr.io is asked directly; anything else is left to the cluster."@,
                },
            ),
            Some(path) => Ok((path, reference)),
        },
    }
}

/// The repository and the tag that an image names at the registry that can be
/// asked.
pub fn named_image(image: &str) -> (r: Result<(String, String), Finding>)
    ensures
        match r {
            Ok((path, reference)) => named_by(image@) == Ok::<(Seq<char>, Seq<char>), Found>(
                (path@, reference@),
            ),
            Err(finding) => named_by(image@) == Err::<(Seq<char>, Seq<char>), Found>(finding@),
        },
{
    match cut_last(image, ":") {
        None => Err(
            Finding::Stops {
                what: both(image, " names no tag"),
                fix:
                    "Name the tag the deployment should run, so an upgrade is a deliberate act.".to_owned(),
            },
        ),
        Some((repository, reference)) => match without_prefix(repository.as_str(), "ghcr.io/") {
            None => Err(
                Finding::Unknown {
                    what: both(repository.as_str(), " is not a registry this can ask"),
                    why:
                        "Only ghcr.io is asked directly; anything else is left to the cluster.".to_owned(),
                },
            ),
            Some(path) => Ok((path, reference)),
        },
    }
}

/// The token in what the registry answered.
pub open spec fn token_of(read: Result<Holding, Seq<char>>) -> Option<Seq<char>> {
    match read {
        Ok(held) => text_member(held, "token"@),
        Err(_) => None,
    }
}

/// The token in what the registry answered, as it was read.
pub fn token_in(read: &Result<Tree, String>) -> (r: Option<String>)
    ensures
        match r {
            Some(token) => token_of(crate::catalogue::reading(*read)) == Some(token@),
            None => token_of(crate::catalogue::reading(*read)) is None,
        },
{
    match read {
        Ok(tree) => tree.text_at("token"),
        Err(_) => None,
    }
}

/// The token in what the registry answered.
pub fn read_token(body: &str) -> (r: Option<String>)
    ensures
        match r {
            Some(token) => token_of(json_read(body@)) == Some(token@),
            None => token_of(json_read(body@)) is None,
        },
{
    token_in(&from_json(body))
}

/// What being asked for a token means: the token, or what is found without.
pub open spec fn of_token(image: Seq<char>, answer: Result<Answer, Seq<char>>) -> Result<
    Seq<char>,
    Found,
> {
    match answer {
        Ok(answer) if token_of(json_read(answer.body)) is Some => Ok(
            token_of(json_read(answer.body))->0,
        ),
        _ => Err(
            Found::Unknown {
                what: image + " could not be asked about"@,
                why: "the registry did not issue a token for an anonymous pull"@,
            },
        ),
    }
}

/// What the registry's answer to being asked for a token means.
pub fn token(image: &str, answer: &Result<Answered, String>) -> (r: Result<String, Finding>)
    ensures
        match r {
            Ok(token) => of_token(image@, fetched(*answer)) == Ok::<Seq<char>, Found>(token@),
            Err(finding) => of_token(image@, fetched(*answer)) == Err::<Seq<char>, Found>(finding@),
        },
{
    if let Ok(answered) = answer {
        if let Some(token) = read_token(answered.body.as_str()) {
            return Ok(token);
        }
    }
    Err(
        Finding::Unknown {
            what: both(image, " could not be asked about"),
            why: "the registry did not issue a token for an anonymous pull".to_owned(),
        },
    )
}

/// What being asked for the manifest means.
pub open spec fn of_manifest(image: Seq<char>, answer: Result<Answer, Seq<char>>) -> Found {
    match answer {
        Ok(answer) => if answer.status == 200 {
            Found::Fine(image + " can be pulled"@)
        } else if answer.status == 404 {
            Found::Stops {
                what: image + " does not exist"@,
                fix: "Name a tag that was published, or check the repository."@,
            }
        } else {
            Found::Unknown {
                what: image + " answered "@ + decimal(answer.status as nat),
                why: "which is neither a yes nor a no; the cluster may still pull it"@,
            }
        },
        Err(failed) => Found::Unknown {
            what: image + " could not be reached from here"@,
            why: failed,
        },
    }
}

/// What the registry's answer to being asked for the manifest means.
pub fn image(named: &str, answer: &Result<Answered, String>) -> (finding: Finding)
    ensures
        finding@ == of_manifest(named@, fetched(*answer)),
{
    match answer {
        Ok(answered) => {
            if answered.status == 200 {
                Finding::Fine(both(named, " can be pulled"))
            } else if answered.status == 404 {
                Finding::Stops {
                    what: both(named, " does not exist"),
                    fix: "Name a tag that was published, or check the repository.".to_owned(),
                }
            } else {
                Finding::Unknown {
                    what: three(
                        named,
                        " answered ",
                        decimal_of(answered.status as u64).as_str(),
                    ),
                    why: "which is neither a yes nor a no; the cluster may still pull it".to_owned(),
                }
            }
        },
        Err(failed) => Finding::Unknown {
            what: both(named, " could not be reached from here"),
            why: failed.clone(),
        },
    }
}

// ── The platform, and the clock ──────────────────────────────────────────────

/// What the platform's answer means, and the date it stated if the clock is to
/// be compared with it.
pub open spec fn of_platform(platform: Seq<char>, answer: Result<Answer, Seq<char>>) -> (
    Seq<Found>,
    Option<u64>,
) {
    match answer {
        Err(failed) => (
            seq![
                Found::Stops {
                    what: "the platform at "@ + platform + " could not be reached: "@ + failed,
                    fix:
                        "A deployment enrols its key and redeems its claim code through the platform. Check the address, and whether this network may reach it."@,
                },
            ],
            None,
        ),
        Ok(answer) => {
            let answers = Found::Fine("the platform at "@ + platform + " answers"@);
            match answer.date_s {
                Some(theirs) => (seq![answers], Some(theirs)),
                None => (
                    seq![
                        answers,
                        Found::Unknown {
                            what:
                                "this machine's clock could not be compared with the platform's"@,
                            why: "the platform stated no date"@,
                        },
                    ],
                    None,
                ),
            }
        },
    }
}

/// What the platform's answer means, and the date it stated if the clock is to
/// be compared with it.
pub fn platform(address: &str, answer: &Result<Answered, String>) -> (r: (
    Vec<Finding>,
    Option<u64>,
))
    ensures
        crate::doctor::found(r.0@) == of_platform(address@, fetched(*answer)).0,
        r.1 == of_platform(address@, fetched(*answer)).1,
{
    let mut findings: Vec<Finding> = Vec::new();
    match answer {
        Err(failed) => {
            let mut what = three("the platform at ", address, " could not be reached: ");
            what.append(failed.as_str());
            findings.push(
                Finding::Stops {
                    what,
                    fix:
                        "A deployment enrols its key and redeems its claim code through the platform. Check the address, and whether this network may reach it.".to_owned(),
                },
            );
            assert(crate::doctor::found(findings@) =~= of_platform(address@, fetched(*answer)).0);
            (findings, None)
        },
        Ok(answered) => {
            findings.push(Finding::Fine(three("the platform at ", address, " answers")));
            if answered.date_s.is_none() {
                findings.push(
                    Finding::Unknown {
                        what:
                            "this machine's clock could not be compared with the platform's".to_owned(),
                        why: "the platform stated no date".to_owned(),
                    },
                );
            }
            assert(crate::doctor::found(findings@) =~= of_platform(address@, fetched(*answer)).0);
            (findings, answered.date_s)
        },
    }
}

/// How far two clocks are apart.
pub open spec fn skew(ours: int, theirs: int) -> nat {
    if ours < theirs {
        (theirs - ours) as nat
    } else {
        (ours - theirs) as nat
    }
}

/// What two clocks mean.
///
/// Every request that a deployment makes carries a note good for at most a
/// minute, and a machine whose clock is outside that window is refused for a
/// reason that looks exactly like a bad key.
pub open spec fn of_clock(ours: int, theirs: int) -> Found {
    let apart = skew(ours, theirs);
    if apart * 2 < MAX_LIFETIME_SECONDS {
        Found::Fine(
            "this machine's clock is within "@ + decimal(apart) + "s of the platform's"@,
        )
    } else if apart < MAX_LIFETIME_SECONDS {
        Found::Worth {
            what: "this machine's clock is "@ + decimal(apart) + "s from the platform's"@,
            why:
                "a note is good for at most 60s, so this works and has little room left"@,
        }
    } else {
        Found::Stops {
            what: "this machine's clock is "@ + decimal(apart) + "s from the platform's"@,
            fix:
                "Every request carries a note good for at most 60s, and one signed by a clock this far out is refused as expired -- which reads exactly like a bad key. Turn on time synchronisation."@,
        }
    }
}

/// What this machine's clock and the platform's mean.
pub fn clock(ours: u64, theirs: u64) -> (finding: Finding)
    ensures
        finding@ == of_clock(ours as int, theirs as int),
{
    let apart: u64 = if ours < theirs {
        theirs - ours
    } else {
        ours - theirs
    };
    if apart < MAX_LIFETIME_SECONDS && apart * 2 < MAX_LIFETIME_SECONDS {
        Finding::Fine(
            three(
                "this machine's clock is within ",
                decimal_of(apart).as_str(),
                "s of the platform's",
            ),
        )
    } else if apart < MAX_LIFETIME_SECONDS {
        Finding::Worth {
            what: three(
                "this machine's clock is ",
                decimal_of(apart).as_str(),
                "s from the platform's",
            ),
            why: "a note is good for at most 60s, so this works and has little room left".to_owned(),
        }
    } else {
        Finding::Stops {
            what: three(
                "this machine's clock is ",
                decimal_of(apart).as_str(),
                "s from the platform's",
            ),
            fix:
                "Every request carries a note good for at most 60s, and one signed by a clock this far out is refused as expired -- which reads exactly like a bad key. Turn on time synchronisation.".to_owned(),
        }
    }
}

/// The clocks are compared either way: which of them is ahead makes no
/// difference, a minute or more apart would stop an install, half a minute or
/// more is worth knowing, and only less than that is fine.
pub proof fn the_clocks_are_compared_either_way(ours: int, theirs: int)
    ensures
        of_clock(ours, theirs) == of_clock(theirs, ours),
        of_clock(ours, theirs) is Stops <==> ours - theirs >= 60 || theirs - ours >= 60,
        of_clock(ours, theirs) is Fine <==> -30 < ours - theirs < 30,
        of_clock(ours, theirs) is Worth <==> 30 <= ours - theirs < 60 || 30 <= theirs - ours < 60,
        match of_clock(ours, theirs) {
            Found::Fine(what) => what == "this machine's clock is within "@ + decimal(
                skew(ours, theirs),
            ) + "s of the platform's"@,
            Found::Stops { what, .. } => what == "this machine's clock is "@ + decimal(
                skew(ours, theirs),
            ) + "s from the platform's"@,
            Found::Worth { what, .. } => what == "this machine's clock is "@ + decimal(
                skew(ours, theirs),
            ) + "s from the platform's"@,
            Found::Unknown { .. } => false,
        },
        ours >= theirs ==> skew(ours, theirs) == ours - theirs,
{
}

// ── What the checks come to ──────────────────────────────────────────────────

proof fn lemma_leading(s: Seq<char>, rest: Seq<char>)
    requires
        forall|i: int| 0 <= i < s.len() ==> is_digit(#[trigger] s[i]) || s[i] == '.',
    ensures
        leading_version(s + rest) == s + leading_version(rest),
    decreases s.len(),
{
    let whole = s + rest;
    if s.len() == 0 {
        assert(whole =~= rest);
        assert(s + leading_version(rest) =~= leading_version(rest));
    } else {
        let fewer = s.skip(1);
        assert forall|i: int| 0 <= i < fewer.len() implies is_digit(#[trigger] fewer[i]) || fewer[i]
            == '.' by {
            assert(is_digit(s[i + 1]) || s[i + 1] == '.');
        }
        lemma_leading(fewer, rest);
        assert(whole.skip(1) =~= fewer + rest);
        assert(whole[0] == s[0]);
        assert(leading_version(whole) =~= s + leading_version(rest));
    }
}

/// The version in what Helm says is the one that it says: behind a `v`, the two
/// numbers with a dot between them, whatever follows that is not one more digit,
/// and whatever white space is around it.
pub proof fn the_version_that_helm_says_is_read(
    before: Seq<char>,
    major: nat,
    minor: nat,
    rest: Seq<char>,
    after: Seq<char>,
)
    requires
        major <= u32::MAX,
        minor <= u32::MAX,
        rest.len() > 0 ==> !is_digit(rest[0]) && !crate::text::is_white(rest.last()),
        forall|i: int| 0 <= i < before.len() ==> crate::text::is_white(#[trigger] before[i]),
        forall|i: int| 0 <= i < after.len() ==> crate::text::is_white(#[trigger] after[i]),
    ensures
        ({
            let said = before + ("v"@ + decimal(major) + "."@ + decimal(minor) + rest) + after;
            &&& version_in(said) == Some((major, minor))
            &&& major > 3 || major == 3 && minor >= 12 ==> of_helm(Ok(said)) == Found::Fine(
                "helm "@ + decimal(major) + "."@ + decimal(minor) + " is recent enough"@,
            )
            &&& major < 3 || major == 3 && minor < 12 ==> (of_helm(Ok(said)) matches Found::Stops {
                what,
                ..
            } && what == "helm is "@ + decimal(major) + "."@ + decimal(minor))
        }),
{
    reveal_strlit("v");
    reveal_strlit(".");
    assert("v"@ =~= seq!['v']);
    assert("."@ =~= seq!['.']);
    crate::number::decimal_reads_back(major, u32::MAX as nat);
    crate::number::decimal_reads_back(minor, u32::MAX as nat);
    let a = decimal(major);
    let b = decimal(minor);
    lemma_decimal_digits(major);
    lemma_decimal_digits(minor);
    let core = "v"@ + a + "."@ + b + rest;
    assert(core[0] == 'v');
    assert(!crate::text::is_white(core.last())) by {
        if rest.len() == 0 {
            assert(core.last() == b.last());
        } else {
            assert(core.last() == rest.last());
        }
    }
    crate::text::white_space_around_a_text_is_trimmed(before, core, after);
    let body = a + "."@ + b + rest;
    assert(core.skip(1) =~= body);
    assert(body[0] == a[0]);
    assert(trim_start_char(core, 'v') == body) by {
        assert(trim_start_char(body, 'v') == body);
    }
    let numbers = a + seq!['.'] + b;
    assert(body =~= numbers + rest);
    assert forall|i: int| 0 <= i < numbers.len() implies is_digit(#[trigger] numbers[i])
        || numbers[i] == '.' by {
        if i < a.len() {
            assert(numbers[i] == a[i]);
        } else if i > a.len() {
            assert(numbers[i] == b[i - a.len() - 1]);
        }
    }
    lemma_leading(numbers, rest);
    let tail = leading_version(rest);
    assert(tail.len() > 0 ==> tail[0] == '.');
    let second = b + tail;
    assert(numbers + tail =~= a + seq!['.'] + second);
    crate::text::lemma_split_around(a, '.', second);
    lemma_no_dot(a);
    assert(split(a, seq!['.']) == seq![a]);
    lemma_no_dot(b);
    if tail.len() > 0 {
        let third = tail.skip(1);
        assert(second =~= b + seq!['.'] + third);
        crate::text::lemma_split_around(b, '.', third);
        assert(split(second, seq!['.'])[0] == b);
    } else {
        assert(second =~= b);
        assert(split(second, seq!['.'])[0] == b);
    }
    let parts = split(a + seq!['.'] + second, seq!['.']);
    assert(parts[0] == a);
    crate::text::lemma_split_some(second, seq!['.']);
    assert(parts[1] == b);
}

proof fn lemma_decimal_digits(n: nat)
    ensures
        decimal(n).len() > 0,
        forall|i: int| 0 <= i < decimal(n).len() ==> is_digit(#[trigger] decimal(n)[i]),
    decreases n,
{
    if n >= 10 {
        lemma_decimal_digits(n / 10);
        let d = decimal(n / 10);
        assert forall|i: int| 0 <= i < decimal(n).len() implies is_digit(#[trigger] decimal(n)[i]) by {
            if i < d.len() {
                assert(decimal(n)[i] == d[i]);
            }
        }
    }
}

proof fn lemma_no_dot(s: Seq<char>)
    requires
        forall|i: int| 0 <= i < s.len() ==> is_digit(#[trigger] s[i]),
    ensures
        split(s, seq!['.']) == seq![s],
{
    crate::text::lemma_holds_char(s, '.');
    if s.contains('.') {
        let i = choose|i: int| 0 <= i < s.len() && s[i] == '.';
        assert(is_digit(s[i]));
    }
    crate::text::lemma_nothing_sought(s, seq!['.'], s);
}

/// A newer Helm is never worse: where one version would not stop an install, no
/// later one would; and a Helm that cannot be run stops it.
pub proof fn a_newer_helm_is_never_worse(
    major: nat,
    minor: nat,
    later_major: nat,
    later_minor: nat,
    failed: Failed,
)
    requires
        later_major > major || later_major == major && later_minor >= minor,
        recent_enough(major, minor),
    ensures
        recent_enough(later_major, later_minor),
        of_helm(Err(failed)) is Stops,
        forall|said: Seq<char>| #[trigger] of_helm(Ok(said)) is Unknown <==> version_in(said) is None,
{
}

/// A text stands in another, somewhere.
pub open spec fn tells(said: Seq<char>, part: Seq<char>) -> bool {
    exists|before: Seq<char>, after: Seq<char>| said == #[trigger] (before + part + after)
}

proof fn lemma_tells(before: Seq<char>, part: Seq<char>, after: Seq<char>)
    ensures
        tells(before + part + after, part),
{
}

/// An account may create what the cluster says it may: `yes` and nothing but
/// white space around it is a yes, any other answer would stop an install, and
/// no answer is not known. The three rights are of three resources, and what is
/// found names the resource and the namespace that was asked about.
pub proof fn only_a_yes_is_a_yes(which: int, namespace: Seq<char>, said: Seq<char>, failed: Failed)
    requires
        0 <= which < 3,
    ensures
        of_right(which, namespace, Ok(said)) is Fine <==> trim(said) == "yes"@,
        of_right(which, namespace, Ok(said)) is Stops <==> trim(said) != "yes"@,
        of_right(which, namespace, Err(failed)) matches Found::Unknown { what, why } && tells(
            what,
            needed(which).0,
        ) && why == explained(failed),
        needed(which).0 == (if which == 0 {
            "deployments"@
        } else if which == 1 {
            "secrets"@
        } else {
            "jobs"@
        }),
        match of_right(which, namespace, Ok(said)) {
            Found::Fine(what) => tells(what, needed(which).0) && tells(what, namespace),
            Found::Stops { what, fix } => tells(what, needed(which).0) && tells(what, namespace)
                && tells(fix, namespace) && tells(fix, needed(which).1),
            _ => false,
        },
{
    let none = Seq::<char>::empty();
    let (resource, what) = needed(which);
    let may = "this account may create "@;
    let may_not = "this account may not create "@;
    lemma_tells(may, resource, " in "@ + namespace);
    assert(may + resource + (" in "@ + namespace) =~= may + resource + " in "@ + namespace);
    lemma_tells(may + resource + " in "@, namespace, none);
    assert(may + resource + " in "@ + namespace + none =~= may + resource + " in "@ + namespace);
    lemma_tells(may_not, resource, " in "@ + namespace);
    assert(may_not + resource + (" in "@ + namespace) =~= may_not + resource + " in "@ + namespace);
    lemma_tells(may_not + resource + " in "@, namespace, none);
    assert(may_not + resource + " in "@ + namespace + none =~= may_not + resource + " in "@
        + namespace);
    lemma_tells("whether this account may create "@, resource, " is unknown"@);
    let ask = "Ask for rights to "@;
    let end = ", or install into a namespace you administer."@;
    lemma_tells(ask + what + " in "@, namespace, end);
    lemma_tells(ask, what, " in "@ + namespace + end);
    assert(ask + what + (" in "@ + namespace + end) =~= ask + what + " in "@ + namespace + end);
}

/// Storage classes are counted by the lines that name one, wherever a blank line
/// stands; a cluster that names none would stop an install, and one that does
/// not answer is not known.
pub proof fn a_cluster_without_a_storage_class_stops_an_install(
    said: Seq<char>,
    failed: Failed,
    before: Seq<Seq<char>>,
    line: Seq<char>,
    after: Seq<Seq<char>>,
)
    ensures
        of_storage(Ok(said)) is Stops <==> forall|i: int|
            0 <= i < said.len() ==> crate::text::is_white(#[trigger] said[i]),
        of_storage(Ok(said)) is Stops || of_storage(Ok(said)) is Fine,
        of_storage(Err(failed)) matches Found::Unknown { why, .. } && why == explained(failed),
        written(before + seq![line] + after) == written(before) + written(after) + (if forall|i: int|

            0 <= i < line.len() ==> crate::text::is_white(#[trigger] line[i]) {
            0nat
        } else {
            1nat
        }),
        written(Seq::empty()) == 0,
        of_storage(Ok(said)) matches Found::Fine(what) ==> what == decimal(
            written(split(said, "\n"@)),
        ) + " storage class(es) for the key's volume"@,
    decreases after.len(),
{
    lemma_blank(said);
    lemma_blank(line);
    let all = before + seq![line] + after;
    if after.len() == 0 {
        assert(all.drop_last() =~= before);
        assert(all.last() == line);
    } else {
        a_cluster_without_a_storage_class_stops_an_install(
            said,
            failed,
            before,
            line,
            after.drop_last(),
        );
        assert(all.drop_last() =~= before + seq![line] + after.drop_last());
        assert(all.last() == after.last());
    }
}

proof fn lemma_blank(s: Seq<char>)
    ensures
        trim(s).len() == 0 <==> forall|i: int|
            0 <= i < s.len() ==> crate::text::is_white(#[trigger] s[i]),
{
    crate::text::trimming_takes_the_white_space_around_and_nothing_else(s);
    let (from, to) = choose|from: int, to: int| #[trigger]
        crate::text::bare_part(s, from, to) && trim(s) == s.subrange(from, to);
    if from < to {
        assert(!crate::text::is_white(s[from]));
    } else {
        assert forall|i: int| 0 <= i < s.len() implies crate::text::is_white(#[trigger] s[i]) by {
            if i < from {
            } else {
                assert(to <= i);
            }
        }
    }
}

/// An image is asked about where it is: an image of the registry that can be
/// asked is its path there and its tag, an image without a tag would stop an
/// install, and any other is not known.
pub proof fn an_image_is_asked_about_where_it_is(
    image: Seq<char>,
    path: Seq<char>,
    tag: Seq<char>,
)
    requires
        !tag.contains(':'),
    ensures
        named_by("ghcr.io/"@ + path + ":"@ + tag) == Ok::<(Seq<char>, Seq<char>), Found>(
            (path, tag),
        ),
        match named_by(image) {
            Ok((path, tag)) => image == "ghcr.io/"@ + path + ":"@ + tag && !tag.contains(':'),
            Err(finding) => if image.contains(':') {
                finding is Unknown
            } else {
                finding is Stops
            },
        },
        !image.contains(':') ==> named_by(image) is Err,
{
    reveal_strlit(":");
    assert(":"@ =~= seq![':']);
    let host = "ghcr.io/"@;
    crate::text::a_cut_at_a_character_leaves_none(image, ':');
    crate::text::a_text_is_cut_where_it_was_put_together(host + path, ':', tag);
    crate::text::what_a_text_starts_with_is_taken_off(host + path, host, path);
    if let Some((repository, reference)) = rsplit_once(image, ":"@) {
        crate::text::what_a_text_starts_with_is_taken_off(repository, host, path);
        assert(image[repository.len() as int] == ':');
    }
}

/// The registry's token is the string that its answer gives as the token, and
/// without one the image is not known.
pub proof fn the_token_is_what_the_registry_issued(
    image: Seq<char>,
    answer: Answer,
    held: Holding,
    failed: Seq<char>,
)
    ensures
        json_read(answer.body) == Ok::<Holding, Seq<char>>(held) ==> match of_token(
            image,
            Ok(answer),
        ) {
            Ok(token) => crate::tree::member(held, "token"@) == Some(Holding::Text(token)),
            Err(finding) => finding is Unknown && !(crate::tree::member(
                held,
                "token"@,
            ) matches Some(Holding::Text(_))),
        },
        json_read(answer.body) is Err ==> (of_token(image, Ok(answer)) matches Err(finding)
            && finding is Unknown),
        of_token(image, Err(failed)) matches Err(finding) && finding is Unknown,
        of_token(image, Ok(answer)) matches Err(finding) ==> (finding matches Found::Unknown {
            what,
            ..
        } && what == image + " could not be asked about"@),
{
}

/// An image can be pulled exactly where the registry answers that it has it,
/// does not exist where the registry answers that it has not, and is otherwise
/// not known. What is found names the image.
pub proof fn an_image_can_be_pulled_where_the_registry_has_it(
    image: Seq<char>,
    answer: Answer,
    failed: Seq<char>,
)
    ensures
        of_manifest(image, Ok(answer)) is Fine <==> answer.status == 200,
        of_manifest(image, Ok(answer)) is Stops <==> answer.status == 404,
        answer.status != 200 && answer.status != 404 ==> of_manifest(image, Ok(answer)) is Unknown,
        of_manifest(image, Err(failed)) matches Found::Unknown { what, why } && what == image
            + " could not be reached from here"@ && why == failed,
        match of_manifest(image, Ok(answer)) {
            Found::Fine(what) => image.is_prefix_of(what),
            Found::Stops { what, .. } => image.is_prefix_of(what),
            Found::Unknown { what, .. } => image.is_prefix_of(what),
            Found::Worth { .. } => false,
        },
{
    match of_manifest(image, Ok(answer)) {
        Found::Fine(what) => {
            assert(what.take(image.len() as int) =~= image);
        },
        Found::Stops { what, .. } => {
            assert(what.take(image.len() as int) =~= image);
        },
        Found::Unknown { what, .. } => {
            assert(what.take(image.len() as int) =~= image);
        },
        Found::Worth { .. } => {},
    }
}

/// A platform that does not answer is the one thing found, and would stop an
/// install; one that answers is fine, and the date that it stated is the one that
/// the clock is held against; without a date the clock is not known.
pub proof fn a_platform_that_does_not_answer_stops_an_install(
    platform: Seq<char>,
    answer: Result<Answer, Seq<char>>,
)
    ensures
        ({
            let (findings, date) = of_platform(platform, answer);
            match answer {
                Err(failed) => findings.len() == 1 && date is None && (findings[0] matches Found::Stops {
                    what,
                    ..
                } && tells(what, platform) && tells(what, failed)),
                Ok(answer) => findings.len() > 0 && date == answer.date_s && (
                findings[0] matches Found::Fine(what) && tells(what, platform)) && (if date is Some {
                    findings.len() == 1
                } else {
                    findings.len() == 2 && findings[1] is Unknown
                }),
            }
        }),
{
    let at = "the platform at "@;
    lemma_tells(at, platform, " answers"@);
    if let Err(failed) = answer {
        let lost = " could not be reached: "@;
        let none = Seq::<char>::empty();
        lemma_tells(at, platform, lost + failed);
        assert(at + platform + (lost + failed) =~= at + platform + lost + failed);
        lemma_tells(at + platform + lost, failed, none);
        assert(at + platform + lost + failed + none =~= at + platform + lost + failed);
    }
}

/// A cluster that answers is reachable, and one that does not would stop an
/// install, with one fix where the program is missing and another where it ran.
pub proof fn a_missing_program_is_not_an_unreachable_cluster(
    said: Seq<char>,
    program: Seq<char>,
    failed: Seq<char>,
)
    ensures
        of_cluster_info(Ok(said)) matches Ok(finding) && finding is Fine,
        of_cluster_info(Err(Failed::Missing(program))) matches Err(finding)
            && finding matches Found::Stops { what: one, fix: install } && of_cluster_info(
            Err(Failed::Said(failed)),
        ) matches Err(other) && other matches Found::Stops { what: two, fix: point } && install
            != point && program.is_prefix_of(one) && failed.is_suffix_of(two),
{
    reveal_strlit(
        "Install kubectl. This drives your own, so what it is pointed at is what gets the deployment.",
    );
    reveal_strlit("Point KUBECONFIG at the cluster this deployment is for, or start one.");
    let install =
        "Install kubectl. This drives your own, so what it is pointed at is what gets the deployment."@;
    let point = "Point KUBECONFIG at the cluster this deployment is for, or start one."@;
    assert(install[0] == 'I' && point[0] == 'P');
    let one = program + " is not installed here"@;
    assert(one.take(program.len() as int) =~= program);
    let two = "no cluster is reachable: "@ + failed;
    assert(two.skip(two.len() - failed.len()) =~= failed);
}

} // verus!
