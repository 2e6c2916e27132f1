//! Pushing an image into a deployment's registry, blob by blob.
//!
//! Which request comes next, and what each answer means, is decided here; the
//! sending is the caller's. A blob that the registry holds for this plugin is
//! passed over, one that it holds for another plugin is mounted from there,
//! and only what it does not hold is sent. The manifest comes last.
use vstd::prelude::*;
use vstd::string::*;

use crate::catalogue::image::{optional, Image, Pushable};
use crate::catalogue::{host_label, is_name, mount_url, refusal, said, upload_address, upload_url};
use crate::number::{decimal, decimal_of};
use crate::order::{ascending, pairs, Names};
use crate::request::not_reached;
use crate::text::{same, texts};
use crate::tree::{holdings, json_read, list_or_empty, text_or_empty, Holding, Tree};

verus! {

// ── Where a blob may be mounted from ─────────────────────────────────────────

/// The plugins in a catalogue's versions but one, by name.
pub open spec fn others(versions: Seq<Holding>, name: Seq<char>) -> Set<Seq<char>>
    decreases versions.len(),
{
    if versions.len() == 0 {
        Set::empty()
    } else {
        let rest = others(versions.drop_last(), name);
        let other = text_or_empty(versions.last(), "name"@);
        if host_label(other) && other != name {
            rest.insert(other)
        } else {
            rest
        }
    }
}

/// The plugins in the catalogue but one, by name, in order.
pub fn other_plugins(catalogue: &Tree, name: &str) -> (out: Names)
    ensures
        out.in_order().to_set() == others(list_or_empty(catalogue@, "versions"@), name@),
        ascending(out.in_order()),
{
    let mut out = Names::new();
    let ghost all = list_or_empty(catalogue@, "versions"@);
    assert(out.in_order().to_set() =~= Set::<Seq<char>>::empty());
    if let Some(versions) = catalogue.list_at("versions") {
        let mut i: usize = 0;
        while i < versions.len()
            invariant
                i <= versions@.len(),
                all == holdings(versions@),
                ascending(out.in_order()),
                out.in_order().to_set() == others(all.take(i as int), name@),
            decreases versions@.len() - i,
        {
            assert(all.take(i + 1).drop_last() =~= all.take(i as int));
            assert(all.take(i + 1).last() == versions@[i as int]@);
            let other = versions[i].text_or_nothing("name");
            if is_name(other.as_str()) && !same(other.as_str(), name) {
                out.insert(other);
            }
            i += 1;
        }
        assert(all.take(all.len() as int) =~= all);
    }
    out
}

// ── The push ─────────────────────────────────────────────────────────────────

/// What is pushed, and where.
pub struct Plan {
    pub address: Seq<char>,
    pub name: Seq<char>,
    pub version: Seq<char>,
    pub image: Pushable,
    /// The plugins whose repositories a blob may be mounted from.
    pub others: Seq<Seq<char>>,
}

/// The plugin's repository.
pub open spec fn repository(plan: Plan) -> Seq<char> {
    plan.address + "/terminal/registry/v2/plugins/"@ + plan.name
}

/// How far a push has come.
pub enum Step {
    /// Whether the registry holds this blob is not known.
    Asking(int),
    /// It does not hold it here; these others are still to be tried.
    Mounting(int, int),
    /// It holds it nowhere it can be mounted from, and an upload is to start.
    Starting(int),
    /// An upload started, and goes on at this location.
    Reading(int, Seq<char>),
    /// The blob was read, and is so many bytes.
    Sending(int, Seq<char>, nat),
    /// The registry holds every blob, and the manifest is to be named.
    Naming,
    /// The manifest is named.
    Done,
}

/// What a push needs next.
pub enum Need {
    /// Whether there is anything at this address.
    Head(Seq<char>),
    /// An empty post to this address, which mounts a blob.
    Mount(Seq<char>),
    /// An empty post to this address, which starts an upload.
    Start(Seq<char>),
    /// This file's bytes.
    Read(Seq<char>),
    /// The bytes just read, put to this address.
    Send(Seq<char>),
    /// The manifest, put to this address as this type.
    Manifest(Seq<char>, Seq<char>, Seq<u8>),
    /// Nothing: the image is pushed, and this is its digest.
    Nothing(Seq<char>),
}

/// What a push needs next.
pub open spec fn need(plan: Plan, step: Step) -> Need {
    match step {
        Step::Asking(i) => Need::Head(repository(plan) + "/blobs/"@ + plan.image.blobs[i].0),
        Step::Mounting(i, k) => Need::Mount(
            repository(plan) + "/blobs/uploads/?mount="@ + plan.image.blobs[i].0
                + "&from=plugins/"@ + plan.others[k],
        ),
        Step::Starting(_) => Need::Start(repository(plan) + "/blobs/uploads/"@),
        Step::Reading(i, _) => Need::Read(plan.image.blobs[i].1),
        Step::Sending(i, location, _) => Need::Send(
            upload_address(plan.address, location, plan.image.blobs[i].0),
        ),
        Step::Naming => Need::Manifest(
            repository(plan) + "/manifests/"@ + plan.version,
            plan.image.media_type,
            plan.image.manifest,
        ),
        Step::Done => Need::Nothing(plan.image.digest),
    }
}

/// What came of what was asked for.
pub enum Came {
    /// The deployment could not be reached.
    Unanswered(Seq<char>),
    /// It answered.
    Answered { code: u16, status: Seq<char>, location: Option<Seq<char>>, body: Seq<char> },
    /// The file was read, and is so many bytes.
    Bytes(nat),
    /// The file could not be read.
    Unread(Seq<char>),
}

/// A status that says yes.
pub open spec fn success(code: u16) -> bool {
    200 <= code < 300
}

/// The step that looks at a blob, or what follows the last of them.
pub open spec fn from_blob(plan: Plan, i: int) -> Step {
    if i < plan.image.blobs.len() {
        Step::Asking(i)
    } else {
        Step::Naming
    }
}

/// The step that tries another plugin's repository, or what follows the last.
pub open spec fn from_other(plan: Plan, i: int, k: int) -> Step {
    if k < plan.others.len() {
        Step::Mounting(i, k)
    } else {
        Step::Starting(i)
    }
}

/// What a refusal says of what was refused.
pub open spec fn not_done(what: Seq<char>, status: Seq<char>, body: Seq<char>) -> Seq<char> {
    what + refusal(status, json_read(body), body)
}

/// The step after an answer, and what to say of it.
pub open spec fn after_answer(
    plan: Plan,
    step: Step,
    code: u16,
    status: Seq<char>,
    location: Option<Seq<char>>,
    body: Seq<char>,
) -> Result<(Step, Option<Seq<char>>), Seq<char>> {
    match step {
        Step::Asking(i) => if success(code) {
            Ok(
                (
                    from_blob(plan, i + 1),
                    Some("  "@ + plan.image.blobs[i].0 + ": already there"@),
                ),
            )
        } else {
            Ok((from_other(plan, i, 0), None))
        },
        Step::Mounting(i, k) => if code == 201 {
            Ok(
                (
                    from_blob(plan, i + 1),
                    Some("  "@ + plan.image.blobs[i].0 + ": mounted from "@ + plan.others[k]),
                ),
            )
        } else {
            Ok((from_other(plan, i, k + 1), None))
        },
        Step::Starting(i) => match location {
            Some(location) if success(code) => Ok((Step::Reading(i, location), None)),
            _ => Err(not_done("the registry did not start an upload: "@, status, body)),
        },
        Step::Sending(i, _, size) => if success(code) {
            Ok(
                (
                    from_blob(plan, i + 1),
                    Some(
                        "  "@ + plan.image.blobs[i].0 + ": sent, "@ + decimal(size) + " bytes"@,
                    ),
                ),
            )
        } else {
            Err(not_done(plan.image.blobs[i].0 + " was not taken: "@, status, body))
        },
        Step::Naming => if success(code) {
            Ok((Step::Done, None))
        } else {
            Err(not_done("the manifest was not taken: "@, status, body))
        },
        _ => Ok((step, None)),
    }
}

/// The step after what came, and what to say of it.
pub open spec fn after(plan: Plan, step: Step, came: Came) -> Result<
    (Step, Option<Seq<char>>),
    Seq<char>,
> {
    match (came, step) {
        (Came::Bytes(size), Step::Reading(i, location)) => Ok(
            (Step::Sending(i, location, size), None),
        ),
        (Came::Unread(failed), Step::Reading(..)) => Err(failed),
        (Came::Answered { code, status, location, body }, _) => after_answer(
            plan,
            step,
            code,
            status,
            location,
            body,
        ),
        (Came::Unanswered(failed), Step::Reading(..)) => Ok((step, None)),
        (Came::Unanswered(failed), Step::Done) => Ok((step, None)),
        (Came::Unanswered(failed), _) => Err(
            "could not reach "@ + plan.address + ": "@ + failed,
        ),
        _ => Ok((step, None)),
    }
}

/// The blobs that a push has done with.
pub open spec fn done_with(plan: Plan, step: Step) -> int {
    match step {
        Step::Asking(i) => i,
        Step::Mounting(i, _) => i,
        Step::Starting(i) => i,
        Step::Reading(i, _) => i,
        Step::Sending(i, _, _) => i,
        Step::Naming => plan.image.blobs.len() as int,
        Step::Done => plan.image.blobs.len() as int,
    }
}

/// A step is about one of the image's blobs, and one of the other plugins.
pub open spec fn in_bounds(plan: Plan, step: Step) -> bool {
    match step {
        Step::Mounting(i, k) => 0 <= i < plan.image.blobs.len() && 0 <= k < plan.others.len(),
        Step::Naming => true,
        Step::Done => true,
        _ => 0 <= done_with(plan, step) < plan.image.blobs.len(),
    }
}

/// What a registry's answer says of what this plugin's repository holds: a yes
/// to being asked for a blob says that it holds it, and so does a blob mounted
/// and a blob taken.
pub open spec fn says_it_holds(plan: Plan, step: Step, came: Came, digest: Seq<char>) -> bool {
    came matches Came::Answered { code, .. } && match step {
        Step::Asking(i) => success(code) && digest == plan.image.blobs[i].0,
        Step::Mounting(i, _) => code == 201 && digest == plan.image.blobs[i].0,
        Step::Sending(i, _, _) => success(code) && digest == plan.image.blobs[i].0,
        _ => false,
    }
}

/// Every blob that a push has done with is held.
pub open spec fn held_so_far(plan: Plan, step: Step, held: Set<Seq<char>>) -> bool {
    forall|j: int|
        0 <= j < done_with(plan, step) && j < plan.image.blobs.len() ==> held.contains(
            (#[trigger] plan.image.blobs[j]).0,
        )
}

/// A blob is done with only once the registry said it holds it. So of a
/// registry that tells the truth and drops nothing, every blob that was done
/// with is held, from one step to the next.
pub proof fn nothing_is_passed_over_unless_it_is_there(
    plan: Plan,
    step: Step,
    came: Came,
    held: Set<Seq<char>>,
    then: Set<Seq<char>>,
)
    requires
        in_bounds(plan, step),
        held_so_far(plan, step, held),
        held.subset_of(then),
        forall|digest: Seq<char>|
            #[trigger] says_it_holds(plan, step, came, digest) ==> then.contains(digest),
    ensures
        after(plan, step, came) matches Ok((next, _)) ==> in_bounds(plan, next) && held_so_far(
            plan,
            next,
            then,
        ),
{
    if let Ok((next, _)) = after(plan, step, came) {
        assert forall|j: int|
            0 <= j < done_with(plan, next) && j < plan.image.blobs.len() implies then.contains(
            (#[trigger] plan.image.blobs[j]).0,
        ) by {
            if j < done_with(plan, step) {
                assert(held.contains(plan.image.blobs[j].0));
            } else {
                assert(says_it_holds(plan, step, came, plan.image.blobs[j].0));
            }
        }
    }
}

/// A blob may be mounted from every other plugin in the catalogue whose name is
/// in form, and from no other: never from the plugin itself.
pub proof fn a_blob_is_mounted_from_other_plugins_only(
    versions: Seq<Holding>,
    name: Seq<char>,
    other: Seq<char>,
)
    ensures
        others(versions, name).contains(other) <==> other != name && host_label(other) && exists|
            i: int,
        |
            0 <= i < versions.len() && crate::tree::member(#[trigger] versions[i], "name"@) == Some(
                Holding::Text(other),
            ),
    decreases versions.len(),
{
    if versions.len() > 0 {
        let fewer = versions.drop_last();
        a_blob_is_mounted_from_other_plugins_only(fewer, name, other);
        let last = versions.len() - 1;
        assert(versions[last] == versions.last());
        let there = |list: Seq<Holding>|
            exists|i: int|
                0 <= i < list.len() && crate::tree::member(#[trigger] list[i], "name"@) == Some(
                    Holding::Text(other),
                );
        if there(versions) {
            let i = choose|i: int|
                0 <= i < versions.len() && crate::tree::member(#[trigger] versions[i], "name"@)
                    == Some(Holding::Text(other));
            if i < last {
                assert(fewer[i] == versions[i]);
                assert(there(fewer));
            }
        }
        if there(fewer) {
            let i = choose|i: int|
                0 <= i < fewer.len() && crate::tree::member(#[trigger] fewer[i], "name"@) == Some(
                    Holding::Text(other),
                );
            assert(versions[i] == fewer[i]);
        }
        if host_label(other) {
            assert(other.len() > 0);
        }
    }
}

/// The address of something in the plugin's own repository, behind the
/// dashboard.
pub open spec fn in_repository(plan: Plan, what: Seq<char>) -> Seq<char> {
    plan.address + "/terminal/registry/v2/plugins/"@ + plan.name + what
}

/// The step that follows a blob: the next blob is asked about, and the manifest
/// is named behind the last.
pub open spec fn follows(plan: Plan, i: int, next: Step) -> bool {
    if i + 1 < plan.image.blobs.len() {
        next == Step::Asking(i + 1)
    } else {
        next == Step::Naming
    }
}

/// Each blob is asked about by its digest, in the plugin's own repository. One
/// that is there is passed over; one that is not is mounted from the first other
/// plugin that has it, tried in order; and only one that none has is sent: an
/// upload is started, the blob's own file is read, and its bytes go where the
/// registry said, with the digest.
pub proof fn a_blob_is_sent_only_where_nobody_has_it(
    plan: Plan,
    i: int,
    k: int,
    code: u16,
    status: Seq<char>,
    location: Seq<char>,
    body: Seq<char>,
    size: nat,
)
    requires
        0 <= i < plan.image.blobs.len(),
        0 <= k < plan.others.len(),
    ensures
        ({
            let (digest, file) = plan.image.blobs[i];
            let yes = 200 <= code <= 299;
            let said = Came::Answered { code, status, location: None, body };
            let moved = Came::Answered { code, status, location: Some(location), body };
            let asked = after(plan, Step::Asking(i), said);
            let mounted = after(plan, Step::Mounting(i, k), said);
            let started = after(plan, Step::Starting(i), moved);
            let sent = after(plan, Step::Sending(i, location, size), said);
            &&& need(plan, Step::Asking(i)) == Need::Head(in_repository(plan, "/blobs/"@ + digest))
            &&& asked matches Ok((next, note)) && (if yes {
                follows(plan, i, next) && note == Some("  "@ + digest + ": already there"@)
            } else {
                next == Step::Mounting(i, 0) && note is None
            })
            &&& need(plan, Step::Mounting(i, k)) == Need::Mount(
                in_repository(
                    plan,
                    "/blobs/uploads/?mount="@ + digest + "&from=plugins/"@ + plan.others[k],
                ),
            )
            &&& mounted matches Ok((next, note)) && (if code == 201 {
                follows(plan, i, next) && note == Some(
                    "  "@ + digest + ": mounted from "@ + plan.others[k],
                )
            } else {
                note is None && next == if k + 1 < plan.others.len() {
                    Step::Mounting(i, k + 1)
                } else {
                    Step::Starting(i)
                }
            })
            &&& need(plan, Step::Starting(i)) == Need::Start(
                in_repository(plan, "/blobs/uploads/"@),
            )
            &&& started is Ok <==> yes
            &&& yes ==> started == Ok::<(Step, Option<Seq<char>>), Seq<char>>(
                (Step::Reading(i, location), None),
            )
            &&& after(plan, Step::Starting(i), said) is Err
            &&& need(plan, Step::Reading(i, location)) == Need::Read(file)
            &&& after(plan, Step::Reading(i, location), Came::Bytes(size)) == Ok::<
                (Step, Option<Seq<char>>),
                Seq<char>,
            >((Step::Sending(i, location, size), None))
            &&& need(plan, Step::Sending(i, location, size)) == Need::Send(
                upload_address(plan.address, location, digest),
            )
            &&& sent is Ok <==> yes
            &&& sent matches Ok((next, note)) ==> follows(plan, i, next) && note == Some(
                "  "@ + digest + ": sent, "@ + decimal(size) + " bytes"@,
            )
            &&& sent matches Err(why) ==> digest.is_prefix_of(why)
        }),
{
    let (digest, file) = plan.image.blobs[i];
    let said = Came::Answered { code, status, location: None, body };
    if let Err(why) = after(plan, Step::Sending(i, location, size), said) {
        assert(why.take(digest.len() as int) =~= digest);
    }
    assert(in_repository(plan, "/blobs/"@ + digest) =~= repository(plan) + "/blobs/"@ + digest);
    assert(in_repository(
        plan,
        "/blobs/uploads/?mount="@ + digest + "&from=plugins/"@ + plan.others[k],
    ) =~= repository(plan) + "/blobs/uploads/?mount="@ + digest + "&from=plugins/"@
        + plan.others[k]);
}

/// Where there is no other plugin, a blob that is not there is sent at once.
/// A push starts with the first blob, and with the manifest where there is
/// none.
pub proof fn a_push_goes_from_the_first_blob_to_the_manifest(
    plan: Plan,
    i: int,
    code: u16,
    status: Seq<char>,
    body: Seq<char>,
    why: Seq<char>,
)
    requires
        0 <= i < plan.image.blobs.len(),
    ensures
        ({
            let said = Came::Answered { code, status, location: None, body };
            let yes = 200 <= code <= 299;
            &&& follows(plan, -1, from_blob(plan, 0))
            &&& plan.others.len() == 0 && !yes ==> after(plan, Step::Asking(i), said) == Ok::<
                (Step, Option<Seq<char>>),
                Seq<char>,
            >((Step::Starting(i), None))
            &&& need(plan, Step::Naming) == Need::Manifest(
                in_repository(plan, "/manifests/"@ + plan.version),
                plan.image.media_type,
                plan.image.manifest,
            )
            &&& yes ==> after(plan, Step::Naming, said) == Ok::<
                (Step, Option<Seq<char>>),
                Seq<char>,
            >((Step::Done, None))
            &&& !yes ==> after(plan, Step::Naming, said) is Err
            &&& need(plan, Step::Done) == Need::Nothing(plan.image.digest)
            &&& after(plan, Step::Asking(i), Came::Unanswered(why)) == Err::<
                (Step, Option<Seq<char>>),
                Seq<char>,
            >("could not reach "@ + plan.address + ": "@ + why)
            &&& after(plan, Step::Naming, Came::Unanswered(why)) == Err::<
                (Step, Option<Seq<char>>),
                Seq<char>,
            >("could not reach "@ + plan.address + ": "@ + why)
        }),
{
    assert(in_repository(plan, "/manifests/"@ + plan.version) =~= repository(plan) + "/manifests/"@
        + plan.version);
}

/// A manifest is named only where the registry holds every blob it names.
pub proof fn a_manifest_comes_after_its_blobs(plan: Plan, step: Step, held: Set<Seq<char>>)
    requires
        held_so_far(plan, step, held),
        need(plan, step) is Manifest || need(plan, step) is Nothing,
    ensures
        forall|j: int|
            0 <= j < plan.image.blobs.len() ==> held.contains(
                (#[trigger] plan.image.blobs[j]).0,
            ),
{
}

/// How far a push has come, as it is kept.
#[derive(Debug)]
enum At {
    Asking(usize),
    Mounting(usize, usize),
    Starting(usize),
    Reading(usize, String),
    Sending(usize, String, u64),
    Naming,
    Done,
}

impl View for At {
    type V = Step;

    closed spec fn view(&self) -> Step {
        match self {
            At::Asking(i) => Step::Asking(*i as int),
            At::Mounting(i, k) => Step::Mounting(*i as int, *k as int),
            At::Starting(i) => Step::Starting(*i as int),
            At::Reading(i, location) => Step::Reading(*i as int, location@),
            At::Sending(i, location, size) => Step::Sending(*i as int, location@, *size as nat),
            At::Naming => Step::Naming,
            At::Done => Step::Done,
        }
    }
}

/// A push of an image into a deployment's registry.
#[derive(Debug)]
pub struct Push {
    address: String,
    name: String,
    version: String,
    image: Image,
    others: Vec<String>,
    at: At,
}

/// What a push asks for.
#[derive(Debug)]
pub enum Ask {
    /// Whether there is anything at this address.
    Head(String),
    /// An empty post to this address, which mounts a blob.
    Mount(String),
    /// An empty post to this address, which starts an upload.
    Start(String),
    /// The bytes of the file at this path.
    Read(String),
    /// The bytes just read, put to this address.
    Send(String),
    /// These bytes, put to this address as this type.
    Manifest(String, String, Vec<u8>),
    /// Nothing: the image is pushed, and this is its digest.
    Nothing(String),
}

impl View for Ask {
    type V = Need;

    open spec fn view(&self) -> Need {
        match self {
            Ask::Head(url) => Need::Head(url@),
            Ask::Mount(url) => Need::Mount(url@),
            Ask::Start(url) => Need::Start(url@),
            Ask::Read(path) => Need::Read(path@),
            Ask::Send(url) => Need::Send(url@),
            Ask::Manifest(url, media_type, bytes) => Need::Manifest(url@, media_type@, bytes@),
            Ask::Nothing(digest) => Need::Nothing(digest@),
        }
    }
}

/// What came of what a push asked for.
#[derive(Debug)]
pub enum Heard {
    /// The deployment could not be reached.
    Unanswered(String),
    /// It answered: with this status, also as it is written, with this
    /// location if it named one, and with this body.
    Answered { code: u16, status: String, location: Option<String>, body: String },
    /// The file was read, and is so many bytes.
    Bytes(u64),
    /// The file could not be read.
    Unread(String),
}

impl View for Heard {
    type V = Came;

    open spec fn view(&self) -> Came {
        match self {
            Heard::Unanswered(failed) => Came::Unanswered(failed@),
            Heard::Answered { code, status, location, body } => Came::Answered {
                code: *code,
                status: status@,
                location: optional(*location),
                body: body@,
            },
            Heard::Bytes(size) => Came::Bytes(*size as nat),
            Heard::Unread(failed) => Came::Unread(failed@),
        }
    }
}

/// Whether a status says yes.
pub fn succeeded(code: u16) -> (r: bool)
    ensures
        r == success(code),
{
    200 <= code && code < 300
}

/// What `told` came to: the next step and what to say, or why the push ended.
pub open spec fn told_of(r: Result<(Push, Option<String>), String>) -> Result<
    (Step, Option<Seq<char>>),
    Seq<char>,
> {
    match r {
        Ok((push, note)) => Ok((push.step(), optional(note))),
        Err(why) => Err(why@),
    }
}

fn refused(what: &str, status: &str, body: &str) -> (why: String)
    ensures
        why@ == not_done(what@, status@, body@),
{
    let mut why = what.to_owned();
    why.append(said(status, body).as_str());
    why
}

impl Push {
    /// What is pushed, and where.
    pub closed spec fn plan(&self) -> Plan {
        Plan {
            address: self.address@,
            name: self.name@,
            version: self.version@,
            image: self.image@,
            others: texts(self.others@),
        }
    }

    /// How far the push has come.
    pub closed spec fn step(&self) -> Step {
        self.at@
    }

    #[verifier::type_invariant]
    spec fn within(&self) -> bool {
        in_bounds(self.plan(), self.at@)
    }

    /// A push of a plugin's image, as a version of the plugin.
    pub fn begin(address: &str, name: &str, version: &str, image: Image, others: Vec<String>) -> (push:
        Push)
        ensures
            push.plan() == (Plan {
                address: address@,
                name: name@,
                version: version@,
                image: image@,
                others: texts(others@),
            }),
            push.step() == from_blob(push.plan(), 0),
            in_bounds(push.plan(), push.step()),
    {
        let at = if image.blobs.len() > 0 {
            At::Asking(0)
        } else {
            At::Naming
        };
        Push {
            address: address.to_owned(),
            name: name.to_owned(),
            version: version.to_owned(),
            image,
            others,
            at,
        }
    }

    fn under_repository(&self, what: &str) -> (url: String)
        ensures
            url@ == repository(self.plan()) + what@,
    {
        let mut url = self.address.clone();
        url.append("/terminal/registry/v2/plugins/");
        url.append(self.name.as_str());
        url.append(what);
        url
    }

    /// Whether the manifest is named.
    pub fn done(&self) -> (r: bool)
        ensures
            r == (self.step() is Done),
    {
        match &self.at {
            At::Done => true,
            _ => false,
        }
    }

    /// The digest of the image that is pushed.
    pub fn digest(&self) -> (digest: String)
        ensures
            digest@ == self.plan().image.digest,
    {
        self.image.digest.clone()
    }

    /// What the push needs next.
    pub fn ask(&self) -> (ask: Ask)
        ensures
            ask@ == need(self.plan(), self.step()),
            in_bounds(self.plan(), self.step()),
    {
        proof {
            use_type_invariant(self);
        }
        assert(self.plan().image.blobs == pairs(self.image.blobs@));
        match &self.at {
            At::Asking(i) => {
                let mut url = self.under_repository("/blobs/");
                url.append(self.image.blobs[*i].0.as_str());
                Ask::Head(url)
            },
            At::Mounting(i, k) => {
                let home = self.under_repository("");
                proof {
                    reveal_strlit("");
                }
                assert(home@ =~= repository(self.plan()));
                Ask::Mount(
                    mount_url(
                        home.as_str(),
                        self.image.blobs[*i].0.as_str(),
                        self.others[*k].as_str(),
                    ),
                )
            },
            At::Starting(_) => Ask::Start(self.under_repository("/blobs/uploads/")),
            At::Reading(i, _) => Ask::Read(self.image.blobs[*i].1.clone()),
            At::Sending(i, location, _) => Ask::Send(
                upload_url(
                    self.address.as_str(),
                    location.as_str(),
                    self.image.blobs[*i].0.as_str(),
                ),
            ),
            At::Naming => {
                let mut url = self.under_repository("/manifests/");
                url.append(self.version.as_str());
                Ask::Manifest(url, self.image.media_type.clone(), self.image.manifest_again())
            },
            At::Done => Ask::Nothing(self.image.digest.clone()),
        }
    }

    fn on(self, at: At, note: Option<String>) -> (r: Result<(Push, Option<String>), String>)
        requires
            in_bounds(self.plan(), at@),
        ensures
            told_of(r) == Ok::<(Step, Option<Seq<char>>), Seq<char>>((at@, optional(note))),
            r matches Ok((next, _)) && next.plan() == self.plan(),
    {
        Ok(
            (
                Push {
                    address: self.address,
                    name: self.name,
                    version: self.version,
                    image: self.image,
                    others: self.others,
                    at,
                },
                note,
            ),
        )
    }

    fn past(self, i: usize, note: String) -> (r: Result<(Push, Option<String>), String>)
        requires
            0 <= i < self.plan().image.blobs.len(),
        ensures
            told_of(r) == Ok::<(Step, Option<Seq<char>>), Seq<char>>(
                (from_blob(self.plan(), i + 1), Some(note@)),
            ),
            r matches Ok((next, _)) && next.plan() == self.plan(),
    {
        assert(self.plan().image.blobs == pairs(self.image.blobs@));
        let n: usize = self.image.blobs.len();
        let at = if i + 1 < n {
            At::Asking(i + 1)
        } else {
            At::Naming
        };
        self.on(at, Some(note))
    }

    fn elsewhere(self, i: usize, k: usize) -> (r: Result<(Push, Option<String>), String>)
        requires
            0 <= i < self.plan().image.blobs.len(),
        ensures
            told_of(r) == Ok::<(Step, Option<Seq<char>>), Seq<char>>(
                (from_other(self.plan(), i as int, k as int), None),
            ),
            r matches Ok((next, _)) && next.plan() == self.plan(),
    {
        let at = if k < self.others.len() {
            At::Mounting(i, k)
        } else {
            At::Starting(i)
        };
        self.on(at, None)
    }

    /// The push after an answer.
    fn answer(self, code: u16, status: &str, location: Option<String>, body: &str) -> (r: Result<
        (Push, Option<String>),
        String,
    >)
        ensures
            told_of(r) == after_answer(
                self.plan(),
                self.step(),
                code,
                status@,
                optional(location),
                body@,
            ),
            r matches Ok((next, _)) ==> next.plan() == self.plan(),
    {
        proof {
            use_type_invariant(&self);
        }
        assert(self.plan().image.blobs == pairs(self.image.blobs@));
        let yes = succeeded(code);
        match &self.at {
            At::Asking(i) => {
                let i: usize = *i;
                if !yes {
                    return self.elsewhere(i, 0);
                }
                let mut note = "  ".to_owned();
                note.append(self.image.blobs[i].0.as_str());
                note.append(": already there");
                self.past(i, note)
            },
            At::Mounting(i, k) => {
                let i: usize = *i;
                let k: usize = *k;
                let n: usize = self.others.len();
                if code != 201 {
                    return self.elsewhere(i, k + 1);
                }
                let mut note = "  ".to_owned();
                note.append(self.image.blobs[i].0.as_str());
                note.append(": mounted from ");
                note.append(self.others[k].as_str());
                self.past(i, note)
            },
            At::Starting(i) => {
                let i: usize = *i;
                match location {
                    Some(location) if yes => self.on(At::Reading(i, location), None),
                    _ => Err(refused("the registry did not start an upload: ", status, body)),
                }
            },
            At::Sending(i, _, size) => {
                let i: usize = *i;
                let size: u64 = *size;
                if !yes {
                    let mut what = self.image.blobs[i].0.clone();
                    what.append(" was not taken: ");
                    return Err(refused(what.as_str(), status, body));
                }
                let mut note = "  ".to_owned();
                note.append(self.image.blobs[i].0.as_str());
                note.append(": sent, ");
                note.append(decimal_of(size).as_str());
                note.append(" bytes");
                self.past(i, note)
            },
            At::Naming => {
                if !yes {
                    return Err(refused("the manifest was not taken: ", status, body));
                }
                self.on(At::Done, None)
            },
            _ => Ok((self, None)),
        }
    }

    /// The push after what came of what it asked for, and what to say of it,
    /// or why the push ends.
    pub fn told(self, heard: Heard) -> (r: Result<(Push, Option<String>), String>)
        ensures
            told_of(r) == after(self.plan(), self.step(), heard@),
            r matches Ok((next, _)) ==> next.plan() == self.plan(),
    {
        proof {
            use_type_invariant(&self);
        }
        match heard {
            Heard::Answered { code, status, location, body } => self.answer(
                code,
                status.as_str(),
                location,
                body.as_str(),
            ),
            Heard::Bytes(size) => match &self.at {
                At::Reading(i, location) => {
                    let at = At::Sending(*i, location.clone(), size);
                    self.on(at, None)
                },
                _ => Ok((self, None)),
            },
            Heard::Unread(failed) => match &self.at {
                At::Reading(..) => Err(failed),
                _ => Ok((self, None)),
            },
            Heard::Unanswered(failed) => match &self.at {
                At::Reading(..) => Ok((self, None)),
                At::Done => Ok((self, None)),
                _ => Err(not_reached(self.address.as_str(), failed.as_str())),
            },
        }
    }
}

} // verus!
