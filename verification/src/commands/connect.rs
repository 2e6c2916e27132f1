//! `meridian connect <address>`: signing in to a deployment's dashboard, and
//! keeping the session.
use vstd::prelude::*;
use vstd::string::*;
use vstd::utf8::encode_utf8;

use crate::arguments::{
    a_switch_or_a_word_that_is_typed_is_kept, parsed, Arguments, Given,
};
use crate::commands::{
    badly, ended_badly, ended_misused, ended_well, misused, said_of, well, End, Ended,
};
use crate::connect::{
    address, address_of, authorize_url, exchange, form_read, form_text, redirect_uri,
    sign_in_address, sign_out_url, the_sign_in_address_carries_the_challenge_and_the_state,
    token_request, what_redeems_a_code_reads_as_what_it_is, Issued, Outcome, Pkce, Returned,
};
use crate::number::decimal;
use crate::request::{not_reached, Reply, Request};
use crate::sessions::{Held, Session};
use crate::text::trim;

verus! {

/// How far a sign-in has come.
pub enum Stage {
    /// A port is to be listened on.
    Listen,
    /// The person signs in at this address; only this state comes back, and
    /// only this verifier redeems what comes with it.
    Wait { url: Seq<char>, back: Seq<char>, state: Seq<char>, verifier: Seq<char> },
    /// This code and this verifier are to become a session.
    Exchange { code: Seq<char>, verifier: Seq<char>, back: Seq<char> },
    /// This session was issued; whether it replaces one is to be seen.
    Earlier(Session),
    /// It replaces this one, which is to be ended at the deployment.
    EndEarlier(Session, Seq<char>),
    /// It is to be kept.
    Keep(Session),
    /// It could not be, and is to be ended at the deployment.
    Undo(Session, Seq<char>),
    /// It is over.
    End(Ended),
}

/// What a sign-in needs next.
pub enum Need {
    /// A port of this machine's own, listened on.
    Listen,
    /// What comes back with this state, while the person signs in here.
    Wait { url: Seq<char>, state: Seq<char> },
    /// What this form, posted to this address as this type, is answered with.
    Exchange { url: Seq<char>, content_type: Seq<char>, body: Seq<char> },
    /// The session that is held for this address.
    Read(Seq<char>),
    /// This session, ended at this address.
    SignOut { url: Seq<char>, session: Seq<char> },
    /// This session, kept.
    Write(Session),
    /// Nothing: this is how it ended.
    Nothing(Ended),
}

/// What a sign-in needs next, at the deployment with this address.
pub open spec fn need(address: Seq<char>, stage: Stage) -> Need {
    match stage {
        Stage::Listen => Need::Listen,
        Stage::Wait { url, state, .. } => Need::Wait { url, state },
        Stage::Exchange { code, verifier, back } => Need::Exchange {
            url: address + "/terminal/token"@,
            content_type: "application/x-www-form-urlencoded"@,
            body: form_text(
                seq![("code"@, code), ("code_verifier"@, verifier), ("redirect_uri"@, back)],
            ),
        },
        Stage::Earlier(_) => Need::Read(address),
        Stage::EndEarlier(_, session) => Need::SignOut {
            url: address + "/terminal/sign-out"@,
            session,
        },
        Stage::Keep(session) => Need::Write(session),
        Stage::Undo(session, _) => Need::SignOut {
            url: address + "/terminal/sign-out"@,
            session: session.session,
        },
        Stage::End(ended) => Need::Nothing(ended),
    }
}

/// What the deployment answered, to being asked for a session.
pub enum Answer {
    Unanswered(Seq<char>),
    Refused { status: Seq<char>, body: Seq<char> },
    Unreadable(Seq<char>),
    Issued { session: Seq<char>, subject: Seq<char>, expires_at: Seq<char> },
}

/// What came of what was needed.
pub enum Came {
    /// This port is listened on; with it a verifier, its challenge and a state.
    Listened { port: u16, verifier: Seq<char>, challenge: Seq<char>, state: Seq<char> },
    /// No port could be.
    NotListening(Seq<char>),
    Returned(Outcome),
    /// Nobody came back.
    Nobody(Seq<char>),
    Exchanged(Answer),
    /// There was nothing to ask the deployment with.
    NoClient(Seq<char>),
    Read(Option<Session>),
    SignedOut,
    Written,
    NotWritten(Seq<char>),
}

/// What is said of what went wrong.
pub open spec fn gone_wrong(why: Seq<char>) -> Stage {
    Stage::End(badly(1, "meridian connect: "@ + why))
}

/// Why there is no session.
pub open spec fn no_session(address: Seq<char>, answer: Answer) -> Seq<char> {
    match answer {
        Answer::Unanswered(why) => "could not reach "@ + address + ": "@ + why,
        Answer::Refused { status, body } => address + " did not issue a session ("@ + status
            + "): "@ + trim(body),
        Answer::Unreadable(why) => address
            + " answered with something that is not a session: "@ + why,
        Answer::Issued { .. } => Seq::empty(),
    }
}

/// What is printed once somebody is connected.
pub open spec fn connected(session: Session) -> Seq<char> {
    "Connected to "@ + session.address + " as "@ + session.subject
        + ". The session ends after 30 minutes unused, and at "@ + session.expires_at
        + " at the latest.\n"@
}

/// What comes next.
pub open spec fn after(address: Seq<char>, stage: Stage, came: Came) -> Stage {
    match (stage, came) {
        (Stage::Listen, Came::Listened { port, verifier, challenge, state }) => {
            let back = "http://127.0.0.1:"@ + decimal(port as nat) + "/callback"@;
            Stage::Wait {
                url: sign_in_address(address, back, challenge, state),
                back,
                state,
                verifier,
            }
        },
        (Stage::Listen, Came::NotListening(why)) => gone_wrong(why),
        (Stage::Wait { back, verifier, .. }, Came::Returned(returned)) => match returned {
            Outcome::Code(code) => Stage::Exchange { code, verifier, back },
            Outcome::Declined => gone_wrong(
                "not connected; the sign-in was declined or refused."@,
            ),
        },
        (Stage::Wait { .. }, Came::Nobody(why)) => gone_wrong(
            why + ". Run it again when you are ready."@,
        ),
        (Stage::Exchange { .. }, Came::Exchanged(answer)) => match answer {
            Answer::Issued { session, subject, expires_at } => Stage::Earlier(
                Session { address, session, subject, expires_at },
            ),
            _ => gone_wrong(no_session(address, answer)),
        },
        (Stage::Exchange { .. }, Came::NoClient(why)) => gone_wrong(why),
        (Stage::Earlier(session), Came::Read(found)) => match found {
            Some(earlier) => Stage::EndEarlier(session, earlier.session),
            None => Stage::Keep(session),
        },
        (Stage::EndEarlier(session, _), Came::SignedOut) => Stage::Keep(session),
        (Stage::Keep(session), Came::Written) => Stage::End(well(connected(session))),
        (Stage::Keep(session), Came::NotWritten(why)) => Stage::Undo(session, why),
        (Stage::Undo(_, why), Came::SignedOut) => gone_wrong(why),
        _ => stage,
    }
}

/// The session that was issued and is neither kept nor given up.
pub open spec fn in_hand(stage: Stage) -> Option<Session> {
    match stage {
        Stage::Earlier(session) => Some(session),
        Stage::EndEarlier(session, _) => Some(session),
        Stage::Keep(session) => Some(session),
        Stage::Undo(session, _) => Some(session),
        _ => None,
    }
}

/// No live session is left that nobody holds: a session that was issued stays
/// in hand until it was written, or, where it could not be, until it was ended
/// at the deployment.
pub proof fn no_session_is_left_that_nobody_holds(address: Seq<char>, stage: Stage, came: Came)
    requires
        in_hand(stage) is Some,
    ensures
        ({
            let session = in_hand(stage)->0;
            let next = after(address, stage, came);
            ||| in_hand(next) == Some(session)
            ||| need(address, stage) == Need::Write(session) && came is Written && next == Stage::End(
                well(connected(session)),
            )
            ||| need(address, stage) == (Need::SignOut {
                url: address + "/terminal/sign-out"@,
                session: session.session,
            }) && came is SignedOut && next is End
        }),
{
}

/// One session per deployment: a session that is replaced is ended at the
/// deployment before the new one is kept.
pub proof fn a_session_that_is_replaced_is_ended(
    address: Seq<char>,
    session: Session,
    earlier: Session,
)
    ensures
        ({
            let next = after(address, Stage::Earlier(session), Came::Read(Some(earlier)));
            need(address, next) == (Need::SignOut {
                url: address + "/terminal/sign-out"@,
                session: earlier.session,
            }) && after(address, next, Came::SignedOut) == Stage::Keep(session)
        }),
{
}

/// Only the verifier that stayed here redeems the code: what is exchanged is
/// the code that came back and the verifier whose challenge was sent.
pub proof fn the_verifier_stays_here(
    address: Seq<char>,
    port: u16,
    verifier: Seq<char>,
    challenge: Seq<char>,
    state: Seq<char>,
    code: Seq<char>,
)
    ensures
        ({
            let back = "http://127.0.0.1:"@ + decimal(port as nat) + "/callback"@;
            let waiting = after(
                address,
                Stage::Listen,
                Came::Listened { port, verifier, challenge, state },
            );
            &&& need(address, waiting) == (Need::Wait {
                url: sign_in_address(address, back, challenge, state),
                state,
            })
            &&& after(address, waiting, Came::Returned(Outcome::Code(code))) == (Stage::Exchange {
                code,
                verifier,
                back,
            })
        }),
{
}

/// A sign-in from its start to its end: the person is sent to the deployment's
/// page with this terminal's challenge and state, the code that comes back is
/// redeemed at the deployment with the verifier, and the session that it issues
/// is kept under the deployment's address. Declining, a refusal and nobody coming
/// back each end it badly, with nothing kept.
pub proof fn a_sign_in_keeps_the_session_that_was_issued(
    address: Seq<char>,
    port: u16,
    verifier: Seq<char>,
    challenge: Seq<char>,
    state: Seq<char>,
    code: Seq<char>,
    session: Session,
    why: Seq<char>,
    answer: Answer,
)
    requires
        session.address == address,
        !(answer is Issued),
    ensures
        ({
            let back = "http://127.0.0.1:"@ + decimal(port as nat) + "/callback"@;
            let waiting = after(
                address,
                Stage::Listen,
                Came::Listened { port, verifier, challenge, state },
            );
            let exchanging = after(address, waiting, Came::Returned(Outcome::Code(code)));
            let issued = after(
                address,
                exchanging,
                Came::Exchanged(
                    Answer::Issued {
                        session: session.session,
                        subject: session.subject,
                        expires_at: session.expires_at,
                    },
                ),
            );
            let keeping = after(address, issued, Came::Read(None));
            let page = address + "/terminal/authorize?"@;
            let ended_badly = |stage: Stage|
                need(address, stage) matches Need::Nothing(end) && end.code == 1 && end.out.len()
                    == 0 && !end.usage;
            &&& need(address, Stage::Listen) is Listen
            &&& need(address, waiting) matches Need::Wait { url, state: expected } && expected == state
                && page.is_prefix_of(url) && form_read(url.skip(page.len() as int)) == seq![
                Some(("redirect_uri"@, encode_utf8(back))),
                Some(("code_challenge"@, encode_utf8(challenge))),
                Some(("code_challenge_method"@, encode_utf8("S256"@))),
                Some(("state"@, encode_utf8(state))),
            ]
            &&& need(address, exchanging) matches Need::Exchange { url, content_type, body } && url
                == address + "/terminal/token"@ && content_type
                == "application/x-www-form-urlencoded"@ && form_read(body) == seq![
                Some(("code"@, encode_utf8(code))),
                Some(("code_verifier"@, encode_utf8(verifier))),
                Some(("redirect_uri"@, encode_utf8(back))),
            ]
            &&& need(address, issued) == Need::Read(address)
            &&& need(address, keeping) == Need::Write(session)
            &&& need(address, after(address, keeping, Came::Written)) matches Need::Nothing(end)
                && end.code == 0 && end.err.len() == 0
            &&& ended_badly(after(address, waiting, Came::Returned(Outcome::Declined)))
            &&& ended_badly(after(address, waiting, Came::Nobody(why)))
            &&& ended_badly(after(address, exchanging, Came::Exchanged(answer)))
            &&& ended_badly(after(address, exchanging, Came::NoClient(why)))
            &&& ended_badly(after(address, Stage::Listen, Came::NotListening(why)))
        }),
{
    let back = "http://127.0.0.1:"@ + decimal(port as nat) + "/callback"@;
    the_sign_in_address_carries_the_challenge_and_the_state(address, back, challenge, state);
    what_redeems_a_code_reads_as_what_it_is(code, verifier, back);
}

/// What is printed once somebody is connected names the deployment, the person
/// and when the session ends; and why there is no session names the deployment
/// and what it said.
pub proof fn what_is_said_of_a_session_names_it(session: Session, answer: Answer)
    ensures
        exists|a: Seq<char>, b: Seq<char>, c: Seq<char>, d: Seq<char>|
            connected(session) == #[trigger] (a + session.address + b + session.subject + c
                + session.expires_at + d),
        session.address.len() > 0 && !(answer is Issued) ==> match answer {
            Answer::Unanswered(why) => no_session(session.address, answer) == "could not reach "@
                + session.address + ": "@ + why,
            Answer::Refused { status, body } => no_session(session.address, answer)
                == session.address + " did not issue a session ("@ + status + "): "@ + trim(body),
            Answer::Unreadable(why) => no_session(session.address, answer) == session.address
                + " answered with something that is not a session: "@ + why,
            Answer::Issued { .. } => false,
        },
{
    assert(connected(session) == "Connected to "@ + session.address + " as "@ + session.subject
        + ". The session ends after 30 minutes unused, and at "@ + session.expires_at
        + " at the latest.\n"@);
}

#[derive(Debug)]
enum At {
    Listen,
    Wait { url: String, back: String, state: String, verifier: String },
    Exchange { code: String, verifier: String, back: String },
    Earlier(Held),
    EndEarlier(Held, String),
    Keep(Held),
    Undo(Held, String),
    End(End),
}

impl View for At {
    type V = Stage;

    closed spec fn view(&self) -> Stage {
        match self {
            At::Listen => Stage::Listen,
            At::Wait { url, back, state, verifier } => Stage::Wait {
                url: url@,
                back: back@,
                state: state@,
                verifier: verifier@,
            },
            At::Exchange { code, verifier, back } => Stage::Exchange {
                code: code@,
                verifier: verifier@,
                back: back@,
            },
            At::Earlier(held) => Stage::Earlier(held@),
            At::EndEarlier(held, session) => Stage::EndEarlier(held@, session@),
            At::Keep(held) => Stage::Keep(held@),
            At::Undo(held, why) => Stage::Undo(held@, why@),
            At::End(end) => Stage::End(end@),
        }
    }
}

/// A sign-in at a deployment.
#[derive(Debug)]
pub struct Connecting {
    address: String,
    at: At,
}

/// What a sign-in asks for.
#[derive(Debug)]
pub enum Ask {
    /// A port of this machine's own, listened on.
    Listen,
    /// What comes back with this state, while the person signs in at this
    /// address.
    Wait { url: String, state: String },
    /// What this request is answered with.
    Exchange(Request),
    /// The session that is held for this address.
    Read(String),
    /// This session, ended at this address.
    SignOut { url: String, session: String },
    /// This session, kept.
    Write(Held),
    /// Nothing: this is how it ended.
    Nothing(End),
}

impl View for Ask {
    type V = Need;

    open spec fn view(&self) -> Need {
        match self {
            Ask::Listen => Need::Listen,
            Ask::Wait { url, state } => Need::Wait { url: url@, state: state@ },
            Ask::Exchange(request) => Need::Exchange {
                url: request.url@,
                content_type: request.content_type@,
                body: request.body@,
            },
            Ask::Read(address) => Need::Read(address@),
            Ask::SignOut { url, session } => Need::SignOut { url: url@, session: session@ },
            Ask::Write(held) => Need::Write(held@),
            Ask::Nothing(end) => Need::Nothing(end@),
        }
    }
}

/// What came of what a sign-in asked for.
pub enum Heard {
    /// This port is listened on; with it a verifier and its challenge, and a
    /// state.
    Listened { port: u16, pkce: Pkce, state: String },
    /// No port could be, for this reason.
    NotListening(String),
    /// The browser came back.
    Returned(Returned),
    /// Nobody came back, as this says.
    Nobody(String),
    /// The deployment answered, and this was read from what it answered with.
    Exchanged(Reply, Result<Issued, String>),
    /// It could not be reached.
    NotExchanged(String),
    /// There was nothing to ask it with.
    NoClient(String),
    /// This is held for the address.
    Read(Option<Held>),
    /// The session was ended, or could not be.
    SignedOut,
    /// The session is kept.
    Written,
    /// The session could not be kept.
    NotWritten(String),
}

/// What the deployment's answer comes to.
pub open spec fn answer_of(reply: Reply, read: Result<Issued, String>) -> Answer {
    if !reply.success {
        Answer::Refused { status: reply.status@, body: reply.body@ }
    } else {
        match read {
            Ok(issued) => Answer::Issued {
                session: issued.session@,
                subject: issued.subject@,
                expires_at: issued.expires_at@,
            },
            Err(why) => Answer::Unreadable(why@),
        }
    }
}

/// Whatever was read from an answer, a deployment that refused issued nothing;
/// and where it did not refuse, what it issued is what was read.
pub proof fn a_refusal_is_no_session_whatever_it_holds(reply: Reply, read: Result<Issued, String>)
    ensures
        match answer_of(reply, read) {
            Answer::Issued { session, subject, expires_at } => reply.success && (read matches Ok(
                issued,
            ) && session == issued.session@ && subject == issued.subject@ && expires_at
                == issued.expires_at@),
            Answer::Refused { status, body } => !reply.success && status == reply.status@ && body
                == reply.body@,
            Answer::Unreadable(why) => reply.success && (read matches Err(failed) && why == failed@),
            Answer::Unanswered(_) => false,
        },
{
}

impl View for Heard {
    type V = Came;

    open spec fn view(&self) -> Came {
        match self {
            Heard::Listened { port, pkce, state } => Came::Listened {
                port: *port,
                verifier: pkce.verifier@,
                challenge: pkce.challenge@,
                state: state@,
            },
            Heard::NotListening(why) => Came::NotListening(why@),
            Heard::Returned(returned) => Came::Returned(returned@),
            Heard::Nobody(why) => Came::Nobody(why@),
            Heard::Exchanged(reply, read) => Came::Exchanged(answer_of(*reply, *read)),
            Heard::NotExchanged(why) => Came::Exchanged(Answer::Unanswered(why@)),
            Heard::NoClient(why) => Came::NoClient(why@),
            Heard::Read(found) => Came::Read(
                crate::commands::session::session_found(*found),
            ),
            Heard::SignedOut => Came::SignedOut,
            Heard::Written => Came::Written,
            Heard::NotWritten(why) => Came::NotWritten(why@),
        }
    }
}

/// What is said where no port can be listened on.
pub fn not_listening(failed: &str) -> (said: String)
    ensures
        said@ == "could not listen on this machine's loopback: "@ + failed@,
{
    said_of("could not listen on this machine's loopback: ", failed)
}

/// What to tell the person before the browser opens.
pub fn where_to_sign_in(address: &str, url: &str) -> (said: String)
    ensures
        said@ == "Sign in to "@ + address@
            + " in your browser. If it did not open, go to:\n\n  "@ + url@ + "\n\n"@,
{
    let mut said = "Sign in to ".to_owned();
    said.append(address);
    said.append(" in your browser. If it did not open, go to:\n\n  ");
    said.append(url);
    said.append("\n\n");
    said
}

fn wrong(why: &str) -> (at: At)
    ensures
        at@ == gone_wrong(why@),
{
    At::End(ended_badly(1, said_of("meridian connect: ", why)))
}

/// A copy of how a command ended.
fn end_again(end: &End) -> (out: End)
    ensures
        out@ == end@,
{
    End { code: end.code, out: end.out.clone(), err: end.err.clone(), usage: end.usage }
}

/// A copy of a session.
fn held_again(held: &Held) -> (out: Held)
    ensures
        out@ == held@,
{
    Held {
        address: held.address.clone(),
        session: held.session.clone(),
        subject: held.subject.clone(),
        expires_at: held.expires_at.clone(),
    }
}

fn connected_said(held: &Held) -> (out: String)
    ensures
        out@ == connected(held@),
{
    let mut out = "Connected to ".to_owned();
    out.append(held.address.as_str());
    out.append(" as ");
    out.append(held.subject.as_str());
    out.append(". The session ends after 30 minutes unused, and at ");
    out.append(held.expires_at.as_str());
    out.append(" at the latest.\n");
    out
}

/// Where a sign-in starts, or why it does not: what was typed, and the
/// directory that sessions are kept in.
pub open spec fn begun(given: Given, directory: Result<Seq<char>, Seq<char>>) -> Result<
    Seq<char>,
    Ended,
> {
    if given.words.len() != 1 {
        Err(misused("meridian: connect takes the dashboard's address"@))
    } else {
        match address_of(given.words[0]) {
            Err(why) => Err(badly(2, "meridian connect: "@ + why)),
            Ok(address) => match directory {
                Err(why) => Err(badly(1, "meridian connect: "@ + why)),
                Ok(_) => Ok(address),
            },
        }
    }
}

/// A sign-in is to the address that was typed, where it is one and there is
/// somewhere to keep a session; and otherwise nothing is begun.
pub proof fn a_sign_in_is_to_the_address_that_was_typed(
    given: Given,
    directory: Result<Seq<char>, Seq<char>>,
)
    ensures
        match begun(given, directory) {
            Ok(address) => given.words.len() == 1 && address_of(given.words[0]) == Ok::<
                Seq<char>,
                Seq<char>,
            >(address) && directory is Ok,
            Err(end) => end.out.len() == 0 && (given.words.len() != 1 && end.code == 2 && end.usage
                || given.words.len() == 1 && !end.usage && (address_of(given.words[0]) is Err
                && end.code == 2 || address_of(given.words[0]) is Ok && directory is Err && end.code
                == 1)),
        },
{
}

/// The address that is typed behind the command is the one that is signed in to.
pub proof fn the_address_that_is_typed_is_signed_in_to(typed: Seq<char>, directory: Seq<char>)
    requires
        !"-"@.is_prefix_of(typed),
    ensures
        parsed(seq!["connect"@, typed]) matches Ok(given) && match address_of(typed) {
            Ok(address) => begun(given, Ok(directory)) == Ok::<Seq<char>, Ended>(address),
            Err(_) => begun(given, Ok(directory)) is Err,
        },
{
    let start = seq!["connect"@];
    assert(start.skip(1) =~= Seq::<Seq<char>>::empty());
    assert(parsed(start) is Ok);
    a_switch_or_a_word_that_is_typed_is_kept(start, typed);
    assert(start + seq![typed] =~= seq!["connect"@, typed]);
    let given = parsed(seq!["connect"@, typed])->Ok_0;
    assert(given.words =~= seq![typed]);
}

impl Connecting {
    /// The deployment's address.
    pub closed spec fn address(&self) -> Seq<char> {
        self.address@
    }

    /// How far the sign-in has come.
    pub closed spec fn stage(&self) -> Stage {
        self.at@
    }

    /// A sign-in, by what was typed and where sessions are kept, or how the
    /// command ends without one.
    pub fn begin(arguments: &Arguments, directory: &Result<String, String>) -> (r: Result<
        Connecting,
        End,
    >)
        ensures
            match r {
                Ok(connecting) => begun(
                    arguments@,
                    crate::up::run::text_read(*directory),
                ) == Ok::<Seq<char>, Ended>(connecting.address()) && connecting.stage()
                    == Stage::Listen,
                Err(end) => begun(arguments@, crate::up::run::text_read(*directory)) == Err::<
                    Seq<char>,
                    Ended,
                >(end@),
            },
    {
        if arguments.words.len() != 1 {
            return Err(ended_misused("meridian: connect takes the dashboard's address"));
        }
        assert(arguments@.words[0] == arguments.words@[0]@);
        let address = match address(arguments.words[0].as_str()) {
            Ok(address) => address,
            Err(why) => {
                return Err(ended_badly(2, said_of("meridian connect: ", why.as_str())));
            },
        };
        if let Err(why) = directory {
            return Err(ended_badly(1, said_of("meridian connect: ", why.as_str())));
        }
        Ok(Connecting { address, at: At::Listen })
    }

    /// What the sign-in needs next.
    pub fn ask(&self) -> (ask: Ask)
        ensures
            ask@ == need(self.address(), self.stage()),
    {
        match &self.at {
            At::Listen => Ask::Listen,
            At::Wait { url, state, .. } => Ask::Wait { url: url.clone(), state: state.clone() },
            At::Exchange { code, verifier, back } => Ask::Exchange(
                token_request(
                    self.address.as_str(),
                    code.as_str(),
                    verifier.as_str(),
                    back.as_str(),
                ),
            ),
            At::Earlier(_) => Ask::Read(self.address.clone()),
            At::EndEarlier(_, session) => Ask::SignOut {
                url: sign_out_url(self.address.as_str()),
                session: session.clone(),
            },
            At::Keep(held) => Ask::Write(held_again(held)),
            At::Undo(held, _) => Ask::SignOut {
                url: sign_out_url(self.address.as_str()),
                session: held.session.clone(),
            },
            At::End(end) => Ask::Nothing(end_again(end)),
        }
    }

    /// What comes next, after what came of what was asked for. If that was not
    /// asked for, nothing changes.
    pub fn told(self, heard: Heard) -> (next: Connecting)
        ensures
            next.address() == self.address(),
            next.stage() == after(self.address(), self.stage(), heard@),
    {
        let address = self.address;
        let at = match (self.at, heard) {
            (At::Listen, Heard::Listened { port, pkce, state }) => {
                let back = redirect_uri(port);
                let url = authorize_url(
                    address.as_str(),
                    back.as_str(),
                    &pkce,
                    state.as_str(),
                );
                At::Wait { url, back, state, verifier: pkce.verifier }
            },
            (At::Listen, Heard::NotListening(why)) => wrong(why.as_str()),
            (At::Wait { back, verifier, .. }, Heard::Returned(returned)) => match returned {
                Returned::Code(code) => At::Exchange { code, verifier, back },
                Returned::Declined => wrong(
                    "not connected; the sign-in was declined or refused.",
                ),
            },
            (At::Wait { .. }, Heard::Nobody(why)) => wrong(
                said_of(why.as_str(), ". Run it again when you are ready.").as_str(),
            ),
            (At::Exchange { .. }, Heard::Exchanged(reply, read)) => {
                let ghost answer = answer_of(reply, read);
                match exchange(address.as_str(), &reply, read) {
                    Ok(issued) => At::Earlier(
                        Held {
                            address: address.clone(),
                            session: issued.session,
                            subject: issued.subject,
                            expires_at: issued.expires_at,
                        },
                    ),
                    Err(why) => {
                        assert(why@ == no_session(address@, answer));
                        wrong(why.as_str())
                    },
                }
            },
            (At::Exchange { .. }, Heard::NotExchanged(failed)) => wrong(
                not_reached(address.as_str(), failed.as_str()).as_str(),
            ),
            (At::Exchange { .. }, Heard::NoClient(why)) => wrong(why.as_str()),
            (At::Earlier(held), Heard::Read(found)) => match found {
                Some(earlier) => At::EndEarlier(held, earlier.session),
                None => At::Keep(held),
            },
            (At::EndEarlier(held, _), Heard::SignedOut) => At::Keep(held),
            (At::Keep(held), Heard::Written) => At::End(ended_well(connected_said(&held))),
            (At::Keep(held), Heard::NotWritten(why)) => At::Undo(held, why),
            (At::Undo(_, why), Heard::SignedOut) => wrong(why.as_str()),
            (at, _) => at,
        };
        Connecting { address, at }
    }
}

} // verus!
