//! `meridian sign-out [<address>]`: ending a session, here and at the
//! deployment.
use vstd::prelude::*;
use vstd::string::*;

use crate::arguments::{
    a_switch_or_a_word_that_is_typed_is_kept, parsed, Arguments, Given,
};
use crate::commands::session::{addresses, addresses_of, session_found};
use crate::commands::{
    badly, ended_badly, ended_misused, ended_well, misused, said_of, well, End, Ended,
};
use crate::connect::{address, address_of, sign_out_url};
use crate::request::not_reached;
use crate::sessions::{by_address, sessions, sorted, Held, Session};
use crate::text::{concat, texts};
use crate::up::run::{outcome, text_read};

verus! {

/// How far a sign-out has come.
pub enum Stage {
    /// The session of the deployment at this address is to be found.
    Named(Seq<char>),
    /// The one session there is, is to be found.
    All,
    /// This session is to be ended at the deployment.
    SignOut(Session),
    /// It was, or why it could not be; and it is to be forgotten here.
    Forget(Session, Result<(), Seq<char>>),
    /// It is over.
    End(Ended),
}

/// What a sign-out needs next.
pub enum Need {
    /// The session that is held for this address.
    Read(Seq<char>),
    /// Every session that is held.
    All,
    /// This session, ended at this address.
    SignOut { url: Seq<char>, session: Seq<char> },
    /// The session held for this address, forgotten.
    Forget(Seq<char>),
    /// Nothing: this is how it ended.
    Nothing(Ended),
}

/// What a sign-out needs next.
pub open spec fn need(stage: Stage) -> Need {
    match stage {
        Stage::Named(address) => Need::Read(address),
        Stage::All => Need::All,
        Stage::SignOut(session) => Need::SignOut {
            url: session.address + "/terminal/sign-out"@,
            session: session.session,
        },
        Stage::Forget(session, _) => Need::Forget(session.address),
        Stage::End(ended) => Need::Nothing(ended),
    }
}

/// What came of what was needed.
pub enum Came {
    Read(Option<Session>),
    All(Seq<Session>),
    /// The deployment was told, or could not be reached, for this reason.
    SignedOut(Result<(), Seq<char>>),
    /// There was nothing to tell it with.
    NoClient(Seq<char>),
    /// It is forgotten here, or why it could not be.
    Forgotten(Result<(), Seq<char>>),
}

/// Where a sign-out starts, by what was typed and where sessions are kept.
pub open spec fn begun(given: Given, directory: Result<Seq<char>, Seq<char>>) -> Stage {
    match directory {
        Err(why) => Stage::End(badly(1, "meridian sign-out: "@ + why)),
        Ok(_) => if given.words.len() == 0 {
            Stage::All
        } else if given.words.len() == 1 {
            match address_of(given.words[0]) {
                Ok(address) => Stage::Named(address),
                Err(why) => Stage::End(badly(2, "meridian sign-out: "@ + why)),
            }
        } else {
            Stage::End(misused("meridian: sign-out takes at most one address"@))
        },
    }
}

/// What is said where there is more than one session to end.
pub open spec fn which_one(every: Seq<Session>) -> Seq<char> {
    let ordered = addresses(by_address(every));
    "meridian sign-out: connected to more than one; say which:"@ + concat(
        Seq::new(ordered.len(), |i: int| "\n  meridian sign-out "@ + ordered[i]),
    )
}

/// What is printed once a session is forgotten here: that the deployment was
/// told, or why it was not. What cannot be reached cannot be told, and the
/// session lapses there by itself.
pub open spec fn signed_out(session: Session, told: Result<(), Seq<char>>) -> Seq<char> {
    match told {
        Ok(_) => "Signed out of "@ + session.address + ".\n"@,
        Err(why) => "Forgotten here, but "@ + why
            + "; the session there lapses on its own within 30 minutes.\n"@,
    }
}

/// What comes next.
pub open spec fn after(stage: Stage, came: Came) -> Stage {
    match (stage, came) {
        (Stage::Named(address), Came::Read(found)) => match found {
            Some(session) => Stage::SignOut(session),
            None => Stage::End(well("Not connected to "@ + address + ".\n"@)),
        },
        (Stage::All, Came::All(every)) => if every.len() == 0 {
            Stage::End(well("Not connected to anything.\n"@))
        } else if every.len() == 1 {
            Stage::SignOut(every[0])
        } else {
            Stage::End(badly(2, which_one(every)))
        },
        (Stage::SignOut(session), Came::SignedOut(told)) => Stage::Forget(
            session,
            match told {
                Ok(_) => Ok(()),
                Err(failed) => Err("could not reach "@ + session.address + ": "@ + failed),
            },
        ),
        (Stage::SignOut(session), Came::NoClient(why)) => Stage::Forget(session, Err(why)),
        (Stage::Forget(session, told), Came::Forgotten(forgotten)) => match forgotten {
            Ok(_) => Stage::End(well(signed_out(session, told))),
            Err(why) => Stage::End(
                badly(1, "meridian sign-out: could not forget the session: "@ + why),
            ),
        },
        _ => stage,
    }
}

/// A session is forgotten here whether or not the deployment could be told:
/// once it is found, nothing but forgetting it ends the command.
pub proof fn a_session_is_forgotten_here_either_way(session: Session, stage: Stage, came: Came)
    requires
        stage == Stage::SignOut(session) || (stage matches Stage::Forget(held, _) && held
            == session),
    ensures
        ({
            let next = after(stage, came);
            ||| next == Stage::SignOut(session)
            ||| next matches Stage::Forget(held, _) && held == session && need(next)
                == Need::Forget(session.address)
            ||| next is End && need(stage) == Need::Forget(session.address) && came is Forgotten
        }),
{
}

/// Without an address the one session there is, is ended; with one, the session
/// of the deployment at that address is; and what is no address, or more than
/// one, ends nothing.
pub proof fn the_session_that_was_named_is_ended(given: Given, directory: Seq<char>, why: Seq<char>)
    ensures
        begun(given, Err(why)) matches Stage::End(end) && end.code == 1,
        match begun(given, Ok(directory)) {
            Stage::All => given.words.len() == 0,
            Stage::Named(address) => given.words.len() == 1 && address_of(given.words[0]) == Ok::<
                Seq<char>,
                Seq<char>,
            >(address),
            Stage::End(end) => end.code == 2 && end.out.len() == 0 && given.words.len() > 0 && (
            given.words.len() == 1 ==> address_of(given.words[0]) is Err) && (end.usage
                <==> given.words.len() > 1),
            _ => false,
        },
{
}

/// The address that is typed behind the command is the one whose session is
/// ended, and without one the only session is.
pub proof fn the_address_that_is_typed_is_signed_out_of(typed: Seq<char>, directory: Seq<char>)
    requires
        !"-"@.is_prefix_of(typed),
    ensures
        parsed(seq!["sign-out"@]) matches Ok(given) && begun(given, Ok(directory)) is All,
        parsed(seq!["sign-out"@, typed]) matches Ok(given) && match address_of(typed) {
            Ok(address) => begun(given, Ok(directory)) == Stage::Named(address),
            Err(_) => begun(given, Ok(directory)) is End,
        },
{
    let start = seq!["sign-out"@];
    assert(start.skip(1) =~= Seq::<Seq<char>>::empty());
    assert(parsed(start) is Ok);
    a_switch_or_a_word_that_is_typed_is_kept(start, typed);
    assert(start + seq![typed] =~= seq!["sign-out"@, typed]);
    let given = parsed(seq!["sign-out"@, typed])->Ok_0;
    assert(given.words =~= seq![typed]);
}

/// A sign-out from its start to its end: the session is found by its address,
/// or is the only one there is; it is ended at its own deployment, with itself,
/// and then forgotten here under its own address. Where there is none there is
/// nothing to do, and where there are more nothing is ended and every one of
/// them is named.
pub proof fn a_sign_out_ends_the_session_at_its_own_deployment(
    address: Seq<char>,
    session: Session,
    every: Seq<Session>,
    told: Result<(), Seq<char>>,
    why: Seq<char>,
)
    ensures
        ({
            let found = after(Stage::Named(address), Came::Read(Some(session)));
            let only = after(Stage::All, Came::All(seq![session]));
            let none = after(Stage::Named(address), Came::Read(None));
            let ended = after(found, Came::SignedOut(told));
            let done = after(ended, Came::Forgotten(Ok(())));
            &&& need(Stage::Named(address)) == Need::Read(address)
            &&& need(Stage::All) is All
            &&& only == found
            &&& need(found) == (Need::SignOut {
                url: session.address + "/terminal/sign-out"@,
                session: session.session,
            })
            &&& need(none) matches Need::Nothing(end) && end.code == 0
            &&& need(after(Stage::All, Came::All(Seq::empty()))) matches Need::Nothing(end)
                && end.code == 0
            &&& every.len() > 1 ==> (need(after(Stage::All, Came::All(every))) matches Need::Nothing(
                end,
            ) && end.code == 2 && end.err == which_one(every))
            &&& need(ended) == Need::Forget(session.address)
            &&& need(done) matches Need::Nothing(end) && end.code == 0 && end.err.len() == 0 && (
            told is Ok ==> end.out == "Signed out of "@ + session.address + ".\n"@) && (
            told matches Err(failed) ==> end.out == "Forgotten here, but "@ + ("could not reach "@
                + session.address + ": "@ + failed)
                + "; the session there lapses on its own within 30 minutes.\n"@)
            &&& need(after(ended, Came::Forgotten(Err(why)))) matches Need::Nothing(end) && end.code
                == 1
            &&& need(after(found, Came::NoClient(why))) == Need::Forget(session.address)
        }),
{
}

/// Where it has to be said which session to end, each of them is named on a line
/// of its own, as the command that ends it.
pub proof fn every_session_is_named_where_there_are_more(every: Seq<Session>, session: Session)
    requires
        every.contains(session),
    ensures
        exists|before: Seq<char>, rest: Seq<char>|
            which_one(every) == #[trigger] (before + ("\n  meridian sign-out "@ + session.address)
                + rest),
{
    crate::commands::session::lemma_address_named(every, session);
    let ordered = addresses(by_address(every));
    let start = "meridian sign-out: connected to more than one; say which:"@;
    let i = choose|i: int| 0 <= i < ordered.len() && ordered[i] == session.address;
    let lines = Seq::new(ordered.len(), |i: int| "\n  meridian sign-out "@ + ordered[i]);
    let first = lines.take(i);
    let last = lines.skip(i + 1);
    assert(lines =~= first + seq![lines[i]] + last);
    crate::text::texts_are_put_together_in_order(first, lines[i], last, Seq::empty());
    let before = start + concat(first);
    assert(which_one(every) =~= before + ("\n  meridian sign-out "@ + session.address) + concat(
        last,
    ));
}

#[derive(Debug)]
enum At {
    Named(String),
    All,
    SignOut(Held),
    Forget(Held, Result<(), String>),
    End(End),
}

impl View for At {
    type V = Stage;

    closed spec fn view(&self) -> Stage {
        match self {
            At::Named(address) => Stage::Named(address@),
            At::All => Stage::All,
            At::SignOut(held) => Stage::SignOut(held@),
            At::Forget(held, told) => Stage::Forget(held@, outcome(*told)),
            At::End(end) => Stage::End(end@),
        }
    }
}

/// A sign-out.
#[derive(Debug)]
pub struct SigningOut {
    at: At,
}

/// What a sign-out asks for.
#[derive(Debug)]
pub enum Ask {
    /// The session that is held for this address.
    Read(String),
    /// Every session that is held.
    All,
    /// This session, ended at this address.
    SignOut { url: String, session: String },
    /// The session held for this address, forgotten.
    Forget(String),
    /// Nothing: this is how it ended.
    Nothing(End),
}

impl View for Ask {
    type V = Need;

    open spec fn view(&self) -> Need {
        match self {
            Ask::Read(address) => Need::Read(address@),
            Ask::All => Need::All,
            Ask::SignOut { url, session } => Need::SignOut { url: url@, session: session@ },
            Ask::Forget(address) => Need::Forget(address@),
            Ask::Nothing(end) => Need::Nothing(end@),
        }
    }
}

/// What came of what a sign-out asked for.
#[derive(Debug)]
pub enum Heard {
    /// This is held for the address.
    Read(Option<Held>),
    /// These are held.
    All(Vec<Held>),
    /// The deployment was told, or could not be reached, for this reason.
    SignedOut(Result<(), String>),
    /// There was nothing to tell it with.
    NoClient(String),
    /// It is forgotten here, or why it could not be.
    Forgotten(Result<(), String>),
}

impl View for Heard {
    type V = Came;

    open spec fn view(&self) -> Came {
        match self {
            Heard::Read(found) => Came::Read(session_found(*found)),
            Heard::All(every) => Came::All(sessions(every@)),
            Heard::SignedOut(told) => Came::SignedOut(outcome(*told)),
            Heard::NoClient(why) => Came::NoClient(why@),
            Heard::Forgotten(forgotten) => Came::Forgotten(outcome(*forgotten)),
        }
    }
}

fn which_said(every: Vec<Held>) -> (out: String)
    ensures
        out@ == which_one(sessions(every@)),
{
    let ghost found = sessions(every@);
    let list = addresses_of(&sorted(every));
    let ghost ordered = texts(list@);
    let ghost lines = Seq::new(
        ordered.len(),
        |i: int| "\n  meridian sign-out "@ + ordered[i],
    );
    let mut more = String::new();
    let mut i: usize = 0;
    assert(lines.take(0) =~= Seq::<Seq<char>>::empty());
    while i < list.len()
        invariant
            i <= list@.len(),
            ordered == texts(list@),
            lines == Seq::new(
                ordered.len(),
                |i: int| "\n  meridian sign-out "@ + ordered[i],
            ),
            more@ == concat(lines.take(i as int)),
        decreases list@.len() - i,
    {
        assert(lines.take(i + 1).drop_last() =~= lines.take(i as int));
        assert(lines.take(i + 1).last() == "\n  meridian sign-out "@ + list@[i as int]@);
        let line = said_of("\n  meridian sign-out ", list[i].as_str());
        more.append(line.as_str());
        i += 1;
    }
    assert(lines.take(i as int) =~= lines);
    said_of("meridian sign-out: connected to more than one; say which:", more.as_str())
}

impl SigningOut {
    /// How far the sign-out has come.
    pub closed spec fn stage(&self) -> Stage {
        self.at@
    }

    /// A sign-out, by what was typed and where sessions are kept.
    pub fn begin(arguments: &Arguments, directory: &Result<String, String>) -> (signing: SigningOut)
        ensures
            signing.stage() == begun(arguments@, text_read(*directory)),
    {
        if let Err(why) = directory {
            return SigningOut {
                at: At::End(ended_badly(1, said_of("meridian sign-out: ", why.as_str()))),
            };
        }
        if arguments.words.len() == 0 {
            return SigningOut { at: At::All };
        }
        if arguments.words.len() > 1 {
            return SigningOut {
                at: At::End(ended_misused("meridian: sign-out takes at most one address")),
            };
        }
        assert(arguments@.words[0] == arguments.words@[0]@);
        match address(arguments.words[0].as_str()) {
            Ok(address) => SigningOut { at: At::Named(address) },
            Err(why) => SigningOut {
                at: At::End(ended_badly(2, said_of("meridian sign-out: ", why.as_str()))),
            },
        }
    }

    /// What the sign-out needs next.
    pub fn ask(&self) -> (ask: Ask)
        ensures
            ask@ == need(self.stage()),
    {
        match &self.at {
            At::Named(address) => Ask::Read(address.clone()),
            At::All => Ask::All,
            At::SignOut(held) => Ask::SignOut {
                url: sign_out_url(held.address.as_str()),
                session: held.session.clone(),
            },
            At::Forget(held, _) => Ask::Forget(held.address.clone()),
            At::End(end) => Ask::Nothing(
                End { code: end.code, out: end.out.clone(), err: end.err.clone(), usage: end.usage },
            ),
        }
    }

    /// What comes next, after what came of what was asked for. If that was not
    /// asked for, nothing changes.
    pub fn told(self, heard: Heard) -> (next: SigningOut)
        ensures
            next.stage() == after(self.stage(), heard@),
    {
        let at = match (self.at, heard) {
            (At::Named(address), Heard::Read(found)) => match found {
                Some(held) => At::SignOut(held),
                None => {
                    let mut out = said_of("Not connected to ", address.as_str());
                    out.append(".\n");
                    At::End(ended_well(out))
                },
            },
            (At::All, Heard::All(every)) => {
                let mut every = every;
                let ghost found = sessions(every@);
                if every.len() == 0 {
                    At::End(ended_well("Not connected to anything.\n".to_owned()))
                } else if every.len() == 1 {
                    assert(found[0] == every@[0]@);
                    At::SignOut(every.remove(0))
                } else {
                    At::End(ended_badly(2, which_said(every)))
                }
            },
            (At::SignOut(held), Heard::SignedOut(told)) => match told {
                Ok(_) => At::Forget(held, Ok(())),
                Err(failed) => {
                    let why = not_reached(held.address.as_str(), failed.as_str());
                    At::Forget(held, Err(why))
                },
            },
            (At::SignOut(held), Heard::NoClient(why)) => At::Forget(held, Err(why)),
            (At::Forget(held, told), Heard::Forgotten(forgotten)) => match forgotten {
                Ok(_) => match told {
                    Ok(_) => {
                        let mut out = said_of("Signed out of ", held.address.as_str());
                        out.append(".\n");
                        At::End(ended_well(out))
                    },
                    Err(why) => {
                        let mut out = said_of("Forgotten here, but ", why.as_str());
                        out.append("; the session there lapses on its own within 30 minutes.\n");
                        At::End(ended_well(out))
                    },
                },
                Err(why) => At::End(
                    ended_badly(
                        1,
                        said_of(
                            "meridian sign-out: could not forget the session: ",
                            why.as_str(),
                        ),
                    ),
                ),
            },
            (at, _) => at,
        };
        SigningOut { at }
    }
}

} // verus!
