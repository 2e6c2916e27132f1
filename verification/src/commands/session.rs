//! The session that a command acts through.
use vstd::prelude::*;
use vstd::string::*;

use crate::arguments::{
    a_flag_that_is_typed_last_counts, is_switch, parsed, the_last_value_given_is_the_flags_value,
    value_of, was_typed, Arguments, Given,
};
use crate::connect::{address, address_of};
use crate::sessions::{by_address, sessions, sorted, Held, Session};
use crate::text::{join, joined, texts};

verus! {

/// Which session a command acts through: the one of this deployment, or the
/// one there is.
#[derive(Debug, PartialEq, Eq)]
pub enum Wanted {
    /// The session of the deployment at this address.
    Of(String),
    /// The one session that is held.
    Only,
}

/// Which session a command acts through, by what was typed.
pub open spec fn wanted_by(given: Given) -> Result<Option<Seq<char>>, Seq<char>> {
    match value_of(given.flags, "--deployment"@, "--deployment"@) {
        Some(said) => match address_of(said) {
            Ok(address) => Ok(Some(address)),
            Err(why) => Err(why),
        },
        None => Ok(None),
    }
}

/// Which session a command acts through, by what was typed.
pub fn wanted(arguments: &Arguments) -> (r: Result<Wanted, String>)
    ensures
        match r {
            Ok(Wanted::Of(address)) => wanted_by(arguments@) == Ok::<Option<Seq<char>>, Seq<char>>(
                Some(address@),
            ),
            Ok(Wanted::Only) => wanted_by(arguments@) == Ok::<Option<Seq<char>>, Seq<char>>(None),
            Err(why) => wanted_by(arguments@) == Err::<Option<Seq<char>>, Seq<char>>(why@),
        },
{
    match arguments.value("--deployment", "--deployment") {
        Some(given) => match address(given) {
            Ok(address) => Ok(Wanted::Of(address)),
            Err(why) => Err(why),
        },
        None => Ok(Wanted::Only),
    }
}

/// The addresses of sessions, in order.
pub open spec fn addresses(list: Seq<Session>) -> Seq<Seq<char>> {
    Seq::new(list.len(), |i: int| list[i].address)
}

/// The session of a deployment, or that there is none.
pub open spec fn of_deployment(address: Seq<char>, found: Option<Session>) -> Result<
    Session,
    Seq<char>,
> {
    match found {
        Some(session) => Ok(session),
        None => Err(
            "not connected to "@ + address + ": `meridian connect "@ + address + "` first"@,
        ),
    }
}

/// The one session that is held, or why there is not one.
pub open spec fn only_one(every: Seq<Session>) -> Result<Session, Seq<char>> {
    if every.len() == 0 {
        Err("not connected to a deployment: `meridian connect <address>` first"@)
    } else if every.len() == 1 {
        Ok(every[0])
    } else {
        Err(
            "connected to more than one deployment; say which with --deployment: "@ + join(
                addresses(by_address(every)),
                ", "@,
            ),
        )
    }
}

/// The session to act through, or why there is none.
pub open spec fn session_read(r: Result<Held, String>) -> Result<Session, Seq<char>> {
    match r {
        Ok(held) => Ok(held@),
        Err(why) => Err(why@),
    }
}

/// A session, where there is one.
pub open spec fn session_found(found: Option<Held>) -> Option<Session> {
    match found {
        Some(held) => Some(held@),
        None => None,
    }
}

/// The session of the deployment that was named, given what is held for it.
pub fn held_for(address: &str, found: Option<Held>) -> (r: Result<Held, String>)
    ensures
        session_read(r) == of_deployment(address@, session_found(found)),
{
    match found {
        Some(held) => Ok(held),
        None => {
            let mut why = "not connected to ".to_owned();
            why.append(address);
            why.append(": `meridian connect ");
            why.append(address);
            why.append("` first");
            Err(why)
        },
    }
}

/// The addresses of sessions, in order.
pub fn addresses_of(every: &Vec<Held>) -> (out: Vec<String>)
    ensures
        texts(out@) == addresses(sessions(every@)),
{
    let ghost all = addresses(sessions(every@));
    let mut out: Vec<String> = Vec::new();
    let mut i: usize = 0;
    while i < every.len()
        invariant
            i <= every@.len(),
            all == addresses(sessions(every@)),
            texts(out@) =~= all.take(i as int),
        decreases every@.len() - i,
    {
        let ghost before = texts(out@);
        out.push(every[i].address.clone());
        assert(texts(out@) =~= before.push(all[i as int]));
        i += 1;
    }
    assert(all.take(i as int) =~= all);
    out
}

/// The one session that is held, given every session that was found.
pub fn held_session(every: Vec<Held>) -> (r: Result<Held, String>)
    ensures
        session_read(r) == only_one(sessions(every@)),
{
    let ghost found = sessions(every@);
    proof {
        crate::sessions::the_same_sessions_in_order(found);
    }
    let mut every = sorted(every);
    assert(sessions(every@).len() == every@.len());
    if every.len() == 0 {
        return Err(
            "not connected to a deployment: `meridian connect <address>` first".to_owned(),
        );
    }
    if every.len() == 1 {
        proof {
            reveal_with_fuel(by_address, 2);
            assert(found.drop_last() =~= Seq::<Session>::empty());
            assert(by_address(found) == Seq::<Session>::empty().push(found[0]));
            assert(sessions(every@)[0] == every@[0]@);
        }
        return Ok(every.remove(0));
    }
    let mut why =
        "connected to more than one deployment; say which with --deployment: ".to_owned();
    why.append(joined(&addresses_of(&every), ", ").as_str());
    Err(why)
}

/// A command acts through the session of the deployment that was typed last, if
/// that is an address, and through the one there is where none was typed.
pub proof fn a_command_acts_through_the_deployment_that_was_typed(given: Given)
    ensures
        match wanted_by(given) {
            Ok(Some(address)) => exists|said: Seq<char>| #[trigger]
                was_typed(given.flags, "--deployment"@, "--deployment"@, Some(said)) && address_of(
                    said,
                ) == Ok::<Seq<char>, Seq<char>>(address),
            Ok(None) => was_typed(given.flags, "--deployment"@, "--deployment"@, None),
            Err(why) => exists|said: Seq<char>| #[trigger]
                was_typed(given.flags, "--deployment"@, "--deployment"@, Some(said)) && address_of(
                    said,
                ) == Err::<Seq<char>, Seq<char>>(why),
        },
{
    the_last_value_given_is_the_flags_value(given.flags, "--deployment"@, "--deployment"@);
    if let Some(said) = value_of(given.flags, "--deployment"@, "--deployment"@) {
        assert(was_typed(given.flags, "--deployment"@, "--deployment"@, Some(said)));
    }
}

/// A session is acted through only where it is the one that is held: with none
/// there is nothing to act through, and with more than one the deployment has to
/// be said, and every one of them is named, in order.
pub proof fn one_session_is_acted_through_and_no_other(every: Seq<Session>, session: Session)
    ensures
        only_one(every) == Ok::<Session, Seq<char>>(session) <==> every == seq![session],
        every.len() != 1 ==> only_one(every) is Err,
        every.len() > 1 ==> only_one(every) == Err::<Session, Seq<char>>(
            "connected to more than one deployment; say which with --deployment: "@ + join(
                addresses(by_address(every)),
                ", "@,
            ),
        ),
        every.contains(session) ==> addresses(by_address(every)).contains(session.address),
        of_deployment(session.address, Some(session)) == Ok::<Session, Seq<char>>(session),
        of_deployment(session.address, None) == Err::<Session, Seq<char>>(
            "not connected to "@ + session.address + ": `meridian connect "@ + session.address
                + "` first"@,
        ),
{
    if every.len() == 1 {
        assert(every =~= seq![every[0]]);
    }
    if every.contains(session) {
        lemma_address_named(every, session);
    }
}

/// Every session's address is among those in order.
pub proof fn lemma_address_named(every: Seq<Session>, session: Session)
    requires
        every.contains(session),
    ensures
        addresses(by_address(every)).contains(session.address),
{
    broadcast use vstd::seq_lib::group_to_multiset_ensures;

    let ordered = by_address(every);
    crate::sessions::the_same_sessions_in_order(every);
    assert(every.to_multiset().count(session) > 0);
    assert(ordered.to_multiset().count(session) > 0);
    assert(ordered.contains(session));
    let i = choose|i: int| 0 <= i < ordered.len() && ordered[i] == session;
    assert(addresses(ordered)[i] == session.address);
}

/// A deployment that is typed last is the one acted through, whatever was typed
/// before it.
pub proof fn a_deployment_that_is_typed_last_counts(said: Seq<Seq<char>>, value: Seq<char>)
    requires
        said.len() > 0,
        parsed(said) is Ok,
        !is_switch(value),
    ensures
        parsed(said + seq!["--deployment"@, value]) matches Ok(given) && wanted_by(given) == match address_of(
            value,
        ) {
            Ok(address) => Ok::<Option<Seq<char>>, Seq<char>>(Some(address)),
            Err(why) => Err(why),
        },
{
    a_flag_that_is_typed_last_counts(said, "--deployment"@, value);
    let given = parsed(said + seq!["--deployment"@, value])->Ok_0;
    assert(value_of(given.flags, "--deployment"@, "--deployment"@) == Some(value));
}

} // verus!
