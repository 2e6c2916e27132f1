//! The sessions file: one per deployment, readable only by the person whose it
//! is, holding the address and the session and nothing else.
//!
//! It is called the sessions file and never the configuration, because
//! `--config` would then mean two things in one tool. Where the files are, what
//! each is called and which of them are sessions is decided here; the reading
//! and the writing are the caller's.
use vstd::prelude::*;
use vstd::string::*;

use crate::order::{before, comes_before};
use crate::path::{joined_path, under};
use crate::text::{
    characters, cut_last, last_at, occurs_at, rsplit_once, same, trim_start_text,
    trimmed_start_text,
};

verus! {

/// A session, as it is held.
#[derive(Debug, Clone, PartialEq, Eq)]
pub struct Held {
    pub address: String,
    pub session: String,
    pub subject: String,
    pub expires_at: String,
}

/// The texts of a session.
pub struct Session {
    pub address: Seq<char>,
    pub session: Seq<char>,
    pub subject: Seq<char>,
    pub expires_at: Seq<char>,
}

impl View for Held {
    type V = Session;

    open spec fn view(&self) -> Session {
        Session {
            address: self.address@,
            session: self.session@,
            subject: self.subject@,
            expires_at: self.expires_at@,
        }
    }
}

/// The texts of sessions, in order.
pub open spec fn sessions(list: Seq<Held>) -> Seq<Session> {
    Seq::new(list.len(), |i: int| list[i]@)
}

// ── Where they are ───────────────────────────────────────────────────────────

/// What a variable holds, if it holds anything.
pub open spec fn something(held: Option<String>) -> Option<Seq<char>> {
    match held {
        Some(held) => if held@.len() > 0 {
            Some(held@)
        } else {
            None
        },
        None => None,
    }
}

/// Where the sessions files live, by what the environment says.
pub open spec fn kept_in(
    xdg_config_home: Option<Seq<char>>,
    appdata: Option<Seq<char>>,
    home: Option<Seq<char>>,
) -> Result<Seq<char>, Seq<char>> {
    let base = match (xdg_config_home, appdata, home) {
        (Some(base), _, _) => Some(base),
        (None, Some(base), _) => Some(base),
        (None, None, Some(home)) => Some(under(home, ".config"@)),
        (None, None, None) => None,
    };
    match base {
        Some(base) => Ok(under(under(base, "meridian"@), "sessions"@)),
        None => Err("there is no home directory to keep a session in"@),
    }
}

/// Sessions are kept under the first of the three places that there is: the one
/// for configuration, the one for an application's data, or the home directory's
/// own, and nowhere where there is none.
pub proof fn sessions_are_kept_in_the_first_place_there_is(
    xdg_config_home: Option<Seq<char>>,
    appdata: Option<Seq<char>>,
    home: Option<Seq<char>>,
)
    ensures
        match kept_in(xdg_config_home, appdata, home) {
            Ok(kept) => exists|base: Seq<char>|
                {
                    &&& kept == under(#[trigger] under(base, "meridian"@), "sessions"@)
                    &&& xdg_config_home is Some ==> base == xdg_config_home->0
                    &&& xdg_config_home is None && appdata is Some ==> base == appdata->0
                    &&& xdg_config_home is None && appdata is None ==> home is Some && base
                        == under(home->0, ".config"@)
                },
            Err(_) => xdg_config_home is None && appdata is None && home is None,
        },
{
    let base = match (xdg_config_home, appdata, home) {
        (Some(base), _, _) => base,
        (None, Some(base), _) => base,
        (None, None, Some(home)) => under(home, ".config"@),
        (None, None, None) => Seq::empty(),
    };
    let within = under(base, "meridian"@);
}

fn holds_something(held: &Option<String>) -> (r: Option<&String>)
    ensures
        match r {
            Some(text) => something(*held) == Some(text@),
            None => something(*held) is None,
        },
{
    match held {
        Some(held) => {
            if held.as_str().unicode_len() > 0 {
                Some(held)
            } else {
                None
            }
        },
        None => None,
    }
}

/// Where the sessions files live: `$XDG_CONFIG_HOME/meridian/sessions`, or
/// `%APPDATA%\meridian\sessions`, or `~/.config/meridian/sessions`, by what
/// the three variables hold.
pub fn directory(
    xdg_config_home: &Option<String>,
    appdata: &Option<String>,
    home: &Option<String>,
) -> (r: Result<String, String>)
    ensures
        match r {
            Ok(path) => kept_in(
                something(*xdg_config_home),
                something(*appdata),
                something(*home),
            ) == Ok::<Seq<char>, Seq<char>>(path@),
            Err(why) => kept_in(
                something(*xdg_config_home),
                something(*appdata),
                something(*home),
            ) == Err::<Seq<char>, Seq<char>>(why@),
        },
{
    let base = match holds_something(xdg_config_home) {
        Some(base) => base.clone(),
        None => match holds_something(appdata) {
            Some(base) => base.clone(),
            None => match holds_something(home) {
                Some(home) => joined_path(home.as_str(), ".config"),
                None => {
                    return Err("there is no home directory to keep a session in".to_owned());
                },
            },
        },
    };
    let within = joined_path(base.as_str(), "meridian");
    Ok(joined_path(within.as_str(), "sessions"))
}

// ── What they are called ─────────────────────────────────────────────────────

/// A character that a file's name keeps as it is.
pub open spec fn plain(c: char) -> bool {
    'a' <= c <= 'z' || 'A' <= c <= 'Z' || '0' <= c <= '9' || c == '.' || c == '-'
}

/// An address's host and port, with anything else as underscores.
pub open spec fn flattened(bare: Seq<char>) -> Seq<char> {
    Seq::new(
        bare.len(),
        |i: int|
            if plain(bare[i]) {
                bare[i]
            } else {
                '_'
            },
    )
}

/// A deployment's address as a file name.
pub open spec fn named(address: Seq<char>) -> Seq<char> {
    flattened(trim_start_text(trim_start_text(address, "https://"@), "http://"@)) + ".json"@
}

/// A deployment's address as a file name: its host and port, and nothing a
/// file system could read as a path.
pub fn file_name(address: &str) -> (name: String)
    ensures
        name@ == named(address@),
{
    proof {
        reveal_strlit("https://");
        reveal_strlit("http://");
    }
    let bare = trimmed_start_text(trimmed_start_text(address, "https://").as_str(), "http://");
    let whole = characters(bare.as_str());
    let mut name = String::new();
    let mut i: usize = 0;
    while i < whole.len()
        invariant
            i <= whole@.len(),
            name@ =~= flattened(whole@).take(i as int),
        decreases whole@.len() - i,
    {
        let c: char = whole[i];
        if ('a' <= c && c <= 'z') || ('A' <= c && c <= 'Z') || ('0' <= c && c <= '9') || c == '.'
            || c == '-' {
            name.push(c);
        } else {
            name.push('_');
        }
        i += 1;
    }
    assert(flattened(whole@).take(whole@.len() as int) =~= flattened(whole@));
    name.append(".json");
    name
}

/// The name that a session is written under before it is in place.
pub fn partial_name(address: &str) -> (name: String)
    ensures
        name@ == "."@ + named(address@) + ".partial"@,
{
    let mut name = ".".to_owned();
    name.append(file_name(address).as_str());
    name.append(".partial");
    name
}

/// A file that is a session, by its name: something, and then `.json`.
pub open spec fn is_session_file(name: Seq<char>) -> bool {
    rsplit_once(name, "."@) matches Some((stem, extension)) && stem.len() > 0 && extension
        == "json"@
}

/// Whether a file is a session, by its name.
pub fn keeps_a_session(name: &str) -> (r: bool)
    ensures
        r == is_session_file(name@),
{
    match cut_last(name, ".") {
        Some((stem, extension)) => stem.as_str().unicode_len() > 0 && same(
            extension.as_str(),
            "json",
        ),
        None => false,
    }
}

/// An address cannot name a file outside the directory: what it is called
/// holds letters, digits, dots, hyphens and underscores and nothing else, and
/// ends in `.json`.
pub proof fn an_address_cannot_name_a_file_outside_the_directory(address: Seq<char>)
    ensures
        forall|i: int|
            0 <= i < named(address).len() ==> plain(#[trigger] named(address)[i]) || named(
                address,
            )[i] == '_',
        !named(address).contains('/'),
        !named(address).contains('\\'),
        ".json"@.is_suffix_of(named(address)),
{
    reveal_strlit(".json");
    let name = named(address);
    let stem = flattened(trim_start_text(trim_start_text(address, "https://"@), "http://"@));
    assert forall|i: int| 0 <= i < name.len() implies plain(#[trigger] name[i]) || name[i]
        == '_' by {
        if i < stem.len() {
            assert(name[i] == stem[i]);
        } else {
            assert(name[i] == ".json"@[i - stem.len()]);
        }
    }
    assert(name.subrange(stem.len() as int, name.len() as int) =~= ".json"@);
}

proof fn lemma_extension(stem: Seq<char>, extension: Seq<char>)
    requires
        !extension.contains('.'),
    ensures
        rsplit_once(stem + seq!['.'] + extension, seq!['.']) == Some((stem, extension)),
{
    let whole = stem + seq!['.'] + extension;
    let at = stem.len() as int;
    let dot = seq!['.'];
    assert(whole.subrange(at, at + 1) =~= dot);
    assert forall|j: int| at < j implies !#[trigger] occurs_at(whole, dot, j) by {
        if occurs_at(whole, dot, j) {
            assert(whole.subrange(j, j + 1)[0] == '.');
            assert(whole[j] == extension[j - at - 1]);
        }
    }
    assert(last_at(whole, dot, at));
    let k = choose|k: int| last_at(whole, dot, k);
    assert(last_at(whole, dot, k));
    assert(occurs_at(whole, dot, at) && occurs_at(whole, dot, k));
    assert(k == at);
    assert(whole.take(at) =~= stem);
    assert(whole.skip(at + 1) =~= extension);
}

/// What is written for an address is found again among the sessions, unless
/// the address names nothing; and what is not in place yet never is.
pub proof fn what_is_kept_is_found_again(address: Seq<char>)
    ensures
        is_session_file(named(address)) == (trim_start_text(
            trim_start_text(address, "https://"@),
            "http://"@,
        ).len() > 0),
        !is_session_file("."@ + named(address) + ".partial"@),
{
    reveal_strlit(".json");
    reveal_strlit("json");
    reveal_strlit(".");
    reveal_strlit(".partial");
    reveal_strlit("partial");
    let stem = flattened(trim_start_text(trim_start_text(address, "https://"@), "http://"@));
    assert(named(address) =~= stem + seq!['.'] + "json"@);
    assert("."@ =~= seq!['.']);
    lemma_extension(stem, "json"@);
    let whole = "."@ + named(address) + ".partial"@;
    assert(whole =~= ("."@ + named(address)) + seq!['.'] + "partial"@);
    lemma_extension("."@ + named(address), "partial"@);
    assert("partial"@[0] != "json"@[0]);
}

/// A host of letters, digits, dots and hyphens, with a port if it names one.
pub open spec fn plain_host(rest: Seq<char>) -> bool {
    forall|i: int| 0 <= i < rest.len() ==> plain(#[trigger] rest[i]) || rest[i] == ':'
}

proof fn lemma_bare(scheme: Seq<char>, rest: Seq<char>)
    requires
        scheme == "https://"@ || scheme == "http://"@,
        plain_host(rest),
    ensures
        named(scheme + rest) == flattened(rest) + ".json"@,
{
    reveal_strlit("https://");
    reveal_strlit("http://");
    let secure = "https://"@;
    let open = "http://"@;
    assert forall|pat: Seq<char>| pat == secure || pat == open implies !#[trigger] pat.is_prefix_of(
        rest,
    ) by {
        if pat.is_prefix_of(rest) {
            let slash = pat.len() - 1;
            assert(rest[slash] == pat[slash]);
        }
    }
    let whole = scheme + rest;
    assert(whole.skip(scheme.len() as int) =~= rest);
    assert(scheme.is_prefix_of(whole)) by {
        assert(whole.take(scheme.len() as int) =~= scheme);
    }
    assert(trim_start_text(rest, secure) == rest);
    assert(trim_start_text(rest, open) == rest);
    if scheme == open {
        assert(!secure.is_prefix_of(whole)) by {
            if secure.is_prefix_of(whole) {
                assert(whole[4] == secure[4]);
                assert(whole[4] == open[4]);
            }
        }
        assert(trim_start_text(whole, secure) == whole);
        assert(trim_start_text(whole, open) == trim_start_text(rest, open));
    } else {
        assert(trim_start_text(whole, secure) == trim_start_text(rest, secure));
    }
}

/// A session is kept per deployment: two addresses of one scheme, with hosts of
/// letters, digits, dots and hyphens, are kept in one file only if they are the
/// same.
pub proof fn a_session_is_kept_per_deployment(
    scheme: Seq<char>,
    one: Seq<char>,
    other: Seq<char>,
)
    requires
        scheme == "https://"@ || scheme == "http://"@,
        plain_host(one),
        plain_host(other),
    ensures
        named(scheme + one) == named(scheme + other) <==> one == other,
{
    lemma_bare(scheme, one);
    lemma_bare(scheme, other);
    if named(scheme + one) == named(scheme + other) {
        let name = flattened(one) + ".json"@;
        let same = flattened(other) + ".json"@;
        assert(name.len() == same.len());
        assert forall|i: int| 0 <= i < one.len() implies one[i] == other[i] by {
            assert(name[i] == flattened(one)[i] && same[i] == flattened(other)[i]);
        }
        assert(one =~= other);
    }
}

/// A session's file is called by the deployment's host and port, character for
/// character: a letter, a digit, a dot and a hyphen as they are, and anything
/// else as an underscore.
pub proof fn a_file_is_called_by_the_host_and_port(scheme: Seq<char>, rest: Seq<char>, i: int)
    requires
        scheme == "https://"@ || scheme == "http://"@,
        plain_host(rest) || rest.len() > 0 && !rest.contains('/'),
        0 <= i < rest.len(),
    ensures
        ({
            let c = rest[i];
            let kept = 'a' <= c <= 'z' || 'A' <= c <= 'Z' || '0' <= c <= '9' || c == '.' || c == '-';
            &&& named(scheme + rest).len() == rest.len() + 5
            &&& kept ==> named(scheme + rest)[i] == c
            &&& !kept ==> named(scheme + rest)[i] == '_'
        }),
{
    reveal_strlit("https://");
    reveal_strlit("http://");
    reveal_strlit(".json");
    let secure = "https://"@;
    let open = "http://"@;
    lemma_no_scheme(rest, secure);
    lemma_no_scheme(rest, open);
    let whole = scheme + rest;
    crate::text::a_text_is_taken_from_the_start_as_often_as_it_stands_there(rest, secure);
    crate::text::a_text_is_taken_from_the_start_as_often_as_it_stands_there(rest, open);
    if scheme == open {
        assert(!secure.is_prefix_of(whole)) by {
            if secure.is_prefix_of(whole) {
                assert(whole.take(8)[4] == secure[4]);
                assert(whole[4] == open[4]);
            }
        }
        crate::text::a_text_is_taken_from_the_start_as_often_as_it_stands_there(whole, secure);
    }
    assert(named(whole) == flattened(rest) + ".json"@);
    assert(named(whole)[i] == flattened(rest)[i]);
}

proof fn lemma_no_scheme(rest: Seq<char>, scheme: Seq<char>)
    requires
        plain_host(rest) || !rest.contains('/'),
        scheme == "https://"@ || scheme == "http://"@,
    ensures
        !scheme.is_prefix_of(rest),
{
    reveal_strlit("https://");
    reveal_strlit("http://");
    if scheme.is_prefix_of(rest) {
        let n = scheme.len() as int;
        assert(rest.take(n)[n - 1] == '/');
        assert(rest[n - 1] == '/');
        assert(rest.contains('/'));
    }
}

/// A variable that holds nothing is as good as none.
pub proof fn an_empty_variable_is_as_good_as_none(held: Option<String>)
    ensures
        something(held) == match held {
            Some(text) => if text@.len() == 0 {
                None::<Seq<char>>
            } else {
                Some(text@)
            },
            None => None,
        },
{
}

// ── In which order ───────────────────────────────────────────────────────────

/// Where a session goes among sessions that are in order: after those whose
/// address is the same or comes before.
pub open spec fn placed(list: Seq<Session>, session: Session) -> Seq<Session>
    decreases list.len(),
{
    if list.len() > 0 && before(session.address, list.last().address) {
        placed(list.drop_last(), session).push(list.last())
    } else {
        list.push(session)
    }
}

/// Sessions in the order of their addresses.
pub open spec fn by_address(list: Seq<Session>) -> Seq<Session>
    decreases list.len(),
{
    if list.len() == 0 {
        Seq::empty()
    } else {
        placed(by_address(list.drop_last()), list.last())
    }
}

/// No session comes before one that it follows.
pub open spec fn in_order(list: Seq<Session>) -> bool {
    forall|i: int, j: int|
        0 <= i < j < list.len() ==> !before(
            (#[trigger] list[j]).address,
            (#[trigger] list[i]).address,
        )
}

proof fn lemma_placed(list: Seq<Session>, session: Session)
    requires
        in_order(list),
    ensures
        in_order(placed(list, session)),
        placed(list, session).to_multiset() == list.to_multiset().insert(session),
        placed(list, session).len() == list.len() + 1,
    decreases list.len(),
{
    broadcast use vstd::seq_lib::group_to_multiset_ensures;

    if list.len() > 0 && before(session.address, list.last().address) {
        let fewer = list.drop_last();
        lemma_placed(fewer, session);
        let more = placed(fewer, session);
        let whole = more.push(list.last());
        assert(list =~= fewer.push(list.last()));
        assert(whole.to_multiset() =~= list.to_multiset().insert(session));
        assert forall|i: int, j: int| 0 <= i < j < whole.len() implies !before(
            (#[trigger] whole[j]).address,
            (#[trigger] whole[i]).address,
        ) by {
            if j == more.len() {
                assert(more.contains(whole[i]));
                assert(more.to_multiset().count(whole[i]) > 0);
                if whole[i] == session {
                    crate::order::names_are_ordered(session.address, list.last().address);
                } else {
                    assert(fewer.to_multiset().count(whole[i]) > 0);
                    assert(fewer.contains(whole[i]));
                    let k = choose|k: int| 0 <= k < fewer.len() && fewer[k] == whole[i];
                    assert(list[k] == whole[i]);
                    assert(list[list.len() - 1] == list.last());
                }
            }
        }
    } else {
        let whole = list.push(session);
        assert forall|i: int, j: int| 0 <= i < j < whole.len() implies !before(
            (#[trigger] whole[j]).address,
            (#[trigger] whole[i]).address,
        ) by {
            if j == list.len() && i < list.len() - 1 {
                let last = list.last();
                assert(!before(list[list.len() - 1].address, list[i].address));
                if before(session.address, list[i].address) {
                    crate::order::lemma_between(
                        session.address,
                        list[i].address,
                        last.address,
                    );
                }
            }
        }
    }
}

/// Put in order, the sessions are the same sessions, and none comes before one
/// that it follows.
pub proof fn the_same_sessions_in_order(list: Seq<Session>)
    ensures
        in_order(by_address(list)),
        by_address(list).to_multiset() == list.to_multiset(),
        by_address(list).len() == list.len(),
    decreases list.len(),
{
    broadcast use vstd::seq_lib::group_to_multiset_ensures;

    if list.len() == 0 {
        assert(list =~= Seq::<Session>::empty());
    } else {
        the_same_sessions_in_order(list.drop_last());
        lemma_placed(by_address(list.drop_last()), list.last());
        assert(list =~= list.drop_last().push(list.last()));
    }
}

fn place(list: &mut Vec<Held>, held: Held)
    ensures
        sessions(final(list)@) == placed(sessions(old(list)@), held@),
{
    let ghost all = sessions(list@);
    let mut i: usize = list.len();
    assert(all.take(i as int) =~= all);
    assert(all.skip(i as int) =~= Seq::<Session>::empty());
    assert(placed(all, held@) =~= placed(all.take(i as int), held@) + all.skip(i as int));
    while i > 0 && comes_before(held.address.as_str(), list[i - 1].address.as_str())
        invariant
            i <= list@.len(),
            all == sessions(list@),
            placed(all, held@) == placed(all.take(i as int), held@) + all.skip(i as int),
        decreases i,
    {
        assert(all.take(i as int).last() == list@[i - 1]@);
        assert(all.take(i as int).drop_last() =~= all.take(i - 1));
        assert(placed(all.take(i as int), held@) + all.skip(i as int) =~= placed(
            all.take(i - 1),
            held@,
        ) + all.skip(i - 1));
        i -= 1;
    }
    if i > 0 {
        assert(all.take(i as int).last() == list@[i - 1]@);
    }
    assert(placed(all.take(i as int), held@) == all.take(i as int).push(held@));
    let ghost session = held@;
    list.insert(i, held);
    assert(sessions(list@) =~= all.take(i as int).push(session) + all.skip(i as int));
}

/// Sessions, as they were read, in the order of their addresses.
pub fn sorted(list: Vec<Held>) -> (out: Vec<Held>)
    ensures
        sessions(out@) == by_address(sessions(list@)),
{
    let mut left = list;
    let ghost all = sessions(left@);
    let mut turned: Vec<Held> = Vec::new();
    assert(all.take(all.len() as int) =~= all);
    while left.len() > 0
        invariant
            all == sessions(left@) + sessions(turned@).reverse(),
        decreases left@.len(),
    {
        let ghost before = sessions(left@);
        let ghost tail = sessions(turned@);
        match left.pop() {
            Some(last) => {
                let ghost session = last@;
                turned.push(last);
                assert(sessions(left@) =~= before.drop_last());
                assert(sessions(turned@) =~= tail.push(session));
                assert(all =~= sessions(left@) + sessions(turned@).reverse());
            },
            None => {},
        }
    }
    assert(all =~= sessions(turned@).reverse());
    let mut out: Vec<Held> = Vec::new();
    assert(sessions(out@) =~= Seq::<Session>::empty());
    let ghost mut done: int = 0;
    assert(all.take(0) =~= Seq::<Session>::empty());
    while turned.len() > 0
        invariant
            0 <= done <= all.len(),
            all.skip(done) == sessions(turned@).reverse(),
            sessions(out@) == by_address(all.take(done)),
        decreases turned@.len(),
    {
        let ghost tail = sessions(turned@);
        match turned.pop() {
            Some(next) => {
                proof {
                    assert(tail.len() > 0 && tail.reverse().len() == tail.len());
                    assert(all.skip(done).len() == all.len() - done);
                    assert(tail.reverse()[0] == next@);
                    assert(all.skip(done)[0] == all[done]);
                    assert(all.take(done + 1).drop_last() =~= all.take(done));
                    assert(all.take(done + 1).last() == next@);
                    assert(sessions(turned@) =~= tail.drop_last());
                    assert(all.skip(done + 1) =~= all.skip(done).skip(1));
                    assert(tail.reverse().skip(1) =~= tail.drop_last().reverse());
                    done = done + 1;
                }
                place(&mut out, next);
            },
            None => {},
        }
    }
    assert(sessions(turned@).reverse().len() == 0);
    assert(done == all.len());
    assert(all.take(done) =~= all);
    out
}

} // verus!
