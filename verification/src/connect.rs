//! `meridian connect` and `meridian sign-out`, from the terminal's side.
//!
//! A password is never taken here. A loopback port is listened on, the
//! deployment's terminal sign-in is opened in a browser with a PKCE challenge
//! (RFC 7636) and a state, and the browser is sent back with a one-time code
//! (RFC 8252). The code, and the verifier that nobody else holds, become a
//! session.
use vstd::prelude::*;
use vstd::string::*;
use vstd::utf8::{encode_utf8, is_ascii_chars};

use crate::digest::{base64_of, base64_url, random_bytes, sextet, sha256, sha256_of, url_safe};
use crate::number::{a_digit, all_digits, decimal, decimal_of};
use crate::percent::{
    carried, encoded, encoded_text, encoding_carries_nothing_else, encoding_reads_back, escaped,
    unescaped, unreserved,
};
use crate::request::{Reply, Request};
use crate::text::{
    characters, contains, cut, cut_last, find, join, joined, lemma_find, lemma_find_char, lossy,
    lossy_text, part, pieces, replace, replaced, rsplit_once, same, split, split_once,
    split_undoes_join, starts_with, strip_prefix, texts, trim, trim_end_char, trimmed, trimmed_end,
    without_prefix,
};

verus! {

/// How long `connect` waits for the person to sign in, in seconds: inside the
/// ten minutes the deployment holds a terminal's request for.
pub const WAIT: u64 = 300;

// ── The secret and its challenge ─────────────────────────────────────────────

/// A verifier and the challenge that names it.
#[derive(Debug)]
pub struct Pkce {
    pub verifier: String,
    pub challenge: String,
}

/// A text of thirty-two bytes, whatever they are.
pub open spec fn secret(s: Seq<char>) -> bool {
    exists|bytes: Seq<u8>| bytes.len() == 32 && s == #[trigger] base64_url(bytes)
}

/// The challenge that names a verifier: RFC 7636's S256.
pub open spec fn challenge(verifier: Seq<char>) -> Seq<char> {
    base64_url(sha256(encode_utf8(verifier)))
}

fn random() -> (out: String)
    ensures
        secret(out@),
{
    let bytes = random_bytes();
    let out = base64_of(bytes.as_slice());
    assert(bytes@.len() == 32);
    out
}

/// The text of a digest, as a challenge carries it.
pub fn challenge_of(digest: &Vec<u8>) -> (out: String)
    requires
        digest@.len() / 3 * 4 + 4 <= isize::MAX,
    ensures
        out@ == base64_url(digest@),
{
    base64_of(digest.as_slice())
}

/// The challenge that names a verifier.
pub fn challenge_for(verifier: &str) -> (out: String)
    ensures
        out@ == challenge(verifier@),
{
    challenge_of(&sha256_of(verifier.as_bytes()))
}

impl Pkce {
    /// A verifier nobody else holds, and its challenge.
    pub fn new() -> (pkce: Pkce)
        ensures
            secret(pkce.verifier@),
            pkce.challenge@ == challenge(pkce.verifier@),
    {
        let verifier = random();
        let challenge = challenge_for(verifier.as_str());
        Pkce { verifier, challenge }
    }
}

/// A state nobody else can guess, which ties the answer to the question.
pub fn state() -> (out: String)
    ensures
        secret(out@),
{
    random()
}

/// A secret is forty-three characters, each of which goes in an address as it
/// is: percent-encoding leaves it alone.
pub proof fn a_secret_goes_as_it_is(s: Seq<char>)
    requires
        secret(s),
    ensures
        s.len() == 43,
        encoded_text(s) == s,
{
    let bytes = choose|bytes: Seq<u8>| bytes.len() == 32 && s == #[trigger] base64_url(bytes);
    lemma_base64_goes_as_it_is(bytes);
}

/// A challenge is the digest of the verifier's own bytes, six bits to a
/// character, and nothing of the verifier itself.
pub proof fn a_challenge_is_the_digest_of_its_verifier(verifier: Seq<char>, i: int)
    requires
        0 <= i < challenge(verifier).len(),
    ensures
        ({
            let digest = sha256(encode_utf8(verifier));
            challenge(verifier).len() == (4 * digest.len() + 2) / 3 && challenge(verifier)[i]
                == crate::digest::url_safe(crate::digest::sextet(digest, i))
        }),
{
}

/// A challenge goes in an address as it is.
pub proof fn a_challenge_goes_as_it_is(verifier: Seq<char>)
    ensures
        encoded_text(challenge(verifier)) == challenge(verifier),
{
    lemma_base64_goes_as_it_is(sha256(encode_utf8(verifier)));
}

proof fn lemma_base64_goes_as_it_is(bytes: Seq<u8>)
    ensures
        encoded_text(base64_url(bytes)) == base64_url(bytes),
{
    let s = base64_url(bytes);
    assert forall|i: int| 0 <= i < s.len() implies s[i] <= '\u{7f}' && unreserved(
        (#[trigger] s[i]) as u8,
    ) by {
        let n = sextet(bytes, i);
        assert(0 <= n < 64);
        assert(s[i] == url_safe(n));
    }
    lemma_unreserved_goes_as_it_is(s);
}

/// A text of unreserved characters is its own encoding.
pub proof fn lemma_unreserved_goes_as_it_is(s: Seq<char>)
    requires
        forall|i: int| 0 <= i < s.len() ==> s[i] <= '\u{7f}' && unreserved((#[trigger] s[i]) as u8),
    ensures
        encoded_text(s) == s,
{
    assert(is_ascii_chars(s)) by {
        assert forall|i: int| 0 <= i < s.len() implies '\0' <= #[trigger] s[i] <= '\u{7f}' by {
            lemma_least_char(s[i]);
        }
    }
    vstd::utf8::is_ascii_chars_encode_utf8(s);
    let bytes = encode_utf8(s);
    assert(bytes.len() == s.len());
    assert forall|i: int| 0 <= i < s.len() implies bytes[i] as char == s[i] && unreserved(
        #[trigger] bytes[i],
    ) by {
        assert(unreserved(s[i] as u8));
    }
    lemma_plain(bytes, s, s.len() as int);
    assert(bytes.take(s.len() as int) =~= bytes);
    assert(s.take(s.len() as int) =~= s);
}

proof fn lemma_least_char(c: char)
    ensures
        '\0' <= c,
{
}

proof fn lemma_plain(bytes: Seq<u8>, s: Seq<char>, n: int)
    requires
        bytes.len() == s.len(),
        0 <= n <= s.len(),
        forall|i: int| 0 <= i < s.len() ==> bytes[i] as char == s[i] && unreserved(#[trigger] bytes[i]),
    ensures
        escaped(bytes.take(n)) == s.take(n),
    decreases n,
{
    if n > 0 {
        lemma_plain(bytes, s, n - 1);
        assert(bytes.take(n).drop_last() =~= bytes.take(n - 1));
        assert(bytes.take(n).last() == bytes[n - 1]);
        assert(escaped(bytes.take(n)) =~= s.take(n));
    } else {
        assert(escaped(bytes.take(n)) =~= s.take(n));
    }
}

// ── The deployment's address ─────────────────────────────────────────────────

/// The host in what follows `://`: without a port, where what follows the last
/// colon is digits.
pub open spec fn host(rest: Seq<char>) -> Seq<char> {
    match rsplit_once(rest, ":"@) {
        Some((name, port)) => if all_digits(port) {
            name
        } else {
            rest
        },
        None => rest,
    }
}

/// A name this machine has for itself.
pub open spec fn local(host: Seq<char>) -> bool {
    host == "127.0.0.1"@ || host == "[::1]"@ || host == "localhost"@
}

/// The deployment's address as given, without white space around it and
/// slashes after it, or why it is not one.
pub open spec fn address_of(given: Seq<char>) -> Result<Seq<char>, Seq<char>> {
    let bare = trim_end_char(trim(given), '/');
    match split_once(bare, "://"@) {
        None => Err(
            given
                + " is not an address: give it as https://<host>, or http://127.0.0.1:<port> for a local one"@,
        ),
        Some((scheme, rest)) => if rest.len() == 0 || rest.contains('/') || rest.contains('?')
            || rest.contains('#') {
            Err(given + " should be the dashboard's address alone, with no path"@)
        } else if scheme == "https"@ || (scheme == "http"@ && local(host(rest))) {
            Ok(bare)
        } else if scheme == "http"@ {
            Err(
                given
                    + " is plain HTTP to another machine, which would send your session in the clear; use https://"@,
            )
        } else {
            Err(given + " is neither https:// nor http://"@)
        },
    }
}

/// A character of a text, found.
fn has(s: &str, c: char) -> (r: bool)
    ensures
        r == s@.contains(c),
{
    let whole = characters(s);
    let mut i: usize = 0;
    while i < whole.len()
        invariant
            i <= whole@.len(),
            whole@ == s@,
            forall|j: int| 0 <= j < i ==> whole@[j] != c,
        decreases whole@.len() - i,
    {
        if whole[i] == c {
            return true;
        }
        i += 1;
    }
    false
}

/// Whether a text is digits and nothing else.
fn only_digits(s: &str) -> (r: bool)
    ensures
        r == all_digits(s@),
{
    let whole = characters(s);
    let mut i: usize = 0;
    while i < whole.len()
        invariant
            i <= whole@.len(),
            whole@ == s@,
            all_digits(whole@.take(i as int)),
        decreases whole@.len() - i,
    {
        if !a_digit(whole[i]) {
            return false;
        }
        i += 1;
        assert(forall|j: int| 0 <= j < i - 1 ==> whole@.take(i as int)[j] == #[trigger] whole@.take(i - 1)[j]);
    }
    assert(whole@.take(i as int) =~= s@);
    true
}

fn refused(given: &str, why: &str) -> (said: String)
    ensures
        said@ == given@ + why@,
{
    let mut said = given.to_owned();
    said.append(why);
    said
}

/// The deployment's address as given, checked. HTTPS, or HTTP to this machine
/// only: a session sent in the clear to anywhere else is a session anybody on
/// the way holds.
pub fn address(given: &str) -> (r: Result<String, String>)
    ensures
        match r {
            Ok(checked) => address_of(given@) == Ok::<Seq<char>, Seq<char>>(checked@),
            Err(why) => address_of(given@) == Err::<Seq<char>, Seq<char>>(why@),
        },
{
    let bare = trimmed_end(trimmed(given).as_str(), '/');
    let (scheme, rest) = match cut(bare.as_str(), "://") {
        Some(found) => found,
        None => {
            return Err(
                refused(
                    given,
                    " is not an address: give it as https://<host>, or http://127.0.0.1:<port> for a local one",
                ),
            );
        },
    };
    if rest.as_str().is_empty() || has(rest.as_str(), '/') || has(rest.as_str(), '?') || has(
        rest.as_str(),
        '#',
    ) {
        return Err(refused(given, " should be the dashboard's address alone, with no path"));
    }
    let host = match cut_last(rest.as_str(), ":") {
        Some((name, port)) => if only_digits(port.as_str()) {
            name
        } else {
            rest.clone()
        },
        None => rest.clone(),
    };
    let local = same(host.as_str(), "127.0.0.1") || same(host.as_str(), "[::1]") || same(
        host.as_str(),
        "localhost",
    );
    if same(scheme.as_str(), "https") || (same(scheme.as_str(), "http") && local) {
        Ok(bare)
    } else if same(scheme.as_str(), "http") {
        Err(
            refused(
                given,
                " is plain HTTP to another machine, which would send your session in the clear; use https://",
            ),
        )
    } else {
        Err(refused(given, " is neither https:// nor http://"))
    }
}

/// An address that is HTTPS, or HTTP to this machine, and has nothing after
/// the host and its port.
pub open spec fn safe_to_send_to(checked: Seq<char>, rest: Seq<char>) -> bool {
    &&& rest.len() > 0
    &&& !rest.contains('/')
    &&& !rest.contains('?')
    &&& !rest.contains('#')
    &&& checked == "https://"@ + rest || (checked == "http://"@ + rest && local(host(rest)))
}

proof fn lemma_schemes()
    ensures
        "https"@ + "://"@ == "https://"@,
        "http"@ + "://"@ == "http://"@,
{
    reveal_strlit("https");
    reveal_strlit("http");
    reveal_strlit("://");
    reveal_strlit("https://");
    reveal_strlit("http://");
    assert("https"@ + "://"@ =~= "https://"@);
    assert("http"@ + "://"@ =~= "http://"@);
}

proof fn lemma_cut_is_whole(s: Seq<char>, pat: Seq<char>)
    ensures
        split_once(s, pat) matches Some((left, right)) ==> s == left + pat + right,
{
    lemma_find(s, pat);
    if let Some(i) = find(s, pat) {
        assert(s.subrange(i, i + pat.len()) == pat);
        assert(s =~= s.take(i) + pat + s.skip(i + pat.len()));
    }
}

/// A session goes over HTTPS or stays on this machine: an address that is
/// accepted is HTTPS, or HTTP to this machine, and has nothing after the host
/// and its port.
pub proof fn a_session_goes_over_https_or_stays_on_this_machine(given: Seq<char>)
    ensures
        address_of(given) matches Ok(checked) ==> exists|rest: Seq<char>| #[trigger]
            safe_to_send_to(checked, rest),
{
    if let Ok(checked) = address_of(given) {
        let (_, rest) = split_once(checked, "://"@)->0;
        lemma_cut_is_whole(checked, "://"@);
        lemma_schemes();
        assert(safe_to_send_to(checked, rest));
    }
}

// ── Forms ────────────────────────────────────────────────────────────────────

/// The texts of the pairs.
pub open spec fn pair_texts(pairs: Seq<(&str, &str)>) -> Seq<(Seq<char>, Seq<char>)> {
    Seq::new(pairs.len(), |i: int| (pairs[i].0@, pairs[i].1@))
}

/// The fields of a form, each a name and an encoded value.
pub open spec fn form_fields(pairs: Seq<(Seq<char>, Seq<char>)>) -> Seq<Seq<char>> {
    Seq::new(pairs.len(), |i: int| pairs[i].0 + "="@ + encoded_text(pairs[i].1))
}

/// The pairs as a query or a form carries them.
pub open spec fn form_text(pairs: Seq<(Seq<char>, Seq<char>)>) -> Seq<char> {
    join(form_fields(pairs), "&"@)
}

fn form(pairs: &Vec<(&str, &str)>) -> (out: String)
    ensures
        out@ == form_text(pair_texts(pairs@)),
{
    let mut fields: Vec<String> = Vec::new();
    let mut i: usize = 0;
    while i < pairs.len()
        invariant
            i <= pairs@.len(),
            texts(fields@) == form_fields(pair_texts(pairs@)).take(i as int),
        decreases pairs@.len() - i,
    {
        let mut field = pairs[i].0.to_owned();
        field.append("=");
        field.append(encoded(pairs[i].1).as_str());
        let ghost all = form_fields(pair_texts(pairs@));
        assert(field@ == all[i as int]);
        let ghost before = texts(fields@);
        fields.push(field);
        assert(texts(fields@) =~= before.push(all[i as int]));
        assert(texts(fields@) =~= all.take(i + 1));
        i += 1;
    }
    assert(texts(fields@) =~= form_fields(pair_texts(pairs@)));
    joined(&fields, "&")
}

/// Where the person signs in: the deployment's terminal sign-in, with where to
/// send the browser back, the challenge and the state.
pub open spec fn sign_in_address(
    address: Seq<char>,
    redirect_uri: Seq<char>,
    challenge: Seq<char>,
    state: Seq<char>,
) -> Seq<char> {
    address + "/terminal/authorize?"@ + form_text(
        seq![
            ("redirect_uri"@, redirect_uri),
            ("code_challenge"@, challenge),
            ("code_challenge_method"@, "S256"@),
            ("state"@, state),
        ],
    )
}

/// Where the person signs in.
pub fn authorize_url(address: &str, redirect_uri: &str, pkce: &Pkce, state: &str) -> (url: String)
    ensures
        url@ == sign_in_address(address@, redirect_uri@, pkce.challenge@, state@),
{
    let mut pairs: Vec<(&str, &str)> = Vec::new();
    pairs.push(("redirect_uri", redirect_uri));
    pairs.push(("code_challenge", pkce.challenge.as_str()));
    pairs.push(("code_challenge_method", "S256"));
    pairs.push(("state", state));
    assert(pair_texts(pairs@) =~= seq![
        ("redirect_uri"@, redirect_uri@),
        ("code_challenge"@, pkce.challenge@),
        ("code_challenge_method"@, "S256"@),
        ("state"@, state@),
    ]);
    let mut url = address.to_owned();
    url.append("/terminal/authorize?");
    url.append(form(&pairs).as_str());
    url
}

/// Where the browser comes back to: the loopback interface, this port, and the
/// path the deployment insists on.
pub fn redirect_uri(port: u16) -> (uri: String)
    ensures
        uri@ == "http://127.0.0.1:"@ + decimal(port as nat) + "/callback"@,
{
    let mut uri = "http://127.0.0.1:".to_owned();
    uri.append(decimal_of(port as u64).as_str());
    uri.append("/callback");
    uri
}

/// The fields that a form text carries, as they are read: cut at every `&`,
/// then each at its first `=`, with the value's bytes decoded.
pub open spec fn form_read(form: Seq<char>) -> Seq<Option<(Seq<char>, Seq<u8>)>> {
    let fields = split(form, "&"@);
    Seq::new(
        fields.len(),
        |i: int|
            match split_once(fields[i], "="@) {
                Some((name, value)) => Some((name, unescaped(value))),
                None => None,
            },
    )
}

/// What a form carries is what was put in it: every field, in order, under its
/// name and with its value's bytes, whatever the value holds.
pub proof fn a_form_carries_what_was_put_in_it(pairs: Seq<(Seq<char>, Seq<char>)>)
    requires
        pairs.len() > 0,
        forall|i: int| 0 <= i < pairs.len() ==> !(#[trigger] pairs[i]).0.contains('&') && !pairs[i].0.contains('='),
    ensures
        form_read(form_text(pairs)) == Seq::new(
            pairs.len(),
            |i: int| Some((pairs[i].0, encode_utf8(pairs[i].1))),
        ),
{
    let fields = form_fields(pairs);
    reveal_strlit("&");
    reveal_strlit("=");
    assert("&"@ =~= seq!['&']);
    assert("="@ =~= seq!['=']);
    assert forall|i: int| 0 <= i < fields.len() implies !(#[trigger] fields[i]).contains('&')
        && split_once(fields[i], "="@) == Some((pairs[i].0, encoded_text(pairs[i].1))) by {
        let name = pairs[i].0;
        let value = encoded_text(pairs[i].1);
        encoding_carries_nothing_else(encode_utf8(pairs[i].1));
        assert(fields[i] == name + "="@ + value);
        if fields[i].contains('&') {
            let k = choose|k: int| 0 <= k < fields[i].len() && fields[i][k] == '&';
            if k < name.len() {
                assert(name[k] == '&');
            } else if k > name.len() {
                assert(value[k - name.len() - 1] == '&');
                assert(carried(value[k - name.len() - 1]));
            }
        }
        assert forall|k: int| 0 <= k < name.len() implies fields[i][k] != '=' by {
            assert(fields[i][k] == name[k]);
        }
        lemma_find_char(fields[i], '=', name.len() as int);
        assert(fields[i].take(name.len() as int) =~= name);
        assert(fields[i].skip(name.len() as int + 1) =~= value);
    }
    split_undoes_join(fields, '&');
    assert forall|i: int| 0 <= i < pairs.len() implies #[trigger] form_read(form_text(pairs))[i]
        == Some((pairs[i].0, encode_utf8(pairs[i].1))) by {
        assert(split(form_text(pairs), "&"@)[i] == fields[i]);
        encoding_reads_back(encode_utf8(pairs[i].1));
    }
    assert(form_read(form_text(pairs)) =~= Seq::new(
        pairs.len(),
        |i: int| Some((pairs[i].0, encode_utf8(pairs[i].1))),
    ));
}

// ── What comes back to the loopback address ──────────────────────────────────

/// What came back to the loopback address.
#[derive(Debug, PartialEq, Eq)]
pub enum Returned {
    Code(String),
    Declined,
}

/// What a return amounts to.
pub enum Outcome {
    Code(Seq<char>),
    Declined,
}

impl View for Returned {
    type V = Outcome;

    open spec fn view(&self) -> Outcome {
        match self {
            Returned::Code(code) => Outcome::Code(code@),
            Returned::Declined => Outcome::Declined,
        }
    }
}

/// The fields that have a value, each cut at its first `=`, in order.
pub open spec fn with_values(fields: Seq<Seq<char>>) -> Seq<(Seq<char>, Seq<char>)>
    decreases fields.len(),
{
    if fields.len() == 0 {
        Seq::empty()
    } else {
        let before = with_values(fields.drop_last());
        match split_once(fields.last(), "="@) {
            Some(pair) => before.push(pair),
            None => before,
        }
    }
}

/// The fields of the query in a request's target, as they are written there.
pub open spec fn query(target: Seq<char>) -> Seq<(Seq<char>, Seq<char>)> {
    match split_once(target, "?"@) {
        Some((_, asked)) => with_values(split(asked, "&"@)),
        None => Seq::empty(),
    }
}

/// The value of the first field by that name.
pub open spec fn value_of(fields: Seq<(Seq<char>, Seq<char>)>, name: Seq<char>) -> Option<Seq<char>>
    decreases fields.len(),
{
    if fields.len() == 0 {
        None
    } else if fields[0].0 == name {
        Some(fields[0].1)
    } else {
        value_of(fields.skip(1), name)
    }
}

/// The first line of a text, without the line feed, or the carriage return and
/// line feed, that end it.
pub open spec fn first_line(s: Seq<char>) -> Seq<char> {
    match split_once(s, "\n"@) {
        Some((line, _)) => if line.len() > 0 && line.last() == '\r' {
            line.drop_last()
        } else {
            line
        },
        None => s,
    }
}

/// What precedes the first `pat`, or all of it.
pub open spec fn up_to(s: Seq<char>, pat: Seq<char>) -> Seq<char> {
    match split_once(s, pat) {
        Some((before, _)) => before,
        None => s,
    }
}

/// What a request asks for, if it is a GET; nothing if it is not.
pub open spec fn target(request: Seq<char>) -> Seq<char> {
    match strip_prefix(first_line(request), "GET "@) {
        Some(rest) => up_to(rest, " "@),
        None => Seq::empty(),
    }
}

/// What a request to the loopback address is answered with, and what it is a
/// return of, if it is this terminal's.
pub open spec fn callback_of(request: Seq<char>, state: Seq<char>) -> (
    Seq<char>,
    Seq<char>,
    Option<Outcome>,
) {
    let asked = target(request);
    let fields = query(asked);
    if !("/callback?"@.is_prefix_of(asked)) {
        ("404 Not Found"@, "Nothing here."@, None)
    } else if value_of(fields, "state"@) != Some(state) {
        (
            "400 Bad Request"@,
            "This is not the sign-in this terminal started, so it was ignored."@,
            None,
        )
    } else {
        match value_of(fields, "code"@) {
            Some(code) => if code.len() > 0 {
                (
                    "200 OK"@,
                    "Connected. You can close this tab and go back to your terminal."@,
                    Some(Outcome::Code(code)),
                )
            } else {
                ("200 OK"@, "Not connected. You can close this tab."@, Some(Outcome::Declined))
            },
            None => ("200 OK"@, "Not connected. You can close this tab."@, Some(Outcome::Declined)),
        }
    }
}

/// A request to the loopback address, answered.
#[derive(Debug)]
pub struct Callback {
    /// The status to answer with.
    pub status: String,
    /// What to tell the person.
    pub sentence: String,
    /// What ends the wait, if this does.
    pub returned: Option<Returned>,
}

impl View for Callback {
    type V = (Seq<char>, Seq<char>, Option<Outcome>);

    open spec fn view(&self) -> (Seq<char>, Seq<char>, Option<Outcome>) {
        (
            self.status@,
            self.sentence@,
            match self.returned {
                Some(returned) => Some(returned@),
                None => None,
            },
        )
    }
}

/// The fields of the query in a request's target, as they are written there.
pub fn query_of(target: &str) -> (fields: Vec<(String, String)>)
    ensures
        crate::order::pairs(fields@) == query(target@),
{
    let mut fields: Vec<(String, String)> = Vec::new();
    let asked = match cut(target, "?") {
        Some((_, asked)) => asked,
        None => {
            assert(crate::order::pairs(fields@) =~= query(target@));
            return fields;
        },
    };
    proof {
        reveal_strlit("&");
    }
    let parts = pieces(asked.as_str(), "&");
    let ghost all = texts(parts@);
    let mut i: usize = 0;
    assert(all.take(0) =~= Seq::<Seq<char>>::empty());
    assert(crate::order::pairs(fields@) =~= Seq::<(Seq<char>, Seq<char>)>::empty());
    while i < parts.len()
        invariant
            i <= parts@.len(),
            all == texts(parts@),
            crate::order::pairs(fields@) == with_values(all.take(i as int)),
        decreases parts@.len() - i,
    {
        assert(all.take(i + 1).drop_last() =~= all.take(i as int));
        assert(all.take(i + 1).last() == parts@[i as int]@);
        let ghost before = crate::order::pairs(fields@);
        if let Some((name, value)) = cut(parts[i].as_str(), "=") {
            let ghost pair = (name@, value@);
            fields.push((name, value));
            assert(crate::order::pairs(fields@) =~= before.push(pair));
        }
        i += 1;
    }
    assert(all.take(i as int) =~= all);
    fields
}

/// The value of the first field by that name.
fn value_in(fields: &Vec<(String, String)>, name: &str) -> (r: Option<String>)
    ensures
        match r {
            Some(value) => value_of(crate::order::pairs(fields@), name@) == Some(value@),
            None => value_of(crate::order::pairs(fields@), name@) is None,
        },
{
    let ghost all = crate::order::pairs(fields@);
    let mut i: usize = 0;
    assert(all.skip(0) =~= all);
    while i < fields.len()
        invariant
            i <= fields@.len(),
            all == crate::order::pairs(fields@),
            value_of(all, name@) == value_of(all.skip(i as int), name@),
        decreases fields@.len() - i,
    {
        if same(fields[i].0.as_str(), name) {
            return Some(fields[i].1.clone());
        }
        assert(all.skip(i as int).skip(1) =~= all.skip(i + 1));
        i += 1;
    }
    None
}

/// The first line of a text.
fn line_of(s: &str) -> (line: String)
    ensures
        line@ == first_line(s@),
{
    match cut(s, "\n") {
        Some((line, _)) => {
            let whole = characters(line.as_str());
            let n: usize = whole.len();
            if n > 0 && whole[n - 1] == '\r' {
                let short = part(&whole, 0, n - 1);
                assert(short@ =~= line@.drop_last());
                short
            } else {
                line
            }
        },
        None => s.to_owned(),
    }
}

/// What a request asks for, if it is a GET; nothing if it is not.
pub fn target_of(request: &str) -> (asked: String)
    ensures
        asked@ == target(request@),
{
    match without_prefix(line_of(request).as_str(), "GET ") {
        Some(rest) => match cut(rest.as_str(), " ") {
            Some((asked, _)) => asked,
            None => rest,
        },
        None => String::new(),
    }
}

/// What a request to the loopback address is answered with.
///
/// Anything else that reaches the port (a favicon, a stray request, a callback
/// carrying some other state) is answered and ignored: only this terminal's
/// state ends the wait. A callback with this state and no code is the person
/// declining, or the deployment refusing.
pub fn callback(request: &str, state: &str) -> (answer: Callback)
    ensures
        answer@ == callback_of(request@, state@),
{
    let asked = target_of(request);
    if !starts_with(asked.as_str(), "/callback?") {
        return Callback {
            status: "404 Not Found".to_owned(),
            sentence: "Nothing here.".to_owned(),
            returned: None,
        };
    }
    let fields = query_of(asked.as_str());
    let ours = match value_in(&fields, "state") {
        Some(held) => same(held.as_str(), state),
        None => false,
    };
    if !ours {
        return Callback {
            status: "400 Bad Request".to_owned(),
            sentence: "This is not the sign-in this terminal started, so it was ignored.".to_owned(),
            returned: None,
        };
    }
    if let Some(code) = value_in(&fields, "code") {
        if !code.as_str().is_empty() {
            return Callback {
                status: "200 OK".to_owned(),
                sentence: "Connected. You can close this tab and go back to your terminal.".to_owned(),
                returned: Some(Returned::Code(code)),
            };
        }
    }
    Callback {
        status: "200 OK".to_owned(),
        sentence: "Not connected. You can close this tab.".to_owned(),
        returned: Some(Returned::Declined),
    }
}

/// What the bytes of a request to the loopback address are answered with.
pub fn received(bytes: &[u8], state: &str) -> (answer: Callback)
    ensures
        answer@ == callback_of(lossy_text(bytes@), state@),
{
    callback(lossy(bytes).as_str(), state)
}

/// Only this terminal's state ends the wait: a request is a return only if it
/// asks for the callback and the first state it carries is this one. What it
/// returns is the first code it carries, and declining where that is missing
/// or empty.
pub proof fn only_this_terminals_state_ends_the_wait(request: Seq<char>, state: Seq<char>)
    ensures
        callback_of(request, state).2 is Some <==> "/callback?"@.is_prefix_of(target(request))
            && value_of(query(target(request)), "state"@) == Some(state),
        callback_of(request, state).2 matches Some(Outcome::Code(code)) ==> code.len() > 0
            && value_of(query(target(request)), "code"@) == Some(code),
        callback_of(request, state).2 == Some(Outcome::Declined) ==> match value_of(
            query(target(request)),
            "code"@,
        ) {
            Some(code) => code.len() == 0,
            None => true,
        },
{
}

/// The bytes hold the empty line that ends a request's headers.
pub open spec fn headers_end(bytes: Seq<u8>) -> bool {
    exists|i: int|
        0 <= i <= bytes.len() - 4 && #[trigger] bytes[i] == 0x0d && bytes[i + 1] == 0x0a && bytes[i
            + 2] == 0x0d && bytes[i + 3] == 0x0a
}

/// Whether a request has been read far enough: to the end of its headers.
pub fn complete(bytes: &[u8]) -> (r: bool)
    ensures
        r == headers_end(bytes@),
{
    let n: usize = bytes.len();
    if n < 4 {
        return false;
    }
    let mut i: usize = 0;
    while i <= n - 4
        invariant
            4 <= n == bytes@.len(),
            i <= n - 3,
            forall|j: int|
                0 <= j < i ==> !(#[trigger] bytes@[j] == 0x0d && bytes@[j + 1] == 0x0a && bytes@[j
                    + 2] == 0x0d && bytes@[j + 3] == 0x0a),
        decreases n - i,
    {
        if bytes[i] == 0x0d && bytes[i + 1] == 0x0a && bytes[i + 2] == 0x0d && bytes[i + 3]
            == 0x0a {
            return true;
        }
        i += 1;
    }
    false
}

/// The page that says a sentence.
pub open spec fn page(sentence: Seq<char>) -> Seq<char> {
    "<!doctype html><meta charset=\"utf-8\"><title>Meridian</title><p style=\"font-family:sans-serif\">"@
        + sentence + "</p>"@
}

/// The answer to a request: the status, and a page that says the sentence.
pub open spec fn response_of(status: Seq<char>, sentence: Seq<char>) -> Seq<char> {
    "HTTP/1.1 "@ + status + "\r\ncontent-type: text/html; charset=utf-8\r\ncontent-length: "@
        + decimal(encode_utf8(page(sentence)).len())
        + "\r\ncache-control: no-store\r\nconnection: close\r\n\r\n"@ + page(sentence)
}

/// The answer to a request: the status, and a page that says the sentence.
pub fn response(status: &str, sentence: &str) -> (out: String)
    ensures
        out@ == response_of(status@, sentence@),
{
    let mut body =
        "<!doctype html><meta charset=\"utf-8\"><title>Meridian</title><p style=\"font-family:sans-serif\">".to_owned();
    body.append(sentence);
    body.append("</p>");
    let length: usize = body.as_str().as_bytes().len();
    let mut out = "HTTP/1.1 ".to_owned();
    out.append(status);
    out.append("\r\ncontent-type: text/html; charset=utf-8\r\ncontent-length: ");
    out.append(decimal_of(length as u64).as_str());
    out.append("\r\ncache-control: no-store\r\nconnection: close\r\n\r\n");
    out.append(body.as_str());
    out
}

/// What is said when nobody comes back within so many seconds.
pub fn nobody_returned(seconds: u64) -> (said: String)
    ensures
        said@ == "nobody finished signing in within "@ + decimal((seconds / 60) as nat)
            + " minutes"@,
{
    let mut said = "nobody finished signing in within ".to_owned();
    said.append(decimal_of(seconds / 60).as_str());
    said.append(" minutes");
    said
}

// ── The session ──────────────────────────────────────────────────────────────

/// What the deployment issued.
#[derive(Debug)]
pub struct Issued {
    pub session: String,
    pub subject: String,
    pub expires_at: String,
}

/// The request that turns the code and the verifier into a session.
pub fn token_request(address: &str, code: &str, verifier: &str, redirect_uri: &str) -> (request:
    Request)
    ensures
        request.url@ == address@ + "/terminal/token"@,
        request.content_type@ == "application/x-www-form-urlencoded"@,
        request.body@ == form_text(
            seq![("code"@, code@), ("code_verifier"@, verifier@), ("redirect_uri"@, redirect_uri@)],
        ),
{
    let mut pairs: Vec<(&str, &str)> = Vec::new();
    pairs.push(("code", code));
    pairs.push(("code_verifier", verifier));
    pairs.push(("redirect_uri", redirect_uri));
    assert(pair_texts(pairs@) =~= seq![
        ("code"@, code@),
        ("code_verifier"@, verifier@),
        ("redirect_uri"@, redirect_uri@),
    ]);
    let mut url = address.to_owned();
    url.append("/terminal/token");
    Request {
        url,
        content_type: "application/x-www-form-urlencoded".to_owned(),
        body: form(&pairs),
    }
}

/// What the deployment's answer to that request comes to: the session as it
/// was read from the body, if the deployment issued one and it could be read.
pub fn exchange(address: &str, reply: &Reply, read: Result<Issued, String>) -> (r: Result<
    Issued,
    String,
>)
    ensures
        match r {
            Ok(issued) => reply.success && read == Ok::<Issued, String>(issued),
            Err(said) => {
                ||| !reply.success && said@ == address@ + " did not issue a session ("@
                    + reply.status@ + "): "@ + trim(reply.body@)
                ||| reply.success && (read matches Err(failed) && said@ == address@
                    + " answered with something that is not a session: "@ + failed@)
            },
        },
{
    if !reply.success {
        let mut said = address.to_owned();
        said.append(" did not issue a session (");
        said.append(reply.status.as_str());
        said.append("): ");
        said.append(trimmed(reply.body.as_str()).as_str());
        return Err(said);
    }
    match read {
        Ok(issued) => Ok(issued),
        Err(failed) => {
            let mut said = address.to_owned();
            said.append(" answered with something that is not a session: ");
            said.append(failed.as_str());
            Err(said)
        },
    }
}

/// Where a session is ended.
pub fn sign_out_url(address: &str) -> (url: String)
    ensures
        url@ == address@ + "/terminal/sign-out"@,
{
    let mut url = address.to_owned();
    url.append("/terminal/sign-out");
    url
}

/// An address as `cmd` takes it, which reads `&` as the end of a command, and
/// every query has one.
pub fn for_cmd(url: &str) -> (out: String)
    ensures
        out@ == replace(url@, "&"@, "^&"@),
{
    proof {
        reveal_strlit("&");
    }
    replaced(url, "&", "^&")
}

// ── What a sign-in carries, and what comes back ──────────────────────────────

/// Where the person signs in is the deployment's own page, and what it is asked
/// reads as where to come back to, the challenge and how it was made, and the
/// state, whatever they hold.
pub proof fn the_sign_in_address_carries_the_challenge_and_the_state(
    address: Seq<char>,
    redirect_uri: Seq<char>,
    challenge: Seq<char>,
    state: Seq<char>,
)
    ensures
        ({
            let url = sign_in_address(address, redirect_uri, challenge, state);
            let page = address + "/terminal/authorize?"@;
            &&& page.is_prefix_of(url)
            &&& form_read(url.skip(page.len() as int)) == seq![
                Some(("redirect_uri"@, encode_utf8(redirect_uri))),
                Some(("code_challenge"@, encode_utf8(challenge))),
                Some(("code_challenge_method"@, encode_utf8("S256"@))),
                Some(("state"@, encode_utf8(state))),
            ]
        }),
{
    let pairs = seq![
        ("redirect_uri"@, redirect_uri),
        ("code_challenge"@, challenge),
        ("code_challenge_method"@, "S256"@),
        ("state"@, state),
    ];
    reveal_strlit("redirect_uri");
    reveal_strlit("code_challenge");
    reveal_strlit("code_challenge_method");
    reveal_strlit("state");
    let url = sign_in_address(address, redirect_uri, challenge, state);
    let page = address + "/terminal/authorize?"@;
    assert(url.take(page.len() as int) =~= page);
    assert(url.skip(page.len() as int) =~= form_text(pairs));
    a_form_carries_what_was_put_in_it(pairs);
    assert(form_read(form_text(pairs)) =~= seq![
        Some(("redirect_uri"@, encode_utf8(redirect_uri))),
        Some(("code_challenge"@, encode_utf8(challenge))),
        Some(("code_challenge_method"@, encode_utf8("S256"@))),
        Some(("state"@, encode_utf8(state))),
    ]);
}

/// The code, the verifier and where the browser came back to, as the form that
/// redeems them, read as what they are.
pub proof fn what_redeems_a_code_reads_as_what_it_is(
    code: Seq<char>,
    verifier: Seq<char>,
    redirect_uri: Seq<char>,
)
    ensures
        form_read(
            form_text(
                seq![("code"@, code), ("code_verifier"@, verifier), ("redirect_uri"@, redirect_uri)],
            ),
        ) == seq![
            Some(("code"@, encode_utf8(code))),
            Some(("code_verifier"@, encode_utf8(verifier))),
            Some(("redirect_uri"@, encode_utf8(redirect_uri))),
        ],
{
    let pairs = seq![("code"@, code), ("code_verifier"@, verifier), ("redirect_uri"@, redirect_uri)];
    reveal_strlit("code");
    reveal_strlit("code_verifier");
    reveal_strlit("redirect_uri");
    a_form_carries_what_was_put_in_it(pairs);
    assert(form_read(form_text(pairs)) =~= seq![
        Some(("code"@, encode_utf8(code))),
        Some(("code_verifier"@, encode_utf8(verifier))),
        Some(("redirect_uri"@, encode_utf8(redirect_uri))),
    ]);
}

/// A field's value is that of the first field by its name, and it has none only
/// where no field has the name.
pub proof fn the_first_field_by_a_name_counts(
    fields: Seq<(Seq<char>, Seq<char>)>,
    name: Seq<char>,
)
    ensures
        match value_of(fields, name) {
            Some(value) => exists|i: int|
                0 <= i < fields.len() && #[trigger] fields[i] == (name, value) && forall|j: int|
                    0 <= j < i ==> (#[trigger] fields[j]).0 != name,
            None => forall|i: int| 0 <= i < fields.len() ==> (#[trigger] fields[i]).0 != name,
        },
    decreases fields.len(),
{
    if fields.len() > 0 && fields[0].0 != name {
        let rest = fields.skip(1);
        the_first_field_by_a_name_counts(rest, name);
        match value_of(rest, name) {
            Some(value) => {
                let k = choose|k: int|
                    0 <= k < rest.len() && #[trigger] rest[k] == (name, value) && forall|j: int|
                        0 <= j < k ==> (#[trigger] rest[j]).0 != name;
                assert(fields[k + 1] == (name, value));
                assert forall|j: int| 0 <= j < k + 1 implies (#[trigger] fields[j]).0 != name by {
                    if j > 0 {
                        assert(rest[j - 1].0 != name);
                    }
                }
            },
            None => {
                assert forall|i: int| 0 <= i < fields.len() implies (#[trigger] fields[i]).0
                    != name by {
                    if i > 0 {
                        assert(rest[i - 1].0 != name);
                    }
                }
            },
        }
    } else if fields.len() > 0 {
        assert(fields[0] == (name, fields[0].1));
    }
}

/// What a GET asks for is what stands between the method and the next blank, on
/// the request's first line.
pub proof fn a_get_asks_for_what_follows_it(asked: Seq<char>, rest: Seq<char>)
    requires
        !asked.contains(' '),
        !asked.contains('\n'),
    ensures
        target("GET "@ + asked + " "@ + rest) == asked,
{
    reveal_strlit("GET ");
    reveal_strlit(" ");
    let get = "GET "@;
    let start = get + asked + " "@;
    assert(" "@ =~= seq![' ']);
    assert(!start.contains('\n')) by {
        if start.contains('\n') {
            let k = choose|k: int| 0 <= k < start.len() && start[k] == '\n';
            if 4 <= k < 4 + asked.len() {
                assert(start[k] == asked[k - 4]);
            }
        }
    }
    assert(start.last() == ' ');
    lemma_first_line(start, rest);
    let line = first_line(start + rest);
    let behind = line.skip(start.len() as int);
    assert(line =~= start + behind);
    assert(line =~= get + (asked + seq![' '] + behind));
    crate::text::what_a_text_starts_with_is_taken_off(line, get, asked + seq![' '] + behind);
    crate::text::a_text_is_cut_where_it_was_put_together(asked, ' ', behind);
}

/// What a text starts with, on its first line, the first line starts with.
proof fn lemma_first_line(start: Seq<char>, rest: Seq<char>)
    requires
        start.len() > 0,
        start.last() != '\r',
        !start.contains('\n'),
    ensures
        start.is_prefix_of(first_line(start + rest)),
{
    reveal_strlit("\n");
    assert("\n"@ =~= seq!['\n']);
    let whole = start + rest;
    let n = start.len() as int;
    crate::text::a_cut_at_a_character_leaves_none(whole, '\n');
    match split_once(whole, "\n"@) {
        Some((cut, after)) => {
            let k = cut.len() as int;
            assert(whole[k] == '\n');
            if k < n {
                assert(start[k] == '\n');
            }
            assert(whole.take(k) =~= cut);
            assert(cut.take(n) =~= start);
            if cut.last() == '\r' {
                assert(k > n) by {
                    if k == n {
                        assert(cut.last() == start.last());
                    }
                }
                assert(cut.drop_last().take(n) =~= start);
            }
        },
        None => {
            assert(whole.take(n) =~= start);
        },
    }
}

/// The browser that comes back with this terminal's state and a code returns
/// that code, as it was carried.
pub proof fn a_code_that_comes_back_with_the_state_is_returned(
    code: Seq<char>,
    state: Seq<char>,
    rest: Seq<char>,
)
    requires
        code.len() > 0,
        forall|i: int| 0 <= i < code.len() ==> carried(#[trigger] code[i]),
        forall|i: int| 0 <= i < state.len() ==> carried(#[trigger] state[i]),
    ensures
        callback_of("GET "@ + ("/callback?"@ + "code="@ + code + "&state="@ + state) + " "@ + rest, state)
            == (
            "200 OK"@,
            "Connected. You can close this tab and go back to your terminal."@,
            Some(Outcome::Code(code)),
        ),
{
    reveal_strlit("/callback?");
    reveal_strlit("code=");
    reveal_strlit("code");
    reveal_strlit("&state=");
    reveal_strlit("state");
    reveal_strlit("?");
    reveal_strlit("&");
    reveal_strlit("=");
    assert("?"@ =~= seq!['?']);
    assert("&"@ =~= seq!['&']);
    assert("="@ =~= seq!['=']);
    let asked = "/callback?"@ + "code="@ + code + "&state="@ + state;
    lemma_carried_alone(code);
    lemma_carried_alone(state);
    assert forall|i: int| 0 <= i < asked.len() implies asked[i] != ' ' && asked[i] != '\n' by {
        let a = 15 + code.len();
        if i < 10 {
            assert(asked[i] == "/callback?"@[i]);
        } else if i < 15 {
            assert(asked[i] == "code="@[i - 10]);
        } else if i < a {
            assert(asked[i] == code[i - 15]);
            assert(carried(code[i - 15]));
        } else if i < a + 7 {
            assert(asked[i] == "&state="@[i - a]);
        } else {
            assert(asked[i] == state[i - a - 7]);
            assert(carried(state[i - a - 7]));
        }
    }
    a_get_asks_for_what_follows_it(asked, rest);
    assert("/callback?"@.is_prefix_of(asked)) by {
        assert(asked.take(10) =~= "/callback?"@);
    }
    let one = "code"@ + seq!['='] + code;
    let two = "state"@ + seq!['='] + state;
    let fields = seq![one, two];
    let path = "/callback?"@.take(9);
    assert(asked =~= path + seq!['?'] + (one + seq!['&'] + two));
    assert(!path.contains('?'));
    crate::text::a_text_is_cut_where_it_was_put_together(path, '?', one + seq!['&'] + two);
    lemma_field_plain("code"@, code);
    lemma_field_plain("state"@, state);
    assert(join(fields, seq!['&']) =~= one + seq!['&'] + two) by {
        assert(fields.skip(1) =~= seq![two]);
        assert(join(fields.skip(1), seq!['&']) == two);
    }
    split_undoes_join(fields, '&');
    crate::text::a_text_is_cut_where_it_was_put_together("code"@, '=', code);
    crate::text::a_text_is_cut_where_it_was_put_together("state"@, '=', state);
    let pairs = seq![("code"@, code), ("state"@, state)];
    assert(with_values(fields) =~= pairs) by {
        reveal_with_fuel(with_values, 3);
        assert(fields.drop_last() =~= seq![one]);
        assert(seq![one].drop_last() =~= Seq::<Seq<char>>::empty());
        assert(seq![one].last() == one);
        assert(fields.last() == two);
        assert(with_values(seq![one]) =~= seq![("code"@, code)]);
    }
    assert("code"@ != "state"@);
    reveal_with_fuel(value_of, 3);
    assert(pairs.skip(1)[0] == ("state"@, state));
}

/// What percent-encoding yields holds nothing that ends a field, a query or a
/// line.
proof fn lemma_carried_alone(s: Seq<char>)
    requires
        forall|i: int| 0 <= i < s.len() ==> carried(#[trigger] s[i]),
    ensures
        !s.contains('&'),
        !s.contains('='),
        !s.contains(' '),
        !s.contains('\n'),
{
    assert forall|i: int| 0 <= i < s.len() implies s[i] != '&' && s[i] != '=' && s[i] != ' ' && s[i]
        != '\n' by {
        assert(carried(s[i]));
    }
}

proof fn lemma_field_plain(name: Seq<char>, value: Seq<char>)
    requires
        !name.contains('&'),
        !value.contains('&'),
    ensures
        !(name + seq!['='] + value).contains('&'),
{
    let field = name + seq!['='] + value;
    if field.contains('&') {
        let k = choose|k: int| 0 <= k < field.len() && field[k] == '&';
        if k < name.len() {
            assert(name[k] == '&');
        } else if k > name.len() {
            assert(value[k - name.len() - 1] == '&');
        }
    }
}

/// A request that is not this terminal's return ends nothing, and each is told
/// apart: one for anything but the callback, and one with another state.
pub proof fn what_is_no_return_is_answered_and_ignored(request: Seq<char>, state: Seq<char>)
    ensures
        !"/callback?"@.is_prefix_of(target(request)) ==> callback_of(request, state).0
            == "404 Not Found"@ && callback_of(request, state).2 is None,
        "/callback?"@.is_prefix_of(target(request)) && value_of(query(target(request)), "state"@)
            != Some(state) ==> callback_of(request, state).0 == "400 Bad Request"@ && callback_of(
            request,
            state,
        ).2 is None,
        callback_of(request, state).2 is Some ==> callback_of(request, state).0 == "200 OK"@,
{
}

/// This machine is one of its three names, with a port behind it or not.
pub open spec fn on_this_machine(rest: Seq<char>, name: Seq<char>, port: Seq<char>) -> bool {
    &&& name == "127.0.0.1"@ || name == "[::1]"@ || name == "localhost"@
    &&& rest == name || rest == name + seq![':'] + port && all_digits(port)
}

/// What a plain address is sent to is this machine and no other: the host is
/// one of the machine's own three names, and behind it stands a port or nothing.
pub proof fn only_its_own_names_are_this_machine(rest: Seq<char>, name: Seq<char>, port: Seq<char>)
    ensures
        local(host(rest)) ==> exists|name: Seq<char>, port: Seq<char>| #[trigger]
            on_this_machine(rest, name, port),
        on_this_machine(rest, name, port) ==> local(host(rest)),
{
    reveal_strlit(":");
    assert(":"@ =~= seq![':']);
    crate::text::a_cut_at_a_character_leaves_none(rest, ':');
    if local(host(rest)) {
        match rsplit_once(rest, ":"@) {
            Some((left, right)) => {
                if all_digits(right) {
                    assert(on_this_machine(rest, left, right));
                } else {
                    assert(on_this_machine(rest, rest, right));
                }
            },
            None => {
                assert(on_this_machine(rest, rest, rest));
            },
        }
    }
    if on_this_machine(rest, name, port) {
        if rest == name {
            lemma_own_name(rest);
        } else {
            assert(!port.contains(':')) by {
                if port.contains(':') {
                    let k = choose|k: int| 0 <= k < port.len() && port[k] == ':';
                    assert(crate::number::is_digit(port[k]));
                }
            }
            crate::text::a_text_is_cut_where_it_was_put_together(name, ':', port);
        }
    }
}

/// The machine's own names are their own hosts.
proof fn lemma_own_name(name: Seq<char>)
    requires
        name == "127.0.0.1"@ || name == "[::1]"@ || name == "localhost"@,
    ensures
        host(name) == name,
{
    if name == "[::1]"@ {
        lemma_bracketed();
    } else if name == "localhost"@ {
        reveal_strlit("localhost");
        lemma_no_colon(name);
    } else {
        reveal_strlit("127.0.0.1");
        lemma_no_colon(name);
    }
}

proof fn lemma_no_colon(name: Seq<char>)
    requires
        forall|i: int| 0 <= i < name.len() ==> #[trigger] name[i] != ':',
    ensures
        host(name) == name,
{
    reveal_strlit(":");
    assert(":"@ =~= seq![':']);
    crate::text::lemma_holds_char(name, ':');
}

proof fn lemma_bracketed()
    ensures
        host("[::1]"@) == "[::1]"@,
{
    reveal_strlit(":");
    reveal_strlit("[::1]");
    let a = seq!['[', ':'];
    let b = seq!['1', ']'];
    assert(":"@ =~= seq![':']);
    assert("[::1]"@ =~= a + seq![':'] + b);
    assert(!b.contains(':'));
    crate::text::a_text_is_cut_where_it_was_put_together(a, ':', b);
    assert(!crate::number::is_digit(b[1]));
}

/// Every address over HTTPS is accepted, without the white space around it and
/// the slashes behind it; and one over HTTP is accepted exactly where it is this
/// machine's.
pub proof fn an_address_is_accepted_as_it_was_given(
    before: Seq<char>,
    rest: Seq<char>,
    slashes: Seq<char>,
    after: Seq<char>,
)
    requires
        rest.len() > 0,
        !rest.contains('/'),
        !rest.contains('?'),
        !rest.contains('#'),
        !crate::text::is_white(rest.last()),
        forall|i: int| 0 <= i < slashes.len() ==> #[trigger] slashes[i] == '/',
        forall|i: int| 0 <= i < before.len() ==> crate::text::is_white(#[trigger] before[i]),
        forall|i: int| 0 <= i < after.len() ==> crate::text::is_white(#[trigger] after[i]),
    ensures
        address_of(before + ("https://"@ + rest + slashes) + after) == Ok::<Seq<char>, Seq<char>>(
            "https://"@ + rest,
        ),
        local(host(rest)) ==> address_of(before + ("http://"@ + rest + slashes) + after) == Ok::<
            Seq<char>,
            Seq<char>,
        >("http://"@ + rest),
        !local(host(rest)) ==> address_of(
            before + ("http://"@ + rest + slashes) + after,
        ) is Err,
{
    assert(rest.contains(rest.last()));
    lemma_given(before, "https"@, rest, slashes, after);
    lemma_given(before, "http"@, rest, slashes, after);
    lemma_schemes();
    reveal_strlit("https");
    reveal_strlit("http");
    assert("http"@.len() != "https"@.len());
}

/// What is given is cut into its scheme and what it is sent to, with slashes at
/// its end or without, and with white space around it or without.
proof fn lemma_given(
    before: Seq<char>,
    scheme: Seq<char>,
    rest: Seq<char>,
    slashes: Seq<char>,
    after: Seq<char>,
)
    requires
        scheme == "https"@ || scheme == "http"@,
        rest.len() > 0,
        rest.last() != '/',
        !crate::text::is_white(rest.last()),
        forall|i: int| 0 <= i < slashes.len() ==> #[trigger] slashes[i] == '/',
        forall|i: int| 0 <= i < before.len() ==> crate::text::is_white(#[trigger] before[i]),
        forall|i: int| 0 <= i < after.len() ==> crate::text::is_white(#[trigger] after[i]),
    ensures
        ({
            let whole = scheme + "://"@ + rest;
            &&& trim_end_char(trim(before + (whole + slashes) + after), '/') == whole
            &&& split_once(whole, "://"@) == Some((scheme, rest))
        }),
{
    reveal_strlit("https");
    reveal_strlit("http");
    let whole = scheme + "://"@ + rest;
    let long = whole + slashes;
    assert(whole[0] == scheme[0]);
    assert(whole.last() == rest.last());
    assert(long[0] == whole[0]);
    assert(!crate::text::is_white(long.last())) by {
        if slashes.len() > 0 {
            assert(long.last() == slashes.last());
            assert(slashes[slashes.len() - 1] == '/');
        } else {
            assert(long =~= whole);
        }
    }
    crate::text::white_space_around_a_text_is_trimmed(before, long, after);
    lemma_bare(whole, slashes);
    lemma_scheme(scheme, rest);
}

/// The slashes behind a text are taken off, and nothing else of it.
proof fn lemma_bare(s: Seq<char>, slashes: Seq<char>)
    requires
        s.len() > 0,
        s.last() != '/',
        forall|i: int| 0 <= i < slashes.len() ==> #[trigger] slashes[i] == '/',
    ensures
        trim_end_char(s + slashes, '/') == s,
{
    let whole = s + slashes;
    crate::text::every_one_of_a_character_is_taken_from_an_end(whole, '/');
    let left = trim_end_char(whole, '/');
    let n = left.len() as int;
    assert(whole[s.len() - 1] == s.last());
    if n < s.len() {
        assert(whole[s.len() - 1] == '/');
    }
    if n > s.len() {
        assert(left.last() == whole[n - 1]);
        assert(whole[n - 1] == slashes[n - 1 - s.len()]);
    }
    assert(left =~= s);
}

proof fn lemma_scheme(scheme: Seq<char>, rest: Seq<char>)
    requires
        scheme == "https"@ || scheme == "http"@,
    ensures
        split_once(scheme + "://"@ + rest, "://"@) == Some((scheme, rest)),
{
    reveal_strlit("https");
    reveal_strlit("http");
    reveal_strlit("://");
    let pat = "://"@;
    let whole = scheme + pat + rest;
    let n = scheme.len() as int;
    assert(whole.subrange(n, n + 3) =~= pat);
    assert forall|j: int| j < n implies !#[trigger] crate::text::occurs_at(whole, pat, j) by {
        if crate::text::occurs_at(whole, pat, j) {
            assert(whole.subrange(j, j + 3)[0] == pat[0]);
            assert(whole[j] == scheme[j]);
        }
    }
    crate::text::lemma_find_is(whole, pat, n);
    assert(whole.take(n) =~= scheme);
    assert(whole.skip(n + 3) =~= rest);
}

/// The answer to a request says how long its page is, and the page says the
/// sentence: behind the empty line that ends the headers stands the page and
/// nothing else.
pub proof fn an_answer_is_as_long_as_it_says(status: Seq<char>, sentence: Seq<char>)
    ensures
        exists|start: Seq<char>, end: Seq<char>, before: Seq<char>, after: Seq<char>|
            #![trigger (before + sentence + after), (start + end)]
            {
                &&& start == "HTTP/1.1 "@ + status
                    + "\r\ncontent-type: text/html; charset=utf-8\r\ncontent-length: "@ + decimal(
                    encode_utf8(before + sentence + after).len(),
                )
                &&& end == "\r\ncache-control: no-store\r\nconnection: close\r\n\r\n"@
                &&& response_of(status, sentence) == start + end + (before + sentence + after)
            },
{
    let before =
        "<!doctype html><meta charset=\"utf-8\"><title>Meridian</title><p style=\"font-family:sans-serif\">"@;
    let after = "</p>"@;
    let start = "HTTP/1.1 "@ + status
        + "\r\ncontent-type: text/html; charset=utf-8\r\ncontent-length: "@ + decimal(
        encode_utf8(before + sentence + after).len(),
    );
    let end = "\r\ncache-control: no-store\r\nconnection: close\r\n\r\n"@;
    assert(response_of(status, sentence) == start + end + (before + sentence + after));
}

/// The first line of a text is what stands before its first line feed, and
/// before the carriage return in front of it, and all of it where there is none.
pub proof fn the_first_line_is_what_stands_before_its_end(line: Seq<char>, rest: Seq<char>)
    requires
        !line.contains('\n'),
        !line.contains('\r'),
    ensures
        first_line(line + seq!['\r', '\n'] + rest) == line,
        first_line(line + seq!['\n'] + rest) == line,
        first_line(line) == line,
{
    reveal_strlit("\n");
    assert("\n"@ =~= seq!['\n']);
    let ended = line + seq!['\r'];
    assert(line + seq!['\r', '\n'] + rest =~= ended + seq!['\n'] + rest);
    assert(!ended.contains('\n')) by {
        if ended.contains('\n') {
            let k = choose|k: int| 0 <= k < ended.len() && ended[k] == '\n';
            assert(line[k] == '\n');
        }
    }
    crate::text::a_text_is_cut_where_it_was_put_together(ended, '\n', rest);
    crate::text::a_text_is_cut_where_it_was_put_together(line, '\n', rest);
    crate::text::lemma_holds_char(line, '\n');
    assert(ended.last() == '\r');
    assert(ended.drop_last() =~= line);
    if line.len() > 0 && line.last() == '\r' {
        assert(line.contains(line.last()));
    }
}

/// A request has been read far enough exactly where an empty line ends its
/// headers: the four bytes of two line ends, one after the other, wherever they
/// stand.
pub proof fn headers_end_with_an_empty_line(before: Seq<u8>, after: Seq<u8>)
    ensures
        headers_end(before + seq![13u8, 10u8, 13u8, 10u8] + after),
        headers_end(before) ==> exists|i: int|
            0 <= i <= before.len() - 4 && #[trigger] before.subrange(i, i + 4) == seq![
                13u8,
                10u8,
                13u8,
                10u8,
            ],
{
    let whole = before + seq![13u8, 10u8, 13u8, 10u8] + after;
    assert(whole[before.len() as int] == 13u8);
    if headers_end(before) {
        let i = choose|i: int|
            0 <= i <= before.len() - 4 && #[trigger] before[i] == 0x0d && before[i + 1] == 0x0a
                && before[i + 2] == 0x0d && before[i + 3] == 0x0a;
        assert(before.subrange(i, i + 4) =~= seq![13u8, 10u8, 13u8, 10u8]);
    }
}

/// The fields of a query are those that have a value, in order, each cut at its
/// first equals sign, and a field without one is passed over wherever it stands.
pub proof fn a_field_without_a_value_is_passed_over(
    before: Seq<Seq<char>>,
    name: Seq<char>,
    value: Seq<char>,
    after: Seq<Seq<char>>,
)
    requires
        !name.contains('='),
    ensures
        with_values(before + seq![name] + after) == with_values(before) + with_values(after),
        with_values(before + seq![name + seq!['='] + value] + after) == with_values(before) + seq![
            (name, value),
        ] + with_values(after),
        with_values(Seq::empty()).len() == 0,
    decreases after.len(),
{
    reveal_strlit("=");
    assert("="@ =~= seq!['=']);
    let field = name + seq!['='] + value;
    let bare = before + seq![name] + after;
    let whole = before + seq![field] + after;
    if after.len() == 0 {
        crate::text::a_text_is_cut_where_it_was_put_together(name, '=', value);
        crate::text::a_cut_at_a_character_leaves_none(name, '=');
        if let Some((left, right)) = split_once(name, "="@) {
            assert(name[left.len() as int] == '=');
        }
        assert(bare.drop_last() =~= before && bare.last() == name);
        assert(whole.drop_last() =~= before && whole.last() == field);
    } else {
        a_field_without_a_value_is_passed_over(before, name, value, after.drop_last());
        assert(bare.drop_last() =~= before + seq![name] + after.drop_last());
        assert(whole.drop_last() =~= before + seq![field] + after.drop_last());
        assert(bare.last() == after.last() && whole.last() == after.last());
    }
    assert(with_values(bare) =~= with_values(before) + with_values(after));
    assert(with_values(whole) =~= with_values(before) + seq![(name, value)] + with_values(after));
}

/// What a target asks is what stands behind its first question mark, and a
/// target without one asks nothing.
pub proof fn a_query_stands_behind_the_question_mark(path: Seq<char>, asked: Seq<char>)
    requires
        !path.contains('?'),
    ensures
        query(path + seq!['?'] + asked) == with_values(split(asked, seq!['&'])),
        query(path).len() == 0,
{
    reveal_strlit("?");
    reveal_strlit("&");
    assert("?"@ =~= seq!['?']);
    assert("&"@ =~= seq!['&']);
    crate::text::a_text_is_cut_where_it_was_put_together(path, '?', asked);
    crate::text::a_cut_at_a_character_leaves_none(path, '?');
    if let Some((left, right)) = split_once(path, "?"@) {
        assert(path[left.len() as int] == '?');
    }
}

} // verus!
