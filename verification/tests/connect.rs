//! Signing in from a terminal, and out again.
use meridian::connect::{
    address, authorize_url, challenge_for, complete, exchange, for_cmd, nobody_returned, query_of,
    received, redirect_uri, response, sign_out_url, state, token_request, Issued, Pkce, Returned,
    WAIT,
};
use meridian::request::{not_reached, Reply};

/// RFC 7636, appendix B.
const VERIFIER: &str = "dBjftJeZ4CVP-mB92K27uhbUJU1p1r_wW1gFWFOEjXk";
const CHALLENGE: &str = "E9Melhoa2OwvFrEMTJguCHaoeK1t8URWbuGJSstw-cM";

#[test]
fn the_challenge_is_the_rfc_7636_one() {
    assert_eq!(challenge_for(VERIFIER), CHALLENGE);
    let fresh = Pkce::new();
    assert_eq!(fresh.verifier.len(), 43, "32 random bytes");
    assert_eq!(fresh.challenge, challenge_for(&fresh.verifier));
    assert_ne!(Pkce::new().verifier, fresh.verifier);
}

#[test]
fn a_state_is_a_secret_of_its_own() {
    assert_eq!(state().len(), 43);
    assert_ne!(state(), state());
}

#[test]
fn a_session_goes_over_https_or_stays_on_this_machine() {
    for good in [
        "https://dash.firm.example",
        "https://dash.firm.example:8443/",
        "http://127.0.0.1:8443",
        "http://localhost:8443",
        "http://[::1]:8443",
    ] {
        assert!(address(good).is_ok(), "{good}");
    }
    assert_eq!(
        address("https://dash.firm.example/").unwrap(),
        "https://dash.firm.example"
    );
    for bad in [
        "http://dash.firm.example",
        "http://127.0.0.1.attacker.example:8443",
        "dash.firm.example",
        "ftp://dash.firm.example",
        "https://dash.firm.example/admin",
        "https://dash.firm.example?x=1",
    ] {
        assert!(address(bad).is_err(), "{bad}");
    }
}

#[test]
fn an_address_that_is_refused_says_why() {
    assert_eq!(
        address("dash").unwrap_err(),
        "dash is not an address: give it as https://<host>, or http://127.0.0.1:<port> for a local one"
    );
    assert_eq!(
        address("https://").unwrap_err(),
        "https:// is not an address: give it as https://<host>, or http://127.0.0.1:<port> for a local one"
    );
    assert_eq!(
        address("https://d/x").unwrap_err(),
        "https://d/x should be the dashboard's address alone, with no path"
    );
    assert_eq!(
        address("http://d").unwrap_err(),
        "http://d is plain HTTP to another machine, which would send your session in the clear; use https://"
    );
    assert_eq!(
        address("ftp://d").unwrap_err(),
        "ftp://d is neither https:// nor http://"
    );
}

#[test]
fn the_sign_in_address_carries_the_challenge_and_an_encoded_callback() {
    let pkce = Pkce {
        verifier: VERIFIER.into(),
        challenge: CHALLENGE.into(),
    };
    assert_eq!(
        authorize_url(
            "https://dash.firm.example",
            "http://127.0.0.1:53682/callback",
            &pkce,
            "st-1"
        ),
        format!(
            "https://dash.firm.example/terminal/authorize?\
             redirect_uri=http%3A%2F%2F127.0.0.1%3A53682%2Fcallback&code_challenge={CHALLENGE}\
             &code_challenge_method=S256&state=st-1"
        )
    );
    assert_eq!(redirect_uri(53682), "http://127.0.0.1:53682/callback");
}

fn visit(target: &str) -> (String, Option<Returned>) {
    let request = format!("GET {target} HTTP/1.1\r\nhost: 127.0.0.1\r\n\r\n");
    assert!(complete(request.as_bytes()));
    let answer = received(request.as_bytes(), "mine");
    (response(&answer.status, &answer.sentence), answer.returned)
}

#[test]
fn only_this_terminals_state_ends_the_wait() {
    let (favicon, ended) = visit("/favicon.ico");
    assert!(favicon.starts_with("HTTP/1.1 404"), "{favicon}");
    assert_eq!(ended, None);
    let (theirs, ended) = visit("/callback?code=stolen&state=someone-elses");
    assert!(theirs.starts_with("HTTP/1.1 400"), "{theirs}");
    assert_eq!(ended, None);
    let (ours, ended) = visit("/callback?code=the-code&state=mine");
    assert!(ours.contains("Connected"), "{ours}");
    assert_eq!(ended, Some(Returned::Code("the-code".into())));
}

#[test]
fn a_refusal_from_the_browser_ends_the_wait_without_a_code() {
    let (_, ended) = visit("/callback?error=access_denied&state=mine");
    assert_eq!(ended, Some(Returned::Declined));
    let (_, ended) = visit("/callback?code=&state=mine");
    assert_eq!(ended, Some(Returned::Declined));
}

#[test]
fn nobody_coming_back_ends_the_wait_with_a_reason() {
    assert!(nobody_returned(0).contains("nobody finished signing in"));
    assert_eq!(
        nobody_returned(WAIT),
        "nobody finished signing in within 5 minutes"
    );
}

#[test]
fn what_is_not_a_get_is_answered_and_ignored() {
    let answer = received(b"POST /callback?code=c&state=mine HTTP/1.1\r\n\r\n", "mine");
    assert_eq!(answer.returned, None);
    let answer = received(b"\xff\xfe", "mine");
    assert_eq!(answer.status, "404 Not Found");
    assert!(!complete(b"GET / HTTP/1.1\r\n"));
}

#[test]
fn a_request_that_is_not_all_text_is_still_read() {
    let answer = received(
        b"GET /callback?code=c&state=mine HTTP/1.1\r\nx: \xff\r\n\r\n",
        "mine",
    );
    assert_eq!(answer.returned, Some(Returned::Code("c".into())));
}

#[test]
fn a_query_is_cut_where_it_says() {
    let fields = query_of("/callback?a=1&b&c=2=3");
    assert_eq!(
        fields,
        [
            ("a".to_string(), "1".to_string()),
            ("c".to_string(), "2=3".to_string())
        ]
    );
    assert!(query_of("/callback").is_empty());
}

#[test]
fn a_page_says_how_long_it_is() {
    let page = response("200 OK", "Grüße");
    let (head, body) = page.split_once("\r\n\r\n").unwrap();
    assert!(
        head.contains(&format!("content-length: {}", body.len())),
        "{head}"
    );
}

#[test]
fn the_code_and_verifier_are_exchanged_as_the_deployment_expects() {
    let sent = token_request(
        "http://127.0.0.1:1",
        "the-code",
        VERIFIER,
        "http://127.0.0.1:53682/callback",
    );
    assert_eq!(sent.url, "http://127.0.0.1:1/terminal/token");
    assert_eq!(
        sent.body,
        format!(
            "code=the-code&code_verifier={VERIFIER}&redirect_uri=http%3A%2F%2F127.0.0.1%3A53682%2Fcallback"
        )
    );
    let reply = Reply {
        success: true,
        status: "200 OK".into(),
        body: String::new(),
    };
    let issued = exchange(
        "http://127.0.0.1:1",
        &reply,
        Ok(Issued {
            session: "s3cr3t".into(),
            subject: "local|ada".into(),
            expires_at: "2026-09-26T12:00:00Z".into(),
        }),
    )
    .unwrap();
    assert_eq!(issued.session, "s3cr3t");
    assert_eq!(issued.subject, "local|ada");
    assert_eq!(
        exchange("http://d", &reply, Err("EOF".into())).unwrap_err(),
        "http://d answered with something that is not a session: EOF"
    );
}

#[test]
fn a_refused_code_is_said_with_the_deployments_answer() {
    let reply = Reply {
        success: false,
        status: "400 Bad Request".into(),
        body: r#"{"error":"invalid_grant"}"#.into(),
    };
    let refused = exchange("http://127.0.0.1:1", &reply, Err("unread".into()));
    assert!(refused.unwrap_err().contains("invalid_grant"));
}

#[test]
fn signing_out_goes_to_the_deployment() {
    assert_eq!(
        sign_out_url("https://dash.firm.example"),
        "https://dash.firm.example/terminal/sign-out"
    );
    assert_eq!(
        not_reached("https://d", "timed out"),
        "could not reach https://d: timed out"
    );
}

#[test]
fn every_ampersand_is_kept_from_cmd() {
    assert_eq!(for_cmd("http://d?a=1&b=2&c"), "http://d?a=1^&b=2^&c");
}
