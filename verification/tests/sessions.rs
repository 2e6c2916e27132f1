//! Where sessions are kept.
use meridian::sessions::{directory, file_name, keeps_a_session, partial_name, sorted, Held};

fn held(address: &str, session: &str) -> Held {
    Held {
        address: address.into(),
        session: session.into(),
        subject: "local|ada".into(),
        expires_at: "2026-09-26T12:00:00Z".into(),
    }
}

#[test]
fn an_address_cannot_name_a_file_outside_the_directory() {
    assert_eq!(
        file_name("https://dash.firm.example:8443"),
        "dash.firm.example_8443.json"
    );
    assert!(!file_name("https://../../etc/passwd").contains('/'));
}

#[test]
fn a_session_in_place_is_told_from_one_that_is_not() {
    assert_eq!(partial_name("http://d:1"), ".d_1.json.partial");
    assert!(keeps_a_session(&file_name("http://d:1")));
    assert!(!keeps_a_session(&partial_name("http://d:1")));
    assert!(!keeps_a_session(".json"));
    assert!(!keeps_a_session("json"));
}

#[test]
fn sessions_are_kept_where_the_environment_says() {
    let some = |text: &str| Some(text.to_string());
    assert_eq!(
        directory(&some("/x"), &some("/a"), &some("/h")).unwrap(),
        "/x/meridian/sessions"
    );
    assert_eq!(
        directory(&some(""), &some("/a"), &some("/h")).unwrap(),
        "/a/meridian/sessions"
    );
    assert_eq!(
        directory(&None, &None, &some("/h/")).unwrap(),
        "/h/.config/meridian/sessions"
    );
    assert_eq!(
        directory(&None, &some(""), &None).unwrap_err(),
        "there is no home directory to keep a session in"
    );
}

#[test]
fn every_session_is_listed_by_address() {
    let all = sorted(vec![
        held("https://c", "1"),
        held("https://a", "2"),
        held("https://b", "3"),
        held("https://a", "4"),
    ]);
    assert_eq!(
        all,
        [
            held("https://a", "2"),
            held("https://a", "4"),
            held("https://b", "3"),
            held("https://c", "1"),
        ]
    );
    assert!(sorted(vec![]).is_empty());
}

#[test]
fn a_session_is_kept_per_deployment() {
    assert_eq!(file_name("https://dash.firm.example"), "dash.firm.example.json");
    assert_eq!(file_name("http://127.0.0.1:8443"), "127.0.0.1_8443.json");
    assert_ne!(
        file_name("http://127.0.0.1:8443"),
        file_name("http://127.0.0.1:8444")
    );
    // What is not a letter, a digit, a dot or a hyphen is an underscore.
    assert_eq!(file_name("https://a:1"), file_name("https://a_1"));
}
