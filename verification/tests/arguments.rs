//! What was typed.
use meridian::arguments::{credential, parse};
use meridian::commands::{command, intended, Command};

fn said(line: &str) -> Vec<String> {
    line.split_whitespace().map(String::from).collect()
}

#[test]
fn a_switch_is_never_read_as_a_flags_value() {
    // `--no-doctor` after `-p` would eat it if switches and flags were not
    // told apart, and the install would run unchecked with no params.
    let arguments = parse(said("up -p first-run.yaml --no-doctor --id dep-7")).unwrap();

    assert_eq!(arguments.command, "up");
    assert_eq!(arguments.value("--params", "-p"), Some("first-run.yaml"));
    assert!(arguments.set("--no-doctor"));
    assert_eq!(arguments.value("--id", "--id"), Some("dep-7"));
}

#[test]
fn both_spellings_of_a_flag_are_the_same_flag() {
    let arguments = parse(said("up --params=first-run.yaml")).unwrap();
    assert_eq!(arguments.value("--params", "-p"), Some("first-run.yaml"));
}

#[test]
fn values_files_accumulate_in_the_order_they_were_given() {
    let arguments = parse(said("up -f a.yaml --values b.yaml")).unwrap();
    assert_eq!(arguments.every("--values", "-f"), vec!["a.yaml", "b.yaml"]);
}

#[test]
fn a_flag_with_nothing_after_it_is_refused_rather_than_defaulted() {
    assert!(parse(said("up --id")).is_err());
}

#[test]
fn an_unknown_switch_is_refused_rather_than_dropped() {
    // A misspelled --no-doctor that is quietly ignored installs something
    // the person asked not to have checked.
    assert!(parse(said("up --no-docter")).is_err());
}

#[test]
fn an_unknown_option_is_refused_however_it_is_spelled() {
    assert_eq!(
        parse(said("up --no-docter=true")).unwrap_err(),
        "--no-docter=true is not an option this takes"
    );
    assert_eq!(
        parse(said("plugin launch --yes=true")).unwrap_err(),
        "--yes=true is not an option this takes"
    );
}

#[test]
fn a_flag_that_a_switch_comes_after_has_no_value() {
    assert_eq!(
        parse(said("up -p --no-doctor")).unwrap_err(),
        "-p needs a value"
    );
    assert_eq!(
        parse(said("up --id -h --no-doctor")).unwrap_err(),
        "--id needs a value"
    );
    // Behind an equals sign it is what somebody meant.
    let arguments = parse(said("up -p=--no-doctor")).unwrap();
    assert_eq!(arguments.value("--params", "-p"), Some("--no-doctor"));
    assert!(!arguments.set("--no-doctor"));
}

#[test]
fn plugin_takes_its_words_and_nothing_else_does() {
    let plugin = parse(said("plugin new snaptrade --into /tmp/s")).expect("parsed");
    assert_eq!(plugin.words, ["new", "snaptrade"]);
    assert_eq!(plugin.value("--into", "--into"), Some("/tmp/s"));
    assert!(parse(said("doctor snaptrade")).is_err());
}

#[test]
fn connect_and_sign_out_take_an_address() {
    assert_eq!(
        parse(said("connect https://dash.firm.example"))
            .unwrap()
            .words,
        ["https://dash.firm.example"]
    );
    assert!(parse(said("sign-out")).unwrap().words.is_empty());
}

#[test]
fn a_launch_takes_its_instance_and_its_approval() {
    let launch = parse(said(
        "plugin launch reference-plugin 0.1.0 --instance ref --deployment http://127.0.0.1:8443 --yes",
    ))
    .unwrap();
    assert_eq!(launch.words, ["launch", "reference-plugin", "0.1.0"]);
    assert_eq!(launch.value("--instance", "--instance"), Some("ref"));
    assert_eq!(
        launch.value("--deployment", "--deployment"),
        Some("http://127.0.0.1:8443")
    );
    assert!(launch.set("--yes"));
    assert!(parse(said("plugin upload --dir")).is_err());
}

#[test]
fn a_stray_word_is_refused_rather_than_ignored() {
    assert!(parse(said("up dep-7")).is_err());
}

#[test]
fn what_cannot_be_taken_apart_says_why() {
    assert_eq!(
        parse(said("up dep-7")).unwrap_err(),
        "dep-7 is not an option this takes"
    );
    assert_eq!(
        parse(said("up --no-docter")).unwrap_err(),
        "--no-docter is not an option this takes"
    );
    assert_eq!(parse(said("up --id")).unwrap_err(), "--id needs a value");
    assert_eq!(parse(vec![]).unwrap().command, "");
}

#[test]
fn the_last_of_a_flag_counts() {
    let arguments = parse(said("up -n a --namespace=b -n c --id=x=y")).unwrap();
    assert_eq!(arguments.value("--namespace", "-n"), Some("c"));
    assert_eq!(arguments.value("--id", "--id"), Some("x=y"));
    assert_eq!(arguments.value("--port", "--port"), None);
}

#[test]
fn a_credential_is_the_flags_or_else_the_environments() {
    let flag = "--enrolment-code";
    let held = || Some("held".to_string());
    let given = parse(said("up --enrolment-code=given")).unwrap();
    assert_eq!(credential(&given, flag, held()).as_deref(), Some("given"));
    let none = parse(said("up")).unwrap();
    assert_eq!(credential(&none, flag, held()).as_deref(), Some("held"));
    assert_eq!(credential(&none, flag, Some(String::new())), None);
    assert_eq!(credential(&none, flag, None), None);
    let empty = parse(said("up --enrolment-code=")).unwrap();
    assert_eq!(credential(&empty, flag, held()), None);
}

#[test]
fn a_command_is_what_the_first_word_says() {
    let of = |line: &str| command(&parse(said(line)).unwrap());
    assert_eq!(of("doctor"), Command::Doctor);
    assert_eq!(of("up"), Command::Up);
    assert_eq!(of("plugin list"), Command::Plugin);
    assert_eq!(of("connect a"), Command::Connect);
    assert_eq!(of("sign-out"), Command::SignOut);
    assert_eq!(of("up --help"), Command::Help);
    assert_eq!(of("help"), Command::Help);
    assert_eq!(of(""), Command::Help);
    assert_eq!(of("down"), Command::Unknown("down".into()));
}

#[test]
fn what_was_not_said_is_the_default() {
    let meant = intended(&parse(said("doctor")).unwrap());
    assert_eq!(meant.namespace, "meridian");
    assert_eq!(meant.platform, "https://open-meridian.com");
    assert_eq!(meant.image, "ghcr.io/open-meridian/meridian-runtime:latest");
    let meant = intended(&parse(said("doctor -n other --image=m:1")).unwrap());
    assert_eq!(meant.namespace, "other");
    assert_eq!(meant.image, "m:1");
}

#[test]
fn every_argument_is_kept() {
    let arguments = parse(said("plugin launch a -n b --id=c --yes 1")).unwrap();
    assert_eq!(arguments.words, ["launch", "a", "1"]);
    assert_eq!(arguments.switches, ["--yes"]);
    assert_eq!(
        arguments.flags,
        [
            ("-n".to_string(), "b".to_string()),
            ("--id".to_string(), "c".to_string())
        ]
    );
}
