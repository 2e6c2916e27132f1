//! What each command does, one step after the other.
use meridian::arguments::{parse, Arguments};
use meridian::catalogue::image;
use meridian::catalogue::registry;
use meridian::commands::bring::{Ask as BringAsk, Bringing, Heard as BringHeard};
use meridian::commands::connect::{
    not_listening, where_to_sign_in, Ask as ConnectAsk, Connecting, Heard as ConnectHeard,
};
use meridian::commands::plugin::{
    action, not_done, plugin_command, says_yes, stopped, uploaded, without_a_session, Action,
    Ask as LaunchAsk, Heard as LaunchHeard, Launching, Plugin,
};
use meridian::commands::session::{held_for, held_session, wanted, Wanted};
use meridian::commands::sign_out::{Ask as SignOutAsk, Heard as SignOutHeard, SigningOut};
use meridian::commands::upload::{Ask as UploadAsk, Heard as UploadHeard, Ran, Uploading};
use meridian::commands::End;
use meridian::connect::{Issued, Pkce, Returned};
use meridian::doctor::examination::Ask as Check;
use meridian::doctor::{Answered, Failure};
use meridian::request::Reply;
use meridian::sessions::Held;
use meridian::tree::from_json;
use meridian::up::run;
use sha2::{Digest, Sha256};

fn typed(line: &str) -> Arguments {
    parse(line.split_whitespace().map(String::from).collect()).unwrap()
}

fn held(address: &str, session: &str) -> Held {
    Held {
        address: address.into(),
        session: session.into(),
        subject: "local|ada".into(),
        expires_at: "2026-09-26T12:00:00Z".into(),
    }
}

fn reply(success: bool, status: &str, body: &str) -> Reply {
    Reply {
        success,
        status: status.into(),
        body: body.into(),
    }
}

fn well(out: &str) -> End {
    End {
        code: 0,
        out: out.into(),
        err: String::new(),
        usage: false,
    }
}

fn badly(code: i32, err: &str, usage: bool) -> End {
    End {
        code,
        out: String::new(),
        err: err.into(),
        usage,
    }
}

// ── The session ──────────────────────────────────────────────────────────────

#[test]
fn a_command_acts_through_the_session_that_was_named_or_the_only_one() {
    assert_eq!(wanted(&typed("plugin list")), Ok(Wanted::Only));
    assert_eq!(
        wanted(&typed("plugin list --deployment https://d/")),
        Ok(Wanted::Of("https://d".into()))
    );
    assert!(wanted(&typed("plugin list --deployment d")).is_err());
    assert_eq!(
        held_for("https://d", None).unwrap_err(),
        "not connected to https://d: `meridian connect https://d` first"
    );
    let one = held("https://d", "s");
    assert_eq!(held_for("https://d", Some(one.clone())), Ok(one.clone()));
    assert_eq!(
        held_session(vec![]).unwrap_err(),
        "not connected to a deployment: `meridian connect <address>` first"
    );
    assert_eq!(held_session(vec![one.clone()]), Ok(one.clone()));
    assert_eq!(
        held_session(vec![one, held("https://a", "s")]).unwrap_err(),
        "connected to more than one deployment; say which with --deployment: https://a, https://d"
    );
}

// ── Signing in ───────────────────────────────────────────────────────────────

fn connecting() -> Connecting {
    Connecting::begin(&typed("connect https://d/"), &Ok("/s".into())).unwrap()
}

fn listened() -> ConnectHeard {
    ConnectHeard::Listened {
        port: 7,
        pkce: Pkce {
            verifier: "v".into(),
            challenge: "c".into(),
        },
        state: "st".into(),
    }
}

fn issued(session: &str) -> ConnectHeard {
    ConnectHeard::Exchanged(
        reply(true, "200 OK", ""),
        Ok(Issued {
            session: session.into(),
            subject: "local|ada".into(),
            expires_at: "2026-09-26T12:00:00Z".into(),
        }),
    )
}

fn connected_end(connecting: Connecting) -> End {
    match connecting.ask() {
        ConnectAsk::Nothing(end) => end,
        other => panic!("{other:?}"),
    }
}

#[test]
fn a_sign_in_starts_with_an_address_and_somewhere_to_keep_a_session() {
    let refused = |line: &str, directory: Result<String, String>| {
        Connecting::begin(&typed(line), &directory).unwrap_err()
    };
    assert_eq!(
        refused("connect", Ok(String::new())),
        badly(2, "meridian: connect takes the dashboard's address", true)
    );
    assert_eq!(
        refused("connect ftp://d", Ok(String::new())),
        badly(
            2,
            "meridian connect: ftp://d is neither https:// nor http://",
            false
        )
    );
    assert_eq!(
        refused("connect https://d", Err("no home".into())),
        badly(1, "meridian connect: no home", false)
    );
}

#[test]
fn a_sign_in_ends_with_a_session_that_is_kept() {
    let going = connecting();
    assert!(matches!(going.ask(), ConnectAsk::Listen));
    let going = going.told(listened());
    match going.ask() {
        ConnectAsk::Wait { url, state } => {
            assert_eq!(
                url,
                "https://d/terminal/authorize?redirect_uri=http%3A%2F%2F127.0.0.1%3A7%2Fcallback\
                 &code_challenge=c&code_challenge_method=S256&state=st"
            );
            assert_eq!(state, "st");
        }
        other => panic!("{other:?}"),
    }
    let going = going.told(ConnectHeard::Returned(Returned::Code("k".into())));
    match going.ask() {
        ConnectAsk::Exchange(request) => assert_eq!(
            request.body,
            "code=k&code_verifier=v&redirect_uri=http%3A%2F%2F127.0.0.1%3A7%2Fcallback"
        ),
        other => panic!("{other:?}"),
    }
    let going = going.told(issued("new"));
    assert!(matches!(going.ask(), ConnectAsk::Read(address) if address == "https://d"));
    // The one it replaces is ended at the deployment.
    let going = going.told(ConnectHeard::Read(Some(held("https://d", "old"))));
    assert!(matches!(
        going.ask(),
        ConnectAsk::SignOut { url, session }
            if url == "https://d/terminal/sign-out" && session == "old"
    ));
    let going = going.told(ConnectHeard::SignedOut);
    assert!(matches!(going.ask(), ConnectAsk::Write(kept) if kept == held("https://d", "new")));
    assert_eq!(
        connected_end(going.told(ConnectHeard::Written)),
        well(
            "Connected to https://d as local|ada. The session ends after 30 minutes unused, \
             and at 2026-09-26T12:00:00Z at the latest.\n"
        )
    );
}

#[test]
fn a_session_that_cannot_be_kept_is_ended() {
    let going = connecting()
        .told(listened())
        .told(ConnectHeard::Returned(Returned::Code("k".into())))
        .told(issued("new"))
        .told(ConnectHeard::Read(None))
        .told(ConnectHeard::NotWritten("disk full".into()));
    assert!(
        matches!(going.ask(), ConnectAsk::SignOut { session, .. } if session == "new")
    );
    assert_eq!(
        connected_end(going.told(ConnectHeard::SignedOut)),
        badly(1, "meridian connect: disk full", false)
    );
}

#[test]
fn a_sign_in_that_comes_to_nothing_says_why() {
    assert_eq!(
        connected_end(connecting().told(ConnectHeard::NotListening(not_listening("in use")))),
        badly(
            1,
            "meridian connect: could not listen on this machine's loopback: in use",
            false
        )
    );
    let waiting = || connecting().told(listened());
    assert_eq!(
        connected_end(waiting().told(ConnectHeard::Returned(Returned::Declined))),
        badly(
            1,
            "meridian connect: not connected; the sign-in was declined or refused.",
            false
        )
    );
    assert_eq!(
        connected_end(waiting().told(ConnectHeard::Nobody("nobody".into()))),
        badly(
            1,
            "meridian connect: nobody. Run it again when you are ready.",
            false
        )
    );
    let asked = || waiting().told(ConnectHeard::Returned(Returned::Code("k".into())));
    assert_eq!(
        connected_end(asked().told(ConnectHeard::NotExchanged("refused".into()))),
        badly(
            1,
            "meridian connect: could not reach https://d: refused",
            false
        )
    );
    assert_eq!(
        connected_end(asked().told(ConnectHeard::Exchanged(
            reply(false, "400 Bad Request", " used \n"),
            Err("unread".into())
        ))),
        badly(
            1,
            "meridian connect: https://d did not issue a session (400 Bad Request): used",
            false
        )
    );
    assert_eq!(
        where_to_sign_in("https://d", "u"),
        "Sign in to https://d in your browser. If it did not open, go to:\n\n  u\n\n"
    );
}

// ── Signing out ──────────────────────────────────────────────────────────────

fn signing_out(line: &str) -> SigningOut {
    SigningOut::begin(&typed(line), &Ok("/s".into()))
}

fn signed_out_end(signing: SigningOut) -> End {
    match signing.ask() {
        SignOutAsk::Nothing(end) => end,
        other => panic!("{other:?}"),
    }
}

#[test]
fn signing_out_presents_the_session_as_a_bearer() {
    let going = signing_out("sign-out https://d")
        .told(SignOutHeard::Read(Some(held("https://d", "s3cr3t"))));
    assert!(matches!(
        going.ask(),
        SignOutAsk::SignOut { url, session }
            if url == "https://d/terminal/sign-out" && session == "s3cr3t"
    ));
}

#[test]
fn a_session_is_forgotten_here_either_way() {
    for (told, said) in [
        (Ok(()), "Signed out of https://d.\n"),
        (
            Err("refused".to_string()),
            "Forgotten here, but could not reach https://d: refused; \
             the session there lapses on its own within 30 minutes.\n",
        ),
    ] {
        let going = signing_out("sign-out")
            .told(SignOutHeard::All(vec![held("https://d", "s")]))
            .told(SignOutHeard::SignedOut(told));
        assert!(matches!(going.ask(), SignOutAsk::Forget(address) if address == "https://d"));
        assert_eq!(
            signed_out_end(going.told(SignOutHeard::Forgotten(Ok(())))),
            well(said)
        );
    }
    let going = signing_out("sign-out")
        .told(SignOutHeard::All(vec![held("https://d", "s")]))
        .told(SignOutHeard::SignedOut(Ok(())))
        .told(SignOutHeard::Forgotten(Err("read-only".into())));
    assert_eq!(
        signed_out_end(going),
        badly(
            1,
            "meridian sign-out: could not forget the session: read-only",
            false
        )
    );
}

#[test]
fn a_sign_out_with_nothing_to_end_says_so() {
    assert_eq!(
        signed_out_end(signing_out("sign-out https://d").told(SignOutHeard::Read(None))),
        well("Not connected to https://d.\n")
    );
    assert_eq!(
        signed_out_end(signing_out("sign-out").told(SignOutHeard::All(vec![]))),
        well("Not connected to anything.\n")
    );
    assert_eq!(
        signed_out_end(signing_out("sign-out").told(SignOutHeard::All(vec![
            held("https://b", "s"),
            held("https://a", "s"),
        ]))),
        badly(
            2,
            "meridian sign-out: connected to more than one; say which:\
             \n  meridian sign-out https://a\n  meridian sign-out https://b",
            false
        )
    );
    assert_eq!(
        signed_out_end(signing_out("sign-out a b")),
        badly(2, "meridian: sign-out takes at most one address", true)
    );
    assert_eq!(
        signed_out_end(SigningOut::begin(
            &typed("sign-out"),
            &Err("no home".into())
        )),
        badly(1, "meridian sign-out: no home", false)
    );
    assert_eq!(signed_out_end(signing_out("sign-out d")).code, 2);
}

// ── Plugins ──────────────────────────────────────────────────────────────────

#[test]
fn plugin_says_what_it_takes() {
    let of = |line: &str| plugin_command(&typed(line));
    assert_eq!(of("plugin list"), Ok(Plugin::Catalogue));
    assert_eq!(
        of("plugin new p"),
        Ok(Plugin::New {
            name: "p".into(),
            into: "p".into()
        })
    );
    assert_eq!(
        of("plugin new p --into /x"),
        Ok(Plugin::New {
            name: "p".into(),
            into: "/x".into()
        })
    );
    assert_eq!(of("plugin").unwrap_err().code, 2);
    assert!(of("plugin share").unwrap_err().usage);
}

#[test]
fn the_catalogue_is_asked_for_what_was_typed() {
    let of = |line: &str| action(&typed(line));
    assert_eq!(of("plugin list"), Ok(Action::List));
    assert_eq!(
        of("plugin upload"),
        Ok(Action::Upload { dir: ".".into() })
    );
    assert_eq!(
        of("plugin upload --dir d"),
        Ok(Action::Upload { dir: "d".into() })
    );
    assert_eq!(
        of("plugin stop p"),
        Ok(Action::Stop {
            instance: "p".into()
        })
    );
    assert_eq!(
        of("plugin launch p 1 --instance i"),
        Ok(Action::Launch {
            name: "p".into(),
            version: "1".into(),
            instance: "i".into(),
            approved: false
        })
    );
    assert!(matches!(
        of("plugin launch p 1 --instance i --yes"),
        Ok(Action::Launch { approved: true, .. })
    ));
    for (line, verb) in [
        ("plugin upload", "upload"),
        ("plugin list", "list"),
        ("plugin launch p 1 --instance i", "launch"),
        ("plugin stop p", "stop"),
    ] {
        assert_eq!(of(line).unwrap().verb(), verb);
    }
    assert_eq!(
        of("plugin launch p 1"),
        Err(badly(
            2,
            "meridian plugin launch: --instance <id> names what it runs as",
            false
        ))
    );
    assert_eq!(
        of("plugin launch p 1 --instance I"),
        Err(badly(
            2,
            "meridian plugin launch: `I` is not an instance's name: lowercase letters, digits and single hyphens",
            false
        ))
    );
    assert!(of("plugin list all").unwrap_err().usage);
    assert_eq!(
        without_a_session("none").err,
        "meridian plugin: none"
    );
    assert_eq!(not_done("stop", "gone").err, "meridian plugin stop: gone");
    assert_eq!(uploaded("d", "sha256:ab"), "Uploaded to d, as sha256:ab.\n");
    assert_eq!(stopped("i"), "Stopped i.\n");
}

const CATALOGUE: &str =
    r#"{"versions": [{"name": "p", "version": "1", "roles": ["custody"], "tags": []}]}"#;

fn launching(approved: bool) -> Launching {
    Launching::begin("https://d", "p", "1", "i", approved)
}

#[test]
fn nothing_is_launched_that_was_not_approved() {
    let going = launching(false);
    assert!(matches!(going.ask(), LaunchAsk::Get(url) if url == "https://d/terminal/plugins"));
    let asked = || {
        launching(false)
            .told(LaunchHeard::Answered(reply(true, "200 OK", CATALOGUE)))
            .unwrap()
    };
    let (going, said) = asked();
    assert_eq!(said, "p 1 asks for\n  roles: custody\n  tags:  none\n");
    assert!(matches!(
        going.ask(),
        LaunchAsk::Question(question) if question == "Launch it as i, with these? [y/N] "
    ));
    for no in [None, Some("".to_string()), Some("yep".to_string())] {
        assert_eq!(
            asked().0.told(LaunchHeard::Said(no)).unwrap_err(),
            "not approved, so not launched. Where there is no terminal to ask at, --yes approves"
        );
    }
    let (going, _) = going.told(LaunchHeard::Said(Some(" yes\n".into()))).unwrap();
    match going.ask() {
        LaunchAsk::Launch(request) => {
            assert_eq!(request.url, "https://d/terminal/plugins/launch");
            let body = from_json(&request.body).unwrap();
            assert_eq!(body.strings_at("approved_roles"), ["custody"]);
        }
        other => panic!("{other:?}"),
    }
    let (going, _) = going
        .told(LaunchHeard::Answered(reply(true, "200 OK", "{}")))
        .unwrap();
    assert!(matches!(going.ask(), LaunchAsk::Nothing(said) if said == "Launched i: p 1.\n"));
}

#[test]
fn what_was_approved_beforehand_is_not_asked_about() {
    let (going, _) = launching(true)
        .told(LaunchHeard::Answered(reply(true, "200 OK", CATALOGUE)))
        .unwrap();
    assert!(matches!(going.ask(), LaunchAsk::Launch(_)));
    for yes in ["y", "Y", "yes", "Yes\n"] {
        assert!(says_yes(yes), "{yes:?}");
    }
    assert!(!says_yes("YES"));
}

#[test]
fn a_launch_that_comes_to_nothing_says_why() {
    assert_eq!(
        launching(true)
            .told(LaunchHeard::Answered(reply(true, "200 OK", "{}")))
            .unwrap_err(),
        "p 1 is not in https://d's catalogue: `meridian plugin list` shows what is"
    );
    assert_eq!(
        launching(true)
            .told(LaunchHeard::Unanswered("refused".into()))
            .unwrap_err(),
        "could not reach https://d: refused"
    );
    assert_eq!(
        launching(true)
            .told(LaunchHeard::Answered(reply(false, "403 Forbidden", "no")))
            .unwrap_err(),
        "403 Forbidden: no"
    );
}

// ── Uploading ────────────────────────────────────────────────────────────────

const PYPROJECT: &str = "[project]\nname = \"p\"\nversion = \"1\"\n\
                         dependencies = [\"open-meridian==0.2.0\"]\n[tool.meridian]\n";

/// The layout of an image of one blob, and the digests of its manifest and of
/// the blob.
fn layout() -> (Vec<u8>, Vec<u8>, String) {
    let blob = format!("sha256:{:x}", Sha256::digest(b"config"));
    let manifest = format!("{{\"config\":{{\"digest\":\"{blob}\"}}}}").into_bytes();
    let digest = format!("sha256:{:x}", Sha256::digest(&manifest));
    let index = format!("{{\"manifests\":[{{\"digest\":\"{digest}\"}}]}}").into_bytes();
    (index, manifest, digest)
}

fn uploading(told: Vec<UploadHeard>) -> (Uploading, String) {
    let mut going = Uploading::begin("https://d", "dir");
    let mut said = String::new();
    for heard in told {
        let (next, note) = going.told(heard);
        going = next;
        said.push_str(&note);
    }
    (going, said)
}

fn built() -> Vec<UploadHeard> {
    vec![
        UploadHeard::Text(Ok(PYPROJECT.into())),
        UploadHeard::Docker(Ran::Exited(true)),
        UploadHeard::Scratch(Ok("/t".into())),
        UploadHeard::Docker(Ran::Exited(true)),
        UploadHeard::Tar(Ran::Exited(true)),
    ]
}

fn answered(code: u16) -> UploadHeard {
    UploadHeard::Push(registry::Heard::Answered {
        code,
        status: format!("{code} Said"),
        location: None,
        body: String::new(),
    })
}

#[test]
fn a_version_is_recorded_with_what_was_pushed() {
    let (index, manifest, digest) = layout();
    let steps = || {
        let mut told = built();
        told.push(UploadHeard::Index(Ok(index.clone())));
        told.push(UploadHeard::File(image::Found::Bytes(manifest.clone())));
        told.push(UploadHeard::Presence(true));
        told.push(UploadHeard::Catalogue(Err("not asked".into())));
        told.push(answered(200));
        told
    };
    let (going, said) = uploading(steps());
    assert!(
        said.starts_with("Building meridian-plugin/p:1 from dir ...\n  sha256:"),
        "{said}"
    );
    assert!(said.ends_with(": already there\n"), "{said}");
    assert!(matches!(
        going.ask(),
        UploadAsk::Push(registry::Ask::Manifest(url, _, bytes))
            if url == "https://d/terminal/registry/v2/plugins/p/manifests/1" && bytes == manifest
    ));
    let (going, _) = going.told(answered(201));
    assert!(matches!(going.ask(), UploadAsk::Remove(path) if path == "/t"));
    let (going, _) = going.told(UploadHeard::Removed);
    match going.ask() {
        UploadAsk::Record(request) => {
            let body = from_json(&request.body).unwrap();
            assert_eq!(
                body.text_at("image_digest").as_deref(),
                Some(digest.as_str())
            );
        }
        other => panic!("{other:?}"),
    }
    let (going, _) = going.told(UploadHeard::Recorded(Ok(reply(true, "201 Created", ""))));
    assert!(matches!(going.ask(), UploadAsk::Nothing(Ok(recorded)) if recorded == digest));

    // What was not pushed is not recorded, and the directory is removed.
    let (going, _) = uploading(steps());
    let (going, _) = going.told(answered(500));
    assert!(matches!(going.ask(), UploadAsk::Remove(_)));
    let (going, _) = going.told(UploadHeard::Removed);
    assert!(matches!(
        going.ask(),
        UploadAsk::Nothing(Err(why)) if why == "the manifest was not taken: 500 Said: "
    ));
}

#[test]
fn the_image_is_built_saved_and_unpacked() {
    let asked: Vec<String> = (0..=5)
        .map(|n| {
            let told: Vec<UploadHeard> = built().into_iter().take(n).collect();
            format!("{:?}", uploading(told).0.ask())
        })
        .collect();
    assert_eq!(
        asked,
        [
            "Text(\"dir/pyproject.toml\")",
            "Docker([\"build\", \"-t\", \"meridian-plugin/p:1\", \"dir\"])",
            "Scratch",
            "Docker([\"save\", \"-o\", \"/t/image.tar\", \"meridian-plugin/p:1\"])",
            "Tar([\"-xf\", \"/t/image.tar\", \"-C\", \"/t\"])",
            "Search(Index(\"/t/index.json\"))",
        ]
    );
}

#[test]
fn an_upload_that_comes_to_nothing_says_why() {
    let ended = |n: usize, heard: UploadHeard| {
        let mut told: Vec<UploadHeard> = built().into_iter().take(n).collect();
        told.push(heard);
        match uploading(told).0.ask() {
            UploadAsk::Nothing(Err(why)) => why,
            other => panic!("{other:?}"),
        }
    };
    assert_eq!(
        ended(0, UploadHeard::Text(Err("no such file".into()))),
        "dir has no pyproject.toml: no such file"
    );
    assert_eq!(
        ended(0, UploadHeard::Text(Ok("[a]".into()))),
        "pyproject.toml has no [project]"
    );
    assert_eq!(
        ended(1, UploadHeard::Docker(Ran::Exited(false))),
        "`docker build -t meridian-plugin/p:1 dir` failed"
    );
    assert_eq!(
        ended(1, UploadHeard::Docker(Ran::NotRun("not found".into()))),
        "docker could not be run: not found"
    );
    assert_eq!(ended(2, UploadHeard::Scratch(Err("full".into()))), "full");
    assert_eq!(
        ended(4, UploadHeard::Tar(Ran::Exited(false))),
        "the saved image could not be unpacked"
    );
    assert_eq!(
        ended(4, UploadHeard::Tar(Ran::NotRun("not found".into()))),
        "tar could not be run: not found"
    );
    assert_eq!(
        ended(5, UploadHeard::Index(Err("gone".into()))),
        "/t/index.json could not be read: gone"
    );
    assert_eq!(
        ended(5, UploadHeard::Index(Ok(b"{}".to_vec()))),
        "the saved image holds no manifest this can push"
    );
}

// ── Bringing it up ───────────────────────────────────────────────────────────

fn bringing(line: &str) -> (Bringing, meridian::commands::bring::Said) {
    Bringing::begin(typed(line), None, None)
}

/// A command whose checks all pass, but for Helm, which says this.
fn checked(line: &str, helm: &str) -> (Bringing, String, String) {
    let (mut going, mut said) = bringing(line);
    let (mut out, mut err) = (said.out, said.err);
    while let BringAsk::Doctor(check) = going.ask() {
        let heard = match check {
            Check::Run(program, arguments) => BringHeard::Ran(match program.as_str() {
                "helm" => Ok(helm.to_string()),
                _ if arguments[0] == "auth" => Ok("yes".to_string()),
                _ => Ok("a".to_string()),
            }),
            Check::Fetch(..) => BringHeard::Fetched(Ok(Answered {
                status: 200,
                body: r#"{"token": "t"}"#.into(),
                date_s: Some(5),
            })),
            Check::Clock => BringHeard::Clock(5),
            Check::Nothing => panic!("over"),
        };
        (going, said) = going.told(heard);
        out.push_str(&said.out);
        err.push_str(&said.err);
    }
    (going, out, err)
}

#[test]
fn nothing_is_installed_past_a_finding_that_stops_it() {
    let line = "up --id dep-7 --enrolment-code c";
    let (going, out, err) = checked(line, "v3.1.0");
    assert!(matches!(going.ask(), BringAsk::Nothing(1)));
    assert!(out.contains("1 thing(s) would stop an install"), "{out}");
    assert_eq!(
        err,
        "Nothing was installed. Fix the above, or run again with --no-doctor.\n"
    );
    let (going, out, err) = checked(line, "v3.16.0");
    assert!(matches!(going.ask(), BringAsk::Up(run::Ask::Helm(..))));
    assert!(
        out.contains("nothing here would stop an install\n\nInstalling meridian"),
        "{out}"
    );
    assert_eq!(err, "");
}

#[test]
fn the_checks_can_be_skipped() {
    let (going, said) = bringing("up --no-doctor --id dep-7 --enrolment-code=c --image m:1 -f v");
    match going.ask() {
        BringAsk::Up(run::Ask::Helm(arguments, document)) => {
            assert!(arguments.contains(&"v".to_string()), "{arguments:?}");
            assert!(document.contains("repository: \"m\""), "{document}");
            assert!(!document.contains("platform"), "{document}");
        }
        other => panic!("{other:?}"),
    }
    assert!(said.out.starts_with("Installing meridian into meridian"));
}

#[test]
fn an_install_that_lacks_something_says_what() {
    for (line, why) in [
        (
            "up --no-doctor",
            "meridian up: --id is this deployment's identifier, which the platform gave you when you registered it.\n",
        ),
        (
            "up --no-doctor --id d",
            "meridian up: this install carries a one-time enrolment code in place of a key. \
             Put it in MERIDIAN_ENROLMENT_CODE, or pass --enrolment-code.\n",
        ),
        (
            "up --no-doctor --id d --enrolment-code c --port 65536",
            "meridian up: --port takes a port number\n",
        ),
    ] {
        let (going, said) = bringing(line);
        assert!(matches!(going.ask(), BringAsk::Nothing(2)), "{line}");
        assert_eq!(said.err, why);
    }
    let (going, _) = Bringing::begin(
        typed("up --no-doctor --id d"),
        Some("from-the-environment".into()),
        None,
    );
    assert!(matches!(going.ask(), BringAsk::Up(_)));
}

#[test]
fn what_comes_of_it_is_what_to_exit_with() {
    let (going, _) = bringing("up --no-doctor --id d --enrolment-code c");
    let (going, said) = going.told(BringHeard::Up(run::Heard::Helm(run::HelmRan::NoInput)));
    assert!(matches!(going.ask(), BringAsk::Nothing(1)));
    assert_eq!(said.err, "\nmeridian up: helm would not take its values\n");
    // A check's answer that was not asked for changes nothing.
    let (going, said) = going.told(BringHeard::Ran(Err(Failure::Missing("helm".into()))));
    assert!(matches!(going.ask(), BringAsk::Nothing(1)));
    assert_eq!(said.err, "");
}

#[test]
fn with_nothing_to_ask_with_the_reason_is_said_as_it_is() {
    let exchanging = connecting()
        .told(listened())
        .told(ConnectHeard::Returned(Returned::Code("k".into())));
    assert_eq!(
        connected_end(exchanging.told(ConnectHeard::NoClient("no TLS".into()))),
        badly(1, "meridian connect: no TLS", false)
    );
    let going = signing_out("sign-out")
        .told(SignOutHeard::All(vec![held("https://d", "s")]))
        .told(SignOutHeard::NoClient("no TLS".into()));
    assert!(matches!(going.ask(), SignOutAsk::Forget(_)));
    assert_eq!(
        signed_out_end(going.told(SignOutHeard::Forgotten(Ok(())))),
        well("Forgotten here, but no TLS; the session there lapses on its own within 30 minutes.\n")
    );
    assert_eq!(
        launching(true)
            .told(LaunchHeard::NoClient("no TLS".into()))
            .unwrap_err(),
        "no TLS"
    );
    let (index, manifest, _) = layout();
    let mut told = built();
    told.push(UploadHeard::Index(Ok(index)));
    told.push(UploadHeard::File(image::Found::Bytes(manifest)));
    told.push(UploadHeard::Presence(true));
    told.push(UploadHeard::NoClient("no TLS".into()));
    let (going, _) = uploading(told);
    assert!(matches!(going.ask(), UploadAsk::Remove(path) if path == "/t"));
    let (going, _) = going.told(UploadHeard::Removed);
    assert!(matches!(going.ask(), UploadAsk::Nothing(Err(why)) if why == "no TLS"));
}
