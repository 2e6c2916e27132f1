//! Bringing a deployment up.
use meridian::order::Table;
use meridian::up::answers::{attribute, variables};
use meridian::up::cookies::Jar;
use meridian::up::install::quoted;
use meridian::up::page::{refusal, unescape};
use meridian::up::run::{
    dashboard_service, kubectl, kubectl_saying, Ask, Heard, HelmRan, Knocked, KubectlRan, Up,
};
use meridian::up::script::{Ask as Wanted, Script};
use meridian::yaml::{from_yaml, Document};
use meridian::up::{
    administrator, answers, asked_for, findings, first_admin_code, form_encoded, helm_arguments,
    params_from, passes, shown, values_document, variable, wants_a_code, Install,
};

fn install() -> Install {
    Install {
        release: "meridian".into(),
        namespace: "meridian".into(),
        chart: "oci://ghcr.io/open-meridian/charts/meridian-runtime".into(),
        chart_version: None,
        deployment_id: "dep-7".into(),
        enrolment_code: "ENROL-9XK2".into(),
        platform: None,
        image: None,
        values: vec![],
        timeout: "10m".into(),
    }
}

fn table(pairs: &[(&str, &str)]) -> Table {
    let mut table = Table::new();
    for (name, text) in pairs {
        table.insert(name.to_string(), text.to_string());
    }
    table
}

/// The wizard's own form, in the shape the dashboard renders it.
const PAGE: &str = "\
<h1>Set up this deployment</h1>\
<form method=\"post\">\
<label>Host<input name=\"db_host\" value=\"\" placeholder=\"postgres\"></label>\
<label>Port<input name=\"db_port\" value=\"5432\" placeholder=\"5432\"></label>\
<label>Serving password<input type=\"password\" name=\"db_serving_password\" autocomplete=\"off\"></label>\
<label>How people sign in<select name=\"backend\"><option value=\"local\">An account here</option></select></label>\
<button formaction=\"/first-run/check\">Test</button>\
<button formaction=\"/first-run/apply\">Apply</button>\
</form>";

#[test]
fn the_enrolment_code_never_reaches_an_argument() {
    let arguments = helm_arguments(&install()).join(" ");

    assert!(
        !arguments.contains("ENROL-9XK2"),
        "arguments are readable by every process on the machine: {arguments}"
    );
    assert!(arguments.contains("--values -"), "{arguments}");
    assert!(values_document(&install()).contains("ENROL-9XK2"));
}

#[test]
fn an_install_that_was_told_no_platform_writes_none() {
    // The chart holds the address, and an install that wrote it down would be
    // carrying a value nobody gave it -- which is how a values file ends up
    // pinning a platform somebody later moves.
    let document = values_document(&install());

    assert!(!document.contains("platform"), "{document}");
}

#[test]
fn a_platform_somebody_named_is_carried() {
    // A staging platform, while somebody tests a change to the platform.
    let mut intended = install();
    intended.platform = Some("https://uat.open-meridian.com".into());

    assert!(values_document(&intended).contains("uat.open-meridian.com"));
}

#[test]
fn what_is_printed_holds_no_credential() {
    let said = shown(&install());

    assert!(!said.contains("ENROL-9XK2"), "{said}");
    assert!(said.contains("$MERIDIAN_ENROLMENT_CODE"), "{said}");
    // And it is still the command somebody could run.
    assert!(
        said.starts_with("helm upgrade --install meridian "),
        "{said}"
    );
}

#[test]
fn what_is_printed_is_the_same_whatever_the_code_is() {
    let mut other = install();
    other.enrolment_code = "ENROL-0000".into();
    assert_eq!(shown(&install()), shown(&other));
}

#[test]
fn a_persons_own_values_come_before_this_commands_own() {
    let mut intended = install();
    intended.values = vec!["mine.yaml".into()];

    let arguments = helm_arguments(&intended);
    let mine = arguments.iter().position(|a| a == "mine.yaml").unwrap();
    let ours = arguments.iter().rposition(|a| a == "-").unwrap();

    assert!(
        mine < ours,
        "what was typed wins over what a file holds: {arguments:?}"
    );
}

#[test]
fn nothing_waits_for_the_whole_release() {
    // A fresh install has no database and no directory. Waiting for the
    // components that need them is waiting for answers nobody has given.
    assert!(!helm_arguments(&install()).iter().any(|a| a == "--wait"));
}

#[test]
fn helm_is_told_a_version_only_where_there_is_one() {
    let mut intended = install();
    intended.chart_version = Some("1.2.3".into());
    intended.values = vec!["a".into(), "b".into()];
    assert_eq!(
        helm_arguments(&intended),
        [
            "upgrade",
            "--install",
            "meridian",
            "oci://ghcr.io/open-meridian/charts/meridian-runtime",
            "--namespace",
            "meridian",
            "--create-namespace",
            "--version",
            "1.2.3",
            "--values",
            "a",
            "--values",
            "b",
            "--values",
            "-",
            "--timeout",
            "10m",
        ]
    );
}

#[test]
fn an_image_override_becomes_a_repository_and_a_tag() {
    let mut intended = install();
    intended.image = Some("registry.firm.internal/meridian:2026-09-23".into());

    let document = values_document(&intended);

    assert!(
        document.contains("repository: \"registry.firm.internal/meridian\""),
        "{document}"
    );
    assert!(document.contains("tag: \"2026-09-23\""), "{document}");
}

#[test]
fn the_values_are_a_document_of_quoted_scalars() {
    let mut intended = install();
    intended.deployment_id = "a\"b\\c".into();
    intended.platform = Some("https://p".into());
    intended.image = Some("m".into());
    assert_eq!(
        values_document(&intended),
        "# Written by `meridian up`. Everything else the chart defaults.\n\
         deployment:\n  id: \"a\\\"b\\\\c\"\n  enrolmentCode: \"ENROL-9XK2\"\n\
         platform:\n  address: \"https://p\"\n\
         image:\n  repository: \"m\"\n  tag: \"latest\"\n"
    );
    assert_eq!(quoted("\\\""), "\"\\\\\\\"\"");
    assert_eq!(quoted("a\nb\r\tc"), "\"a\\nb\\r\tc\"");
    assert_eq!(
        quoted("\0\u{85}\u{2028}\u{feff}\u{1f600}"),
        "\"\\u0000\\u0085\\u2028\\uFEFF\u{1f600}\""
    );
}

#[test]
fn a_params_file_holding_a_password_is_refused_with_where_to_put_it() {
    let refusal = params_from("db_host: postgres\ndb_serving_password: hunter2\n")
        .expect_err("a file with a password in it");

    assert!(
        refusal.contains("MERIDIAN_DB_SERVING_PASSWORD"),
        "{refusal}"
    );
    assert!(refusal.contains("gets committed"), "{refusal}");
    assert!(
        refusal.ends_with("which this reads (spec/the-cli, requirement 10)."),
        "{refusal}"
    );
}

#[test]
fn a_client_secret_is_a_credential_too() {
    assert!(params_from("oidc_client_secret: abc\n").is_err());
    assert!(params_from("ldap_bind_passphrase: abc\n").is_err());
}

#[test]
fn numbers_and_flags_are_answers_like_any_other() {
    let params = params_from("db_port: 5432\ndb_tls: true\ndb_host: postgres\n").unwrap();

    assert_eq!(params.get("db_port"), Some("5432"));
    assert_eq!(params.get("db_tls"), Some("true"));
}

#[test]
fn a_nested_document_is_answering_a_shape_the_form_does_not_have() {
    let refusal = params_from("database:\n  host: postgres\n").expect_err("nested");
    assert!(refusal.contains("scalar"), "{refusal}");
}

#[test]
fn a_params_file_that_is_no_flat_mapping_is_refused() {
    let refused = params_from("a: [").unwrap_err();
    assert!(
        refused.starts_with("that params file is not YAML: "),
        "{refused}"
    );
    assert_eq!(
        params_from("- a\n").unwrap_err(),
        "a params file is one flat mapping of the wizard's fields to answers"
    );
    assert_eq!(
        params_from("1: a\n").unwrap_err(),
        "every field in a params file is named by a string"
    );
    assert!(params_from("a: null\n").unwrap_err().contains("scalar"));
    assert!(params_from("a: !t b\n").unwrap_err().contains("scalar"));
    assert!(params_from("a: [b]\n").unwrap_err().contains("scalar"));
    assert_eq!(params_from("!t a: b\n").unwrap().get("a"), Some("b"));
    assert_eq!(params_from("{}").unwrap().len(), 0);
}

#[test]
fn a_fields_variable_is_its_name_in_capitals() {
    assert_eq!(variable("db-serving_password2"), "MERIDIAN_DB_SERVING_PASSWORD2");
    assert_eq!(variable("straße"), "MERIDIAN_STRASSE");
    let (_, credentials) = asked_for(PAGE);
    assert_eq!(variables(&credentials), ["MERIDIAN_DB_SERVING_PASSWORD"]);
}

#[test]
fn the_form_itself_says_which_fields_are_credentials() {
    let (fields, credentials) = asked_for(PAGE);

    assert!(
        fields.contains("db_host") && fields.contains("backend"),
        "{fields:?}"
    );
    assert_eq!(
        credentials.as_list().iter().cloned().collect::<Vec<_>>(),
        vec!["db_serving_password".to_string()]
    );
    // A button is not a field.
    assert!(!fields.contains("Test"));
}

#[test]
fn an_attribute_is_read_to_its_closing_quote() {
    assert_eq!(
        attribute("input type=\"password\" name=\"a\"", "name").as_deref(),
        Some("a")
    );
    assert_eq!(attribute("input name=\"a", "name"), None);
    assert_eq!(attribute("input", "name"), None);
}

#[test]
fn a_typo_is_refused_against_the_form_rather_than_posted_as_nothing() {
    let params = params_from("db_hostname: postgres\n").unwrap();
    let (fields, credentials) = asked_for(PAGE);

    let refusals = answers(&params, &fields, &credentials, &Table::new()).expect_err("a typo");

    assert_eq!(refusals.len(), 1);
    assert!(refusals[0].contains("db_host"), "{refusals:?}");
}

#[test]
fn every_answer_that_is_refused_says_why() {
    let (fields, credentials) = asked_for(PAGE);
    let params = table(&[("db_serving_password", "x"), ("nowhere", "y"), ("port", "z")]);
    assert_eq!(
        answers(&params, &fields, &credentials, &Table::new()).unwrap_err(),
        [
            "`db_serving_password` is a credential: the wizard asks for it as a password. \
             Put it in MERIDIAN_DB_SERVING_PASSWORD instead.",
            "this wizard does not ask for `nowhere`.",
            "this wizard does not ask for `port`. Did you mean `db_port`?",
        ]
    );
}

#[test]
fn credentials_come_from_the_environment_and_the_rest_from_the_file() {
    let params = params_from("db_host: postgres\ndb_port: 5432\nbackend: local\n").unwrap();
    let (fields, credentials) = asked_for(PAGE);

    let posted = answers(
        &params,
        &fields,
        &credentials,
        &table(&[("MERIDIAN_DB_SERVING_PASSWORD", "hunter2")]),
    )
    .unwrap();

    assert_eq!(posted.get("db_host"), Some("postgres"));
    assert_eq!(posted.get("db_serving_password"), Some("hunter2"));
}

#[test]
fn a_credential_the_environment_does_not_hold_is_left_to_the_wizard_to_refuse() {
    // Choosing one way to sign in leaves the other two's fields empty, and an
    // empty credential for a route nobody chose is correct.
    let params = params_from("db_host: postgres\n").unwrap();
    let (fields, credentials) = asked_for(PAGE);

    let posted = answers(&params, &fields, &credentials, &Table::new()).unwrap();

    assert!(!posted.contains_key("db_serving_password"), "{posted:?}");
}

#[test]
fn the_wizards_findings_are_read_back_as_it_lists_them() {
    let page = "<ul class=\"refusal\"><li>the serving role may create tables</li>\
                <li>this deployment could not sign in to the directory</li></ul>";

    assert_eq!(
        findings(page),
        vec![
            "the serving role may create tables".to_string(),
            "this deployment could not sign in to the directory".to_string(),
        ]
    );
    assert!(!passes(page));
}

#[test]
fn passing_is_the_class_the_wizard_marks_it_with() {
    assert!(passes("<p class=\"passed\">Everything passes.</p>"));
}

#[test]
fn a_lost_session_is_the_page_that_asks_for_a_code() {
    assert!(wants_a_code(
        "<form method=\"post\" action=\"/first-run/claim\">"
    ));
    assert!(
        !wants_a_code(PAGE),
        "the wizard itself does not ask for a code"
    );
}

#[test]
fn who_administers_it_is_read_off_the_page_that_says_so() {
    // The wizard's applied page, as meridian-core's dashboard writes it for
    // each way of naming an administrator.
    let local = "<h1>This deployment is configured</h1>\
                 <p><strong>ada</strong> administers this deployment. Sign in with \
                 the account and password you just gave; there is nothing to redeem.</p>";
    let group = "<p>Everybody in <strong>meridian-admins</strong> administers this \
                 deployment. Sign in through the directory you configured.</p>";

    assert_eq!(
        administrator(local).as_deref(),
        Some("ada administers this deployment")
    );
    assert_eq!(
        administrator(group).as_deref(),
        Some("Everybody in meridian-admins administers this deployment")
    );
    // A page that did not finish says nothing of the kind.
    assert_eq!(
        administrator("<ul class=\"refusal\"><li>nope</li></ul>"),
        None
    );
}

#[test]
fn what_the_wizard_refuses_is_said_without_its_markup() {
    assert_eq!(
        refusal("<p class=\"refusal\">used up</p>", "that code was refused"),
        "that code was refused: used up"
    );
    assert_eq!(
        refusal("<p>", "that code was refused"),
        "that code was refused"
    );
    assert_eq!(
        unescape("a &lt;b&gt; &quot;c&quot; &#39;d&#39; &amp;lt;"),
        "a <b> \"c\" 'd' &lt;"
    );
}

#[test]
fn the_first_administrators_code_is_the_one_after_it_is_spoken_of() {
    assert_eq!(
        first_admin_code("<code>no</code> Your first administrator's code: <code>A&amp;B</code>"),
        Some("A&B".to_string())
    );
    assert_eq!(first_admin_code("<code>no</code>"), None);
    assert_eq!(
        first_admin_code("Your first administrator's code: <code>A"),
        None
    );
}

#[test]
fn a_form_post_escapes_what_a_password_can_hold() {
    // A password is a string, and a string with `&` in it would otherwise end
    // one field and start another.
    let fields = table(&[
        ("db_host", "postgres.internal"),
        ("db_serving_password", "a&b=c d+e%"),
    ]);

    assert_eq!(
        form_encoded(&fields),
        "db_host=postgres.internal&db_serving_password=a%26b%3Dc%20d%2Be%25"
    );
}

#[test]
fn a_cookie_replaces_the_one_by_its_name() {
    let mut jar = Jar::new();
    assert_eq!(jar.header(), None);
    jar.keep("session=a; Path=/; HttpOnly");
    jar.keep("other=b");
    jar.keep("session=c=d;x");
    jar.keep("nothing");
    assert_eq!(jar.header().as_deref(), Some("other=b; session=c=d"));
}

// ── Answering the wizard ─────────────────────────────────────────────────────

fn posted(script: &Script) -> (String, String) {
    match script.ask() {
        Wanted::Post(path, form) => (path, form),
        other => panic!("{other:?}"),
    }
}

#[test]
fn a_script_answers_the_wizards_own_endpoints() {
    let script = Script::begin(table(&[("db_host", "postgres")]), "CODE 1");
    assert_eq!(
        posted(&script),
        ("/first-run/claim".to_string(), "code=CODE%201".to_string())
    );
    let (script, _) = script.page("").unwrap();
    assert!(matches!(script.ask(), Wanted::Get(path) if path == "/first-run"));
    let (script, _) = script.page(PAGE).unwrap();
    assert!(
        matches!(script.ask(), Wanted::Variables(names) if names == ["MERIDIAN_DB_SERVING_PASSWORD"])
    );
    let (script, note) = script
        .environment(&table(&[("MERIDIAN_DB_SERVING_PASSWORD", "hunter2")]))
        .unwrap();
    assert_eq!(note, "\nTesting 2 answers.\n");
    let answers = "db_host=postgres&db_serving_password=hunter2".to_string();
    assert_eq!(
        posted(&script),
        ("/first-run/check".to_string(), answers.clone())
    );
    let (script, note) = script.page("<p class=\"passed\">").unwrap();
    assert_eq!(note, "They pass. Applying.\n");
    assert_eq!(posted(&script), ("/first-run/apply".to_string(), answers));
    let (script, note) = script
        .page("<p><strong>ada</strong> administers this deployment.</p>")
        .unwrap();
    assert_eq!(
        note,
        "\nThis deployment is configured. ada administers this deployment.\n\
         Sign in at its dashboard the way you chose; there is nothing to redeem.\n"
    );
    assert!(matches!(script.ask(), Wanted::Nothing));
}

#[test]
fn a_script_that_is_refused_says_where() {
    let begin = || Script::begin(table(&[("db_host", "postgres")]), "CODE");
    assert_eq!(
        begin()
            .page("<form action=\"/first-run/claim\"><p class=\"refusal\">expired</p>")
            .unwrap_err(),
        "that first-run code was refused: expired"
    );
    let form = || begin().page("").unwrap().0;
    let typo = form()
        .page("<input name=\"other\">")
        .unwrap()
        .0
        .environment(&Table::new());
    assert_eq!(
        typo.unwrap_err(),
        "these answers are not this wizard's:\n  - this wizard does not ask for `db_host`."
    );
    let check = || {
        form()
            .page(PAGE)
            .unwrap()
            .0
            .environment(&Table::new())
            .unwrap()
            .0
    };
    assert_eq!(
        check().page("<li>a</li><li>b</li>").unwrap_err(),
        "the wizard refuses these answers, and wrote nothing:\n  - a\n  - b"
    );
    let apply = check().page("class=\"passed\"").unwrap().0;
    assert_eq!(
        apply.page("<li>c</li>").unwrap_err(),
        "applying did not finish:\n  - c"
    );
}

// ── The whole of it ──────────────────────────────────────────────────────────

fn exited(success: bool, stdout: &str, stderr: &str) -> Heard {
    Heard::Kubectl(KubectlRan::Exited {
        success,
        stdout: stdout.into(),
        stderr: stderr.into(),
    })
}

/// What it asks for, as a programmer reads it.
fn asked(up: &Up) -> String {
    format!("{:?}", up.ask())
}

fn forwarded(params: Option<String>, code: Option<String>) -> Up {
    let (mut up, _) = Up::begin(install(), 8443, params.clone(), code);
    if params.is_some() {
        up = up.told(Heard::Text(Ok("db_host: postgres".into()))).0;
    }
    for heard in [
        Heard::Helm(HelmRan::Exited(true, "exit status: 0".into())),
        exited(true, "service/m-dashboard\n", ""),
        exited(true, "rolled out\n", ""),
        Heard::Forwarded(Ok(())),
    ] {
        up = up.told(heard).0;
    }
    up
}

#[test]
fn it_goes_from_an_empty_namespace_to_the_wizard() {
    let (up, said) = Up::begin(install(), 8443, None, None);
    assert!(
        said.starts_with("Installing meridian into meridian:\n\n  helm upgrade"),
        "{said}"
    );
    assert!(said.contains("\n  VALUES\n\n"), "{said}");
    assert!(matches!(
        up.ask(),
        Ask::Helm(arguments, document)
            if arguments == helm_arguments(&install()) && document == values_document(&install())
    ));
    let (up, said) = up.told(Heard::Helm(HelmRan::Exited(true, String::new())));
    assert_eq!(said, "Installed.\n");
    assert_eq!(
        asked(&up),
        "Kubectl([\"--namespace\", \"meridian\", \"get\", \"service\", \"-l\", \
         \"app.kubernetes.io/instance=meridian,meridian.dev/component=dashboard\", \"-o\", \"name\"])"
    );
    let (up, said) = up.told(exited(true, " service/m-dashboard\n", ""));
    assert_eq!(
        said,
        "Waiting for service/m-dashboard to answer its health check.\n"
    );
    assert_eq!(
        asked(&up),
        "Kubectl([\"--namespace\", \"meridian\", \"rollout\", \"status\", \
         \"deployment/m-dashboard\", \"--timeout\", \"300s\"])"
    );
    let (up, said) = up.told(exited(true, "rolled out\n", ""));
    assert_eq!(said, "rolled out\n");
    assert_eq!(
        asked(&up),
        "Forward([\"--namespace\", \"meridian\", \"port-forward\", \"service/m-dashboard\", \"8443:80\"])"
    );
    let (up, _) = up.told(Heard::Forwarded(Ok(())));
    assert_eq!(asked(&up), "Knock(\"http://127.0.0.1:8443/first-run\")");
    let (up, _) = up.told(Heard::Knocked(Knocked::Unanswered("refused".into()), true));
    let (up, said) = up.told(Heard::Knocked(Knocked::Answered(200, String::new()), true));
    assert!(
        said.starts_with("\nThe wizard is at http://127.0.0.1:8443/first-run\n"),
        "{said}"
    );
    assert_eq!(asked(&up), "Interrupt");
    let (up, said) = up.told(Heard::Interrupted);
    assert_eq!(said, "\nForward closed. Nothing else was left running.\n");
    assert_eq!(asked(&up), "Kill");
    let (up, _) = up.told(Heard::Killed);
    assert!(matches!(up.ask(), Ask::Nothing(Ok(()))));
}

fn ended(up: Up) -> String {
    match up.ask() {
        Ask::Nothing(Err(why)) => why,
        Ask::Kill => ended(up.told(Heard::Killed).0),
        other => panic!("{other:?}"),
    }
}

#[test]
fn nothing_is_installed_before_the_answers_are_read() {
    let begin = || Up::begin(install(), 8443, Some("f.yaml".into()), None).0;
    assert_eq!(asked(&begin()), "Text(\"f.yaml\")");
    assert_eq!(
        ended(begin().told(Heard::Text(Err("no such file".into()))).0),
        "f.yaml could not be read: no such file"
    );
    let refused = ended(begin().told(Heard::Text(Ok("token: a".into()))).0);
    assert!(
        refused.starts_with("f.yaml: `token` holds a credential"),
        "{refused}"
    );
    let (up, _) = begin().told(Heard::Text(Ok("a: b".into())));
    assert!(matches!(up.ask(), Ask::Helm(..)));
}

#[test]
fn what_went_wrong_is_said_at_the_step_it_went_wrong_on() {
    let begin = || Up::begin(install(), 8443, None, None).0;
    for (ran, said) in [
        (
            HelmRan::NotRun("not found".into()),
            "helm could not be run: not found. Is it installed?",
        ),
        (HelmRan::NoInput, "helm would not take its values"),
        (
            HelmRan::NotTaken("closed".into()),
            "helm would not take its values: closed",
        ),
        (
            HelmRan::Lost("gone".into()),
            "helm could not be waited for: gone",
        ),
        (
            HelmRan::Exited(false, "exit status: 1".into()),
            "helm refused this install (exit status: 1). Nothing was forwarded and nothing was answered.",
        ),
    ] {
        assert_eq!(ended(begin().told(Heard::Helm(ran)).0), said);
    }
    let service = || {
        begin()
            .told(Heard::Helm(HelmRan::Exited(true, String::new())))
            .0
    };
    assert!(ended(service().told(exited(true, " \n", "")).0)
        .starts_with("this release has no dashboard service"));
    assert_eq!(
        ended(
            service()
                .told(Heard::Kubectl(KubectlRan::NotRun("denied".into())))
                .0
        ),
        "kubectl could not be run: denied"
    );
    let rollout = service().told(exited(true, "service/d", "")).0;
    assert_eq!(
        ended(rollout.told(exited(false, "", " timed out\n")).0),
        "kubectl rollout status deployment/d --timeout 300s: timed out"
    );
}

#[test]
fn a_forward_is_closed_whatever_the_wizard_says() {
    let knocked = |knocked: Knocked, in_time: bool| {
        let up = forwarded(None, None)
            .told(Heard::Knocked(knocked, in_time))
            .0;
        assert_eq!(asked(&up), "Kill");
        ended(up)
    };
    assert_eq!(
        knocked(Knocked::Answered(404, String::new()), true),
        "this deployment has been through first run already. Sign in at its own address."
    );
    assert_eq!(
        knocked(Knocked::Answered(503, "a\"b".into()), false),
        "the wizard never answered at http://127.0.0.1:8443: Ok((503, \"a\\\"b\")). \
         The dashboard is running; the forward is what did not carry."
    );
    assert_eq!(
        knocked(Knocked::Unanswered("refused".into()), false),
        "the wizard never answered at http://127.0.0.1:8443: \
         Err(\"the wizard did not answer: refused\"). \
         The dashboard is running; the forward is what did not carry."
    );
    assert_eq!(knocked(Knocked::NoClient("tls".into()), true), "tls");
}

#[test]
fn a_file_is_answered_only_behind_a_code() {
    let open = Heard::Knocked(Knocked::Answered(200, String::new()), true);
    let up = forwarded(Some("f".into()), None).told(open).0;
    assert!(ended(up).starts_with("answering the wizard needs a first-run claim code"));

    let open = Heard::Knocked(Knocked::Answered(200, String::new()), true);
    let up = forwarded(Some("f".into()), Some("CODE".into())).told(open).0;
    assert_eq!(
        asked(&up),
        "Post(\"http://127.0.0.1:8443/first-run/claim\", \"code=CODE\")"
    );
    let up = up.told(Heard::Page(Err("timed out".into()))).0;
    assert_eq!(ended(up), "the wizard did not answer: timed out");
}

#[test]
fn a_file_that_passes_brings_it_up() {
    let open = Heard::Knocked(Knocked::Answered(200, String::new()), true);
    let mut up = forwarded(Some("f".into()), Some("CODE".into())).told(open).0;
    for heard in [
        Heard::Page(Ok(String::new())),
        Heard::Page(Ok(PAGE.into())),
        Heard::Environment(Table::new()),
        Heard::Page(Ok("class=\"passed\"".into())),
        Heard::Page(Ok("<p>ada administers this deployment".into())),
    ] {
        up = up.told(heard).0;
    }
    assert_eq!(asked(&up), "Kill");
    assert!(matches!(
        up.told(Heard::Killed).0.ask(),
        Ask::Nothing(Ok(()))
    ));
}

#[test]
fn a_variable_that_is_empty_is_as_good_as_none() {
    let script = Script::begin(table(&[("db_host", "postgres")]), "CODE");
    let (script, _) = script.page("").unwrap();
    let (script, _) = script.page(PAGE).unwrap();
    let (script, note) = script
        .environment(&table(&[("MERIDIAN_DB_SERVING_PASSWORD", "")]))
        .unwrap();
    assert_eq!(note, "\nTesting 1 answers.\n");
    assert_eq!(posted(&script).1, "db_host=postgres");
}

#[test]
fn kubectl_is_taken_at_its_word() {
    let asked = vec!["get".to_string(), "service".to_string()];
    assert_eq!(
        kubectl_saying(&asked, true, " service/d\n".into(), "ignored"),
        Ok(" service/d\n".into())
    );
    assert_eq!(
        kubectl_saying(&asked, false, "ignored".into(), " forbidden\n"),
        Err("kubectl get service: forbidden".into())
    );
    assert_eq!(
        kubectl(
            &asked,
            &KubectlRan::Exited {
                success: true,
                stdout: vec![b'a', 0xff],
                stderr: vec![],
            }
        ),
        Ok("a\u{fffd}".into())
    );
    assert_eq!(
        dashboard_service(" service/d\nservice/e\n"),
        Ok("service/d".into())
    );
    assert!(dashboard_service(" \n").is_err());
}

#[test]
fn yaml_reads_a_quoted_scalar_as_the_text_it_is() {
    for text in [
        "",
        " a ",
        "a\nb",
        "a \n\n  b\r\n",
        "\"\\",
        "5432",
        "true",
        "\u{7}\u{7f}\u{9f}\u{a0}",
        "\u{2028}\u{2029}\u{fffe}\u{feff}",
        "\t\u{10ffff}",
    ] {
        let read = from_yaml(&quoted(text)).expect("YAML");
        assert!(
            matches!(&read, Document::Text(said) if said == text),
            "{text:?}: {read:?}"
        );
    }
}

#[test]
fn two_pages_together_ask_for_what_either_asks_for() {
    let other = "<input name=\"port\"><input name=\"key\" type=\"password\">";
    let (fields, credentials) = asked_for(&format!("{PAGE}{other}"));
    assert_eq!(
        fields.as_list(),
        &["backend", "db_host", "db_port", "db_serving_password", "key", "port"]
    );
    assert_eq!(credentials.as_list(), &["db_serving_password", "key"]);
}

#[test]
fn an_escaped_text_reads_as_it_was() {
    assert_eq!(unescape("&amp;lt;&lt;&#39;&quot;&gt;&amp;amp;"), "&lt;<'\">&amp;");
}
