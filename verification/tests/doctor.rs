//! Whether this machine and this cluster can run a deployment.
use std::collections::HashMap;

use meridian::doctor::checks::{clock, version};
use meridian::doctor::examination::{examine, examine_part, Ask, Examination, Part};
use meridian::doctor::{verdict, Answered, Failure, Finding, Intended};

/// One fetch, as it was made.
type Asked = (String, Vec<(String, String)>);

/// A machine that answers from a script. What it is not asked is as much of
/// the test as what it is.
#[derive(Default)]
struct Fake {
    commands: HashMap<String, Result<String, Failure>>,
    fetches: HashMap<String, Result<Answered, String>>,
    now_s: u64,
    /// What was sent with each fetch, so a test can pin how a registry is
    /// asked rather than only what it answered.
    sent: Vec<Asked>,
}

impl Fake {
    fn running(mut self, command: &str, answer: Result<&str, &str>) -> Self {
        self.commands.insert(
            command.to_string(),
            answer
                .map(String::from)
                .map_err(|said| Failure::Said(said.to_string())),
        );
        self
    }

    /// A program this machine does not have, which is a different fix from a
    /// program that ran and failed.
    fn without(mut self, command: &str, program: &str) -> Self {
        self.commands
            .insert(command.to_string(), Err(Failure::Missing(program.into())));
        self
    }

    fn fetching(mut self, url: &str, answered: Answered) -> Self {
        self.fetches.insert(url.to_string(), Ok(answered));
        self
    }

    fn at(mut self, now_s: u64) -> Self {
        self.now_s = now_s;
        self
    }

    /// Answer everything an examination asks for.
    fn answers(&mut self, mut examination: Examination) -> Vec<Finding> {
        loop {
            match examination.ask() {
                Ask::Run(program, arguments) => {
                    let asked = format!("{program} {}", arguments.join(" "));
                    let said = self.commands.get(&asked).cloned().unwrap_or_else(|| {
                        Err(Failure::Said(format!("nothing scripted for `{asked}`")))
                    });
                    examination.run(&said);
                }
                Ask::Fetch(url, headers) => {
                    let answer = self
                        .fetches
                        .get(&url)
                        .cloned()
                        .unwrap_or_else(|| Err(format!("nothing scripted for {url}")));
                    self.sent.push((url, headers));
                    examination.fetch(&answer);
                }
                Ask::Clock => examination.clock(self.now_s),
                Ask::Nothing => return examination.findings().clone(),
            }
        }
    }
}

fn intended(image: &str) -> Intended {
    Intended {
        namespace: "meridian".into(),
        platform: "https://open-meridian.com".into(),
        image: image.into(),
    }
}

fn one(part: Part, machine: &mut Fake) -> Finding {
    let mut findings = machine.answers(examine_part(part, intended("")));
    assert_eq!(findings.len(), 1, "{findings:?}");
    findings.remove(0)
}

fn of_image(image: &str, machine: &mut Fake) -> Finding {
    let mut findings = machine.answers(examine_part(Part::Image, intended(image)));
    assert_eq!(findings.len(), 1, "{findings:?}");
    findings.remove(0)
}

fn answered(status: u16, body: &str) -> Answered {
    Answered {
        status,
        body: body.to_string(),
        date_s: None,
    }
}

const NOW: u64 = 1_790_000_000;

#[test]
fn an_old_helm_is_stopped_with_the_version_to_install() {
    let mut machine = Fake::default().running("helm version --short", Ok("v3.9.4+g1234"));

    let finding = one(Part::Helm, &mut machine);

    assert!(finding.stops(), "{finding:?}");
    assert!(finding.text().contains("3.12"), "{}", finding.text());
}

#[test]
fn a_recent_helm_passes() {
    let mut machine = Fake::default().running("helm version --short", Ok("v3.16.2+gabc"));
    assert!(!one(Part::Helm, &mut machine).stops());
}

#[test]
fn no_helm_at_all_says_what_to_install() {
    let mut machine = Fake::default().without("helm version --short", "helm");

    let finding = one(Part::Helm, &mut machine);

    assert!(finding.stops());
    assert!(
        finding.text().contains("Install Helm 3"),
        "{}",
        finding.text()
    );
}

#[test]
fn a_version_is_read_in_the_shapes_helm_prints() {
    assert_eq!(version("v3.16.2+gabc\n"), Some((3, 16)));
    assert_eq!(version("4.0"), Some((4, 0)));
    assert_eq!(version("v3"), None);
    assert_eq!(version("helm"), None);
    assert_eq!(version("v99999999999.1"), None);
}

#[test]
fn a_helm_that_says_nothing_it_can_read_is_unknown() {
    let mut machine = Fake::default().running("helm version --short", Ok("what?\n"));
    assert_eq!(
        one(Part::Helm, &mut machine),
        Finding::Unknown {
            what: "helm's version could not be read".into(),
            why: "`helm version --short` said \"what?\\n\"".into(),
        }
    );
}

#[test]
fn rights_are_asked_of_the_cluster_rather_than_assumed() {
    let mut machine = Fake::default()
        .running(
            "kubectl cluster-info",
            Ok("Kubernetes control plane is running"),
        )
        .running(
            "kubectl auth can-i create deployments -n meridian",
            Ok("yes"),
        )
        .running("kubectl auth can-i create secrets -n meridian", Ok("no"))
        .running("kubectl auth can-i create jobs -n meridian", Ok("yes"));

    let findings = machine.answers(examine_part(Part::Cluster, intended("")));

    let stopping: Vec<String> = findings
        .iter()
        .filter(|finding| finding.stops())
        .map(|finding| finding.text())
        .collect();
    assert_eq!(stopping.len(), 1, "{findings:?}");
    assert!(stopping[0].contains("secrets"), "{stopping:?}");
}

#[test]
fn no_cluster_is_one_finding_and_not_four() {
    // A person with no cluster does not need to be told three more times.
    let mut machine = Fake::default().running("kubectl cluster-info", Err("connection refused"));

    let findings = machine.answers(examine_part(Part::Cluster, intended("")));

    assert_eq!(findings.len(), 1, "{findings:?}");
    assert!(findings[0].stops());
    assert!(findings[0].text().contains("KUBECONFIG"), "{findings:?}");
}

#[test]
fn a_missing_kubectl_is_not_told_to_check_its_configuration() {
    // The fix for a machine with no kubectl is to install kubectl.
    let mut machine = Fake::default().without("kubectl cluster-info", "kubectl");

    let findings = machine.answers(examine_part(Part::Cluster, intended("")));

    let said = findings[0].text();
    assert!(said.contains("Install kubectl"), "{said}");
    assert!(!said.contains("KUBECONFIG"), "{said}");
}

#[test]
fn a_right_that_could_not_be_asked_about_is_unknown() {
    let mut machine = Fake::default()
        .running("kubectl cluster-info", Ok(""))
        .without(
            "kubectl auth can-i create deployments -n meridian",
            "kubectl",
        );
    let findings = machine.answers(examine_part(Part::Cluster, intended("")));
    assert_eq!(
        findings[1],
        Finding::Unknown {
            what: "whether this account may create deployments is unknown".into(),
            why: "kubectl is not installed here".into(),
        }
    );
}

#[test]
fn a_cluster_with_nowhere_to_put_the_key_is_stopped() {
    let mut machine = Fake::default().running("kubectl get storageclass -o name", Ok("\n"));

    let finding = one(Part::StorageClass, &mut machine);

    assert!(finding.stops());
    assert!(finding.text().contains("key"), "{}", finding.text());
}

#[test]
fn storage_classes_are_counted() {
    let mut machine =
        Fake::default().running("kubectl get storageclass -o name", Ok("a\n \r\nb\n"));
    assert_eq!(
        one(Part::StorageClass, &mut machine),
        Finding::Fine("2 storage class(es) for the key's volume".into())
    );
}

#[test]
fn an_image_that_does_not_exist_is_stopped_before_the_install() {
    let mut machine = Fake::default()
        .fetching(
            "https://ghcr.io/token?scope=repository:open-meridian/meridian-runtime:pull&service=ghcr.io",
            answered(200, r#"{"token": "t"}"#),
        )
        .fetching(
            "https://ghcr.io/v2/open-meridian/meridian-runtime/manifests/nope",
            answered(404, ""),
        );

    let finding = of_image("ghcr.io/open-meridian/meridian-runtime:nope", &mut machine);

    assert!(finding.stops(), "{finding:?}");
}

#[test]
fn the_registrys_token_is_presented_the_way_it_asks_for_it() {
    // As a query parameter it is answered 401, which reads as "you may not
    // pull this" and means "you did not ask properly".
    let mut machine = Fake::default()
        .fetching(
            "https://ghcr.io/token?scope=repository:open-meridian/meridian-runtime:pull&service=ghcr.io",
            answered(200, r#"{"token": "t"}"#),
        )
        .fetching(
            "https://ghcr.io/v2/open-meridian/meridian-runtime/manifests/1",
            answered(200, ""),
        );

    let finding = of_image("ghcr.io/open-meridian/meridian-runtime:1", &mut machine);

    assert!(!finding.stops(), "{finding:?}");
    let (url, headers) = machine.sent.last().expect("the manifest was asked for");
    assert!(!url.contains("token="), "{url}");
    assert!(
        headers
            .iter()
            .any(|(name, value)| name == "Authorization" && value == "Bearer t"),
        "{headers:?}"
    );
    assert!(
        headers
            .iter()
            .any(|(name, value)| name == "Accept" && value.contains("index.v1+json")),
        "a registry may refuse the only manifest it has: {headers:?}"
    );
}

#[test]
fn a_registry_that_answers_neither_yes_nor_no_is_unknown() {
    let token = "https://ghcr.io/token?scope=repository:m:pull&service=ghcr.io";
    let mut machine = Fake::default().fetching(token, answered(200, "{}"));
    assert_eq!(
        of_image("ghcr.io/m:1", &mut machine),
        Finding::Unknown {
            what: "ghcr.io/m:1 could not be asked about".into(),
            why: "the registry did not issue a token for an anonymous pull".into(),
        }
    );
    let mut machine = Fake::default()
        .fetching(token, answered(200, r#"{"token": "t"}"#))
        .fetching("https://ghcr.io/v2/m/manifests/1", answered(503, ""));
    let said = of_image("ghcr.io/m:1", &mut machine).text();
    assert!(said.contains("ghcr.io/m:1 answered 503"), "{said}");
    let mut machine = Fake::default().fetching(token, answered(200, r#"{"token": "t"}"#));
    let said = of_image("ghcr.io/m:1", &mut machine).text();
    assert!(said.contains("could not be reached from here"), "{said}");
}

#[test]
fn an_image_with_no_tag_is_refused() {
    let finding = of_image(
        "ghcr.io/open-meridian/meridian-runtime",
        &mut Fake::default(),
    );
    assert!(finding.stops());
    assert!(finding.text().contains("tag"), "{}", finding.text());
}

#[test]
fn a_registry_this_cannot_ask_is_unknown_rather_than_fine() {
    // Saying "ok" about something it did not check is the failure that makes
    // a check worse than none.
    let finding = of_image("registry.firm.internal/meridian:1", &mut Fake::default());
    assert!(matches!(finding, Finding::Unknown { .. }), "{finding:?}");
}

fn stating(date_s: Option<u64>) -> Fake {
    Fake::default().at(NOW).fetching(
        "https://open-meridian.com",
        Answered {
            status: 200,
            body: String::new(),
            date_s,
        },
    )
}

#[test]
fn a_skewed_clock_is_stopped_and_says_what_it_would_look_like() {
    let findings =
        stating(Some(NOW + 300)).answers(examine_part(Part::Platform, intended("")));

    let stopping = findings
        .iter()
        .find(|finding| finding.stops())
        .expect("stopped");
    let said = stopping.text();
    assert!(said.contains("expired"), "{said}");
    assert!(said.contains("time synchronisation"), "{said}");
}

#[test]
fn a_clock_with_little_room_left_is_worth_saying() {
    let findings = stating(Some(NOW + 45)).answers(examine_part(Part::Platform, intended("")));

    assert!(!findings.iter().any(|finding| finding.stops()));
    assert!(
        findings
            .iter()
            .any(|finding| matches!(finding, Finding::Worth { .. })),
        "{findings:?}"
    );
}

#[test]
fn a_clock_is_held_to_the_note_it_signs() {
    assert_eq!(
        clock(NOW, NOW - 29),
        Finding::Fine("this machine's clock is within 29s of the platform's".into())
    );
    assert!(matches!(clock(NOW, NOW + 30), Finding::Worth { .. }));
    assert!(matches!(clock(NOW, NOW + 59), Finding::Worth { .. }));
    assert!(clock(NOW, NOW + 60).stops());
    assert!(clock(0, u64::MAX).stops());
}

#[test]
fn a_platform_that_states_no_date_leaves_the_clock_unknown() {
    let findings = stating(None).answers(examine_part(Part::Platform, intended("")));
    assert_eq!(findings.len(), 2);
    assert!(matches!(findings[1], Finding::Unknown { .. }));
}

#[test]
fn an_unreachable_platform_stops_the_install() {
    let findings = Fake::default()
        .at(NOW)
        .answers(examine_part(Part::Platform, intended("")));
    assert!(findings[0].stops());
}

#[test]
fn the_verdict_exits_non_zero_only_when_something_stops_it() {
    let (said, code) = verdict(&[
        Finding::Fine("a cluster is reachable".into()),
        Finding::Unknown {
            what: "an image".into(),
            why: "not asked".into(),
        },
    ]);
    assert_eq!(code, 0, "{said}");

    let (said, code) = verdict(&[Finding::Stops {
        what: "no helm".into(),
        fix: "install it".into(),
    }]);
    assert_eq!(code, 1);
    assert!(said.contains("1 thing(s) would stop an install"), "{said}");
}

#[test]
fn a_verdict_prints_every_finding() {
    let (said, _) = verdict(&[
        Finding::Fine("a".into()),
        Finding::Worth {
            what: "b".into(),
            why: "c".into(),
        },
    ]);
    assert_eq!(
        said,
        "  ok       a\n  worth    b\n           c\n\ndoctor: nothing here would stop an install\n"
    );
}

#[test]
fn every_check_is_made_in_the_order_somebody_reads_them() {
    let mut machine = stating(Some(NOW))
        .running("helm version --short", Ok("v3.16.2"))
        .running("kubectl cluster-info", Ok("up"))
        .running(
            "kubectl auth can-i create deployments -n meridian",
            Ok("yes"),
        )
        .running("kubectl auth can-i create secrets -n meridian", Ok("yes"))
        .running("kubectl auth can-i create jobs -n meridian", Ok("yes"))
        .running("kubectl get storageclass -o name", Ok("a"))
        .fetching(
            "https://ghcr.io/token?scope=repository:m:pull&service=ghcr.io",
            answered(200, r#"{"token": "t"}"#),
        )
        .fetching("https://ghcr.io/v2/m/manifests/1", answered(200, ""));
    let findings = machine.answers(examine(intended("ghcr.io/m:1")));
    let said: Vec<String> = findings.iter().map(|finding| finding.text()).collect();
    assert_eq!(
        said,
        [
            "  ok       helm 3.16 is recent enough",
            "  ok       a cluster is reachable",
            "  ok       this account may create deployments in meridian",
            "  ok       this account may create secrets in meridian",
            "  ok       this account may create jobs in meridian",
            "  ok       1 storage class(es) for the key's volume",
            "  ok       ghcr.io/m:1 can be pulled",
            "  ok       the platform at https://open-meridian.com answers",
            "  ok       this machine's clock is within 0s of the platform's",
        ]
    );
}
