//! Plugins: what they declare, where they go, and what comes back.
use std::collections::HashMap;

use meridian::catalogue::image::{blob_path, Ask, Found, Image, Search};
use meridian::catalogue::registry::{other_plugins, Heard, Push};
use meridian::catalogue::{
    answered, catalogue_url, declared, image_tag, is_name, launch, listed, metadata, mount_url,
    record, recorded, said, stop, upload_url, Metadata,
};
use meridian::request::Reply;
use meridian::tree::from_json;
use sha2::{Digest as _, Sha256};

/// A plugin as a new one declares itself.
const TEMPLATE: &str = "\
[project]
name = \"reference-plugin\"
version = \"0.1.0\"
dependencies = [\"open-meridian==0.2.0\"]

[project.scripts]
reference-plugin = \"reference_plugin.__main__:main\"

[tool.meridian]
roles = []
tags = []
interface = true
";

#[test]
fn the_templates_pyproject_is_metadata() {
    let held = metadata(TEMPLATE).unwrap();
    assert_eq!(
        held,
        Metadata {
            name: "reference-plugin".into(),
            version: "0.1.0".into(),
            roles: vec![],
            tags: vec![],
            interface: true,
            sdk_version: "0.2.0".into(),
        }
    );
}

#[test]
fn roles_and_tags_are_read_and_held_to_their_form() {
    let with = TEMPLATE
        .replace("roles = []", "roles = [\"custody\"]")
        .replace("tags = []", "tags = [\"positions\", \"orders\"]");
    let held = metadata(&with).unwrap();
    assert_eq!(held.roles, ["custody"]);
    assert_eq!(held.tags, ["positions", "orders"]);

    let refused = metadata(&TEMPLATE.replace("tags = []", "tags = [\"Positions\"]")).unwrap_err();
    assert!(refused.contains("`Positions`"), "{refused}");
    let refused = metadata(&TEMPLATE.replace("roles = []", "roles = \"custody\"")).unwrap_err();
    assert!(refused.contains("roles is not a list"), "{refused}");
}

#[test]
fn a_pyproject_missing_what_upload_sends_is_refused() {
    let unpinned = TEMPLATE.replace("open-meridian==0.2.0", "open-meridian>=0.2");
    assert!(metadata(&unpinned)
        .unwrap_err()
        .contains("pin open-meridian"));
    let undeclared = &TEMPLATE[..TEMPLATE.find("[tool.meridian]").unwrap()];
    assert!(metadata(undeclared)
        .unwrap_err()
        .contains("[tool.meridian]"));
    let misnamed = TEMPLATE.replace("name = \"reference-plugin\"", "name = \"Reference\"");
    assert!(metadata(&misnamed)
        .unwrap_err()
        .contains("not a plugin's name"));
    let unversioned = TEMPLATE.replace("version = \"0.1.0\"\n", "");
    assert!(metadata(&unversioned).unwrap_err().contains("no version"));
}

#[test]
fn a_pyproject_that_is_not_toml_or_names_no_project_is_refused() {
    let refused = metadata("name = ").unwrap_err();
    assert!(
        refused.starts_with("pyproject.toml does not read: "),
        "{refused}"
    );
    assert_eq!(
        metadata("[tool.meridian]\n").unwrap_err(),
        "pyproject.toml has no [project]"
    );
    let odd = TEMPLATE.replace("roles = []", "roles = [1]");
    assert_eq!(
        metadata(&odd).unwrap_err(),
        "[tool.meridian] roles holds something that is not a name"
    );
}

#[test]
fn names_are_host_labels() {
    for good in ["a", "reference-plugin", "p2", &"a".repeat(63)] {
        assert!(is_name(good), "{good}");
    }
    for bad in [
        "",
        "2p",
        "-a",
        "a-",
        "a--b",
        "A",
        "a_b",
        "a.b",
        &"a".repeat(64),
    ] {
        assert!(!is_name(bad), "{bad}");
    }
}

#[test]
fn an_image_is_tagged_by_name_and_version() {
    let held = metadata(TEMPLATE).unwrap();
    assert_eq!(image_tag(&held), "meridian-plugin/reference-plugin:0.1.0");
}

type Layout = HashMap<String, Vec<u8>>;

fn put(files: &mut Layout, bytes: &[u8]) -> String {
    let digest = format!("sha256:{:x}", Sha256::digest(bytes));
    files.insert(blob_path("/layout", &digest).unwrap(), bytes.to_vec());
    digest
}

/// A layout as `docker save` writes one: an index naming an index naming a
/// manifest, and the blobs.
fn layout(drop_config: bool) -> (Layout, String, Vec<String>) {
    let mut files = Layout::new();
    let config = put(&mut files, b"{\"architecture\":\"arm64\"}");
    let layer = put(&mut files, b"a layer");
    if drop_config {
        files.remove(&blob_path("/layout", &config).unwrap());
    }
    let manifest = format!(
        "{{\"schemaVersion\":2,\"mediaType\":\"application/vnd.oci.image.manifest.v1+json\",\
         \"config\":{{\"digest\":\"{config}\"}},\"layers\":[{{\"digest\":\"{layer}\"}}]}}"
    );
    let manifest_digest = put(&mut files, manifest.as_bytes());
    // An attestation the save left out: named, not present, passed over.
    let missing = format!("sha256:{}", "0".repeat(64));
    let index = format!(
        "{{\"mediaType\":\"application/vnd.oci.image.index.v1+json\",\
         \"manifests\":[{{\"digest\":\"{missing}\"}},{{\"digest\":\"{manifest_digest}\"}}]}}"
    );
    let index_digest = put(&mut files, index.as_bytes());
    files.insert(
        "/layout/index.json".to_string(),
        format!(
            "{{\"manifests\":[{{\"digest\":\"{index_digest}\",\
             \"mediaType\":\"application/vnd.oci.image.index.v1+json\"}}]}}"
        )
        .into_bytes(),
    );
    (files, manifest_digest, vec![config, layer])
}

/// The search, answered from the files.
fn image(files: &Layout) -> Result<Image, String> {
    let mut search = Search::begin("/layout");
    loop {
        search = match search.ask() {
            Ask::Index(path) => search.index(
                files
                    .get(&path)
                    .cloned()
                    .ok_or("no such file".to_string()),
            )?,
            Ask::File(path) => search.file(match files.get(&path) {
                Some(bytes) => Found::Bytes(bytes.clone()),
                None => Found::Absent,
            })?,
            Ask::Presence(path) => search.presence(files.contains_key(&path))?,
            Ask::Nothing(image) => return Ok(image),
            Ask::Refused(why) => return Err(why),
        };
    }
}

#[test]
fn the_image_is_the_manifest_the_layout_holds() {
    let (files, digest, blobs) = layout(false);
    let image = image(&files).unwrap();
    assert_eq!(image.digest, digest);
    assert_eq!(
        image.media_type,
        "application/vnd.oci.image.manifest.v1+json"
    );
    assert_eq!(
        image
            .blobs
            .iter()
            .map(|(d, _)| d.clone())
            .collect::<Vec<_>>(),
        blobs
    );
    assert_eq!(
        format!("sha256:{:x}", Sha256::digest(&image.manifest)),
        digest
    );
}

#[test]
fn a_layout_missing_a_blob_is_refused() {
    let (files, _, _) = layout(true);
    assert!(image(&files).unwrap_err().contains("does not hold"));
}

#[test]
fn a_manifest_that_is_not_its_digest_is_refused() {
    let (mut files, digest, _) = layout(false);
    let path = blob_path("/layout", &digest).unwrap();
    files.get_mut(&path).unwrap().push(b' ');
    assert!(image(&files).unwrap_err().contains("are not"));
}

#[test]
fn a_layout_that_cannot_be_read_is_refused_with_the_file() {
    assert_eq!(
        image(&Layout::new()).unwrap_err(),
        "/layout/index.json could not be read: no such file"
    );
    let odd = Layout::from([("/layout/index.json".to_string(), b"{".to_vec())]);
    let refused = image(&odd).unwrap_err();
    assert!(
        refused.starts_with("/layout/index.json is not JSON: "),
        "{refused}"
    );
    let empty = Layout::from([("/layout/index.json".to_string(), b"{}".to_vec())]);
    assert_eq!(
        image(&empty).unwrap_err(),
        "the saved image holds no manifest this can push"
    );
}

#[test]
fn a_manifest_that_names_a_blob_with_no_digest_is_refused() {
    let mut files = Layout::new();
    let manifest = put(&mut files, b"{\"layers\":[]}");
    files.insert(
        "/layout/index.json".to_string(),
        format!("{{\"manifests\":[{{\"digest\":\"{manifest}\"}}]}}").into_bytes(),
    );
    assert_eq!(
        image(&files).unwrap_err(),
        "a manifest names a blob with no digest"
    );
}

#[test]
fn a_digest_is_never_a_path() {
    assert!(blob_path("/x", "sha256:../../etc/passwd").is_err());
    assert!(blob_path("/x", "sha512:ab").is_err());
}

#[test]
fn a_digest_names_a_file_among_the_blobs() {
    let hex = "0".repeat(64);
    assert_eq!(
        blob_path("/x", &format!("sha256:{hex}")).unwrap(),
        format!("/x/blobs/sha256/{hex}")
    );
    assert_eq!(
        blob_path("/x", "sha512:ab").unwrap_err(),
        "sha512:ab is not a sha256 digest"
    );
}

#[test]
fn an_upload_goes_where_the_dashboard_said_with_its_digest() {
    let at = "http://127.0.0.1:8443";
    assert_eq!(
        upload_url(at, "/terminal/registry/v2/plugins/p/blobs/uploads/u1?_state=s", "sha256:ab"),
        "http://127.0.0.1:8443/terminal/registry/v2/plugins/p/blobs/uploads/u1?_state=s&digest=sha256:ab"
    );
    assert_eq!(
        upload_url(
            at,
            "/terminal/registry/v2/plugins/p/blobs/uploads/u1",
            "sha256:ab"
        ),
        "http://127.0.0.1:8443/terminal/registry/v2/plugins/p/blobs/uploads/u1?digest=sha256:ab"
    );
    assert_eq!(
        upload_url(at, "https://elsewhere/u?x=1", "sha256:ab"),
        "https://elsewhere/u?x=1&digest=sha256:ab"
    );
}

#[test]
fn a_launch_approves_what_the_version_declared() {
    let held = from_json(
        r#"{"versions": [
            {"name": "p", "version": "0.1.0", "roles": ["custody"], "tags": ["t"]},
            {"name": "p", "version": "0.2.0", "roles": [], "tags": []}],
        "launches": [{"instance_id": "p", "name": "p", "version": "0.1.0",
                      "state": "failed", "failure": "no image"}]}"#,
    )
    .unwrap();
    assert_eq!(
        declared(&held, "p", "0.1.0"),
        Some((vec!["custody".to_string()], vec!["t".to_string()]))
    );
    assert_eq!(declared(&held, "p", "0.3.0"), None);
    let said = listed(&held);
    assert!(said.contains("p 0.1.0  roles: custody  tags: t"), "{said}");
    assert!(said.contains("p 0.2.0  roles: none  tags: none"), "{said}");
    assert!(said.contains("p  p 0.1.0  failed: no image"), "{said}");
}

#[test]
fn an_empty_catalogue_says_so() {
    assert_eq!(
        listed(&from_json("{}").unwrap()),
        "Versions:\n  none uploaded\nLaunches:\n  none\n"
    );
}

#[test]
fn a_blob_another_plugin_holds_is_mounted_from_its_repository() {
    assert_eq!(
        mount_url(
            "http://localhost:18480/terminal/registry/v2/plugins/reference-custody",
            "sha256:ab",
            "reference-plugin"
        ),
        "http://localhost:18480/terminal/registry/v2/plugins/reference-custody\
         /blobs/uploads/?mount=sha256:ab&from=plugins/reference-plugin"
    );
}

fn reply(success: bool, status: &str, body: &str) -> Reply {
    Reply {
        success,
        status: status.into(),
        body: body.into(),
    }
}

#[test]
fn a_refusal_is_said_with_its_status_and_its_reason() {
    assert_eq!(
        said("403 Forbidden", r#"{"error": "not an administrator"}"#),
        "403 Forbidden: not an administrator"
    );
    assert_eq!(said("502 Bad Gateway", " down \n"), "502 Bad Gateway: down");
    assert_eq!(
        answered(&reply(false, "404 Not Found", "nothing")).unwrap_err(),
        "404 Not Found: nothing"
    );
    assert!(answered(&reply(true, "200 OK", "{}")).is_ok());
    assert!(answered(&reply(true, "200 OK", "no")).is_err());
    assert_eq!(
        recorded(&reply(false, "409 Conflict", "taken")).unwrap_err(),
        "the version was not recorded: 409 Conflict: taken"
    );
    assert_eq!(recorded(&reply(true, "201 Created", "")), Ok(()));
}

#[test]
fn what_is_sent_reads_back_as_what_was_meant() {
    let at = "https://dash.firm.example";
    assert_eq!(
        catalogue_url(at),
        "https://dash.firm.example/terminal/plugins"
    );
    let with = TEMPLATE.replace("roles = []", "roles = [\"custody\"]");
    let sent = record(at, &metadata(&with).unwrap(), "sha256:ab");
    assert_eq!(sent.url, "https://dash.firm.example/terminal/plugins");
    assert_eq!(sent.content_type, "application/json");
    let body = from_json(&sent.body).unwrap();
    assert_eq!(body.text_at("name").as_deref(), Some("reference-plugin"));
    assert_eq!(body.text_at("sdk_version").as_deref(), Some("0.2.0"));
    assert_eq!(body.text_at("image_digest").as_deref(), Some("sha256:ab"));
    assert_eq!(body.strings_at("roles"), ["custody"]);
    assert!(body.flag_at("interface"));

    let sent = launch(
        at,
        "p",
        "0.1.0",
        "p-1",
        &vec!["custody".to_string()],
        &vec![],
    );
    assert_eq!(
        sent.url,
        "https://dash.firm.example/terminal/plugins/launch"
    );
    let body = from_json(&sent.body).unwrap();
    assert_eq!(body.text_at("instance_id").as_deref(), Some("p-1"));
    assert_eq!(body.strings_at("approved_roles"), ["custody"]);
    assert!(body.strings_at("approved_tags").is_empty());

    let sent = stop(at, "p \"1\"");
    assert_eq!(sent.url, "https://dash.firm.example/terminal/plugins/stop");
    let body = from_json(&sent.body).unwrap();
    assert_eq!(body.text_at("instance_id").as_deref(), Some("p \"1\""));
}

#[test]
fn the_other_plugins_are_named_once_and_in_order() {
    let held = from_json(
        r#"{"versions": [{"name": "q"}, {"name": "p"}, {"name": "a"}, {"name": "q"}, {"name": "No"}, {}]}"#,
    )
    .unwrap();
    assert_eq!(*other_plugins(&held, "p").as_list(), ["a", "q"]);
}

fn pushable() -> Image {
    Image {
        manifest: b"{}".to_vec(),
        media_type: "application/vnd.oci.image.manifest.v1+json".into(),
        digest: "sha256:m".into(),
        blobs: vec![
            ("sha256:c".into(), "/l/c".into()),
            ("sha256:l".into(), "/l/l".into()),
        ],
    }
}

fn yes(code: u16, location: Option<&str>) -> Heard {
    Heard::Answered {
        code,
        status: format!("{code} Said"),
        location: location.map(String::from),
        body: r#"{"error": "why"}"#.into(),
    }
}

/// A push told one thing after the other: what it asked for, what was said of
/// it, and how it ended.
fn pushed(others: &[&str], told: Vec<Heard>) -> (Vec<String>, Vec<String>, Result<String, String>) {
    let mut asked = Vec::new();
    let mut notes = Vec::new();
    let mut push = Push::begin(
        "http://d",
        "p",
        "0.1.0",
        pushable(),
        others.iter().map(|each| each.to_string()).collect(),
    );
    for heard in told {
        asked.push(format!("{:?}", push.ask()));
        match push.told(heard) {
            Ok((next, note)) => {
                push = next;
                notes.extend(note);
            }
            Err(why) => return (asked, notes, Err(why)),
        }
    }
    match push.ask() {
        meridian::catalogue::registry::Ask::Nothing(digest) => (asked, notes, Ok(digest)),
        other => panic!("not done: {other:?}"),
    }
}

#[test]
fn only_what_the_registry_does_not_hold_is_sent() {
    let (asked, notes, done) = pushed(
        &["q"],
        vec![
            yes(200, None),
            yes(404, None),
            yes(202, None),
            yes(202, Some("/u/1")),
            Heard::Bytes(7),
            yes(201, None),
            yes(201, None),
        ],
    );
    let at = "http://d/terminal/registry/v2/plugins/p";
    assert_eq!(
        asked,
        [
            format!("Head(\"{at}/blobs/sha256:c\")"),
            format!("Head(\"{at}/blobs/sha256:l\")"),
            format!("Mount(\"{at}/blobs/uploads/?mount=sha256:l&from=plugins/q\")"),
            format!("Start(\"{at}/blobs/uploads/\")"),
            "Read(\"/l/l\")".to_string(),
            "Send(\"http://d/u/1?digest=sha256:l\")".to_string(),
            format!(
                "Manifest(\"{at}/manifests/0.1.0\", \
                 \"application/vnd.oci.image.manifest.v1+json\", [123, 125])"
            ),
        ]
    );
    assert_eq!(
        notes,
        [
            "  sha256:c: already there",
            "  sha256:l: sent, 7 bytes"
        ]
    );
    assert_eq!(done, Ok("sha256:m".to_string()));
}

#[test]
fn a_mounted_blob_is_not_sent() {
    let (_, notes, done) = pushed(
        &["q", "r"],
        vec![
            yes(404, None),
            yes(202, None),
            yes(201, None),
            yes(200, None),
            yes(201, None),
        ],
    );
    assert_eq!(
        notes,
        [
            "  sha256:c: mounted from r",
            "  sha256:l: already there"
        ]
    );
    assert_eq!(done, Ok("sha256:m".to_string()));
}

#[test]
fn a_push_that_is_refused_says_where() {
    let (_, _, ended) = pushed(&[], vec![yes(404, None), yes(202, None)]);
    assert_eq!(
        ended.unwrap_err(),
        "the registry did not start an upload: 202 Said: why"
    );
    let (_, _, ended) = pushed(
        &[],
        vec![
            yes(404, None),
            yes(202, Some("/u")),
            Heard::Bytes(1),
            yes(500, None),
        ],
    );
    assert_eq!(
        ended.unwrap_err(),
        "sha256:c was not taken: 500 Said: why"
    );
    let (_, _, ended) = pushed(&[], vec![yes(200, None), yes(200, None), yes(400, None)]);
    assert_eq!(
        ended.unwrap_err(),
        "the manifest was not taken: 400 Said: why"
    );
    let (_, _, ended) = pushed(&[], vec![Heard::Unanswered("refused".into())]);
    assert_eq!(ended.unwrap_err(), "could not reach http://d: refused");
    let (_, _, ended) = pushed(
        &[],
        vec![
            yes(404, None),
            yes(202, Some("/u")),
            Heard::Unread("gone".into()),
        ],
    );
    assert_eq!(ended.unwrap_err(), "gone");
}

#[test]
fn a_manifest_is_weighed_by_what_it_holds_and_hashes_to() {
    let digest = format!("sha256:{}", "ab".repeat(32));
    let index = from_json(&format!(
        "{{\"manifests\": [{{\"digest\": \"{digest}\", \"mediaType\": \"m\"}}]}}"
    ))
    .unwrap();
    let looking = || Search::begin("/l").opened(&index);
    assert!(matches!(
        looking().ask(),
        Ask::File(path) if path == format!("/l/blobs/sha256/{}", "ab".repeat(32))
    ));
    let manifest = from_json(r#"{"config": {"digest": "x"}}"#).unwrap();
    let found = looking()
        .looked(b"bytes".to_vec(), &vec![0xab; 32], &manifest)
        .unwrap();
    assert!(matches!(
        found.ask(),
        Ask::Refused(why) if why == "x is not a sha256 digest"
    ));
    assert_eq!(
        looking()
            .looked(b"bytes".to_vec(), &vec![0xac; 32], &manifest)
            .unwrap_err(),
        format!("the manifest's bytes are not {digest}")
    );
    let inner = from_json(r#"{"mediaType": "an.index", "manifests": []}"#).unwrap();
    let none = looking().looked(vec![], &vec![], &inner).unwrap();
    assert!(matches!(none.ask(), Ask::Refused(_)));
}
