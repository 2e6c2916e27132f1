//! A plugin to start from.
use meridian::plugin::{check_name, next_steps, renamed, scaffold, template_files};

fn template() -> Vec<(String, String)> {
    template_files()
        .into_iter()
        .map(|path| {
            let contents = if path == "pyproject.toml" {
                "[project]\nname = \"reference-plugin\"\n\
                 dependencies = [\"open-meridian==0.2.0\"]\n\n[project.scripts]\n\
                 reference-plugin = \"reference_plugin.__main__:main\"\n"
                    .to_string()
            } else {
                format!("# {path} of reference-plugin, imported as reference_plugin\n")
            };
            (path, contents)
        })
        .collect()
}

#[test]
fn every_file_in_the_template_is_one_it_writes() {
    let mut embedded = template_files();
    embedded.sort();
    assert_eq!(
        embedded,
        [
            ".dockerignore",
            "Dockerfile",
            "README.md",
            "pyproject.toml",
            "src/reference_plugin/__init__.py",
            "src/reference_plugin/__main__.py",
            "src/reference_plugin/page.py",
        ]
    );
    let wrote = scaffold("reference-plugin", "in", false, &template()).expect("scaffolded");
    let mut paths: Vec<String> = wrote
        .into_iter()
        .map(|(path, _)| path.strip_prefix("in/").expect("under it").to_string())
        .collect();
    paths.sort();
    assert_eq!(paths, embedded);
}

#[test]
fn a_new_plugin_is_the_template_under_its_own_name() {
    let into = "/tmp/meridian-snaptrade";

    let wrote = scaffold("meridian-snaptrade", into, false, &template()).expect("scaffolded");

    assert_eq!(wrote.len(), template_files().len());
    let files: Vec<&str> = wrote
        .iter()
        .map(|(path, _)| {
            path.strip_prefix("/tmp/meridian-snaptrade/")
                .expect("under it")
        })
        .collect();
    assert!(
        files.contains(&"src/meridian_snaptrade/__main__.py"),
        "{files:?}"
    );
    let pyproject = &wrote
        .iter()
        .find(|(path, _)| path.ends_with("/pyproject.toml"))
        .expect("written")
        .1;
    assert!(
        pyproject.contains("name = \"meridian-snaptrade\""),
        "{pyproject}"
    );
    assert!(
        pyproject.contains("\"open-meridian=="),
        "the SDK is pinned: {pyproject}"
    );
    assert!(pyproject.contains("meridian-snaptrade = \"meridian_snaptrade.__main__:main\""));

    // Nothing is left calling itself the template.
    for (file, text) in &wrote {
        assert!(!file.contains("reference"), "{file}");
        assert!(!text.contains("reference-plugin"), "{file}");
        assert!(!text.contains("reference_plugin"), "{file}");
    }
}

#[test]
fn it_never_writes_into_something_already_there() {
    assert_eq!(
        scaffold("taken", "/tmp/taken", true, &template()).unwrap_err(),
        "/tmp/taken already exists; a new plugin goes somewhere new"
    );
}

#[test]
fn a_name_is_one_every_place_it_goes_accepts() {
    for good in ["snaptrade", "meridian-snaptrade", "custody-2", "a"] {
        assert!(check_name(good).is_ok(), "{good}");
    }
    for bad in [
        "",
        "Snaptrade",
        "2fast",
        "-x",
        "x-",
        "a--b",
        "snap_trade",
        "snap trade",
        "meridian",
    ] {
        assert!(check_name(bad).is_err(), "{bad:?}");
    }
}

#[test]
fn a_name_that_is_refused_is_said_as_it_was_written() {
    assert_eq!(
        check_name("a\tb").unwrap_err(),
        "\"a\\tb\" is not a plugin name: lowercase letters, digits and single hyphens, \
         starting with a letter, at most 50"
    );
    assert!(check_name(&"a".repeat(50)).is_ok());
    assert!(check_name(&"a".repeat(51)).is_err());
    assert_eq!(
        check_name("meridian").unwrap_err(),
        "\"meridian\" is the SDK's own name; a plugin called that would hide it"
    );
}

#[test]
fn the_template_under_its_own_name_is_the_template() {
    let text = "reference-plugin imports reference_plugin";
    assert_eq!(renamed(text, "reference-plugin", "reference_plugin"), text);
    assert_eq!(renamed(text, "a-b", "a_b"), "a-b imports a_b");
    assert_eq!(renamed("nothing", "a-b", "a_b"), "nothing");
}

#[test]
fn what_to_do_next_is_said_with_the_name() {
    assert!(next_steps("p", "./p").starts_with(
        "Made p in ./p, on the Python SDK (open-meridian).\n\n  cd ./p\n  meridian plugin upload\n  meridian plugin launch p 0.1.0 --instance p\n\nUpload builds"
    ));
}
