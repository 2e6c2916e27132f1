//! `meridian plugin new`: a plugin to start from.
//!
//! What is written is the reference plugin, kept beside the SDK it is written
//! against. The only thing changed on the way out is the name: the template
//! calls itself `reference-plugin`, importable as `reference_plugin`, and both
//! become whatever the plugin is called.
use vstd::prelude::*;
use vstd::string::*;

use crate::label::{is_label, is_lower, label, label_char};
use crate::order::pairs;
use crate::path::{joined_path, under};
use crate::text::{
    debug_of, debugged, each, holds, lemma_each_one, lemma_nothing_sought, lemma_replace_each,
    replace, replaced, replaced_with_itself, same, texts,
};

verus! {

/// The template's files, by path.
pub open spec fn template_paths() -> Seq<Seq<char>> {
    seq![
        ".dockerignore"@,
        "Dockerfile"@,
        "README.md"@,
        "pyproject.toml"@,
        "src/reference_plugin/__init__.py"@,
        "src/reference_plugin/__main__.py"@,
        "src/reference_plugin/page.py"@,
    ]
}

/// The template's files, by path, in the order they are written.
pub fn template_files() -> (paths: Vec<String>)
    ensures
        texts(paths@) == template_paths(),
{
    let paths = vec![
        ".dockerignore".to_owned(),
        "Dockerfile".to_owned(),
        "README.md".to_owned(),
        "pyproject.toml".to_owned(),
        "src/reference_plugin/__init__.py".to_owned(),
        "src/reference_plugin/__main__.py".to_owned(),
        "src/reference_plugin/page.py".to_owned(),
    ];
    assert(texts(paths@) =~= template_paths());
    paths
}

/// Why a plugin may not be called this, if it may not.
pub open spec fn name_refused(name: Seq<char>) -> Option<Seq<char>> {
    if !label(name, 50) {
        Some(
            debugged(name)
                + " is not a plugin name: lowercase letters, digits and single hyphens, starting with a letter, at most 50"@,
        )
    } else if name == "meridian"@ {
        Some("\"meridian\" is the SDK's own name; a plugin called that would hide it"@)
    } else {
        None
    }
}

/// A plugin's name: what its package is called, what its image is called, and
/// with hyphens as underscores, what it imports as.
///
/// Lowercase letters, digits and single hyphens, starting with a letter. That
/// is a valid Python distribution name, a valid module name once its hyphens
/// become underscores, and a valid image name, which is every place it goes.
pub fn check_name(name: &str) -> (r: Result<(), String>)
    ensures
        match r {
            Ok(_) => name_refused(name@) is None,
            Err(why) => name_refused(name@) == Some(why@),
        },
{
    if !is_label(name, 50) {
        let mut why = debug_of(name);
        why.append(
            " is not a plugin name: lowercase letters, digits and single hyphens, starting with a letter, at most 50",
        );
        return Err(why);
    }
    if same(name, "meridian") {
        return Err(
            "\"meridian\" is the SDK's own name; a plugin called that would hide it".to_owned(),
        );
    }
    Ok(())
}

/// What a plugin imports as.
pub open spec fn module_of(name: Seq<char>) -> Seq<char> {
    replace(name, "-"@, "_"@)
}

/// A character of a Python module's name.
pub open spec fn module_char(c: char) -> bool {
    is_lower(c) || '0' <= c <= '9' || c == '_'
}

/// An accepted name is a module's name once its hyphens are underscores: a
/// lower-case letter, then lower-case letters, digits and underscores, as many
/// as the name has; and the module is not the SDK's.
pub proof fn an_accepted_name_imports(name: Seq<char>)
    requires
        name_refused(name) is None,
    ensures
        module_of(name).len() == name.len(),
        is_lower(module_of(name)[0]),
        forall|i: int| 0 <= i < name.len() ==> module_char(#[trigger] module_of(name)[i]),
        module_of(name) != "meridian"@,
{
    reveal_strlit("-");
    reveal_strlit("_");
    assert("-"@ =~= seq!['-']);
    assert("_"@ =~= seq!['_']);
    lemma_replace_each(name, '-', seq!['_']);
    lemma_each_one(name, '-', '_');
    let module = module_of(name);
    assert forall|i: int| 0 <= i < name.len() implies module_char(#[trigger] module[i]) by {
        assert(label_char(name[i]));
    }
    reveal_strlit("meridian");
    if module == "meridian"@ {
        assert forall|i: int| 0 <= i < name.len() implies name[i] == module[i] by {
            assert(module[i] != '_');
            assert(module[i] == each(name, '-', seq!['_'])[i]);
        }
        assert(name =~= "meridian"@);
    }
}

/// The template's name for itself, replaced by the plugin's: the distribution
/// first, then the module.
pub open spec fn called(text: Seq<char>, name: Seq<char>, module: Seq<char>) -> Seq<char> {
    replace(replace(text, "reference-plugin"@, name), "reference_plugin"@, module)
}

/// The template's name for itself, replaced by the plugin's.
pub fn renamed(text: &str, name: &str, module: &str) -> (out: String)
    ensures
        out@ == called(text@, name@, module@),
{
    proof {
        reveal_strlit("reference-plugin");
        reveal_strlit("reference_plugin");
    }
    replaced(
        replaced(text, "reference-plugin", name).as_str(),
        "reference_plugin",
        module,
    )
}

/// A plugin called as the template is, is the template.
pub proof fn the_templates_own_name_changes_nothing(text: Seq<char>)
    ensures
        called(text, "reference-plugin"@, "reference_plugin"@) == text,
{
    reveal_strlit("reference-plugin");
    reveal_strlit("reference_plugin");
    replaced_with_itself(text, "reference-plugin"@);
    replaced_with_itself(text, "reference_plugin"@);
}

/// What does not name the template is written as it is.
pub proof fn what_does_not_name_the_template_is_kept(
    text: Seq<char>,
    name: Seq<char>,
    module: Seq<char>,
)
    requires
        !holds(text, "reference-plugin"@),
        !holds(text, "reference_plugin"@),
    ensures
        called(text, name, module) == text,
{
    lemma_nothing_sought(text, "reference-plugin"@, name);
    lemma_nothing_sought(text, "reference_plugin"@, module);
}

/// A plugin may be called by any label of at most fifty characters but the SDK's
/// own name.
pub proof fn a_plugin_may_be_called_by_a_label_but_the_sdks_name(name: Seq<char>)
    ensures
        name_refused(name) is None <==> label(name, 50) && name != "meridian"@,
        name.len() > 50 ==> name_refused(name) is Some,
{
}

/// Where the template names itself, the plugin is named: as a distribution by
/// its own name, and as a module by what it imports as, with what stands around
/// it as it is.
pub proof fn where_the_template_names_itself_the_plugin_is_named(
    before: Seq<char>,
    after: Seq<char>,
    name: Seq<char>,
    module: Seq<char>,
)
    ensures
        ({
            let text = before + "reference_plugin"@ + after;
            crate::text::first_at(text, "reference_plugin"@, before.len() as int) && !holds(
                text,
                "reference-plugin"@,
            ) && !holds(after, "reference_plugin"@) ==> called(text, name, module) == before + module
                + after
        }),
        ({
            let text = before + "reference-plugin"@ + after;
            crate::text::first_at(text, "reference-plugin"@, before.len() as int) && !holds(
                after,
                "reference-plugin"@,
            ) && !holds(before + name + after, "reference_plugin"@) ==> called(text, name, module)
                == before + name + after
        }),
{
    reveal_strlit("reference_plugin");
    reveal_strlit("reference-plugin");
    lemma_once(before, "reference_plugin"@, after, module);
    lemma_once(before, "reference-plugin"@, after, name);
    let text = before + "reference_plugin"@ + after;
    if !holds(text, "reference-plugin"@) {
        lemma_nothing_sought(text, "reference-plugin"@, name);
    }
    if !holds(before + name + after, "reference_plugin"@) {
        lemma_nothing_sought(before + name + after, "reference_plugin"@, module);
    }
}

proof fn lemma_once(before: Seq<char>, pat: Seq<char>, after: Seq<char>, to: Seq<char>)
    requires
        pat.len() > 0,
    ensures
        crate::text::first_at(before + pat + after, pat, before.len() as int) && !holds(after, pat)
            ==> replace(before + pat + after, pat, to) == before + to + after,
{
    let text = before + pat + after;
    let n = before.len() as int;
    if crate::text::first_at(text, pat, n) && !holds(after, pat) {
        crate::text::lemma_replace_first(text, pat, to, n);
        lemma_nothing_sought(after, pat, to);
        assert(text.take(n) =~= before);
        assert(text.skip(n + pat.len()) =~= after);
    }
}

/// The files of a new plugin: the template's, under the plugin's own name,
/// each with its path.
pub open spec fn written(
    template: Seq<(Seq<char>, Seq<char>)>,
    name: Seq<char>,
    into: Seq<char>,
) -> Seq<(Seq<char>, Seq<char>)> {
    Seq::new(
        template.len(),
        |i: int|
            (
                under(into, called(template[i].0, name, module_of(name))),
                called(template[i].1, name, module_of(name)),
            ),
    )
}

/// What a new plugin is made of, or why there is none. Never into something
/// already there: a scaffold that overwrote a plugin somebody had started would
/// be the worst thing this could do.
pub open spec fn scaffolded(
    template: Seq<(Seq<char>, Seq<char>)>,
    name: Seq<char>,
    into: Seq<char>,
    taken: bool,
) -> Result<Seq<(Seq<char>, Seq<char>)>, Seq<char>> {
    match name_refused(name) {
        Some(why) => Err(why),
        None => if taken {
            Err(into + " already exists; a new plugin goes somewhere new"@)
        } else {
            Ok(written(template, name, into))
        },
    }
}

/// A new plugin is the whole template, file for file and in order, each under
/// where it is to be written and with the plugin named in its path and in what
/// it holds; and nothing is written under a name that is refused, or into
/// something that is there already.
pub proof fn a_new_plugin_is_the_whole_template(
    template: Seq<(Seq<char>, Seq<char>)>,
    name: Seq<char>,
    into: Seq<char>,
    taken: bool,
)
    ensures
        scaffolded(template, name, into, taken) is Ok <==> label(name, 50) && name != "meridian"@
            && !taken,
        scaffolded(template, name, into, taken) matches Ok(files) ==> files.len() == template.len()
            && forall|i: int|
            0 <= i < files.len() ==> (#[trigger] files[i]).0 == under(
                into,
                called(template[i].0, name, module_of(name)),
            ) && files[i].1 == called(template[i].1, name, module_of(name)),
{
}

/// The files of a new plugin called `name`, to be written in order, each a
/// path and what it holds, from the template's files. `taken` says that there
/// is something at `into` already.
pub fn scaffold(name: &str, into: &str, taken: bool, template: &Vec<(String, String)>) -> (r: Result<
    Vec<(String, String)>,
    String,
>)
    ensures
        match r {
            Ok(files) => scaffolded(pairs(template@), name@, into@, taken) == Ok::<
                Seq<(Seq<char>, Seq<char>)>,
                Seq<char>,
            >(pairs(files@)),
            Err(why) => scaffolded(pairs(template@), name@, into@, taken) == Err::<
                Seq<(Seq<char>, Seq<char>)>,
                Seq<char>,
            >(why@),
        },
{
    if let Err(why) = check_name(name) {
        return Err(why);
    }
    if taken {
        let mut why = into.to_owned();
        why.append(" already exists; a new plugin goes somewhere new");
        return Err(why);
    }
    proof {
        reveal_strlit("-");
    }
    let module = replaced(name, "-", "_");
    let mut files: Vec<(String, String)> = Vec::new();
    let ghost all = written(pairs(template@), name@, into@);
    let mut i: usize = 0;
    while i < template.len()
        invariant
            i <= template@.len(),
            module@ == module_of(name@),
            all == written(pairs(template@), name@, into@),
            pairs(files@) =~= all.take(i as int),
        decreases template@.len() - i,
    {
        let ghost before = pairs(files@);
        let path = joined_path(
            into,
            renamed(template[i].0.as_str(), name, module.as_str()).as_str(),
        );
        let contents = renamed(template[i].1.as_str(), name, module.as_str());
        let ghost file = (path@, contents@);
        assert(file == all[i as int]);
        files.push((path, contents));
        assert(pairs(files@) =~= before.push(file));
        i += 1;
    }
    assert(all.take(all.len() as int) =~= all);
    Ok(files)
}

/// What to do next, said once the files are written.
pub fn next_steps(name: &str, into: &str) -> (out: String)
    ensures
        out@ == "Made "@ + name@ + " in "@ + into@
            + ", on the Python SDK (open-meridian).\n\n  cd "@ + into@
            + "\n  meridian plugin upload\n  meridian plugin launch "@ + name@
            + " 0.1.0 --instance "@ + name@
            + "\n\nUpload builds its image here and puts it in the catalogue of the deployment\n`meridian connect` signed you in to; launch shows the roles and tags its\npyproject.toml asks for, and runs it once you approve them. It reaches its\nsidecar and nothing else.\n"@,
{
    let mut out = "Made ".to_owned();
    out.append(name);
    out.append(" in ");
    out.append(into);
    out.append(", on the Python SDK (open-meridian).\n\n  cd ");
    out.append(into);
    out.append("\n  meridian plugin upload\n  meridian plugin launch ");
    out.append(name);
    out.append(" 0.1.0 --instance ");
    out.append(name);
    out.append(
        "\n\nUpload builds its image here and puts it in the catalogue of the deployment\n`meridian connect` signed you in to; launch shows the roles and tags its\npyproject.toml asks for, and runs it once you approve them. It reaches its\nsidecar and nothing else.\n",
    );
    out
}

/// A path of the template's package is the plugin's own once the template is
/// renamed, and one outside it stays what it is.
proof fn lemma_path(before: Seq<char>, after: Seq<char>, name: Seq<char>, module: Seq<char>)
    requires
        before == "src/"@,
        after.len() < 16,
        forall|i: int| 0 <= i < after.len() ==> #[trigger] after[i] != '-',
    ensures
        called(before + "reference_plugin"@ + after, name, module) == before + module + after,
{
    reveal_strlit("src/");
    reveal_strlit("reference_plugin");
    reveal_strlit("reference-plugin");
    let pat = "reference_plugin"@;
    let other = "reference-plugin"@;
    let text = before + pat + after;
    assert(text.subrange(4, 20) =~= pat);
    assert forall|j: int| j < 4 implies !#[trigger] crate::text::occurs_at(text, pat, j) by {
        if crate::text::occurs_at(text, pat, j) {
            assert(text.subrange(j, j + 16)[0] == pat[0]);
            assert(text.subrange(j, j + 16)[1] == pat[1]);
            assert(text[j] == before[j]);
            if j < 3 {
                assert(text[j + 1] == before[j + 1]);
            }
        }
    }
    assert(crate::text::first_at(text, pat, 4));
    assert(!holds(text, other)) by {
        if holds(text, other) {
            let j = choose|j: int| #[trigger] crate::text::occurs_at(text, other, j);
            assert(text.subrange(j, j + 16)[9] == other[9]);
            let k = j + 9;
            if k < 4 {
                assert(text[k] == before[k]);
            } else if k < 20 {
                assert(text[k] == pat[k - 4]);
            } else {
                assert(text[k] == after[k - 20]);
            }
        }
    }
    lemma_too_short(after, pat);
    where_the_template_names_itself_the_plugin_is_named(before, after, name, module);
}

proof fn lemma_too_short(s: Seq<char>, pat: Seq<char>)
    requires
        s.len() < pat.len(),
    ensures
        !holds(s, pat),
{
    if holds(s, pat) {
        let j = choose|j: int| #[trigger] crate::text::occurs_at(s, pat, j);
    }
}

proof fn lemma_kept(path: Seq<char>, name: Seq<char>, module: Seq<char>)
    requires
        path.len() < 16,
    ensures
        called(path, name, module) == path,
{
    reveal_strlit("reference_plugin");
    reveal_strlit("reference-plugin");
    lemma_too_short(path, "reference_plugin"@);
    lemma_too_short(path, "reference-plugin"@);
    what_does_not_name_the_template_is_kept(path, name, module);
}

/// A new plugin has its own package: of the template's files, those of the
/// package are written in a directory that is called as the plugin imports, and
/// the others beside it under their own names, each under where the plugin goes.
pub proof fn a_new_plugin_has_its_own_package(
    template: Seq<(Seq<char>, Seq<char>)>,
    name: Seq<char>,
    into: Seq<char>,
)
    requires
        template.len() == 7,
        forall|i: int| 0 <= i < 7 ==> (#[trigger] template[i]).0 == template_paths()[i],
    ensures
        ({
            let module = module_of(name);
            let files = written(template, name, into);
            &&& template_paths().len() == 7 && files.len() == 7
            &&& files[0].0 == under(into, ".dockerignore"@)
            &&& files[1].0 == under(into, "Dockerfile"@)
            &&& files[2].0 == under(into, "README.md"@)
            &&& files[3].0 == under(into, "pyproject.toml"@)
            &&& files[4].0 == under(into, "src/"@ + module + "/__init__.py"@)
            &&& files[5].0 == under(into, "src/"@ + module + "/__main__.py"@)
            &&& files[6].0 == under(into, "src/"@ + module + "/page.py"@)
        }),
{
    let module = module_of(name);
    reveal_strlit(".dockerignore");
    reveal_strlit("Dockerfile");
    reveal_strlit("README.md");
    reveal_strlit("pyproject.toml");
    lemma_kept(".dockerignore"@, name, module);
    lemma_kept("Dockerfile"@, name, module);
    lemma_kept("README.md"@, name, module);
    lemma_kept("pyproject.toml"@, name, module);
    reveal_strlit("/__init__.py");
    reveal_strlit("/__main__.py");
    reveal_strlit("/page.py");
    lemma_path("src/"@, "/__init__.py"@, name, module);
    lemma_path("src/"@, "/__main__.py"@, name, module);
    lemma_path("src/"@, "/page.py"@, name, module);
    lemma_paths();
    assert(template[0].0 == template_paths()[0]);
    assert(template[1].0 == template_paths()[1]);
    assert(template[2].0 == template_paths()[2]);
    assert(template[3].0 == template_paths()[3]);
    assert(template[4].0 == template_paths()[4]);
    assert(template[5].0 == template_paths()[5]);
    assert(template[6].0 == template_paths()[6]);
}

proof fn lemma_paths()
    ensures
        "src/reference_plugin/__init__.py"@ == "src/"@ + "reference_plugin"@ + "/__init__.py"@,
        "src/reference_plugin/__main__.py"@ == "src/"@ + "reference_plugin"@ + "/__main__.py"@,
        "src/reference_plugin/page.py"@ == "src/"@ + "reference_plugin"@ + "/page.py"@,
{
    reveal_strlit("src/reference_plugin/__init__.py");
    reveal_strlit("src/reference_plugin/__main__.py");
    reveal_strlit("src/reference_plugin/page.py");
    reveal_strlit("src/");
    reveal_strlit("reference_plugin");
    reveal_strlit("/__init__.py");
    reveal_strlit("/__main__.py");
    reveal_strlit("/page.py");
    assert("src/reference_plugin/__init__.py"@ =~= "src/"@ + "reference_plugin"@ + "/__init__.py"@);
    assert("src/reference_plugin/__main__.py"@ =~= "src/"@ + "reference_plugin"@ + "/__main__.py"@);
    assert("src/reference_plugin/page.py"@ =~= "src/"@ + "reference_plugin"@ + "/page.py"@);
}

} // verus!
