use gitdeps::config::Configuration;
use gitdeps::mutate::MutateGitDeps;
use gitdeps::quote::quote;
use gitdeps::store::{emit, read_configs, ManifestFile, Source};

fn settings(new_repo: &str, rev: Option<&str>, branch: Option<&str>) -> Configuration {
    Configuration {
        ignore_target: false,
        git_repo: String::from("https://old/repo"),
        new_repo: String::from(new_repo),
        rev: rev.map(String::from),
        branch: branch.map(String::from),
    }
}

fn load(texts: &[(&str, &str)]) -> Vec<ManifestFile> {
    let sources: Vec<Source> = texts
        .iter()
        .map(|(path, text)| Source { path: path.to_string(), text: Some(text.to_string()) })
        .collect();
    read_configs(&sources).unwrap()
}

fn rewrite(text: &str, config: Configuration) -> String {
    let mut files = load(&[("./Cargo.toml", text)]);
    let texts = MutateGitDeps::new(config).run(&mut files).unwrap();
    assert_eq!(texts.len(), 1);
    assert_eq!(emit(&files[0].doc), Ok(texts[0].clone()));
    texts[0].clone()
}

const WORKSPACE: &str = "# top\n[package]\nname = \"x\"\n\n[dependencies]\nbar = \"1.0\"\nfoo = {version=\"1\",  git = \"https://old/repo\" , features = [\"a\"]}\nlocal = { path = \"../local\" }   # stays\n\n[dependencies.baz]\ngit = \"https://old/baz\" # why\nrev = \"1\"\nbranch = \"b\"\n\n[dependencies.plain]\nversion = \"2\"\n\n[dev-dependencies]\nqux = { git = \"https://old/qux\", rev = \"r\" }\n\n[build-dependencies]\ncc = { git = \"https://old/cc\" }\n";

#[test]
fn inline_entry_gets_new_repository_and_revision() {
    let text = "[dependencies]\nfoo = { git = \"https://old/repo\", branch = \"main\" }\n";
    let out = rewrite(text, settings("https://new/repo", Some("abcdef"), None));
    assert_eq!(
        out,
        "[dependencies]\nfoo = { git = \"https://new/repo\", rev = \"abcdef\" }\n"
    );
}

#[test]
fn bare_version_is_never_touched() {
    let text = "[dependencies]\nbar = \"1.0\"\n";
    assert_eq!(rewrite(text, settings("https://new/repo", Some("abcdef"), None)), text);
    assert_eq!(rewrite(text, settings("https://new/repo", None, Some("main"))), text);
    assert_eq!(rewrite(text, settings("https://new/repo", None, None)), text);
}

#[test]
fn manifest_without_dependency_tables_comes_out_unchanged() {
    let text = "[package]\nname = \"x\"   # the name\nversion = '0.1.0'\n\n[features]\ndefault = []\n";
    assert_eq!(rewrite(text, settings("https://new/repo", Some("abcdef"), None)), text);
    assert_eq!(rewrite("", settings("https://new/repo", None, None)), "");
}

#[test]
fn manifest_without_eligible_entries_round_trips() {
    let text = "# a comment\n\n[package]\nname   =   \"x\"\n\n[dependencies]\n  a = \"1\"   # one\nb = { version = \"2\",features=[ \"f\" ] }\n\n[dependencies.c]\nversion = \"3\"\n\n[dev-dependencies]\nd = { path = \"../d\" }\n# the end\n";
    assert_eq!(rewrite(text, settings("https://new/repo", Some("abcdef"), None)), text);
}

#[test]
fn only_entries_with_a_git_key_change() {
    let out = rewrite(WORKSPACE, settings("https://new/repo", None, Some("next")));
    assert_eq!(
        out,
        "# top\n[package]\nname = \"x\"\n\n[dependencies]\nbar = \"1.0\"\nfoo = { version = \"1\", features = [\"a\"], git = \"https://new/repo\", branch = \"next\" }\nlocal = { path = \"../local\" }   # stays\n\n[dependencies.baz]\ngit = \"https://new/repo\"\nbranch = \"next\"\n\n[dependencies.plain]\nversion = \"2\"\n\n[dev-dependencies]\nqux = { git = \"https://new/repo\", branch = \"next\" }\n\n[build-dependencies]\ncc = { git = \"https://old/cc\" }\n"
    );
}

#[test]
fn pins_stay_where_none_is_asked_for() {
    let out = rewrite(WORKSPACE, settings("https://new/repo", None, None));
    assert_eq!(
        out,
        "# top\n[package]\nname = \"x\"\n\n[dependencies]\nbar = \"1.0\"\nfoo = { version = \"1\", features = [\"a\"], git = \"https://new/repo\" }\nlocal = { path = \"../local\" }   # stays\n\n[dependencies.baz]\nrev = \"1\"\nbranch = \"b\"\ngit = \"https://new/repo\"\n\n[dependencies.plain]\nversion = \"2\"\n\n[dev-dependencies]\nqux = { rev = \"r\", git = \"https://new/repo\" }\n\n[build-dependencies]\ncc = { git = \"https://old/cc\" }\n"
    );
}

#[test]
fn revision_takes_the_place_of_a_branch() {
    let text = "[dependencies]\nfoo = { git = \"https://old/repo\", rev = \"old\", branch = \"main\" }\n";
    assert_eq!(
        rewrite(text, settings("https://new/repo", Some("abcdef"), None)),
        "[dependencies]\nfoo = { git = \"https://new/repo\", rev = \"abcdef\" }\n"
    );
}

#[test]
fn branch_takes_the_place_of_a_revision() {
    let text = "[dependencies]\nfoo = { git = \"https://old/repo\", rev = \"old\", branch = \"main\" }\n";
    assert_eq!(
        rewrite(text, settings("https://new/repo", None, Some("next"))),
        "[dependencies]\nfoo = { git = \"https://new/repo\", branch = \"next\" }\n"
    );
}

#[test]
fn revision_wins_where_both_pins_are_asked_for() {
    let text = "[dependencies]\nfoo = { git = \"https://old/repo\", branch = \"main\" }\n";
    assert_eq!(
        rewrite(text, settings("https://new/repo", Some("abcdef"), Some("next"))),
        "[dependencies]\nfoo = { git = \"https://new/repo\", rev = \"abcdef\" }\n"
    );
}

#[test]
fn block_table_entry_is_rewritten() {
    let text = "[dependencies.foo]\nversion = \"1\"\ngit = \"https://old/repo\"\nbranch = \"main\"\n";
    assert_eq!(
        rewrite(text, settings("https://new/repo", Some("abcdef"), None)),
        "[dependencies.foo]\nversion = \"1\"\ngit = \"https://new/repo\"\nrev = \"abcdef\"\n"
    );
}

#[test]
fn development_dependencies_are_rewritten_too() {
    let text = "[dev-dependencies]\nfoo = { git = \"https://old/repo\" }\n";
    assert_eq!(
        rewrite(text, settings("https://new/repo", None, Some("next"))),
        "[dev-dependencies]\nfoo = { git = \"https://new/repo\", branch = \"next\" }\n"
    );
}

#[test]
fn entry_with_a_quoted_name_is_rewritten() {
    let text = "[dependencies]\n\"my dep\" = { git = \"https://old/repo\" }\n";
    assert_eq!(
        rewrite(text, settings("https://new/repo", None, None)),
        "[dependencies]\n\"my dep\" = { git = \"https://new/repo\" }\n"
    );
}

#[test]
fn rewriting_again_changes_nothing_more() {
    let config = || settings("https://new/repo", Some("abcdef"), None);
    let once = rewrite(WORKSPACE, config());
    assert_eq!(rewrite(&once, config()), once);
}

#[test]
fn every_document_is_written_out_in_the_order_of_the_store() {
    let quiet = "[package]\nname = \"quiet\"\n";
    let busy = "[dependencies]\nfoo = { git = \"https://old/repo\" }\n";
    let mut files = load(&[("./a/Cargo.toml", quiet), ("./b/Cargo.toml", busy), ("./c/Cargo.toml", quiet)]);
    let texts = MutateGitDeps::new(settings("https://new/repo", None, None))
        .run(&mut files)
        .unwrap();
    assert_eq!(
        texts,
        vec![
            String::from(quiet),
            String::from("[dependencies]\nfoo = { git = \"https://new/repo\" }\n"),
            String::from(quiet),
        ]
    );
    let paths: Vec<&str> = files.iter().map(|f| f.path.as_str()).collect();
    assert_eq!(paths, vec!["./a/Cargo.toml", "./b/Cargo.toml", "./c/Cargo.toml"]);
}

#[test]
fn run_on_an_empty_store_writes_nothing() {
    let mut files = Vec::new();
    assert_eq!(
        MutateGitDeps::new(settings("https://new/repo", None, None)).run(&mut files),
        Ok(Vec::new())
    );
}

#[test]
fn text_with_quotes_and_escapes_is_written_and_read_back() {
    let text = "[dependencies]\nfoo = { git = \"https://old/repo\" }\n";
    let out = rewrite(text, settings("a\"b", Some("C:\\temp\\new"), None));
    assert_eq!(
        out,
        "[dependencies]\nfoo = { git = \"a\\\"b\", rev = \"C:\\\\temp\\\\new\" }\n"
    );
    let files = load(&[("./Cargo.toml", out.as_str())]);
    assert_eq!(files[0].doc["dependencies"]["foo"]["git"].as_str(), Some("a\"b"));
    assert_eq!(files[0].doc["dependencies"]["foo"]["rev"].as_str(), Some("C:\\temp\\new"));
    let out = rewrite(text, settings("line\nbreak", None, Some("'b'")));
    assert_eq!(
        out,
        "[dependencies]\nfoo = { git = \"line\\u000Abreak\", branch = \"'b'\" }\n"
    );
    let files = load(&[("./Cargo.toml", out.as_str())]);
    assert_eq!(files[0].doc["dependencies"]["foo"]["git"].as_str(), Some("line\nbreak"));
    assert_eq!(files[0].doc["dependencies"]["foo"]["branch"].as_str(), Some("'b'"));
}

#[test]
fn settings_do_not_matter_where_nothing_is_written() {
    let text = "[package]\nname = \"x\"\n\n[dependencies]\nbar = \"1.0\"\n";
    assert_eq!(rewrite(text, settings("a\"b\\c\u{0}", Some("'\n"), Some("\"\"\""))), text);
    let mut files = Vec::new();
    assert_eq!(
        MutateGitDeps::new(settings("\"", Some("\\"), None)).run(&mut files),
        Ok(Vec::new())
    );
}

#[test]
fn branch_that_is_not_asked_for_is_not_written() {
    let text = "[dependencies]\nfoo = { git = \"https://old/repo\" }\n";
    assert_eq!(
        rewrite(text, settings("https://new/repo", Some("abcdef"), Some("\"bad\""))),
        "[dependencies]\nfoo = { git = \"https://new/repo\", rev = \"abcdef\" }\n"
    );
}

#[test]
fn written_text_is_read_back_as_itself() {
    let text = "[dependencies]\nfoo = { git = \"https://old/repo\" }\n";
    let repo = "ssh://git@host:22/~user/it's a.repo?x=1#frag \u{e9}\u{1F600}";
    let out = rewrite(text, settings(repo, None, None));
    assert_eq!(out, format!("[dependencies]\nfoo = {{ git = \"{}\" }}\n", repo));
    let files = load(&[("./Cargo.toml", out.as_str())]);
    let found = files[0].doc["dependencies"]["foo"]["git"].as_str().map(String::from);
    assert_eq!(found, Some(String::from(repo)));
}

#[test]
fn every_text_is_written_and_read_back_as_itself() {
    let text = "[dependencies.foo]\ngit = \"https://old/repo\"\n\n[dev-dependencies]\nbar = { git = \"https://old/repo\" }\n";
    let texts = [
        "", " ", "   lead and trail   ", "a'b", "it''s", "\u{7f}", "#x", "{}[],=", "\u{e9}",
        "\u{10FFFF}", "true", "1979-05-27", "[dependencies]", "a = \u{201c}b\u{201d}",
        "\"", "\"\"", "\"\"\"", "\"quoted\"", "'quoted'", "'''", "'", "\\", "\\\\", "a\\tb",
        "\\u0041", "\\\"", "C:\\path\\to", "tab\there", "line\nbreak", "cr\rlf\n", "\u{0}",
        "\u{1}\u{8}\u{c}\u{1f}", "ends with \\", "\" mixed ' \\ \n all",
    ];
    for repo in texts.iter() {
        for pin in texts.iter() {
            let out = rewrite(text, settings(repo, Some(pin), None));
            assert_eq!(
                out,
                format!(
                    "[dependencies.foo]\ngit = {}\nrev = {}\n\n[dev-dependencies]\nbar = {{ git = {}, rev = {} }}\n",
                    quote(repo), quote(pin), quote(repo), quote(pin)
                )
            );
            let files = load(&[("./Cargo.toml", out.as_str())]);
            let doc = &files[0].doc;
            assert_eq!(doc["dependencies"]["foo"]["git"].as_str(), Some(*repo));
            assert_eq!(doc["dependencies"]["foo"]["rev"].as_str(), Some(*pin));
            assert_eq!(doc["dev-dependencies"]["bar"]["git"].as_str(), Some(*repo));
            assert_eq!(doc["dev-dependencies"]["bar"]["rev"].as_str(), Some(*pin));
        }
    }
}

#[test]
fn table_headers_are_written_in_one_quoting() {
    let text = "[ 'a'. b]\nx = 1\n[ \"a\"  .c]\ny = 2\n";
    assert_eq!(
        rewrite(text, settings("https://new/repo", None, None)),
        "['a'.b]\nx = 1\n['a'.c]\ny = 2\n"
    );
}
