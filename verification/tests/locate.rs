use gitdeps::config::Configuration;
use gitdeps::error::{Error, Missing};
use gitdeps::mutate::{has_table, locate, MutateGitDeps};
use gitdeps::store::{emit, ManifestFile};
use toml_edit::{Document, Item, Table};

fn parse(text: &str) -> Document {
    ManifestFile::parse("./Cargo.toml", text).unwrap().doc
}

fn mutator(rev: Option<&str>, branch: Option<&str>) -> MutateGitDeps {
    MutateGitDeps::new(Configuration {
        ignore_target: false,
        git_repo: String::from("https://old/repo"),
        new_repo: String::from("https://new/repo"),
        rev: rev.map(String::from),
        branch: branch.map(String::from),
    })
}

fn dependencies(doc: &mut Document) -> &mut Table {
    doc.as_table_mut().get_mut("dependencies").unwrap().as_table_mut().unwrap()
}

fn strings(names: &[&str]) -> Vec<String> {
    names.iter().map(|n| n.to_string()).collect()
}

const TABLE: &str = "[dependencies]\nz = { git = \"https://old/z\" }\nbare = \"1.0\"\nlist = [\"git\"]\na = { version = \"1\", git = \"https://old/a\", rev = \"r\" }\nlocal = { path = \"../local\" }\n\n[dependencies.m]\ngit = \"https://old/m\"\n\n[dependencies.plain]\nversion = \"2\"\n\n[dev-dependencies]\nd = { git = \"https://old/d\" }\n";

#[test]
fn eligible_entries_come_in_declared_order() {
    let doc = parse(TABLE);
    assert_eq!(locate(&doc, "dependencies"), Ok(strings(&["z", "a", "m"])));
    assert_eq!(locate(&doc, "dev-dependencies"), Ok(strings(&["d"])));
}

#[test]
fn table_without_eligible_entries_gives_no_names() {
    let doc = parse("[dependencies]\nbar = \"1.0\"\nlocal = { path = \"../local\" }\n");
    assert_eq!(locate(&doc, "dependencies"), Ok(Vec::new()));
    let doc = parse("[dependencies]\n");
    assert_eq!(locate(&doc, "dependencies"), Ok(Vec::new()));
}

#[test]
fn key_named_git_counts_whatever_it_holds() {
    let doc = parse("[dependencies]\nodd = { git = 1 }\nnested = { inner = { git = \"x\" } }\n");
    assert_eq!(locate(&doc, "dependencies"), Ok(strings(&["odd"])));
}

#[test]
fn missing_table_is_not_found() {
    let doc = parse("[package]\nname = \"x\"\n");
    assert_eq!(locate(&doc, "dependencies"), Err(Error::NotFound(Missing::Section)));
    assert!(!has_table(&doc, "dependencies"));
    assert!(has_table(&doc, "package"));
}

#[test]
fn value_in_place_of_a_table_is_the_wrong_kind() {
    let doc = parse("dependencies = \"none\"\ninline = { a = { git = \"x\" } }\n");
    assert_eq!(locate(&doc, "dependencies"), Err(Error::NotFound(Missing::Kind)));
    assert_eq!(locate(&doc, "inline"), Err(Error::NotFound(Missing::Kind)));
    assert!(!has_table(&doc, "dependencies"));
    assert!(!has_table(&doc, "inline"));
    let doc = parse("[[dependencies]]\nfoo = { git = \"x\" }\n");
    assert_eq!(locate(&doc, "dependencies"), Err(Error::NotFound(Missing::Kind)));
}

#[test]
fn document_without_a_root_table_has_no_tables() {
    let mut doc = parse(TABLE);
    doc.root = Item::None;
    assert_eq!(locate(&doc, "dependencies"), Err(Error::NotFound(Missing::Root)));
    assert!(!has_table(&doc, "dependencies"));
    let m = mutator(None, None);
    assert_eq!(m.mutate_git_deps(&mut doc, "dependencies"), Err(Error::NotFound(Missing::Root)));
    let m = mutator(None, None);
    let mut files = vec![
        ManifestFile::parse("./a/Cargo.toml", "[dependencies]\nfoo = { git = \"https://old/repo\" }\n").unwrap(),
        ManifestFile { path: String::from("./b/Cargo.toml"), doc },
    ];
    assert_eq!(m.run(&mut files), Err(Error::NotFound(Missing::Root)));
    assert_eq!(
        emit(&files[0].doc),
        Ok(String::from("[dependencies]\nfoo = { git = \"https://old/repo\" }\n"))
    );
}

#[test]
fn named_entries_are_changed() {
    let mut doc = parse(TABLE);
    let m = mutator(Some("abcdef"), None);
    assert_eq!(m.change_selected_values(dependencies(&mut doc), strings(&["a", "m"])), Ok(()));
    assert_eq!(
        emit(&doc),
        Ok(String::from(
            "[dependencies]\nz = { git = \"https://old/z\" }\nbare = \"1.0\"\nlist = [\"git\"]\na = { version = \"1\", git = \"https://new/repo\", rev = \"abcdef\" }\nlocal = { path = \"../local\" }\n\n[dependencies.m]\ngit = \"https://new/repo\"\nrev = \"abcdef\"\n\n[dependencies.plain]\nversion = \"2\"\n\n[dev-dependencies]\nd = { git = \"https://old/d\" }\n"
        ))
    );
}

#[test]
fn no_names_change_nothing() {
    let mut doc = parse(TABLE);
    let m = mutator(Some("abcdef"), None);
    assert_eq!(m.change_selected_values(dependencies(&mut doc), Vec::new()), Ok(()));
    assert_eq!(emit(&doc), Ok(String::from(TABLE)));
}

#[test]
fn name_given_twice_is_changed_as_if_given_once() {
    let mut once = parse(TABLE);
    let mut twice = parse(TABLE);
    let m = mutator(None, Some("next"));
    assert_eq!(m.change_selected_values(dependencies(&mut once), strings(&["a", "z"])), Ok(()));
    assert_eq!(
        m.change_selected_values(dependencies(&mut twice), strings(&["a", "z", "a", "a", "z"])),
        Ok(())
    );
    assert_eq!(emit(&once), emit(&twice));
}

#[test]
fn table_shaped_entry_without_git_gets_one_when_named() {
    let mut doc = parse("[dependencies]\nlocal = { path = \"../local\" }\n");
    let m = mutator(None, None);
    assert_eq!(m.change_selected_values(dependencies(&mut doc), strings(&["local"])), Ok(()));
    assert_eq!(
        emit(&doc),
        Ok(String::from("[dependencies]\nlocal = { path = \"../local\", git = \"https://new/repo\" }\n"))
    );
}

#[test]
fn entry_that_is_no_table_cannot_be_changed() {
    let mut doc = parse(TABLE);
    let m = mutator(Some("abcdef"), None);
    assert_eq!(
        m.change_selected_values(dependencies(&mut doc), strings(&["z", "bare", "a"])),
        Err(Error::Mutation(String::from("bare")))
    );
    assert_eq!(
        emit(&doc),
        Ok(String::from(
            "[dependencies]\nz = { git = \"https://new/repo\", rev = \"abcdef\" }\nbare = \"1.0\"\nlist = [\"git\"]\na = { version = \"1\", git = \"https://old/a\", rev = \"r\" }\nlocal = { path = \"../local\" }\n\n[dependencies.m]\ngit = \"https://old/m\"\n\n[dependencies.plain]\nversion = \"2\"\n\n[dev-dependencies]\nd = { git = \"https://old/d\" }\n"
        ))
    );
}

#[test]
fn entry_that_is_not_there_cannot_be_changed() {
    let mut doc = parse(TABLE);
    let m = mutator(None, None);
    assert_eq!(
        m.change_selected_values(dependencies(&mut doc), strings(&["nowhere", "z"])),
        Err(Error::Mutation(String::from("nowhere")))
    );
    assert_eq!(emit(&doc), Ok(String::from(TABLE)));
    assert!(!doc["dependencies"].as_table().unwrap().contains_key("nowhere"));
}

#[test]
fn empty_slot_is_no_dependency() {
    let mut doc = parse("[dependencies]\na = { git = \"https://old/a\" }\n");
    let _ = dependencies(&mut doc).entry("ghost");
    let _ = dependencies(&mut doc).entry("b").or_insert(toml_edit::value("1.0"));
    assert_eq!(locate(&doc, "dependencies"), Ok(strings(&["a"])));
    let m = mutator(None, None);
    assert_eq!(
        m.change_selected_values(dependencies(&mut doc), strings(&["a", "ghost"])),
        Err(Error::Mutation(String::from("ghost")))
    );
    assert_eq!(
        emit(&doc),
        Ok(String::from("[dependencies]\na = { git = \"https://new/repo\" }\nb = \"1.0\"\n"))
    );
}

#[test]
fn one_table_is_rewritten_at_a_time() {
    let mut doc = parse(TABLE);
    let m = mutator(None, Some("next"));
    assert_eq!(m.mutate_git_deps(&mut doc, "dev-dependencies"), Ok(()));
    assert_eq!(
        emit(&doc),
        Ok(String::from(
            "[dependencies]\nz = { git = \"https://old/z\" }\nbare = \"1.0\"\nlist = [\"git\"]\na = { version = \"1\", git = \"https://old/a\", rev = \"r\" }\nlocal = { path = \"../local\" }\n\n[dependencies.m]\ngit = \"https://old/m\"\n\n[dependencies.plain]\nversion = \"2\"\n\n[dev-dependencies]\nd = { git = \"https://new/repo\", branch = \"next\" }\n"
        ))
    );
    assert_eq!(locate(&doc, "dev-dependencies"), Ok(strings(&["d"])));
}

#[test]
fn rewriting_a_missing_table_fails_and_changes_nothing() {
    let text = "[dependencies]\nfoo = { git = \"https://old/repo\" }\n";
    let mut doc = parse(text);
    let m = mutator(None, None);
    assert_eq!(
        m.mutate_git_deps(&mut doc, "dev-dependencies"),
        Err(Error::NotFound(Missing::Section))
    );
    assert_eq!(m.mutate_git_deps(&mut doc, "nothing"), Err(Error::NotFound(Missing::Section)));
    assert_eq!(emit(&doc), Ok(String::from(text)));
}

#[test]
fn both_tables_of_a_document_are_rewritten() {
    let mut doc = parse(TABLE);
    let m = mutator(None, None);
    assert_eq!(m.mutate_document(&mut doc), Ok(()));
    assert_eq!(
        emit(&doc),
        Ok(String::from(
            "[dependencies]\nz = { git = \"https://new/repo\" }\nbare = \"1.0\"\nlist = [\"git\"]\na = { version = \"1\", rev = \"r\", git = \"https://new/repo\" }\nlocal = { path = \"../local\" }\n\n[dependencies.m]\ngit = \"https://new/repo\"\n\n[dependencies.plain]\nversion = \"2\"\n\n[dev-dependencies]\nd = { git = \"https://new/repo\" }\n"
        ))
    );
    let mut quiet = parse("[package]\nname = \"x\"\n");
    assert_eq!(m.mutate_document(&mut quiet), Ok(()));
    assert_eq!(emit(&quiet), Ok(String::from("[package]\nname = \"x\"\n")));
}

#[test]
fn errors_do_not_depend_on_the_settings() {
    let odd = || {
        MutateGitDeps::new(Configuration {
            ignore_target: false,
            git_repo: String::new(),
            new_repo: String::from("line\nbreak \"quoted\" \\"),
            rev: Some(String::from("'")),
            branch: None,
        })
    };
    let mut doc = parse(TABLE);
    assert_eq!(
        odd().mutate_git_deps(&mut doc, "nothing"),
        Err(Error::NotFound(Missing::Section))
    );
    assert_eq!(
        odd().change_selected_values(dependencies(&mut doc), strings(&["bare", "z"])),
        Err(Error::Mutation(String::from("bare")))
    );
    assert_eq!(emit(&doc), Ok(String::from(TABLE)));
    assert_eq!(odd().change_selected_values(dependencies(&mut doc), strings(&["z"])), Ok(()));
    assert_eq!(
        doc["dependencies"]["z"]["git"].as_str(),
        Some("line\nbreak \"quoted\" \\")
    );
    assert_eq!(doc["dependencies"]["z"]["rev"].as_str(), Some("'"));
}

#[test]
fn entries_that_are_not_named_are_written_as_before() {
    let text = "[dependencies]\n  a   =   { git=\"https://old/a\"  ,rev = 'r' }   # a\nlocal={path = \"../local\",features=[ \"x\",\"y\" ],optional=true} # l\n\n# m\n[dependencies.m]\ngit = \"https://old/m\"   # m\n";
    let mut doc = parse(text);
    let m = mutator(None, None);
    assert_eq!(m.change_selected_values(dependencies(&mut doc), strings(&["m"])), Ok(()));
    assert_eq!(
        emit(&doc),
        Ok(String::from(
            "[dependencies]\n  a   =   { git=\"https://old/a\"  ,rev = 'r' }   # a\nlocal={path = \"../local\",features=[ \"x\",\"y\" ],optional=true} # l\n\n# m\n[dependencies.m]\ngit = \"https://new/repo\"\n"
        ))
    );
}

#[test]
fn other_keys_of_a_changed_entry_keep_their_value() {
    let mut doc = parse(
        "[dependencies]\na = { features=[ \"x\",\"y\" ], optional=true, git=\"https://old/a\", n = 1, t = { k = 0.5 } }\n",
    );
    let m = mutator(Some("abc"), None);
    assert_eq!(m.mutate_git_deps(&mut doc, "dependencies"), Ok(()));
    assert_eq!(
        emit(&doc),
        Ok(String::from(
            "[dependencies]\na = { features = [ \"x\",\"y\" ], optional = true, n = 1, t = { k = 0.5 }, git = \"https://new/repo\", rev = \"abc\" }\n"
        ))
    );
}
