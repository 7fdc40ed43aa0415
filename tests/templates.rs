use std::path::PathBuf;

use gign::{
    bodies_to_read, find_closest, generate_gitignore, is_pruned_dir, prefix_is_one_of,
    trim_newlines_of,
    TemplateEntry, TemplateError, TemplateIndex,
};

fn entry(prefix: &str, name: &str) -> TemplateEntry {
    TemplateEntry::new(
        prefix.to_string(),
        name.to_string(),
        PathBuf::from(format!("/templates/{}/{}.gitignore", prefix, name)),
    )
}

fn loaded(prefix: &str, name: &str, body: &str) -> TemplateEntry {
    entry(prefix, name).with_template(body.to_string())
}

fn index_of(entries: Vec<TemplateEntry>) -> TemplateIndex {
    match TemplateIndex::build(entries) {
        Ok(index) => index,
        Err(e) => panic!("{}", e.message()),
    }
}

fn names(ns: &[&str]) -> Vec<String> {
    ns.iter().map(|n| n.to_string()).collect()
}

#[test]
fn closest_with_no_candidates_is_none() {
    assert!(find_closest("rust", vec![]).is_none());
    assert!(find_closest("", vec![]).is_none());
}

#[test]
fn closest_to_misspelled_python() {
    let python = entry("", "python");
    let ruby = entry("", "ruby");
    let rust = entry("", "rust");
    let found = find_closest("pythn", vec![&python, &ruby, &rust]).unwrap();
    assert_eq!(found.name(), "python");
}

#[test]
fn closest_beyond_cutoff_is_none() {
    let python = entry("", "python");
    assert!(find_closest("zzzzzzzzzz", vec![&python]).is_none());
}

#[test]
fn closest_just_below_cutoff() {
    // nine substitutions away
    let far = entry("", "aaaaaaaaa");
    let found = find_closest("bbbbbbbbb", vec![&far]).unwrap();
    assert_eq!(found.name(), "aaaaaaaaa");
}

#[test]
fn closest_tie_keeps_first() {
    let cat = entry("", "cat");
    let car = entry("", "car");
    let found = find_closest("ca", vec![&cat, &car]).unwrap();
    assert_eq!(found.name(), "cat");
    let found = find_closest("ca", vec![&car, &cat]).unwrap();
    assert_eq!(found.name(), "car");
}

#[test]
fn closest_prefers_smaller_distance_later() {
    let go = entry("", "go");
    let rust = entry("", "rust");
    let found = find_closest("rusty", vec![&go, &rust]).unwrap();
    assert_eq!(found.name(), "rust");
}

#[test]
fn generate_keeps_request_order() {
    let index = index_of(vec![loaded("", "a", "A"), loaded("", "b", "B")]);
    let doc = generate_gitignore(&index, &names(&["b", "a"])).ok().unwrap();
    assert_eq!(doc, "#####\n# b #\n#####\n\nB\n\n\n\n#####\n# a #\n#####\n\nA");
    assert!(doc.find("B").unwrap() < doc.find("A").unwrap());
}

#[test]
fn generate_fails_fast() {
    let index = index_of(vec![loaded("", "a", "AAA"), loaded("", "b", "BBB")]);
    let result = generate_gitignore(&index, &names(&["a", "doesnotexist", "b"]));
    match result {
        Err(TemplateError::TemplateNotFound { name, .. }) => assert_eq!(name, "doesnotexist"),
        _ => panic!("expected a missing template"),
    }
}

#[test]
fn generate_single_rust_template() {
    let index = index_of(vec![loaded("", "rust", "*.rs")]);
    let doc = generate_gitignore(&index, &names(&["rust"])).ok().unwrap();
    assert_eq!(doc, "########\n# rust #\n########\n\n*.rs");
}

#[test]
fn generate_empty_request() {
    let index = index_of(vec![loaded("", "rust", "*.rs")]);
    assert_eq!(generate_gitignore(&index, &vec![]).ok().unwrap(), "");
}

#[test]
fn generate_prefixed_title() {
    let index = index_of(vec![loaded("global", "macOS", ".DS_Store\n")]);
    let doc = generate_gitignore(&index, &names(&["global:macOS"])).ok().unwrap();
    assert_eq!(doc, "#########\n# macOS #\n#########\n\n.DS_Store");
    assert!(generate_gitignore(&index, &names(&["macOS"])).is_err());
}

#[test]
fn suggestion_text_for_rst() {
    let index = index_of(vec![loaded("", "rust", "*.rs")]);
    let err = generate_gitignore(&index, &names(&["rst"])).err().unwrap();
    assert_eq!(err.message(), "Template 'rst' not found, did you mean 'rust'?");
}

#[test]
fn suggestion_carries_full_title() {
    let index = index_of(vec![loaded("global", "rust", "*.rs")]);
    let err = generate_gitignore(&index, &names(&["rst"])).err().unwrap();
    assert_eq!(err.message(), "Template 'rst' not found, did you mean 'global:rust'?");
}

#[test]
fn not_found_without_suggestion() {
    let index = index_of(vec![loaded("", "python", "*.pyc")]);
    let err = generate_gitignore(&index, &names(&["zzzzzzzzzz"])).err().unwrap();
    assert_eq!(err.message(), "Template 'zzzzzzzzzz' not found");
}

#[test]
fn unread_body_is_a_read_failure() {
    let index = index_of(vec![entry("", "rust")]);
    let err = generate_gitignore(&index, &names(&["rust"])).err().unwrap();
    match &err {
        TemplateError::ReadFailure(name) => assert_eq!(name, "rust"),
        _ => panic!("expected a read failure"),
    }
    assert_eq!(err.message(), "Could not read template 'rust'");
}

#[test]
fn load_then_generate() {
    let mut index = index_of(vec![entry("", "go"), entry("", "rust")]);
    let plan = bodies_to_read(&index, &names(&["rust", "go"]));
    assert_eq!(plan, vec![1, 0]);
    index.load(1, "target/".to_string());
    index.load(0, "bin/".to_string());
    let doc = generate_gitignore(&index, &names(&["rust", "go"])).ok().unwrap();
    assert_eq!(
        doc,
        "########\n# rust #\n########\n\ntarget/\n\n\n\n######\n# go #\n######\n\nbin/"
    );
}

#[test]
fn read_plan_stops_at_unknown_title() {
    let index = index_of(vec![entry("", "a"), entry("", "b")]);
    assert_eq!(bodies_to_read(&index, &names(&["b", "missing", "a"])), vec![1]);
    assert_eq!(bodies_to_read(&index, &names(&[])), Vec::<usize>::new());
}

#[test]
fn build_keeps_every_template() {
    let index = index_of(vec![entry("", "rust"), entry("global", "rust"), entry("community", "go")]);
    assert_eq!(index.len(), 3);
    assert_eq!(index.position("rust"), Some(0));
    assert_eq!(index.position("global:rust"), Some(1));
    assert_eq!(index.position("community:go"), Some(2));
    assert_eq!(index.position("go"), None);
    assert_eq!(index.entry(1).title(), "global:rust");
}

#[test]
fn build_rejects_duplicate_titles() {
    let result = TemplateIndex::build(vec![entry("", "go"), entry("", "rust"), entry("", "rust")]);
    let err = result.err().unwrap();
    match &err {
        TemplateError::DuplicateTemplate(name) => assert_eq!(name, "rust"),
        _ => panic!("expected a duplicate"),
    }
    assert_eq!(err.message(), "Duplicate template name: rust");
}

#[test]
fn build_rejects_colliding_qualified_titles() {
    let result = TemplateIndex::build(vec![entry("a", "b"), entry("", "a:b")]);
    assert!(matches!(result, Err(TemplateError::DuplicateTemplate(_))));
}

#[test]
fn directory_not_found_message() {
    assert_eq!(TemplateError::DirectoryNotFound.message(), "Templates path does not exist");
}

#[test]
fn file_in_category_gets_lowercase_prefix() {
    let e = TemplateEntry::from_file("Rust.gitignore", "Global", PathBuf::from("x")).unwrap();
    assert_eq!(e.prefix(), "global");
    assert_eq!(e.name(), "Rust");
    assert_eq!(e.title(), "global:Rust");
    assert_eq!(e.path(), &PathBuf::from("x"));
    assert!(e.template().is_none());
}

#[test]
fn file_in_root_dir_has_no_prefix() {
    let e = TemplateEntry::from_file("Go.gitignore", "ignore", PathBuf::from("x")).unwrap();
    assert_eq!(e.prefix(), "");
    assert_eq!(e.title(), "Go");
    let e = TemplateEntry::from_file("Go.gitignore", "Ignore", PathBuf::from("x")).unwrap();
    assert_eq!(e.title(), "ignore:Go");
}

#[test]
fn only_template_files_are_kept() {
    assert!(TemplateEntry::from_file("README.md", "default", PathBuf::from("x")).is_none());
    assert!(TemplateEntry::from_file(".gitignore", "default", PathBuf::from("x")).is_none());
    assert!(TemplateEntry::from_file("gitignore", "default", PathBuf::from("x")).is_none());
    let e = TemplateEntry::from_file("a.gitignore.gitignore", "ignore", PathBuf::from("x")).unwrap();
    assert_eq!(e.name(), "a.gitignore");
    assert_eq!(e.title(), "a.gitignore");
    let e = TemplateEntry::from_file("x.gitignore", "default", PathBuf::from("x")).unwrap();
    assert_eq!(e.title(), "default:x");
}

#[test]
fn version_control_dirs_are_pruned() {
    assert!(is_pruned_dir(".git"));
    assert!(is_pruned_dir(".github"));
    assert!(!is_pruned_dir("Global"));
    assert!(!is_pruned_dir(".gitlab"));
}

#[test]
fn block_format() {
    let e = loaded("", "go", "bin/\n");
    assert_eq!(e.to_string(), "\n######\n# go #\n######\n\nbin/\n\n\n\n");
    assert_eq!(e.template().unwrap(), "bin/\n");
}

#[test]
fn colored_title() {
    let plain = entry("", "Rust");
    assert_eq!(plain.title_colored(), "Rust");
    let t = entry("global", "Rust").title_colored();
    let stripped: String = t
        .replace("\u{1b}[32m", "")
        .replace("\u{1b}[35m", "")
        .replace("\u{1b}[0m", "");
    assert_eq!(stripped, "global:Rust");
}

#[test]
fn trimming_newlines() {
    assert_eq!(trim_newlines_of("\n\nab\n\nc\n\n"), "ab\n\nc");
    assert_eq!(trim_newlines_of("\n\n\n"), "");
    assert_eq!(trim_newlines_of(""), "");
    assert_eq!(trim_newlines_of("x"), "x");
}

#[test]
fn listing_sorted_by_prefix_then_name() {
    let index = index_of(vec![
        entry("global", "macOS"),
        entry("", "Rust"),
        entry("community", "Go"),
        entry("global", "Linux"),
        entry("", "C"),
    ]);
    let titles: Vec<String> = index.sorted_entries().iter().map(|e| e.title()).collect();
    assert_eq!(titles, vec!["C", "Rust", "community:Go", "global:Linux", "global:macOS"]);
}

#[test]
fn listing_of_empty_index() {
    let index = index_of(vec![]);
    assert!(index.sorted_entries().is_empty());
}

#[test]
fn prefix_filter() {
    let e = entry("global", "macOS");
    assert!(prefix_is_one_of(&e, &names(&["community", "global"])));
    assert!(!prefix_is_one_of(&e, &names(&["community"])));
    assert!(!prefix_is_one_of(&e, &names(&[])));
}

#[test]
fn colored_title_with_inner_reset() {
    let t = entry("a\u{1b}[0mb", "Rust").title_colored();
    let plain = "a\u{1b}[0mb:Rust";
    let coloured = "\u{1b}[32ma\u{1b}[0m\u{1b}[32mb\u{1b}[0m\u{1b}[35m:\u{1b}[0mRust";
    assert!(t == plain || t == coloured);
}
