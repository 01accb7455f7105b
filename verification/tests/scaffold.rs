use modulus::catalog::Catalog;
use modulus::materialize::{copy_plan, path_under, PlanEntry};
use modulus::paths::{join_path, should_skip};
use modulus::subst::{make_token, replace_all, substitute, Binding};
use modulus::template::{meta_file_name, Template, Variable};

fn bytes(s: &str) -> Vec<u8> {
    s.as_bytes().to_vec()
}

fn binding(name: &str, value: &str) -> Binding {
    Binding { name: bytes(name), value: bytes(value) }
}

#[test]
fn no_variables_leaves_content_unchanged() {
    let content = bytes("Hello <name>! <anything> stays.");
    let bindings: Vec<Binding> = Vec::new();
    let out = substitute(content.clone(), &bindings);
    assert_eq!(out, content);
}

#[test]
fn every_case_variant_of_token_is_replaced() {
    let content = bytes("a <varname> b <VarName> c <VARNAME> d");
    let bindings = vec![binding("VarName", "x")];
    let out = substitute(content, &bindings);
    assert_eq!(out, bytes("a x b x c x d"));
}

#[test]
fn replacement_value_case_is_preserved() {
    let content = bytes("<who>");
    let bindings = vec![binding("who", "AdA")];
    let out = substitute(content, &bindings);
    assert_eq!(out, bytes("AdA"));
}

#[test]
fn occurrences_are_replaced_left_to_right_non_overlapping() {
    let out = replace_all(&bytes("aaa"), &bytes("aa"), &bytes("b"));
    assert_eq!(out, bytes("ba"));
    let out = replace_all(&bytes("<n><n><n>"), &bytes("<n>"), &bytes("-"));
    assert_eq!(out, bytes("---"));
}

#[test]
fn a_pass_does_not_rescan_its_own_insertions() {
    let out = replace_all(&bytes("<name>"), &bytes("<name>"), &bytes("<NAME>"));
    assert_eq!(out, bytes("<NAME>"));
}

#[test]
fn token_is_lowercased_variable_name_in_angle_brackets() {
    assert_eq!(make_token(&bytes("Name")), bytes("<name>"));
    assert_eq!(make_token(&bytes("SECRET")), bytes("<secret>"));
}

#[test]
fn greeting_scenario() {
    let t = Template::new(bytes("t1"), bytes("t1"), Vec::new(), vec![Variable {
        name: bytes("name"),
        prompt: bytes("Your name"),
    }]);
    let rel = vec![bytes("greeting.txt")];
    let bindings = vec![binding("name", "Ada")];
    let out = t.process_file(&rel, bytes("Hello <name>!"), &bindings);
    assert_eq!(out, Some(bytes("Hello Ada!")));
}

#[test]
fn ignored_file_keeps_placeholder() {
    let t = Template::new(bytes("t2"), bytes("t2"), vec![bytes("notes.txt")], vec![Variable {
        name: bytes("secret"),
        prompt: bytes("Secret"),
    }]);
    let rel = vec![bytes("notes.txt")];
    let bindings = vec![binding("secret", "x")];
    let out = t.process_file(&rel, bytes("<secret>"), &bindings);
    assert_eq!(out, None);
}

#[test]
fn descriptor_file_is_never_substituted() {
    let t = Template::new(bytes("t1"), bytes("My template"), Vec::new(), Vec::new());
    assert_eq!(meta_file_name(&bytes("t1")), bytes("t1.meta.toml"));
    let rel = vec![bytes("t1.meta.toml")];
    assert!(should_skip(&rel, &t.ignored));
    let out = t.process_file(&rel, bytes("name = \"x\""), &Vec::new());
    assert_eq!(out, None);
}

#[test]
fn ignored_directory_name_skips_everything_beneath_it() {
    let ignored = vec![bytes("vendor")];
    assert!(should_skip(&vec![bytes("vendor"), bytes("a.txt")], &ignored));
    assert!(should_skip(&vec![bytes("vendor"), bytes("deep"), bytes("b.txt")], &ignored));
    assert!(!should_skip(&vec![bytes("src"), bytes("a.txt")], &ignored));
}

#[test]
fn ignore_entries_match_files_by_full_relative_path() {
    let ignored = vec![bytes("notes.txt")];
    assert!(should_skip(&vec![bytes("notes.txt")], &ignored));
    assert!(!should_skip(&vec![bytes("sub"), bytes("notes.txt")], &ignored));
    let nested = vec![bytes("sub/notes.txt")];
    assert!(should_skip(&vec![bytes("sub"), bytes("notes.txt")], &nested));
}

#[test]
fn empty_store_yields_empty_catalog() {
    let c = Catalog::new();
    assert!(c.is_empty());
    assert_eq!(c.len(), 0);
    assert!(c.names().is_empty());
}

#[test]
fn chained_substitution_replaces_inserted_token() {
    let content = bytes("x <a> y");
    let bindings = vec![binding("a", "<b>"), binding("b", "bee")];
    let out = substitute(content, &bindings);
    assert_eq!(out, bytes("x bee y"));
}

#[test]
fn catalog_lookup_and_last_wins() {
    let mut c = Catalog::new();
    c.insert(Template::new(bytes("d1"), bytes("demo"), Vec::new(), Vec::new()));
    c.insert(Template::new(bytes("other"), bytes("other"), Vec::new(), Vec::new()));
    c.insert(Template::new(bytes("d2"), bytes("demo"), Vec::new(), Vec::new()));
    assert_eq!(c.len(), 2);
    let t = c.get(&bytes("demo")).expect("demo is present");
    assert_eq!(t.id, bytes("d2"));
    assert!(c.get(&bytes("missing")).is_none());
    let names = c.names();
    assert_eq!(names, vec![bytes("demo"), bytes("other")]);
}

#[test]
fn plan_preserves_directory_structure() {
    let entries = vec![
        PlanEntry { rel: bytes(""), is_dir: true },
        PlanEntry { rel: bytes("sub"), is_dir: true },
        PlanEntry { rel: bytes("sub/a.txt"), is_dir: false },
    ];
    let plan = copy_plan(&bytes("store/t1"), &bytes("out"), &entries);
    assert_eq!(plan.len(), 3);
    assert_eq!(plan[0].src, bytes("store/t1"));
    assert_eq!(plan[0].dest, bytes("out"));
    assert!(plan[0].is_dir);
    assert_eq!(plan[1].src, bytes("store/t1/sub"));
    assert_eq!(plan[1].dest, bytes("out/sub"));
    assert_eq!(plan[2].src, bytes("store/t1/sub/a.txt"));
    assert_eq!(plan[2].dest, bytes("out/sub/a.txt"));
    assert!(!plan[2].is_dir);
}

#[test]
fn path_helpers_join_with_slash() {
    assert_eq!(path_under(&bytes("root"), &bytes("")), bytes("root"));
    assert_eq!(path_under(&bytes(""), &bytes("a")), bytes("a"));
    assert_eq!(path_under(&bytes("root"), &bytes("a/b")), bytes("root/a/b"));
    assert_eq!(join_path(&vec![bytes("a"), bytes("b"), bytes("c.txt")]), bytes("a/b/c.txt"));
    assert_eq!(join_path(&Vec::new()), bytes(""));
}
