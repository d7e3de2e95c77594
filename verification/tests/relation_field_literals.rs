use std::path::Path;
use urzua::config::RelationRole;

const GUARDED_LITERALS: &[&str] = &["\"Status\"", "\"Embodiment\"", "\"Realized-by\"", "\"Supersedes / Superseded-by\""];

fn production_source(source: &str) -> &str {
    match source.find("#[cfg(test)]\nmod tests") {
        Some(idx) => &source[..idx],
        None => source,
    }
}

fn find_violations<'a>(files: &[(&'a Path, &'a str)]) -> Vec<(&'a Path, &'static str)> {
    let mut violations = Vec::new();
    for (path, contents) in files {
        if path.file_name().and_then(|n| n.to_str()) == Some("config.rs") {
            continue;
        }
        let production = production_source(contents);
        for literal in GUARDED_LITERALS {
            if production.contains(literal) {
                violations.push((*path, *literal));
            }
        }
    }
    violations
}

#[test]
fn relation_field_literals_the_check_is_observed_failing_on_a_planted_violation() {
    let planted = "fn f(r: &Record) { r.header.get(\"Status\") }\n";
    let path = Path::new("planted.rs");
    let violations = find_violations(&[(path, planted)]);
    assert_eq!(violations, vec![(path, "\"Status\"")]);
}

#[test]
fn a_literal_inside_mod_tests_is_not_a_violation() {
    let source = "fn f() {}\n\n#[cfg(test)]\nmod tests {\n    fn g() { let _ = \"Status\"; }\n}\n";
    let path = Path::new("with_tests.rs");
    assert!(find_violations(&[(path, source)]).is_empty());
}

#[test]
fn config_rs_itself_is_exempt() {
    let source = "fn default_field_name() -> &'static str { \"Status\" }\n";
    let path = Path::new("config.rs");
    assert!(find_violations(&[(path, source)]).is_empty());
}

#[test]
fn every_default_relation_field_name_is_the_guarded_literal() {
    let mut names: Vec<String> = RelationRole::all().iter().map(|r| format!("{:?}", r.default_field_name())).collect();
    let mut guarded: Vec<String> = GUARDED_LITERALS.iter().map(|s| s.to_string()).collect();
    names.sort();
    guarded.sort();
    assert_eq!(names, guarded);
}
