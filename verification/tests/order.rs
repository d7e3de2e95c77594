use urzua::order::{contains_path, distinct_paths, same_path, sort_paths, sort_strings};

fn strings(v: &[&str]) -> Vec<String> {
    v.iter().map(|s| s.to_string()).collect()
}

#[test]
fn paths_sort_component_by_component_and_text_by_code_point() {
    let v = strings(&["docs/adr-old/x.md", "docs/adr/y.md", "docs/adr/sub/z.md", "docs/adr"]);
    assert_eq!(
        sort_paths(v.clone()),
        strings(&["docs/adr", "docs/adr/sub/z.md", "docs/adr/y.md", "docs/adr-old/x.md"])
    );
    assert_eq!(
        sort_strings(v),
        strings(&["docs/adr", "docs/adr-old/x.md", "docs/adr/sub/z.md", "docs/adr/y.md"])
    );
}

#[test]
fn one_path_spelled_two_ways_is_kept_once_as_first_spelled() {
    assert!(same_path("a/b", "a//b/"));
    assert!(same_path("a/./b", "a/b"));
    assert!(!same_path("a/b", "a/bc"));
    let v = strings(&["a/b/", "c", "a/b", "a//b"]);
    assert!(contains_path(&v, "c/"));
    assert!(!contains_path(&v, "a"));
    assert_eq!(distinct_paths(&v), strings(&["a/b/", "c"]));
}
