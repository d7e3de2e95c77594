const ALLOWED_DEPENDENCIES: &[&str] = &["serde", "thiserror", "toml"];

fn check_dependencies_are_allowed(deps: &[String], allowed: &[&str]) -> Result<(), Vec<String>> {
    let violations: Vec<String> = deps.iter().filter(|d| !allowed.contains(&d.as_str())).cloned().collect();
    if violations.is_empty() {
        Ok(())
    } else {
        Err(violations)
    }
}

#[test]
fn purity_the_check_is_observed_failing_on_a_planted_violation() {
    let planted = vec!["serde".to_string(), "tokio".to_string()];
    let result = check_dependencies_are_allowed(&planted, ALLOWED_DEPENDENCIES);
    assert_eq!(result, Err(vec!["tokio".to_string()]));
}
