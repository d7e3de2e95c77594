use urzua::id::{resolve_identity, DisplayNumber, StableId};

#[test]
fn display_number_pads_to_four_digits() {
    assert_eq!(DisplayNumber(7).to_string(), "0007");
    assert_eq!(DisplayNumber(1234).to_string(), "1234");
}

#[test]
fn a_display_number_wider_than_four_digits_is_not_truncated() {
    assert_eq!(DisplayNumber(12345).to_string(), "12345");
    assert_eq!(DisplayNumber(0).to_string(), "0000");
}

#[test]
fn two_generated_ids_never_collide() {
    let a = StableId::generate();
    let b = StableId::generate();
    assert_ne!(a, b);
}

#[test]
fn a_generated_id_is_twenty_six_crockford_characters() {
    let id = StableId::generate();
    assert_eq!(id.as_str().chars().count(), 26);
    assert!(id
        .as_str()
        .chars()
        .all(|c| c.is_ascii_digit() || (c.is_ascii_uppercase() && !"ILOU".contains(c))));
}

const NO_IDENTITY: &str =
    "could not resolve an identity (gh api user, git config user.name both unavailable) -- pass --by explicitly";

#[test]
fn resolve_identity_falls_through_to_git_config_when_gh_is_unavailable() {
    assert_eq!(resolve_identity(None, Some("test\n".to_string()), None), Ok("test".to_string()));
}

#[test]
fn resolve_identity_never_lets_explicit_by_override_a_verified_gh_login() {
    assert_eq!(
        resolve_identity(Some("octocat\n".to_string()), Some("test".to_string()), Some("explicit-name")),
        Ok("octocat".to_string())
    );
    assert_eq!(resolve_identity(None, None, Some("explicit-name")), Ok("explicit-name".to_string()));
}

#[test]
fn a_blank_verified_source_falls_through_to_the_next_tier() {
    assert_eq!(
        resolve_identity(Some("  \n".to_string()), Some(" \n".to_string()), Some("by")),
        Ok("by".to_string())
    );
}

#[test]
fn no_identity_at_all_is_an_error_not_a_placeholder() {
    assert_eq!(resolve_identity(None, Some("".to_string()), None), Err(NO_IDENTITY.to_string()));
}
