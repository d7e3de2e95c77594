use urzua::field_state::classify;
use urzua::FieldState;

#[test]
fn absent_field_is_blank() {
    assert_eq!(classify(None), FieldState::Blank);
}

#[test]
fn empty_string_is_blank() {
    assert_eq!(classify(Some("")), FieldState::Blank);
    assert_eq!(classify(Some("   ")), FieldState::Blank);
}

#[test]
fn unedited_template_text_is_placeholder() {
    assert_eq!(classify(Some("name")), FieldState::Placeholder);
    assert_eq!(classify(Some("YYYY-MM-DD")), FieldState::Placeholder);
    assert_eq!(classify(Some("RFC-NNNN")), FieldState::Placeholder);
}

#[test]
fn explicit_pending_marker_is_pending_not_placeholder() {
    assert_eq!(classify(Some("Pending review")), FieldState::Pending);
}

#[test]
fn em_dash_is_present_not_blank_or_placeholder() {
    assert_eq!(classify(Some("—")), FieldState::Present);
}

#[test]
fn a_real_value_that_contains_a_placeholder_substring_is_not_flagged() {
    assert_eq!(classify(Some("(project lead)")), FieldState::Present);
    assert_eq!(classify(Some("username123")), FieldState::Present);
}

#[test]
fn placeholder_match_ignores_surrounding_whitespace_and_case() {
    assert_eq!(classify(Some("  tbd  ")), FieldState::Placeholder);
    assert_eq!(classify(Some("Name")), FieldState::Placeholder);
}

#[test]
fn a_pending_marker_anywhere_in_the_value_is_pending() {
    assert_eq!(classify(Some("pending: owner")), FieldState::Pending);
    assert_eq!(classify(Some("Accepted, PENDING review")), FieldState::Pending);
    assert_eq!(classify(Some("todo")), FieldState::Placeholder);
}
