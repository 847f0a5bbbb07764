use anigit::tree::sanitize_component;

#[test]
fn sanitizes_risky_title_characters() {
    assert_eq!(
        sanitize_component("Kaguya-sama: Love is War"),
        "Kaguya-sama- Love is War"
    );
    assert_eq!(sanitize_component("Fate/stay night"), "Fate-stay night");
    assert_eq!(sanitize_component("Which Witch?"), "Which Witch-");
    assert_eq!(sanitize_component("a<b>c\"d|e\\f*g"), "a-b-c-d-e-f-g");
    assert_eq!(sanitize_component("Trailing... "), "Trailing");
    assert_eq!(sanitize_component("..."), "untitled");
    assert_eq!(sanitize_component("  "), "untitled");
}

#[test]
fn sanitize_trims_leading_whitespace_and_keeps_inner_dots() {
    assert_eq!(sanitize_component("  Dr. Stone"), "Dr. Stone");
    assert_eq!(sanitize_component(""), "untitled");
    assert_eq!(sanitize_component("Re:Zero"), "Re-Zero");
}

#[test]
fn sanitize_trims_every_trailing_dot_and_whitespace() {
    assert_eq!(sanitize_component("a.\u{3000}."), "a");
    assert_eq!(sanitize_component("Gintama. \u{3000}. "), "Gintama");
    assert_eq!(sanitize_component("\u{3000}x"), "x");
}

#[test]
fn sanitizing_twice_changes_nothing() {
    for title in ["a.\u{3000}.", "Kaguya-sama: Love is War", "...", "  Dr. Stone ", "Which Witch?", ""] {
        let once = sanitize_component(title);
        assert!(!once.ends_with('.') && !once.ends_with(' '));
        assert_eq!(sanitize_component(&once), once);
    }
}
