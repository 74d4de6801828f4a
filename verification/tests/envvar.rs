use martin::envvar::{opt, or};

/// A knob as the environment gives it: unset, or its text parsed as a `u32`.
fn knob(text: Option<&str>) -> Option<Option<u32>> {
    text.map(|s| s.parse().ok())
}

#[test]
fn unset_defaults_valid_parses_and_bad_falls_back() {
    assert_eq!(or(knob(None), 7u32), 7, "unset → default");
    assert_eq!(or(knob(Some("42")), 7u32), 42, "set + valid → parsed");
    assert_eq!(or(knob(Some("nope")), 7u32), 7, "set + invalid → default (warns to stderr)");
}

#[test]
fn opt_is_none_unless_set_and_valid() {
    assert_eq!(opt(knob(None)), None);
    assert_eq!(opt(knob(Some("9"))), Some(9));
    assert_eq!(opt(knob(Some("9.5"))), None);
}
