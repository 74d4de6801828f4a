use martin::modes::{bg_token, choose_mode, is_headless, mode_index, ContentMode, ParticleKind, BG_OFF};

#[test]
fn choose_mode_truth_table() {
    // glb/4D alone (no seq, no compose) → standalone glb scene
    assert_eq!(choose_mode(true, false, false), ContentMode::GlbAlone);
    // an explicit seq always wins → the morph track (even with a glb or compose present)
    assert_eq!(choose_mode(false, true, false), ContentMode::Sequence);
    assert_eq!(choose_mode(true, true, false), ContentMode::Sequence);
    assert_eq!(choose_mode(true, true, true), ContentMode::Sequence);
    assert_eq!(choose_mode(false, true, true), ContentMode::Sequence);
    // nothing at all → the default demo runs through the seq path
    assert_eq!(choose_mode(false, false, false), ContentMode::Sequence);
    // compose only (no seq, no standalone glb) → the placed-objects stage
    assert_eq!(choose_mode(false, false, true), ContentMode::ComposeOnly);
    // glb + compose but no seq → compose stage
    assert_eq!(choose_mode(true, false, true), ContentMode::ComposeOnly);
}

#[test]
fn is_headless_any_output_mode() {
    assert!(!is_headless(false, false, false, false)); // live windowed
    assert!(is_headless(true, false, false, false)); // record
    assert!(is_headless(false, true, false, false)); // bench
    assert!(is_headless(false, false, true, false)); // shot
    assert!(is_headless(false, false, false, true)); // shots (contact sheet)
}

#[test]
fn mode_index_maps_names_aliases_numbers_and_unknown() {
    assert_eq!(mode_index("plasma"), 0);
    assert_eq!(mode_index("warp"), 3);
    assert_eq!(mode_index("rings"), 4);
    assert_eq!(mode_index("kaleidoscope"), 6); // alias
    assert_eq!(mode_index("lightning"), 7); // alias for bolt
    assert_eq!(mode_index("5"), 5); // a number passes through
    assert_eq!(mode_index("wat"), 0); // unknown → plasma
}

#[test]
fn mode_index_ignores_case_and_padding() {
    assert_eq!(mode_index("  Tunnel \t"), 1);
    assert_eq!(mode_index("STARFIELD"), 2);
    assert_eq!(mode_index("stars"), 2);
    assert_eq!(mode_index("grid"), 5);
    assert_eq!(mode_index("kaleido"), 6);
    assert_eq!(mode_index("bolt"), 7);
    assert_eq!(mode_index(" +12 "), 12);
    assert_eq!(mode_index("-1"), 0);
    assert_eq!(mode_index(""), 0);
}

#[test]
fn bg_token_off_hides_the_layer() {
    assert_eq!(bg_token("off"), BG_OFF);
    assert_eq!(bg_token("OFF"), BG_OFF);
    assert_eq!(bg_token("warp"), 3);
    assert_eq!(bg_token("7"), 7);
}

#[test]
fn particle_kind_names_and_fallback() {
    assert_eq!(ParticleKind::parse("confetti"), ParticleKind::Confetti);
    assert_eq!(ParticleKind::parse(" SPARKS "), ParticleKind::Sparks);
    assert_eq!(ParticleKind::parse("fireworks"), ParticleKind::Fireworks);
    assert_eq!(ParticleKind::parse("embers"), ParticleKind::Embers);
    assert_eq!(ParticleKind::parse("glitter"), ParticleKind::Embers);
}

#[test]
fn live_audio_only_for_plain_runs() {
    assert!(martin::modes::wants_live_audio(false, false, false));
    assert!(!martin::modes::wants_live_audio(true, false, false));
    assert!(!martin::modes::wants_live_audio(false, true, false));
    assert!(!martin::modes::wants_live_audio(false, false, true));
}
