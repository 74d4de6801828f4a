use martin::post::{post_effects, Level, PostEffects, POST_CHROMA, POST_GRAIN, POST_VIGNETTE};

fn fx(mode: u32, chroma_cine: bool, grain: Level, vignette: Level) -> PostEffects {
    PostEffects {
        mode,
        chroma_cine,
        grain,
        vignette,
    }
}

#[test]
fn single_effects_and_aliases() {
    assert_eq!(post_effects("chroma"), (fx(POST_CHROMA, false, Level::Unset, Level::Unset), None));
    assert_eq!(post_effects("rgb-split").0.mode, POST_CHROMA);
    assert_eq!(post_effects("Split").0.mode, POST_CHROMA);
    assert_eq!(post_effects("film").0, fx(POST_GRAIN, false, Level::Plain, Level::Unset));
    assert_eq!(post_effects(" vig ").0, fx(POST_VIGNETTE, false, Level::Unset, Level::Plain));
}

#[test]
fn cine_preset_and_strength() {
    let (e, s) = post_effects("cine:1.2");
    assert_eq!(e, fx(POST_CHROMA | POST_GRAIN | POST_VIGNETTE, true, Level::Cine, Level::Cine));
    assert_eq!(s.as_deref(), Some("1.2"));
    assert_eq!(post_effects("vignette: 0.5 ").1.as_deref(), Some("0.5"));
    assert_eq!(post_effects("grain:").1.as_deref(), Some(""));
}

#[test]
fn effects_compose_and_the_last_strength_wins() {
    assert_eq!(post_effects("chroma+grain").0.mode, POST_CHROMA | POST_GRAIN);
    assert_eq!(
        post_effects("Grain, VIG").0,
        fx(POST_GRAIN | POST_VIGNETTE, false, Level::Plain, Level::Plain)
    );
    assert_eq!(
        post_effects("cine+grain").0,
        fx(7, true, Level::Plain, Level::Cine)
    );
    assert_eq!(
        post_effects("grain+cinematic").0,
        fx(7, true, Level::Cine, Level::Cine)
    );
}

#[test]
fn off_empty_and_unknown_select_nothing() {
    assert_eq!(post_effects("off").0.mode, 0);
    assert_eq!(post_effects("").0.mode, 0);
    assert_eq!(post_effects("sparkle").0.mode, 0);
    assert_eq!(post_effects("+,").0.mode, 0);
    assert_eq!(post_effects("sparkle+chroma").0.mode, POST_CHROMA);
}
