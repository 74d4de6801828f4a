use martin::cli::{apply_cli, Cli, Commands};

fn find<'a>(pairs: &'a [(String, String)], key: &str) -> Option<&'a str> {
    // last write wins (the pairs are applied in order, each overwriting the last)
    pairs
        .iter()
        .rev()
        .find(|(k, _)| k == key)
        .map(|(_, v)| v.as_str())
}

#[test]
fn run_mode_flags_map_to_env() {
    let cli = Cli {
        record: Some("/tmp/frames".into()),
        shot: Some("/tmp/x.png".into()),
        shot_at: Some(12.5f32.to_string()),
        shots: Some("3,18".into()),
        bench: Some(120),
        validate: true,
        strict: true,
        synth_wav: Some("/tmp/a.wav".into()),
        dump_score: Some("/tmp/s.txt".into()),
        ..Default::default()
    };
    let p = apply_cli(&cli);
    assert_eq!(find(&p, "MARTIN_RECORD"), Some("/tmp/frames"));
    assert_eq!(find(&p, "MARTIN_SHOT"), Some("/tmp/x.png"));
    assert_eq!(find(&p, "MARTIN_SHOT_AT"), Some("12.5"));
    assert_eq!(find(&p, "MARTIN_SHOTS"), Some("3,18"));
    assert_eq!(find(&p, "MARTIN_BENCH"), Some("120"));
    assert_eq!(find(&p, "MARTIN_VALIDATE"), Some("1"));
    assert_eq!(find(&p, "MARTIN_SCORE_STRICT"), Some("1"));
    assert_eq!(find(&p, "MARTIN_SYNTH_WAV"), Some("/tmp/a.wav"));
    assert_eq!(find(&p, "MARTIN_SCORE_DUMP"), Some("/tmp/s.txt"));
}

#[test]
fn nothing_set_is_empty() {
    assert!(apply_cli(&Cli::default()).is_empty());
}

#[test]
fn window_mode_flags_map_to_fullscreen_env() {
    let fs = apply_cli(&Cli {
        fullscreen: true,
        ..Default::default()
    });
    assert_eq!(find(&fs, "MARTIN_FULLSCREEN"), Some("1"));
    let win = apply_cli(&Cli {
        windowed: true,
        ..Default::default()
    });
    assert_eq!(find(&win, "MARTIN_FULLSCREEN"), Some("0"));
    // neither flag → no override
    assert_eq!(find(&apply_cli(&Cli::default()), "MARTIN_FULLSCREEN"), None);
}

#[test]
fn production_resolves_to_show_path() {
    let cli = Cli {
        production: Some("guinea".into()),
        ..Default::default()
    };
    assert_eq!(
        find(&apply_cli(&cli), "MARTIN_SHOW"),
        Some("productions/guinea/guinea.show")
    );
}

#[test]
fn positional_show_wins_over_production() {
    let cli = Cli {
        production: Some("guinea".into()),
        show: Some("other.show".into()),
        ..Default::default()
    };
    // both push MARTIN_SHOW; the positional is pushed last → overwrite wins
    assert_eq!(find(&apply_cli(&cli), "MARTIN_SHOW"), Some("other.show"));
}

#[test]
fn serve_default_and_explicit_port() {
    assert_eq!(
        find(
            &apply_cli(&Cli {
                serve: Some(None),
                ..Default::default()
            }),
            "MARTIN_SERVE"
        ),
        Some("1")
    );
    assert_eq!(
        find(
            &apply_cli(&Cli {
                serve: Some(Some(9090)),
                ..Default::default()
            }),
            "MARTIN_SERVE"
        ),
        Some("9090")
    );
}

#[test]
fn positional_show_is_pushed_after_production() {
    let cli = Cli {
        production: Some("guinea".into()),
        show: Some("other.show".into()),
        ..Default::default()
    };
    let p = apply_cli(&cli);
    let shows: Vec<&str> = p
        .iter()
        .filter(|(k, _)| k == "MARTIN_SHOW")
        .map(|(_, v)| v.as_str())
        .collect();
    assert_eq!(shows, vec!["productions/guinea/guinea.show", "other.show"]);
}

#[test]
fn subcommand_is_carried_but_sets_nothing() {
    let cli = Cli {
        command: Some(Commands::Mcp { port: Some(7000) }),
        ..Default::default()
    };
    assert!(apply_cli(&cli).is_empty());
    assert_eq!(cli.command, Some(Commands::Mcp { port: Some(7000) }));
}
