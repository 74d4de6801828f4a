use martin::bench::{drop_warmup, is_parent, metric_tokens, recommend, DROP_SAMPLES};

/// The steady-state fps samples of a child's log, as the benchmark reads them.
fn steady_samples(log: &str) -> Vec<f32> {
    let all: Vec<f32> = metric_tokens(log)
        .iter()
        .filter_map(|t| t.parse().ok())
        .collect();
    drop_warmup(all)
}

#[test]
fn steady_samples_drops_the_warmup_tail() {
    // 8 samples → drop the first DROP_SAMPLES(6), keep the last 2 (the steady scene)
    let log = (0..8)
        .map(|i| format!("INFO metrics: {}.0 fps (x ms) t=1", 10 + i))
        .collect::<Vec<_>>()
        .join("\n");
    assert_eq!(steady_samples(&log), vec![16.0, 17.0]);
    // too few to trim → keep all
    assert_eq!(steady_samples("metrics: 42.0 fps"), vec![42.0]);
    assert!(steady_samples("no metrics here").is_empty());
}

#[test]
fn recommend_picks_highest_tier_clearing_target() {
    let rows: Vec<(&str, String, Option<f32>)> = vec![
        ("potato", "640x360".into(), Some(75.0)),
        ("low", "854x480".into(), Some(45.0)),
        ("med", "1280x720".into(), Some(30.5)),
        ("high", "1920x1080".into(), Some(14.0)),
    ];
    let pick = |target: f32| {
        let clears: Vec<bool> = rows
            .iter()
            .map(|(_, _, f)| f.is_some_and(|v| v >= target))
            .collect();
        recommend(&clears).map(|i| rows[i].0)
    };
    assert_eq!(pick(30.0), Some("med")); // highest ≥30
    assert_eq!(pick(60.0), Some("potato")); // only potato clears 60
    assert_eq!(pick(99.0), None); // nothing clears 99
}

#[test]
fn metric_tokens_take_the_first_word_after_the_tag() {
    let log = "start\nINFO metrics:   57.5 fps\r\nmetrics:\nx metrics: a metrics: b\n\tmetrics:12\n";
    assert_eq!(metric_tokens(log), vec!["57.5", "a", "12"]);
    assert!(metric_tokens("").is_empty());
    assert!(metric_tokens("metric: 3").is_empty());
}

#[test]
fn drop_warmup_keeps_short_runs() {
    assert_eq!(DROP_SAMPLES, 6);
    assert_eq!(drop_warmup(vec![1, 2, 3, 4, 5, 6]), vec![1, 2, 3, 4, 5, 6]);
    assert_eq!(drop_warmup(vec![1, 2, 3, 4, 5, 6, 7]), vec![7]);
    assert!(drop_warmup(Vec::<u8>::new()).is_empty());
}

#[test]
fn recommend_edges_and_parent_flag() {
    assert_eq!(recommend(&[]), None);
    assert_eq!(recommend(&[true, false, true, false]), Some(2));
    assert_eq!(recommend(&[false, false]), None);
    assert!(is_parent(true, false));
    assert!(!is_parent(true, true));
    assert!(!is_parent(false, false));
}
