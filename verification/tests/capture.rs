use martin::capture::{render_size, shot_path, RecordCursor, RecordEnd, ShotCursor, ShotNext};

/// The shot time as the sheet prints it: rounded to a tenth.
fn at_text(at: f32) -> String {
    ((at * 10.0).round() / 10.0).to_string()
}

#[test]
fn render_size_reads_w_by_h() {
    assert_eq!(render_size(None), (1280, 720));
    assert_eq!(render_size(Some("1920x1080")), (1920, 1080));
    assert_eq!(render_size(Some(" 2560 X 1440 ")), (2560, 1440));
    assert_eq!(render_size(Some("640*360")), (640, 360));
    assert_eq!(render_size(Some("16x16")), (16, 16));
    assert_eq!(render_size(Some("+800x+450")), (800, 450));
}

#[test]
fn render_size_falls_back_on_bad_values() {
    assert_eq!(render_size(Some("8x8")), (1280, 720)); // too small
    assert_eq!(render_size(Some("1920x15")), (1280, 720));
    assert_eq!(render_size(Some("1920")), (1280, 720)); // no separator
    assert_eq!(render_size(Some("axb")), (1280, 720));
    assert_eq!(render_size(Some("1920x1080x3")), (1280, 720)); // split at the first separator
    assert_eq!(render_size(Some("x")), (1280, 720));
    assert_eq!(render_size(Some("99999999999x720")), (1280, 720)); // overflows u32
    assert_eq!(render_size(Some("")), (1280, 720));
}

#[test]
fn shot_path_tags_multi_frame_sheets() {
    assert_eq!(shot_path("/tmp/x.png", &at_text(8.0), true), "/tmp/x_8.png");
    assert_eq!(shot_path("/tmp/x.png", &at_text(12.5), true), "/tmp/x_12_5.png");
    assert_eq!(shot_path("/tmp/x.png", &at_text(-3.5), true), "/tmp/x__3_5.png");
    assert_eq!(shot_path("/tmp/x.png", &at_text(0.14), true), "/tmp/x_0_1.png");
    assert_eq!(shot_path("/tmp/x", "8", true), "/tmp/x_8");
    assert_eq!(shot_path("a.b.png", "1", true), "a.b_1.png");
    assert_eq!(shot_path("/tmp/dir.d/x", "2", true), "/tmp/dir_2.d/x");
}

#[test]
fn single_shot_keeps_its_path() {
    assert_eq!(shot_path("/tmp/x.png", "8", false), "/tmp/x.png");
    assert_eq!(shot_path("", "8", false), "");
    assert_eq!(shot_path("", "8", true), "_8");
}

#[test]
fn frame_paths_are_zero_padded() {
    assert_eq!(martin::capture::frame_path("/tmp/f", 0), "/tmp/f/frame_00000.png");
    assert_eq!(martin::capture::frame_path("/tmp/f", 42), "/tmp/f/frame_00042.png");
    assert_eq!(martin::capture::frame_path("d", 99_999), "d/frame_99999.png");
    assert_eq!(martin::capture::frame_path("d", 123_456), "d/frame_123456.png");
    // every frame gets its own file
    let names: Vec<String> = [7u32, 70, 700, 7000, 70_000, 700_000]
        .iter()
        .map(|&i| martin::capture::frame_path("d", i))
        .collect();
    for a in 0..names.len() {
        for b in a + 1..names.len() {
            assert_ne!(names[a], names[b]);
        }
    }
}

#[test]
fn recorder_shoots_every_frame_then_waits_for_the_disk() {
    let mut c = RecordCursor::new();
    assert_eq!(c.next_frame(2), Some(0));
    assert_eq!(c.next_frame(2), Some(1));
    assert_eq!(c.next_frame(2), None);
    assert_eq!(c.finish(2, 1), RecordEnd::Wait);
    assert_eq!(c.finish(2, 2), RecordEnd::Complete);
    assert_eq!(c.grace, 2);
    let mut stuck = RecordCursor { frame: 2, grace: 1199 };
    assert_eq!(stuck.finish(2, 0), RecordEnd::Wait); // grace 1200: still waiting
    assert_eq!(stuck.finish(2, 0), RecordEnd::Stalled); // grace 1201: past the cap
}

#[test]
fn contact_sheet_settles_shoots_and_moves_on() {
    let mut c = ShotCursor::new();
    assert!(!c.finished(2));
    for _ in 0..39 {
        assert!(!c.settle());
        assert_eq!(c.after_shot(2, true), ShotNext::Stay); // nothing taken yet
    }
    assert!(c.settle()); // the 40th frame takes the shot
    assert!(!c.settle()); // ...once
    assert_eq!(c.after_shot(2, false), ShotNext::Stay); // file not on disk yet
    assert_eq!(c.after_shot(2, true), ShotNext::Next);
    assert_eq!((c.idx, c.done, c.frames), (1, false, 0));
    for _ in 0..40 {
        c.settle();
    }
    // a file that never lands: move on after the grace frames
    c.frames = 1200;
    assert_eq!(c.after_shot(2, false), ShotNext::Exit);
    assert!(c.finished(2));
}
