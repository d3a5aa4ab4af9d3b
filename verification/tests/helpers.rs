use niconeon::CommentEvent;
use niconeon::RuntimeProfile;
use niconeon::RuntimeProfileConfig;
use niconeon::cursor_for_position;
use niconeon::extract_video_id_from_path;
use niconeon::generate_synthetic_comments_ramp;

fn comment(id: &str, at_ms: i64) -> CommentEvent {
    CommentEvent {
        comment_id: id.to_string(),
        at_ms,
        user_id: "u".to_string(),
        text: "t".to_string(),
    }
}

#[test]
fn extract_video_id() {
    assert_eq!(
        extract_video_id_from_path("/tmp/abc_sm9_test.mp4"),
        Some("sm9".to_string())
    );
    assert_eq!(
        extract_video_id_from_path("/tmp/SO1234.mkv"),
        Some("so1234".to_string())
    );
    assert_eq!(extract_video_id_from_path("/tmp/no-id.mp4"), None);
}

#[test]
fn extract_video_id_takes_leftmost_tag() {
    assert_eq!(
        extract_video_id_from_path("nm12_sm34.mp4"),
        Some("nm12".to_string())
    );
    assert_eq!(extract_video_id_from_path("video_sm.mp4"), None);
    assert_eq!(extract_video_id_from_path(""), None);
}

#[test]
fn profile_names_parse() {
    assert_eq!(RuntimeProfile::from_str("high"), Some(RuntimeProfile::High));
    assert_eq!(RuntimeProfile::from_str("  Balanced\t"), Some(RuntimeProfile::Balanced));
    assert_eq!(RuntimeProfile::from_str("low_spec"), Some(RuntimeProfile::LowSpec));
    assert_eq!(RuntimeProfile::from_str("LOWSPEC"), Some(RuntimeProfile::LowSpec));
    assert_eq!(RuntimeProfile::from_str("turbo"), None);
    assert_eq!(RuntimeProfile::from_str(""), None);
}

#[test]
fn profile_baselines() {
    let high = RuntimeProfileConfig::for_profile(RuntimeProfile::High);
    assert_eq!(high.target_fps, 30);
    assert_eq!(high.max_emit_per_tick, 0);
    assert!(!high.coalesce_same_content);

    let defaults = RuntimeProfileConfig::defaults();
    assert_eq!(defaults.profile, RuntimeProfile::Balanced);
    assert_eq!(defaults.max_emit_per_tick, 96);

    let mut low = RuntimeProfileConfig::for_profile(RuntimeProfile::LowSpec);
    assert_eq!(low.max_emit_per_tick, 48);
    assert!(low.coalesce_same_content);
    low.apply_overrides(Some(5), Some(9999), None);
    assert_eq!(low.target_fps, 10);
    assert_eq!(low.max_emit_per_tick, 2000);
    assert!(low.coalesce_same_content);
}

#[test]
fn cursor_counts_comments_at_or_before_position() {
    let comments = vec![
        comment("a", 100),
        comment("b", 200),
        comment("c", 200),
        comment("d", 300),
    ];
    assert_eq!(cursor_for_position(&comments, 0), 0);
    assert_eq!(cursor_for_position(&comments, 100), 1);
    assert_eq!(cursor_for_position(&comments, 200), 3);
    assert_eq!(cursor_for_position(&comments, 250), 3);
    assert_eq!(cursor_for_position(&comments, 999), 4);
    assert_eq!(cursor_for_position(&[], 5), 0);
}

#[test]
fn synthetic_ramp_shape() {
    // duration 2s, base 1/s, ramp 1/s, generous cap: second 0 has one
    // comment, second 1 has two, spread evenly
    let comments = generate_synthetic_comments_ramp("sm1", 2, 1, 1, 160, 200);
    assert_eq!(comments.len(), 3);
    assert_eq!(comments[0].at_ms, 0);
    assert_eq!(comments[1].at_ms, 1000);
    assert_eq!(comments[2].at_ms, 1500);
    assert_eq!(comments[0].comment_id, "sm1-dummy-0-0");
    assert_eq!(comments[1].comment_id, "sm1-dummy-1-0");
    assert_eq!(comments[2].comment_id, "sm1-dummy-1-1");
    assert_eq!(comments[2].user_id, "dummy-user-32");
    assert_eq!(comments[2].text, "dummy comment 1-1 / 2cps");
}

#[test]
fn synthetic_ramp_clamps_parameters() {
    // out-of-range parameters fall back to the clamped edges: one second,
    // one comment per second
    let comments = generate_synthetic_comments_ramp("sm1", -5, 0, -1, 0, 0);
    assert_eq!(comments.len(), 1);
    assert_eq!(comments[0].at_ms, 0);
    assert_eq!(comments[0].user_id, "dummy-user-0");
}
