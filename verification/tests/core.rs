use niconeon::AppCore;
use niconeon::CommentEvent;
use niconeon::CommentSource;
use niconeon::CoreError;
use niconeon::PlaybackTickSample;
use niconeon::RegexFilterEntry;
use niconeon::protocol::PlaybackTickBatchParams;
use niconeon::protocol::SetRuntimeProfileParams;

fn comment(id: &str, at_ms: i64, user_id: &str, text: &str) -> CommentEvent {
    CommentEvent {
        comment_id: id.to_string(),
        at_ms,
        user_id: user_id.to_string(),
        text: text.to_string(),
    }
}

fn fresh_core() -> AppCore {
    AppCore::new(Vec::new(), Vec::new()).expect("core")
}

fn tick(position_ms: i64) -> PlaybackTickSample {
    PlaybackTickSample { position_ms, paused: false, is_seek: false }
}

fn batch(session_id: &str, ticks: Vec<PlaybackTickSample>) -> PlaybackTickBatchParams {
    PlaybackTickBatchParams { session_id: session_id.to_string(), ticks }
}

#[test]
fn tick_emits_expected_window() {
    let comments = vec![
        comment("a", 100, "u1", "one"),
        comment("b", 200, "u2", "two"),
    ];
    let mut app = fresh_core();
    let open = app.open_video(comments, CommentSource::Network);
    let session_id = open.session_id;

    let res = app
        .playback_tick_batch(batch(&session_id, vec![tick(150)]))
        .expect("tick result");
    assert_eq!(res.emit_comments.len(), 1);
    assert_eq!(res.processed_ticks, 1);
    assert_eq!(res.last_position_ms, 150);
    assert_eq!(res.emit_comments[0].comment_id, "a");
}

#[test]
fn undo_only_latest_token() {
    let mut app = fresh_core();
    let add = app.add_ng_user("u1");
    assert!(add.applied);
    let token = add.undo_token;

    let bad = app.undo_last_ng("wrong");
    assert!(!bad.restored);

    let good = app.undo_last_ng(&token);
    assert!(good.restored);
}

#[test]
fn invalid_regex_is_rejected() {
    let mut app = fresh_core();
    let res = app.add_regex_filter(RegexFilterEntry {
        filter_id: 1,
        pattern: "(".to_string(),
        created_at: "2024-01-01T00:00:00Z".to_string(),
    });
    assert!(res.is_err());
}

#[test]
fn runtime_profile_caps_emit_comments() {
    let mut comments = Vec::new();
    for idx in 0..20 {
        comments.push(comment(
            &format!("c{idx}"),
            100 + idx as i64,
            &format!("u{}", idx % 3),
            &format!("comment-{idx}"),
        ));
    }
    let mut app = fresh_core();
    let open = app.open_video(comments, CommentSource::Network);
    let session_id = open.session_id;

    app.set_runtime_profile(SetRuntimeProfileParams {
        profile: "low_spec".to_string(),
        target_fps: None,
        max_emit_per_tick: Some(5),
        coalesce_same_content: Some(false),
    })
    .expect("profile");

    let res = app
        .playback_tick_batch(batch(&session_id, vec![tick(300)]))
        .expect("tick result");
    assert_eq!(res.emit_comments.len(), 5);
    assert_eq!(res.dropped_comments, 15);
    assert!(res.emit_over_budget);
}

#[test]
fn runtime_profile_can_coalesce_comments() {
    let comments = vec![
        comment("a", 100, "u1", "same"),
        comment("b", 100, "u1", "same"),
        comment("c", 120, "u2", "different"),
    ];
    let mut app = fresh_core();
    let open = app.open_video(comments, CommentSource::Network);
    let session_id = open.session_id;

    app.set_runtime_profile(SetRuntimeProfileParams {
        profile: "low_spec".to_string(),
        target_fps: None,
        max_emit_per_tick: Some(0),
        coalesce_same_content: Some(true),
    })
    .expect("profile");

    let res = app
        .playback_tick_batch(batch(&session_id, vec![tick(200)]))
        .expect("tick result");
    assert_eq!(res.emit_comments.len(), 2);
    assert_eq!(res.coalesced_comments, 1);
}

#[test]
fn runtime_profile_rejects_unknown_profile() {
    let mut app = fresh_core();
    let res = app.set_runtime_profile(SetRuntimeProfileParams {
        profile: "unknown".to_string(),
        target_fps: None,
        max_emit_per_tick: None,
        coalesce_same_content: None,
    });
    assert!(matches!(res, Err(CoreError::UnknownProfile)));
}

#[test]
fn remove_ng_user_updates_filter_list() {
    let mut app = fresh_core();
    let _ = app.add_ng_user("u1");

    let removed = app.remove_ng_user("u1", false);
    assert!(removed.removed);

    let list = app.list_filters();
    assert!(list.ng_users.is_empty());
}

#[test]
fn unknown_session_is_rejected() {
    let mut app = fresh_core();
    let res = app.playback_tick_batch(batch("nope", vec![tick(100)]));
    assert!(matches!(res, Err(CoreError::SessionNotFound)));
}

#[test]
fn batch_split_is_invariant() {
    let comments = vec![
        comment("a", 100, "u1", "one"),
        comment("b", 200, "u2", "two"),
        comment("c", 300, "u3", "three"),
    ];
    let mut one = fresh_core();
    let sid_one = one.open_video(comments.clone(), CommentSource::Network).session_id;
    let whole = one
        .playback_tick_batch(batch(&sid_one, vec![tick(300)]))
        .expect("tick result");

    let mut two = fresh_core();
    let sid_two = two.open_video(comments, CommentSource::Network).session_id;
    let split = two
        .playback_tick_batch(batch(&sid_two, vec![tick(150), tick(250), tick(300)]))
        .expect("tick result");

    let whole_ids: Vec<String> = whole.emit_comments.iter().map(|c| c.comment_id.clone()).collect();
    let split_ids: Vec<String> = split.emit_comments.iter().map(|c| c.comment_id.clone()).collect();
    assert_eq!(whole_ids, vec!["a", "b", "c"]);
    assert_eq!(whole_ids, split_ids);
}

#[test]
fn seek_does_not_reemit_earlier_comments() {
    let comments = vec![
        comment("a", 100, "u1", "one"),
        comment("b", 200, "u2", "two"),
    ];
    let mut app = fresh_core();
    let session_id = app.open_video(comments, CommentSource::Network).session_id;

    let seek = PlaybackTickSample { position_ms: 150, paused: false, is_seek: true };
    let res = app
        .playback_tick_batch(batch(&session_id, vec![seek, tick(300)]))
        .expect("tick result");
    assert_eq!(res.emit_comments.len(), 1);
    assert_eq!(res.emit_comments[0].comment_id, "b");
}

#[test]
fn rewind_relocates_without_emitting() {
    let comments = vec![
        comment("a", 100, "u1", "one"),
        comment("b", 200, "u2", "two"),
    ];
    let mut app = fresh_core();
    let session_id = app.open_video(comments, CommentSource::Network).session_id;

    let first = app
        .playback_tick_batch(batch(&session_id, vec![tick(250)]))
        .expect("tick result");
    assert_eq!(first.emit_comments.len(), 2);

    // moving backwards is treated as a seek: nothing for that sample, and a
    // later advance re-emits what lies in the fresh window
    let res = app
        .playback_tick_batch(batch(&session_id, vec![tick(50), tick(120)]))
        .expect("tick result");
    assert_eq!(res.emit_comments.len(), 1);
    assert_eq!(res.emit_comments[0].comment_id, "a");
    assert_eq!(res.last_position_ms, 120);
}

#[test]
fn paused_sample_emits_nothing_but_advances() {
    let comments = vec![comment("a", 100, "u1", "one")];
    let mut app = fresh_core();
    let session_id = app.open_video(comments, CommentSource::Network).session_id;

    let paused = PlaybackTickSample { position_ms: 150, paused: true, is_seek: false };
    let res = app
        .playback_tick_batch(batch(&session_id, vec![paused]))
        .expect("tick result");
    assert_eq!(res.emit_comments.len(), 0);
    assert_eq!(res.last_position_ms, 150);
}

#[test]
fn comment_at_offset_zero_is_never_emitted() {
    let comments = vec![comment("z", 0, "u1", "zero"), comment("a", 100, "u1", "one")];
    let mut app = fresh_core();
    let session_id = app.open_video(comments, CommentSource::Network).session_id;

    let res = app
        .playback_tick_batch(batch(&session_id, vec![tick(200)]))
        .expect("tick result");
    let ids: Vec<&str> = res.emit_comments.iter().map(|c| c.comment_id.as_str()).collect();
    assert_eq!(ids, vec!["a"]);
}

#[test]
fn second_undo_with_same_token_fails() {
    let mut app = fresh_core();
    let add = app.add_ng_user("u1");
    assert!(add.applied);
    assert_eq!(add.undo_token.len(), 36);
    let token = add.undo_token;

    let first = app.undo_last_ng(&token);
    assert!(first.restored);
    assert_eq!(first.user_id.as_deref(), Some("u1"));
    assert!(app.list_filters().ng_users.is_empty());

    let second = app.undo_last_ng(&token);
    assert!(!second.restored);
    assert!(second.user_id.is_none());
}

#[test]
fn repeated_add_issues_no_token() {
    let mut app = fresh_core();
    let first = app.add_ng_user("u1");
    assert!(first.applied);
    let second = app.add_ng_user("u1");
    assert!(!second.applied);
    assert!(second.undo_token.is_empty());
    assert_eq!(second.hidden_user_id, "u1");
}

#[test]
fn remove_clears_matching_undo_token() {
    let mut app = fresh_core();
    let add = app.add_ng_user("u1");
    let token = add.undo_token;

    let removed = app.remove_ng_user("u1", false);
    assert!(removed.removed);

    // the pending token was cleared by the explicit removal, so it cannot
    // revive the user
    let undo = app.undo_last_ng(&token);
    assert!(!undo.restored);
    assert!(app.list_filters().ng_users.is_empty());
}

#[test]
fn profile_name_is_trimmed_and_case_folded() {
    let mut app = fresh_core();
    let res = app
        .set_runtime_profile(SetRuntimeProfileParams {
            profile: "  HIGH ".to_string(),
            target_fps: None,
            max_emit_per_tick: None,
            coalesce_same_content: None,
        })
        .expect("profile");
    assert_eq!(res.profile, "high");
    assert_eq!(res.max_emit_per_tick, 0);
}

#[test]
fn profile_overrides_are_clamped() {
    let mut app = fresh_core();
    let res = app
        .set_runtime_profile(SetRuntimeProfileParams {
            profile: "balanced".to_string(),
            target_fps: Some(500),
            max_emit_per_tick: Some(100000),
            coalesce_same_content: Some(true),
        })
        .expect("profile");
    assert_eq!(res.target_fps, 120);
    assert_eq!(res.max_emit_per_tick, 2000);
    assert!(res.coalesce_same_content);

    let low = app
        .set_runtime_profile(SetRuntimeProfileParams {
            profile: "low_spec".to_string(),
            target_fps: Some(1),
            max_emit_per_tick: None,
            coalesce_same_content: None,
        })
        .expect("profile");
    assert_eq!(res.profile, "balanced");
    assert_eq!(low.target_fps, 10);
    assert_eq!(low.max_emit_per_tick, 48);
    assert!(low.coalesce_same_content);
}

#[test]
fn coalescing_runs_before_budgeting() {
    // three duplicates and two distinct comments with a budget of two:
    // coalescing first leaves three survivors, budgeting then keeps two
    let comments = vec![
        comment("a", 100, "u1", "same"),
        comment("b", 100, "u1", "same"),
        comment("c", 100, "u1", "same"),
        comment("d", 120, "u2", "x"),
        comment("e", 130, "u3", "y"),
    ];
    let mut app = fresh_core();
    let session_id = app.open_video(comments, CommentSource::Network).session_id;
    app.set_runtime_profile(SetRuntimeProfileParams {
        profile: "low_spec".to_string(),
        target_fps: None,
        max_emit_per_tick: Some(2),
        coalesce_same_content: Some(true),
    })
    .expect("profile");

    let res = app
        .playback_tick_batch(batch(&session_id, vec![tick(200)]))
        .expect("tick result");
    assert_eq!(res.coalesced_comments, 2);
    assert_eq!(res.emit_comments.len(), 2);
    assert_eq!(res.dropped_comments, 1);
    assert!(res.emit_over_budget);
}

#[test]
fn open_video_reports_source_and_total() {
    let mut app = fresh_core();
    let open = app.open_video(vec![comment("a", 100, "u1", "one")], CommentSource::Cache);
    assert_eq!(open.comment_source, "cache");
    assert_eq!(open.total_comments, 1);
    assert_eq!(open.session_id.len(), 36);

    let none = app.open_video(Vec::new(), CommentSource::Absent);
    assert_eq!(none.comment_source, "none");
    assert_eq!(none.total_comments, 0);

    let net = app.open_video(Vec::new(), CommentSource::Network);
    assert_eq!(net.comment_source, "network");
}

#[test]
fn open_video_sorts_unsorted_comments() {
    let comments = vec![
        comment("b", 200, "u2", "two"),
        comment("a", 100, "u1", "one"),
    ];
    let mut app = fresh_core();
    let session_id = app.open_video(comments, CommentSource::Network).session_id;
    let res = app
        .playback_tick_batch(batch(&session_id, vec![tick(300)]))
        .expect("tick result");
    let ids: Vec<&str> = res.emit_comments.iter().map(|c| c.comment_id.as_str()).collect();
    assert_eq!(ids, vec!["a", "b"]);
}

#[test]
fn ping_answers() {
    let app = fresh_core();
    assert!(app.ping().ok);
}

#[test]
fn stored_invalid_pattern_fails_construction() {
    let bad = RegexFilterEntry {
        filter_id: 1,
        pattern: "(".to_string(),
        created_at: "2024-01-01T00:00:00Z".to_string(),
    };
    assert!(AppCore::new(Vec::new(), vec![bad]).is_err());
}
