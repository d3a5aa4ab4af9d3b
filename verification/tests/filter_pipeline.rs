use niconeon::CommentEvent;
use niconeon::FilterEngine;
use niconeon::RegexFilterEntry;

fn comment(user_id: &str, text: &str) -> CommentEvent {
    CommentEvent {
        comment_id: "c1".to_string(),
        at_ms: 100,
        user_id: user_id.to_string(),
        text: text.to_string(),
    }
}

fn entry(filter_id: i64, pattern: &str) -> RegexFilterEntry {
    RegexFilterEntry {
        filter_id,
        pattern: pattern.to_string(),
        created_at: "2024-01-01T00:00:00Z".to_string(),
    }
}

#[test]
fn ng_is_applied_before_regex() {
    let mut engine = FilterEngine::new(vec![], vec![]).expect("engine");
    engine.add_regex_filter(entry(1, "hello")).expect("regex");
    engine.add_ng_user("u1");

    let ng_comment = comment("u1", "anything");
    let regex_comment = comment("u2", "hello world");
    let keep_comment = comment("u2", "other");

    assert!(engine.should_hide(&ng_comment));
    assert!(engine.should_hide(&regex_comment));
    assert!(!engine.should_hide(&keep_comment));
}

#[test]
fn lib_invalid_regex_is_rejected() {
    let mut engine = FilterEngine::new(vec![], vec![]).expect("engine");
    assert!(engine.add_regex_filter(entry(1, "(")).is_err());
}

#[test]
fn hiding_is_monotonic_under_new_rules() {
    let mut engine = FilterEngine::new(vec![], vec![]).expect("engine");
    engine.add_regex_filter(entry(1, "spam")).expect("regex");
    let hidden = comment("u1", "pure spam");
    let visible = comment("u2", "fine");
    assert!(engine.should_hide(&hidden));
    assert!(!engine.should_hide(&visible));

    // adding an NG user and another matching filter only grows the hidden set
    engine.add_ng_user("u9");
    engine.add_regex_filter(entry(2, "fine")).expect("regex");
    assert!(engine.should_hide(&hidden));
    assert!(engine.should_hide(&visible));
    assert!(engine.should_hide(&comment("u9", "anything")));
}

#[test]
fn remove_regex_filter_by_id() {
    let mut engine = FilterEngine::new(vec![], vec![]).expect("engine");
    engine.add_regex_filter(entry(7, "abc")).expect("regex");
    assert!(engine.should_hide(&comment("u1", "xabcx")));

    assert!(engine.remove_regex_filter(7));
    assert!(!engine.should_hide(&comment("u1", "xabcx")));
    assert!(!engine.remove_regex_filter(7));
}

#[test]
fn list_regex_filters_keeps_insertion_order() {
    let mut engine = FilterEngine::new(vec![], vec![]).expect("engine");
    engine.add_regex_filter(entry(2, "b")).expect("regex");
    engine.add_regex_filter(entry(1, "a")).expect("regex");
    let listed = engine.list_regex_filters();
    let ids: Vec<i64> = listed.iter().map(|f| f.filter_id).collect();
    assert_eq!(ids, vec![2, 1]);
    assert_eq!(listed[0].pattern, "b");
}

#[test]
fn ng_users_are_deduplicated_on_load() {
    let engine = FilterEngine::new(
        vec!["u1".to_string(), "u2".to_string(), "u1".to_string()],
        vec![],
    )
    .expect("engine");
    let mut users = engine.list_ng_users();
    users.sort();
    assert_eq!(users, vec!["u1".to_string(), "u2".to_string()]);
}

#[test]
fn regex_matching_reaches_the_engine() {
    // a filter that matches only a precise shape: if the pattern or the
    // text were ignored, one of these answers would flip
    let mut engine = FilterEngine::new(vec![], vec![]).expect("engine");
    engine.add_regex_filter(entry(1, "^sm[0-9]+$")).expect("regex");
    assert!(engine.should_hide(&comment("u1", "sm9")));
    assert!(!engine.should_hide(&comment("u1", "sm9x")));
    assert!(!engine.should_hide(&comment("u1", "x")));
}
