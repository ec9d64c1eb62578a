use leetbot::timewin::{is_achievement_window, is_publish_moment};

#[test]
fn achievement_window_is_exactly_thirteen_thirty_seven() {
    assert!(is_achievement_window(13, 37));
    assert!(!is_achievement_window(13, 36));
    assert!(!is_achievement_window(13, 38));
    assert!(!is_achievement_window(12, 37));
    assert!(!is_achievement_window(0, 0));
}

#[test]
fn publish_moment_is_exactly_one_minute_after_the_window() {
    assert!(is_publish_moment(13, 38));
    assert!(!is_publish_moment(13, 37));
    assert!(!is_publish_moment(13, 39));
    assert!(!is_publish_moment(14, 38));
}
