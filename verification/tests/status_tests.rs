use server_monitor::ServerStatus;
use server_monitor::status::classify;

#[test]
fn http_200_classifies_as_online() {
    assert_eq!(classify(Some(200)), ServerStatus::Online);
}

#[test]
fn whole_success_class_classifies_as_online() {
    assert_eq!(classify(Some(204)), ServerStatus::Online);
    assert_eq!(classify(Some(299)), ServerStatus::Online);
}

#[test]
fn http_404_and_500_classify_as_error_with_the_code() {
    assert_eq!(classify(Some(404)), ServerStatus::Error(404));
    assert_eq!(classify(Some(500)), ServerStatus::Error(500));
}

#[test]
fn codes_just_outside_the_success_class_are_errors() {
    assert_eq!(classify(Some(199)), ServerStatus::Error(199));
    assert_eq!(classify(Some(300)), ServerStatus::Error(300));
}

#[test]
fn transport_failure_classifies_as_offline() {
    assert_eq!(classify(None), ServerStatus::Offline);
}

#[test]
fn status_labels_match_the_display_strings() {
    assert_eq!(ServerStatus::Unchecked.to_string(), "未检查");
    assert_eq!(ServerStatus::Online.to_string(), "✅ 在线");
    assert_eq!(ServerStatus::Offline.to_string(), "❌ 离线");
    assert_eq!(ServerStatus::Error(404).to_string(), "⚠ 错误 (404)");
    assert_eq!(ServerStatus::Error(65535).to_string(), "⚠ 错误 (65535)");
}

#[test]
fn status_colors_match_the_display_colors() {
    assert_eq!(ServerStatus::Online.color(), (0, 150, 0));
    assert_eq!(ServerStatus::Offline.color(), (200, 0, 0));
    assert_eq!(ServerStatus::Error(500).color(), (255, 165, 0));
    assert_eq!(ServerStatus::Unchecked.color(), (160, 160, 160));
}
