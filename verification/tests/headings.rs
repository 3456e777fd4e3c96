use athena::document::{heading_level, heading_matches, heading_text};

#[test]
fn heading_normalizes_numbered_prefix() {
    assert!(heading_matches("## 2. 原理实机验证（门槛）", "原理实机验证"));
    assert!(heading_matches("### 反证实验（必须）", "反证实验"));
    assert!(heading_matches("## 自审裁枝", "自审裁枝"));
    assert!(!heading_matches("## 目标", "原理实机验证"));
    assert!(!heading_matches("正文一句话", "正文"));
    assert_eq!(heading_level("### x"), 3);
}

#[test]
fn heading_text_strips_number_and_separators() {
    assert_eq!(heading_text("## 2、 决策"), Some("决策".to_string()));
    assert_eq!(heading_text("#  12) 反证"), Some("反证".to_string()));
    assert_eq!(heading_text("## 2024 年计划"), Some("年计划".to_string()));
    assert_eq!(heading_text("## 2024年计划"), Some("2024年计划".to_string()));
    assert_eq!(heading_text("no heading"), None);
    assert_eq!(heading_level("plain"), 0);
}
