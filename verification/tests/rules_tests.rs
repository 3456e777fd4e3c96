use athena::rules::{section_slice, table_has_result};

#[test]
fn empty_table_has_no_result() {
    let s = "| 假设 | 实验 | 预期 | 真实结果 |\n|---|---|---|---|\n|  |  |  |  |";
    assert!(!table_has_result(s));
}

#[test]
fn filled_result_detected() {
    let s = "| 假设 | 实验 | 预期 | 真实结果 |\n|---|---|---|---|\n| A | `find` | x | 42 XML 0 命中 |";
    assert!(table_has_result(s));
}

#[test]
fn section_slice_stops_at_sibling_heading() {
    let body = "### 反证实验\ntable\n### 待测\n- [pending] x\n## 下一节\nsecret";
    let sec = section_slice(body, "反证实验").unwrap();
    assert!(sec.contains("table"));
    assert!(!sec.contains("[pending]"));
    assert!(!sec.contains("secret"));
}
