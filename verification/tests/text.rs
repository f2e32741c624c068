use platano::agent::summarize_args;
use platano::llm::{ArgField, ArgValue, ToolArgs};
use platano::order::{sort_texts, text_le};
use platano::replace::{plan_edit, MatchError};
use platano::text::{decimal_string, truncate};

#[test]
fn truncate_keeps_short_text() {
    assert_eq!(truncate("hello", 5), "hello");
    assert_eq!(truncate("", 0), "");
}

#[test]
fn truncate_cuts_long_text() {
    assert_eq!(truncate("hello world", 5), "hello...(6 more chars)");
    assert_eq!(truncate("héllo", 3), "hé...(3 more chars)");
}

#[test]
fn decimal_renders_numbers() {
    assert_eq!(decimal_string(0), "0");
    assert_eq!(decimal_string(7), "7");
    assert_eq!(decimal_string(1048576), "1048576");
    assert_eq!(decimal_string(u64::MAX), u64::MAX.to_string());
}

#[test]
fn plan_edit_replaces_single_match() {
    match plan_edit("hello world\nfoo bar\nbaz", "hello world", "goodbye world") {
        Ok(s) => assert_eq!(s, "goodbye world\nfoo bar\nbaz"),
        Err(e) => panic!("unexpected {:?}", e),
    }
    match plan_edit("abcabd", "abd", "X") {
        Ok(s) => assert_eq!(s, "abcX"),
        Err(e) => panic!("unexpected {:?}", e),
    }
}

#[test]
fn plan_edit_counts_like_std() {
    for (t, p) in [("x\nx\nx", "x"), ("aaaa", "aa"), ("aaa", "aa"), ("hello", "zz"), ("ab", ""), ("", "")] {
        let expected = t.matches(p).count();
        match plan_edit(t, p, "Q") {
            Ok(s) => {
                assert_eq!(expected, 1);
                assert_eq!(s, t.replacen(p, "Q", 1));
            }
            Err(MatchError::NotFound) => assert_eq!(expected, 0),
            Err(MatchError::Ambiguous { count }) => assert_eq!(count, expected),
        }
    }
}

#[test]
fn texts_sort_by_code_point() {
    let items: Vec<Vec<char>> =
        ["b", "B", "a", "ab", "", "é", "z"].iter().map(|s| s.chars().collect()).collect();
    let mut expected: Vec<String> = ["b", "B", "a", "ab", "", "é", "z"].iter().map(|s| s.to_string()).collect();
    expected.sort();
    let sorted: Vec<String> = sort_texts(items).into_iter().map(|v| v.into_iter().collect()).collect();
    assert_eq!(sorted, expected);
    assert!(text_le(&vec!['a'], &vec!['a', 'b']));
    assert!(!text_le(&vec!['b'], &vec!['a', 'b']));
}

fn object(json: &str, fields: Vec<(&str, ArgValue)>) -> ToolArgs {
    ToolArgs {
        json: json.into(),
        fields: Some(fields.into_iter().map(|(k, v)| ArgField { key: k.into(), value: v }).collect()),
    }
}

#[test]
fn summary_quotes_short_strings() {
    let args = object(r#"{"path":"a\"b.txt"}"#, vec![("path", ArgValue::Text("a\"b.txt".into()))]);
    assert_eq!(summarize_args("read", &args), r#"path="a\"b.txt""#);
    assert_eq!(summarize_args("ls", &args), r#"path="a\"b.txt""#);
}

#[test]
fn summary_sizes_long_strings() {
    let long = "x".repeat(81);
    let json = format!(r#"{{"contents":"{}","path":"f"}}"#, long);
    let args = object(
        &json,
        vec![("contents", ArgValue::Text(long.clone())), ("path", ArgValue::Text("f".into()))],
    );
    assert_eq!(summarize_args("write", &args), r#"path="f" contents=<81 bytes>"#);
}

#[test]
fn summary_shows_other_values_as_json() {
    let args = object(r#"{"path":7}"#, vec![("path", ArgValue::Other("7".into()))]);
    assert_eq!(summarize_args("read", &args), "path=7");
    let missing = object(r#"{"other":1}"#, vec![("other", ArgValue::Other("1".into()))]);
    assert_eq!(summarize_args("write", &missing), "");
}

#[test]
fn summary_of_unknown_tool_is_cut_json() {
    let json = format!(r#"{{"k":"{}"}}"#, "y".repeat(200));
    let args = object(&json, vec![("k", ArgValue::Text("y".repeat(200)))]);
    let out = summarize_args("edit", &args);
    assert_eq!(out, format!("{}...({} more chars)", &json[..120], json.len() - 120));
}

#[test]
fn summary_of_non_object_is_its_json() {
    let args = ToolArgs { json: "[1,2]".into(), fields: None };
    assert_eq!(summarize_args("read", &args), "[1,2]");
}
