use googletest_json_serde::path::{format_path, parse_expected_paths, ParsedPaths, PathSegment};

fn f(name: &str) -> PathSegment {
    PathSegment::Field(name.to_string())
}

#[test]
fn parse_path_accepts_nested_fields_and_indices() {
    let ParsedPaths { parsed, errors } = parse_expected_paths(&["user.id", "items.0.id"]);
    assert!(errors.is_empty());
    assert_eq!(parsed[0].segments, vec![f("user"), f("id")]);
    assert_eq!(
        parsed[1].segments,
        vec![f("items"), PathSegment::Index(0), f("id")]
    );
}

#[test]
fn parse_path_supports_escaped_dot() {
    let ParsedPaths { parsed, errors } = parse_expected_paths(&[r"user\.name"]);
    assert!(errors.is_empty());
    assert_eq!(parsed[0].segments, vec![f("user.name")]);
}

#[test]
fn parse_path_errors_on_empty_segment() {
    let ParsedPaths { parsed, errors } = parse_expected_paths(&["foo..bar"]);
    assert!(parsed.is_empty());
    assert_eq!(errors.len(), 1);
    assert!(errors[0].contains("empty segment"));
}

#[test]
fn format_path_round_trips_with_escape() {
    let path = vec![f("user.name"), PathSegment::Index(0)];
    assert_eq!(format_path(&path), r"user\.name.0");
}

#[test]
fn parse_path_errors_on_trailing_escape() {
    let ParsedPaths { parsed, errors } = parse_expected_paths(&["user\\"]);
    assert!(parsed.is_empty());
    assert_eq!(errors.len(), 1);
    assert!(errors[0].contains("trailing escape"));
}

#[test]
fn format_path_escapes_backslashes() {
    let path = vec![f("user\\name")];
    assert_eq!(format_path(&path), r"user\\name");
}

#[test]
fn parse_path_reports_full_error_message() {
    let ParsedPaths { parsed, errors } = parse_expected_paths(&["a..b", "ok", "x\\"]);
    assert_eq!(parsed.len(), 1);
    assert_eq!(parsed[0].raw, "ok");
    assert_eq!(errors, vec![
        "Invalid path \"a..b\": empty segment".to_string(),
        "Invalid path \"x\\\\\": trailing escape".to_string(),
    ]);
}

#[test]
fn parse_path_reads_plus_sign_and_large_numbers_as_fields_or_indices() {
    let ParsedPaths { parsed, errors } =
        parse_expected_paths(&["+7", "007", "99999999999999999999999", "-1", "1a"]);
    assert!(errors.is_empty());
    assert_eq!(parsed[0].segments, vec![PathSegment::Index(7)]);
    assert_eq!(parsed[1].segments, vec![PathSegment::Index(7)]);
    assert_eq!(parsed[2].segments, vec![f("99999999999999999999999")]);
    assert_eq!(parsed[3].segments, vec![f("-1")]);
    assert_eq!(parsed[4].segments, vec![f("1a")]);
}

#[test]
fn parse_path_rejects_empty_and_edge_dots() {
    let ParsedPaths { parsed, errors } = parse_expected_paths(&["", ".a", "a."]);
    assert!(parsed.is_empty());
    assert_eq!(errors.len(), 3);
    assert!(errors.iter().all(|e| e.contains("empty segment")));
}

#[test]
fn format_path_joins_indices_and_fields() {
    let path = vec![f("items"), PathSegment::Index(12), f("a.b\\c")];
    assert_eq!(format_path(&path), r"items.12.a\.b\\c");
    assert_eq!(format_path(&[]), "");
}

#[test]
fn format_then_parse_gives_segments_back() {
    let path = vec![f("user.name"), PathSegment::Index(3), f("x\\y")];
    let text = format_path(&path);
    let ParsedPaths { parsed, errors } = parse_expected_paths(&[text.as_str()]);
    assert!(errors.is_empty());
    assert_eq!(parsed[0].segments, path);
}
