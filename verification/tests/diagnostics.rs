use elixcee::check::{all_ok, diagnostics_to_json, Diagnostic};
use elixcee::diagnostics::{
    classify_runtime_error, json_escape, json_string, locate, ElixceeError, SourceLocation,
    SourceSpan,
};

#[test]
fn classifies_sheet_not_found_by_construction() {
    let (code, kind) = classify_runtime_error("Sheet 'Ghost' not found");
    assert_eq!(code, "E1003");
    assert_eq!(kind, "sheet_not_found");
}

#[test]
fn unclassified_error_falls_back() {
    let (code, kind) = classify_runtime_error("something else entirely");
    assert_eq!(code, "E1099");
    assert_eq!(kind, "runtime_error");
}

#[test]
fn locate_finds_line_and_column() {
    let src = "Sub Main()\n    x = totla\nEnd Sub\n";
    let offset = src.find("totla").unwrap() as u32;
    let loc = locate(
        src,
        "Main.bas",
        SourceSpan {
            start: offset,
            end: offset + 5,
        },
    );
    assert_eq!(loc.file, "Main.bas");
    assert_eq!(loc.line, 2);
    assert_eq!(loc.column, 9);
}

#[test]
fn locate_handles_crlf_without_double_counting_lines() {
    let src = "Sub Main()\r\n    x = totla\r\nEnd Sub\r\n";
    let offset = src.find("totla").unwrap() as u32;
    let loc = locate(
        src,
        "Main.bas",
        SourceSpan {
            start: offset,
            end: offset + 5,
        },
    );
    assert_eq!(loc.line, 2);
}

#[test]
fn locate_handles_first_line() {
    let src = "x = totla\n";
    let offset = src.find("totla").unwrap() as u32;
    let loc = locate(
        src,
        "Main.bas",
        SourceSpan {
            start: offset,
            end: offset + 5,
        },
    );
    assert_eq!(loc.line, 1);
    assert_eq!(loc.column, 5);
}

#[test]
fn escapes_quotes_and_backslashes() {
    assert_eq!(
        json_escape(r#"C:\data\"file".xlsx"#),
        r#"C:\\data\\\"file\".xlsx"#
    );
}

#[test]
fn escapes_control_characters() {
    assert_eq!(json_escape("a\nb\tc"), "a\\nb\\tc");
}

#[test]
fn escapes_other_control_characters_as_unicode() {
    assert_eq!(json_escape("\u{1}x\u{1f}\r"), "\\u0001x\\u001f\\r");
    assert_eq!(json_string("é\"😀"), "\"é\\\"😀\"");
}

#[test]
fn locate_past_the_end_stops_at_the_end() {
    let loc = locate("ab\ncd", "f", SourceSpan { start: 100, end: 101 });
    assert_eq!((loc.line, loc.column), (2, 3));
    let loc = locate("", "f", SourceSpan { start: 0, end: 0 });
    assert_eq!((loc.line, loc.column), (1, 1));
}

#[test]
fn classifies_every_runtime_error_kind() {
    assert_eq!(
        classify_runtime_error("Undefined variable: 'x'"),
        ("E1001", "undefined_variable")
    );
    assert_eq!(
        classify_runtime_error("Sub/Function 'Foo' is not defined"),
        ("E1002", "undefined_sub_or_function")
    );
    assert_eq!(
        classify_runtime_error("Unknown VBA function: 'Frob'"),
        ("E1002", "undefined_sub_or_function")
    );
    assert_eq!(
        classify_runtime_error("Sub 'Main' not found"),
        ("E1002", "undefined_sub_or_function")
    );
    assert_eq!(
        classify_runtime_error("Sub 'Main' was not found here"),
        ("E1099", "runtime_error")
    );
    assert_eq!(classify_runtime_error("MsgBox: hi"), ("E1004", "msgbox_blocked"));
}

#[test]
fn error_constructors_set_code_and_kind() {
    let e = ElixceeError::io_error("disk".to_string());
    assert_eq!((e.code, e.kind, e.message.as_str()), ("E3001", "io_error", "disk"));
    assert!(e.location.is_none());
    let e = ElixceeError::parse_error("bad".to_string());
    assert_eq!((e.code, e.kind), ("E2001", "parse_error"));
    let e = ElixceeError::sheet_setup_error("no sheet".to_string());
    assert_eq!((e.code, e.kind), ("E3002", "sheet_setup_error"));
    let e = ElixceeError::runtime_error("MsgBox: hi".to_string());
    assert_eq!((e.code, e.kind), ("E1004", "msgbox_blocked"));
}

#[test]
fn error_to_json_shape() {
    let e = ElixceeError::runtime_error("Undefined variable: 'x'".to_string()).with_location(Some(
        SourceLocation {
            file: "Main.bas".to_string(),
            line: 2,
            column: 9,
        },
    ));
    assert_eq!(
        e.to_json(&["a\"b".to_string(), "c".to_string()]),
        "{\"schema_version\":1,\"ok\":false,\"error\":{\"code\":\"E1001\",\"kind\":\"undefined_variable\",\"message\":\"Undefined variable: 'x'\",\"location\":{\"file\":\"Main.bas\",\"line\":2,\"column\":9}},\"messages\":[\"a\\\"b\",\"c\"]}"
    );
    let e = ElixceeError::io_error("x".to_string()).with_location(None);
    assert_eq!(
        e.to_json(&[]),
        "{\"schema_version\":1,\"ok\":false,\"error\":{\"code\":\"E3001\",\"kind\":\"io_error\",\"message\":\"x\",\"location\":null},\"messages\":[]}"
    );
}

fn diag(severity: &'static str, code: &'static str) -> Diagnostic {
    Diagnostic {
        severity,
        code,
        kind: "k",
        message: "m".to_string(),
        location: None,
    }
}

#[test]
fn check_json_reports_ok_only_without_errors() {
    assert!(all_ok(&[]));
    assert!(all_ok(&[diag("info", "I1")]));
    assert!(!all_ok(&[diag("info", "I1"), diag("error", "E1")]));
    assert_eq!(
        diagnostics_to_json(&[]),
        "{\"schema_version\":1,\"ok\":true,\"diagnostics\":[]}"
    );
    let mut d = diag("error", "E1002");
    d.location = Some(SourceLocation {
        file: "a.bas".to_string(),
        line: 3,
        column: 1,
    });
    assert_eq!(
        diagnostics_to_json(&[diag("info", "I1"), d]),
        "{\"schema_version\":1,\"ok\":false,\"diagnostics\":[{\"severity\":\"info\",\"code\":\"I1\",\"kind\":\"k\",\"message\":\"m\",\"location\":null},{\"severity\":\"error\",\"code\":\"E1002\",\"kind\":\"k\",\"message\":\"m\",\"location\":{\"file\":\"a.bas\",\"line\":3,\"column\":1}}]}"
    );
}
