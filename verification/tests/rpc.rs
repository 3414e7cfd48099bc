//! Which answer each request gets, and how arguments are read.

use int_tasks::mcp::{opt_bool, opt_str, opt_str_list, opt_usize, require_str, Arg, Args, ToolOutput};
use int_tasks::rpc::{route, Route, DEFAULT_PROTOCOL};

fn args(fields: Vec<(&str, Arg)>) -> Args {
    Args { fields: fields.into_iter().map(|(k, v)| (k.to_string(), v)).collect() }
}

#[test]
fn initialize_echoes_a_supported_protocol() {
    match route(true, "initialize", Some("2024-11-05"), "") {
        Route::Initialize(p) => assert_eq!(p, "2024-11-05"),
        other => panic!("{other:?}"),
    }
}

#[test]
fn initialize_falls_back_for_unknown_protocols() {
    match route(true, "initialize", Some("1999-01-01"), "") {
        Route::Initialize(p) => assert_eq!(p, DEFAULT_PROTOCOL),
        other => panic!("{other:?}"),
    }
    match route(true, "initialize", None, "") {
        Route::Initialize(p) => assert_eq!(p, DEFAULT_PROTOCOL),
        other => panic!("{other:?}"),
    }
}

#[test]
fn notifications_get_no_response() {
    assert!(matches!(route(false, "notifications/initialized", None, ""), Route::Silent));
}

#[test]
fn tool_errors_come_back_as_results() {
    // The call itself is routed; its failure is the tool's to report.
    assert!(matches!(route(true, "tools/call", None, "echo"), Route::CallTool(ref n) if n == "echo"));
    let missing = require_str(&args(vec![]), "value").unwrap_err();
    assert!(missing.contains("`value` is required"));
}

#[test]
fn successful_calls_carry_text_content() {
    let out = ToolOutput::text(require_str(&args(vec![("value", Arg::Text("hello".to_string()))]), "value").unwrap());
    assert_eq!(out.text, "hello");
}

#[test]
fn unknown_methods_are_protocol_errors() {
    match route(true, "does/not/exist", None, "") {
        Route::Error(code, message) => {
            assert_eq!(code, -32601);
            assert_eq!(message, "unknown method: does/not/exist");
        },
        other => panic!("{other:?}"),
    }
    match route(true, "tools/call", None, "") {
        Route::Error(code, message) => {
            assert_eq!(code, -32602);
            assert_eq!(message, "tools/call requires a tool name");
        },
        other => panic!("{other:?}"),
    }
}

#[test]
fn optional_lists_are_answered_empty() {
    assert!(matches!(route(true, "prompts/list", None, ""), Route::Empty(ref k) if k == "prompts"));
    assert!(matches!(route(true, "resources/list", None, ""), Route::Empty(ref k) if k == "resources"));
    assert!(matches!(
        route(true, "resources/templates/list", None, ""),
        Route::Empty(ref k) if k == "resourceTemplates"
    ));
    assert!(matches!(route(true, "ping", None, ""), Route::Ping));
    assert!(matches!(route(true, "tools/list", None, ""), Route::ListTools));
}

#[test]
fn argument_helpers_coerce_sensibly() {
    let a = args(vec![
        ("a", Arg::Text(" x ".to_string())),
        ("b", Arg::Text(String::new())),
        ("list", Arg::List(vec![Some("one".to_string()), Some(" two ".to_string()), None])),
        ("csv", Arg::Text("a, b".to_string())),
        ("flag", Arg::Bool(true)),
        ("n", Arg::Number(Some(5))),
    ]);
    assert_eq!(require_str(&a, "a").unwrap(), "x");
    assert!(require_str(&a, "b").is_err());
    assert_eq!(opt_str(&a, "b"), None);
    assert_eq!(opt_str_list(&a, "list"), vec!["one", "two"]);
    assert_eq!(opt_str_list(&a, "csv"), vec!["a", "b"]);
    assert_eq!(opt_usize(&a, "missing", 7), 7);
    assert_eq!(opt_usize(&a, "n", 7), 5);
    assert!(opt_bool(&a, "flag", false));
    assert!(!opt_bool(&a, "a", false));
    assert_eq!(require_str(&a, "n").unwrap_err(), "`n` must be a string");
}
