use serenity::error::{
    custom_error, format_source_loc, get_custom_error_class, uncaught_message, JsError, JsStackFrame, RunError,
};

fn js_error(message: &str) -> JsError {
    JsError {
        message: message.to_string(),
        cause: None,
        source_line: None,
        script_resource_name: None,
        line_number: None,
        start_column: None,
        end_column: None,
        frames: vec![],
        stack: None,
    }
}

#[test]
fn frame_from_location() {
    let f = JsStackFrame::from_location(Some("a.js".to_string()), Some(3), Some(7));
    assert_eq!(f.file_name, Some("a.js".to_string()));
    assert_eq!(f.line_number, Some(3));
    assert_eq!(f.column_number, Some(7));
    assert_eq!(f.function_name, None);
    assert!(!f.is_eval && !f.is_native && !f.is_constructor && !f.is_async && !f.is_promise_all);
}

#[test]
fn source_location_text() {
    assert_eq!(format_source_loc("main.js", 12, -1), "main.js:12:-1");
}

#[test]
fn display_uses_multiline_stack() {
    let mut e = js_error("Uncaught Error: boom");
    e.stack = Some("Error: boom\n    at f (a.js:1:1)".to_string());
    assert_eq!(e.to_display_string(), "Error: boom\n    at f (a.js:1:1)");
}

#[test]
fn display_adds_location() {
    let mut e = js_error("Uncaught ReferenceError: doExtra is not defined");
    e.stack = Some("single line\n".to_string());
    e.script_resource_name = Some("a.js".to_string());
    e.line_number = Some(2);
    e.start_column = Some(0);
    assert_eq!(e.to_display_string(), "Uncaught ReferenceError: doExtra is not defined\n    at a.js:2:0");
    e.start_column = None;
    assert_eq!(e.to_display_string(), "Uncaught ReferenceError: doExtra is not defined");
}

#[test]
fn uncaught_messages() {
    assert_eq!(uncaught_message(Some("TypeError".into()), Some("x".into())), "Uncaught TypeError: x");
    assert_eq!(uncaught_message(None, Some("x".into())), "Uncaught Error: x");
    assert_eq!(uncaught_message(Some("".into()), Some("x".into())), "Uncaught x");
    assert_eq!(uncaught_message(Some("E".into()), None), "Uncaught E");
    assert_eq!(uncaught_message(Some("".into()), Some("".into())), "Uncaught");
}

#[test]
fn custom_error_class() {
    let e = custom_error("NotFound", "no such module".to_string());
    assert_eq!(get_custom_error_class(&e), Some("NotFound"));
    assert_eq!(e.report(), "no such module");
    let other = JsError::create(js_error("Uncaught boom"));
    assert_eq!(get_custom_error_class(&other), None);
    assert_eq!(other.report(), "Uncaught boom");
    assert_eq!(RunError::Io { message: "gone".to_string() }.report(), "gone");
}
