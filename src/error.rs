use vstd::prelude::*;
use crate::text::{chars_of, decimal, decimal_string, join};

verus! {

/// A frame of a script's stack trace.
#[derive(Debug, PartialEq)]
pub struct JsStackFrame {
    pub receiver_type: Option<String>,
    pub function_name: Option<String>,
    pub method_name: Option<String>,
    pub file_name: Option<String>,
    pub line_number: Option<i64>,
    pub column_number: Option<i64>,
    pub eval_origin: Option<String>,
    pub is_top_level: Option<bool>,
    pub is_eval: bool,
    pub is_native: bool,
    pub is_constructor: bool,
    pub is_async: bool,
    pub is_promise_all: bool,
    pub promise_index: Option<i64>,
}

impl JsStackFrame {
    /// A frame that knows only where it stands in the source.
    pub fn from_location(file_name: Option<String>, line_number: Option<i64>, column_number: Option<i64>) -> (r: Self)
        ensures
            r.file_name == file_name,
            r.line_number == line_number,
            r.column_number == column_number,
            r.receiver_type is None,
            r.function_name is None,
            r.method_name is None,
            r.eval_origin is None,
            r.is_top_level is None,
            !r.is_eval,
            !r.is_native,
            !r.is_constructor,
            !r.is_async,
            !r.is_promise_all,
            r.promise_index is None,
    {
        JsStackFrame {
            receiver_type: None,
            function_name: None,
            method_name: None,
            file_name,
            line_number,
            column_number,
            eval_origin: None,
            is_top_level: None,
            is_eval: false,
            is_native: false,
            is_constructor: false,
            is_async: false,
            is_promise_all: false,
            promise_index: None,
        }
    }
}

/// An exception raised by a script, with where it was raised.
#[derive(Debug, PartialEq)]
pub struct JsError {
    pub message: String,
    pub cause: Option<Box<JsError>>,
    pub source_line: Option<String>,
    pub script_resource_name: Option<String>,
    pub line_number: Option<i64>,
    /// 0-based.
    pub start_column: Option<i64>,
    /// 0-based.
    pub end_column: Option<i64>,
    pub frames: Vec<JsStackFrame>,
    pub stack: Option<String>,
}

/// Every failure that a run can meet; each ends as one line of text for the host.
#[derive(Debug, PartialEq)]
pub enum RunError {
    /// Text from the host that is not valid UTF-16.
    Decode { message: String },
    /// The engine could not be started.
    EngineInit { message: String },
    /// The script did not compile.
    Compile(JsError),
    /// The script threw.
    Runtime(JsError),
    /// A module's size is not a number.
    UsizeParse { message: String },
    /// The script could not be read.
    Io { message: String },
    /// An error with a class name of the caller's choice.
    Custom { class: &'static str, message: String },
}

/// `file:line:column`.
pub open spec fn source_loc(file_name: Seq<char>, line_number: int, column_number: int) -> Seq<char> {
    file_name + seq![':'] + decimal(line_number) + seq![':'] + decimal(column_number)
}

/// A line break that more text follows: a stack of more than one line has one.
pub open spec fn has_inner_newline(s: Seq<char>) -> bool {
    exists|i: int| 0 <= i < s.len() - 1 && s[i] == '\n'
}

/// How an exception reads: its stack where that spans several lines, else its
/// message followed by where it was raised, when that is known.
pub open spec fn display_js_error(e: JsError) -> Seq<char> {
    if e.stack is Some && has_inner_newline(e.stack->0@) {
        e.stack->0@
    } else if e.script_resource_name is Some && e.line_number is Some && e.start_column is Some {
        e.message@ + "\n    at "@ + source_loc(
            e.script_resource_name->0@,
            e.line_number->0 as int,
            e.start_column->0 as int,
        )
    } else {
        e.message@
    }
}

/// The message of an uncaught exception from its `name` and `message`
/// properties; a missing name reads as `Error`, a missing message as empty.
pub open spec fn uncaught_message_spec(name: Option<Seq<char>>, message: Option<Seq<char>>) -> Seq<char> {
    let n = if name is Some { name->0 } else { "Error"@ };
    let m = if message is Some { message->0 } else { Seq::empty() };
    if n.len() > 0 && m.len() > 0 {
        "Uncaught "@ + n + ": "@ + m
    } else if n.len() > 0 {
        "Uncaught "@ + n
    } else if m.len() > 0 {
        "Uncaught "@ + m
    } else {
        "Uncaught"@
    }
}

/// Writes `file:line:column`.
pub fn format_source_loc(file_name: &str, line_number: i64, column_number: i64) -> (r: String)
    ensures
        r@ == source_loc(file_name@, line_number as int, column_number as int),
{
    let a = join(file_name, ":");
    let line = decimal_string(line_number);
    let b = join(a.as_str(), line.as_str());
    let c = join(b.as_str(), ":");
    let column = decimal_string(column_number);
    let r = join(c.as_str(), column.as_str());
    proof {
        reveal_strlit(":");
    }
    assert(r@ =~= source_loc(file_name@, line_number as int, column_number as int));
    r
}

/// Whether `s` holds a line break before its last character.
fn inner_newline(s: &str) -> (r: bool)
    ensures
        r == has_inner_newline(s@),
{
    let cs = chars_of(s);
    let n = cs.len();
    if n == 0 {
        return false;
    }
    let mut i: usize = 0;
    while i + 1 < n
        invariant
            n == cs@.len(),
            cs@ == s@,
            n > 0,
            i + 1 <= n,
            forall|k: int| 0 <= k < i ==> cs@[k] != '\n',
        decreases n - i,
    {
        if cs[i] == '\n' {
            return true;
        }
        i = i + 1;
    }
    false
}

/// Builds the message of an uncaught exception.
pub fn uncaught_message(name: Option<String>, message: Option<String>) -> (r: String)
    ensures
        r@ == uncaught_message_spec(
            match name {
                Some(n) => Some(n@),
                None => None,
            },
            match message {
                Some(m) => Some(m@),
                None => None,
            },
        ),
{
    let n = match name {
        Some(n) => n,
        None => String::from_str("Error"),
    };
    let m = match message {
        Some(m) => m,
        None => String::new(),
    };
    let r = if !n.as_str().is_empty() && !m.as_str().is_empty() {
        let a = join("Uncaught ", n.as_str());
        let b = join(a.as_str(), ": ");
        join(b.as_str(), m.as_str())
    } else if !n.as_str().is_empty() {
        join("Uncaught ", n.as_str())
    } else if !m.as_str().is_empty() {
        join("Uncaught ", m.as_str())
    } else {
        String::from_str("Uncaught")
    };
    proof {
        reveal_strlit("Uncaught ");
        reveal_strlit(": ");
        reveal_strlit("Uncaught");
        reveal_strlit("Error");
    }
    r
}

impl JsError {
    /// Wraps a thrown exception as the error of a run.
    pub fn create(js_error: Self) -> (r: RunError)
        ensures
            r == RunError::Runtime(js_error),
    {
        RunError::Runtime(js_error)
    }

    /// The text of the exception, as it is shown to the host.
    pub fn to_display_string(&self) -> (r: String)
        ensures
            r@ == display_js_error(*self),
    {
        if let Some(stack) = &self.stack {
            if inner_newline(stack.as_str()) {
                return stack.clone();
            }
        }
        if let Some(name) = &self.script_resource_name {
            if let (Some(line), Some(column)) = (self.line_number, self.start_column) {
                let loc = format_source_loc(name.as_str(), line, column);
                let a = join(self.message.as_str(), "\n    at ");
                return join(a.as_str(), loc.as_str());
            }
        }
        self.message.clone()
    }
}

/// An error with a class name of the caller's choice.
pub fn custom_error(class: &'static str, message: String) -> (r: RunError)
    ensures
        r == (RunError::Custom { class, message }),
{
    RunError::Custom { class, message }
}

/// The class name of an error made by `custom_error`; `None` for any other.
pub fn get_custom_error_class(error: &RunError) -> (r: Option<&'static str>)
    ensures
        r == match error {
            RunError::Custom { class, .. } => Some(*class),
            _ => None,
        },
{
    match error {
        RunError::Custom { class, .. } => Some(*class),
        _ => None,
    }
}

/// The line of text that reports `e` to the host.
pub open spec fn report_text(e: RunError) -> Seq<char> {
    match e {
        RunError::Decode { message } => message@,
        RunError::EngineInit { message } => message@,
        RunError::Compile(js) => display_js_error(js),
        RunError::Runtime(js) => display_js_error(js),
        RunError::UsizeParse { message } => message@,
        RunError::Io { message } => message@,
        RunError::Custom { message, .. } => message@,
    }
}

impl RunError {
    /// The line of text that reports this error to the host.
    pub fn report(&self) -> (r: String)
        ensures
            r@ == report_text(*self),
    {
        match self {
            RunError::Decode { message } => message.clone(),
            RunError::EngineInit { message } => message.clone(),
            RunError::Compile(js) => js.to_display_string(),
            RunError::Runtime(js) => js.to_display_string(),
            RunError::UsizeParse { message } => message.clone(),
            RunError::Io { message } => message.clone(),
            RunError::Custom { message, .. } => message.clone(),
        }
    }
}

} // verus!
