use serenity::commands::{consume_arg, split_command, unknown_command_message};
use serenity::dispatch::{parse_request, Request};
use serenity::layout::{parse_module_entry, plan_modules};
use serenity::text::{decimal_string, parse_usize, ParseIntError};

fn chars(s: &str) -> Vec<char> {
    s.chars().collect()
}

#[test]
fn test_arg_consumer() {
    let test_case = "\"one two\"three\"four five\" six";
    let index = consume_arg(test_case);
    assert_eq!(&test_case[0..index], "\"one two\"three\"four five\"");
    assert_eq!(&test_case[index + 1..], "six");
}

#[test]
fn escaped_space_does_not_end_argument() {
    assert_eq!(consume_arg("a\\ b c"), 4);
    assert_eq!(consume_arg("abc"), 3);
    assert_eq!(consume_arg(" x"), 0);
}

#[test]
fn split_command_gives_each_argument() {
    assert_eq!(split_command("ls -l \"my dir\""), vec!["ls", "-l", "\"my dir\""]);
    assert_eq!(split_command("one"), vec!["one"]);
    assert_eq!(split_command("a  b"), vec!["a", "", "b"]);
    assert!(split_command("").is_empty());
}

#[test]
fn unknown_command_text() {
    assert_eq!(unknown_command_message("x y"), "Unknown command x y");
}

#[test]
fn parse_usize_values_and_errors() {
    assert_eq!(parse_usize(&chars("0")), Ok(0));
    assert_eq!(parse_usize(&chars("+42")), Ok(42));
    assert_eq!(parse_usize(&chars("18446744073709551615")), Ok(usize::MAX));
    assert_eq!(parse_usize(&chars("18446744073709551616")), Err(ParseIntError::PosOverflow));
    assert_eq!(parse_usize(&chars("")), Err(ParseIntError::Empty));
    assert_eq!(parse_usize(&chars("+")), Err(ParseIntError::InvalidDigit));
    assert_eq!(parse_usize(&chars("12a")), Err(ParseIntError::InvalidDigit));
    assert_eq!(parse_usize(&chars("-1")), Err(ParseIntError::InvalidDigit));
    assert_eq!(ParseIntError::Empty.message(), "cannot parse integer from empty string");
}

#[test]
fn decimal_strings() {
    assert_eq!(decimal_string(0), "0");
    assert_eq!(decimal_string(1234), "1234");
    assert_eq!(decimal_string(-56), "-56");
    assert_eq!(decimal_string(i64::MIN), "-9223372036854775808");
    assert_eq!(decimal_string(i64::MAX), "9223372036854775807");
}

#[test]
fn module_entries() {
    assert_eq!(parse_module_entry("Command:4096"), Some(Ok(("Command".to_string(), 4096))));
    assert_eq!(parse_module_entry("Command"), None);
    assert_eq!(parse_module_entry("a:b:1"), Some(Err("invalid digit found in string for usize b:1".to_string())));
    assert_eq!(parse_module_entry("Sync:"), Some(Err("cannot parse integer from empty string for usize ".to_string())));
}

#[test]
fn plan_lays_out_modules_one_after_another() {
    let entries = vec![
        "Sync:4".to_string(),
        "nothing".to_string(),
        "Bad:x".to_string(),
        "Command:3970".to_string(),
    ];
    let plan = plan_modules(&entries);
    assert_eq!(plan.permitted, vec!["Sync".to_string(), "Command".to_string()]);
    assert_eq!(plan.layout.total, 3974);
    assert_eq!(plan.layout.get_offset("Sync"), Some(0));
    assert_eq!(plan.layout.get_offset("Command"), Some(4));
    assert_eq!(plan.layout.get_offset("Bad"), None);
    assert_eq!(plan.errors, vec!["invalid digit found in string for usize x".to_string()]);
}

#[test]
fn plan_refuses_region_past_usize_max() {
    let entries = vec![format!("A:{}", usize::MAX), "B:1".to_string(), "C:0".to_string()];
    let plan = plan_modules(&entries);
    assert_eq!(plan.permitted, vec!["A".to_string(), "C".to_string()]);
    assert_eq!(plan.errors, vec!["number too large to fit in target type for usize 1".to_string()]);
    assert_eq!(plan.layout.get_offset("C"), Some(usize::MAX));
}

#[test]
fn requests_from_input_lines() {
    assert_eq!(parse_request("scripts/a.js\n"), Request::Toggle { name: "scripts/a.js".to_string() });
    assert_eq!(parse_request("a.js\u{0}mem"), Request::Malformed);
    assert_eq!(
        parse_request("a.js\u{0}shm0\u{0}Command:3970,Sync:1\r\n"),
        Request::Start {
            name: "a.js".to_string(),
            memory: "shm0".to_string(),
            modules: vec!["Command:3970".to_string(), "Sync:1".to_string()],
        }
    );
}
