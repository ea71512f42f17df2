use serenity::error::RunError;
use serenity::foreign::{decode_runs, decode_string, UTF16_ERROR};
use serenity::state::ExternalFunctions;

fn encode(names: &[&str]) -> (Vec<u16>, Vec<u16>) {
    let mut units = Vec::new();
    let mut lengths = Vec::new();
    for n in names {
        let e: Vec<u16> = n.encode_utf16().collect();
        lengths.push(e.len() as u16);
        units.extend(e);
    }
    (units, lengths)
}

#[test]
fn runs_round_trip_basic_latin() {
    let names = ["print", "sync", "Command"];
    let (units, lengths) = encode(&names);
    let decoded = decode_runs(&units, &lengths).unwrap();
    assert_eq!(decoded, vec!["print".to_string(), "sync".to_string(), "Command".to_string()]);
}

#[test]
fn runs_round_trip_with_surrogate_pair() {
    let names = ["rocket\u{1F680}", "", "caf\u{e9}"];
    let (units, lengths) = encode(&names);
    assert_eq!(lengths, vec![8, 0, 4]);
    let decoded = decode_runs(&units, &lengths).unwrap();
    assert_eq!(decoded, names.iter().map(|s| s.to_string()).collect::<Vec<_>>());
}

#[test]
fn lone_surrogate_is_rejected() {
    let units = vec![0x61, 0xD800, 0x62];
    assert_eq!(decode_string(&units), Err(UTF16_ERROR.to_string()));
    assert_eq!(decode_runs(&units, &[1, 2]), Err(UTF16_ERROR.to_string()));
    assert_eq!(decode_runs(&units, &[1]), Ok(vec!["a".to_string()]));
}

#[test]
fn decode_string_reads_text() {
    let units: Vec<u16> = "/scripts/main.js".encode_utf16().collect();
    assert_eq!(decode_string(&units), Ok("/scripts/main.js".to_string()));
}

#[test]
fn external_functions_pairs_names_with_addresses() {
    let (keys, key_sizes) = encode(&["get_command", "log"]);
    let (modules, module_sizes) = encode(&["Command"]);
    let path: Vec<u16> = "a.js".encode_utf16().collect();
    let e = ExternalFunctions::new(&keys, &[0x1000, 0x2000], &key_sizes, &modules, &module_sizes, &path, 7)
        .unwrap();
    assert_eq!(e.path, "a.js");
    assert_eq!(e.modules, vec!["Command".to_string()]);
    assert_eq!(e.machine_id, 7);
    assert_eq!(e.function.len(), 2);
    assert_eq!(e.function[0].name, "get_command");
    assert_eq!(e.function[0].address, 0x1000);
    assert_eq!(e.function[1].name, "log");
    assert_eq!(e.function[1].address, 0x2000);
}

#[test]
fn external_functions_reports_decode_error() {
    let path = vec![0xDC00u16];
    let r = ExternalFunctions::new(&[], &[], &[], &[], &[], &path, 1);
    match r {
        Err(RunError::Decode { message }) => assert_eq!(message, "invalid utf-16: lone surrogate found"),
        _ => panic!("expected a decode error"),
    }
}
