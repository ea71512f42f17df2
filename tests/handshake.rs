use serenity::handshake::{
    enqueue_command, publish_result, take_command, take_sync_token, COMMAND_PENDING, FLAG_AT, MIRROR_AT,
    RESULT_PENDING, SLICE_SIZE,
};
use serenity::layout::MemoryLayout;
use serenity::logger::{Logger, SIZE};
use serenity::state::{ExternalFunctions, Initializer, JSRunnerState, NO_COMMAND_SLICE, TOO_MANY_ARGUMENTS};

fn state_with(regions: &[(&str, usize)]) -> JSRunnerState {
    let mut layout = MemoryLayout::new();
    for (name, size) in regions {
        assert!(layout.push_region(name.to_string(), *size));
    }
    let externals = ExternalFunctions { modules: vec![], function: vec![], path: String::new(), machine_id: 3 };
    JSRunnerState::new(externals, layout)
}

#[test]
fn command_handshake_round_trip() {
    let mut mem = vec![0u8; SLICE_SIZE];
    assert!(enqueue_command(&mut mem, 0, b"1+1"));
    assert_eq!(mem[0], 3);
    assert_eq!(mem[FLAG_AT] & COMMAND_PENDING, COMMAND_PENDING);
    let taken = take_command(&mut mem, 0).unwrap();
    assert_eq!(taken, b"1+1".to_vec());
    assert_eq!(mem[FLAG_AT] & COMMAND_PENDING, 0);
    assert_eq!(&mem[1..4], &[0, 0, 0]);
    assert_eq!(mem[0], 0);
    assert_eq!(take_command(&mut mem, 0), None);
}

#[test]
fn nothing_pending_leaves_memory_alone() {
    let mut mem = vec![7u8; SLICE_SIZE];
    mem[FLAG_AT] = RESULT_PENDING;
    let before = mem.clone();
    assert_eq!(take_command(&mut mem, 0), None);
    assert_eq!(mem, before);
}

#[test]
fn oversized_payload_is_refused() {
    let mut mem = vec![0u8; SLICE_SIZE];
    assert!(!enqueue_command(&mut mem, 0, &[1u8; 129]));
    assert!(mem.iter().all(|b| *b == 0));
    assert!(enqueue_command(&mut mem, 0, &[9u8; 128]));
    assert_eq!(take_command(&mut mem, 0), Some(vec![9u8; 128]));
}

#[test]
fn handshake_at_an_offset_keeps_other_bytes() {
    let mut mem = vec![5u8; 10 + SLICE_SIZE];
    mem[10 + FLAG_AT] = 0;
    assert!(enqueue_command(&mut mem, 10, b"go()"));
    assert_eq!(take_command(&mut mem, 10), Some(b"go()".to_vec()));
    assert_eq!(&mem[..10], &[5u8; 10]);
    assert_eq!(mem[10 + FLAG_AT], 0);
}

#[test]
fn publish_mirrors_log_and_signals_once() {
    let mut mem = vec![0xAAu8; SLICE_SIZE];
    mem[FLAG_AT] = 0;
    let mut log = Logger::new();
    log.log("done\n");
    publish_result(&mut mem, 0, &mut log);
    assert_eq!(&mem[MIRROR_AT..MIRROR_AT + 5], b"done\n");
    assert!(mem[MIRROR_AT + 5..MIRROR_AT + SIZE].iter().all(|b| *b == 0));
    assert_eq!(mem[FLAG_AT], RESULT_PENDING);
    assert!(!log.updated);
    mem[FLAG_AT] = 0;
    publish_result(&mut mem, 0, &mut log);
    assert_eq!(mem[FLAG_AT], 0);
}

#[test]
fn sync_token_is_taken_once() {
    let mut mem = vec![0u8; 4];
    assert!(!take_sync_token(&mut mem, 2));
    mem[2] = 0x3;
    assert!(take_sync_token(&mut mem, 2));
    assert_eq!(mem[2], 0x2);
    assert!(!take_sync_token(&mut mem, 2));
}

#[test]
fn print_appends_line() {
    let mut state = state_with(&[]);
    assert_eq!(state.print(&vec!["hello".to_string()]), Ok(()));
    assert_eq!(state.output.contents(), b"hello\n".to_vec());
    assert!(state.output.updated);
}

#[test]
fn print_with_wrong_argument_count_fails() {
    let mut state = state_with(&[]);
    assert_eq!(state.print(&vec![]), Err("Incorrect arguments".to_string()));
    assert_eq!(state.print(&vec!["a".to_string(), "b".to_string()]), Err("Incorrect arguments".to_string()));
    assert!(state.output.contents().is_empty());
    assert!(!state.output.updated);
}

#[test]
fn run_commands_takes_and_logs_command() {
    let mut state = state_with(&[("Sync", 4), ("Command", SLICE_SIZE)]);
    assert_eq!(state.get_offset("Command"), Some(4));
    let mut mem = vec![0u8; 4 + SLICE_SIZE];
    assert_eq!(state.run_commands(0, &mut mem), Ok(None));
    assert!(enqueue_command(&mut mem, 4, b"print(1)"));
    assert_eq!(state.run_commands(0, &mut mem), Ok(Some(b"print(1)".to_vec())));
    assert_eq!(state.output.contents(), b"print(1)".to_vec());
    assert_eq!(mem[4 + FLAG_AT] & COMMAND_PENDING, 0);
}

#[test]
fn run_commands_errors() {
    let mut state = state_with(&[("Command", 16)]);
    let mut mem = vec![0u8; 16];
    assert_eq!(state.run_commands(1, &mut mem), Err(TOO_MANY_ARGUMENTS.to_string()));
    assert_eq!(state.run_commands(0, &mut mem), Err(NO_COMMAND_SLICE.to_string()));
    let mut none = state_with(&[]);
    assert_eq!(none.run_commands(0, &mut mem), Err("No shared memory for module Command".to_string()));
}

#[test]
fn sync_publishes_then_waits_for_token() {
    let mut state = state_with(&[("Sync", 1), ("Command", SLICE_SIZE)]);
    let mut mem = vec![0u8; 1 + SLICE_SIZE];
    assert_eq!(state.print(&vec!["x".to_string()]), Ok(()));
    assert!(state.sync_publish(&mut mem));
    assert_eq!(&mem[1 + MIRROR_AT..1 + MIRROR_AT + 2], b"x\n");
    assert_eq!(mem[1 + FLAG_AT], RESULT_PENDING);
    assert_eq!(state.sync_poll(&mut mem), Some(false));
    mem[0] = 1;
    assert_eq!(state.sync_poll(&mut mem), Some(true));
    assert_eq!(mem[0], 0);
}

#[test]
fn sync_without_slices() {
    let mut state = state_with(&[]);
    let mut mem = vec![0u8; 8];
    assert!(!state.sync_publish(&mut mem));
    assert_eq!(state.sync_poll(&mut mem), None);
    assert_eq!(mem, vec![0u8; 8]);
}

#[test]
fn unknown_command_is_logged() {
    let mut state = state_with(&[]);
    state.log_unknown_command("frobnicate");
    assert_eq!(state.output.contents(), b"Unknown command frobnicate".to_vec());
}

#[test]
fn initializer_runs_once() {
    let mut init = Initializer::new();
    assert!(init.once());
    assert!(!init.once());
    assert!(init.initialized);
}
