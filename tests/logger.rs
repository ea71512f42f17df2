use serenity::logger::{Logger, SIZE};

fn content(log: &Logger) -> Vec<u8> {
    log.contents()
}

#[test]
fn test_copy() {
    let mut buffer = [0 as u8; SIZE];
    let target = String::from_utf8(Vec::from([1 as u8; SIZE])).unwrap();
    Logger::copy(&mut buffer, &target, 40);

    for i in 0..40 {
        assert_eq!(0, buffer[i]);
    }
    for i in 41..SIZE {
        assert_eq!(1, buffer[i]);
    }
}

#[test]
fn test_copy_to_start() {
    let mut buffer = [0 as u8; SIZE];

    let mut val = 0;
    for i in SIZE - 2000..SIZE {
        buffer[i] = val;
        if val == 255 {
            val = 0;
        } else {
            val += 1;
        }
    }

    Logger::copy_to_start(&mut buffer, 2000);

    for i in 0..2000 {
        assert_eq!(buffer[i], (i % 256) as u8);
    }
}

#[test]
fn fresh_log_is_empty_and_clean() {
    let log = Logger::new();
    assert_eq!(log.index, 0);
    assert!(!log.updated);
    assert_eq!(log.buffer.len(), SIZE);
    assert!(content(&log).is_empty());
}

#[test]
fn append_to_fresh_log_keeps_message() {
    let mut log = Logger::new();
    log.log("hello");
    assert_eq!(content(&log), b"hello".to_vec());
    assert_eq!(log.index, 5);
    assert!(log.updated);
}

#[test]
fn append_of_exactly_capacity_fills_log() {
    let mut log = Logger::new();
    let m = "x".repeat(SIZE);
    log.log(&m);
    assert_eq!(log.index, SIZE);
    assert_eq!(content(&log), m.as_bytes().to_vec());
}

#[test]
fn appends_past_capacity_keep_last_bytes() {
    let mut log = Logger::new();
    let mut all: Vec<u8> = Vec::new();
    for k in 0..100u32 {
        let m = format!("line {} of the log with some padding text\n", k);
        all.extend_from_slice(m.as_bytes());
        log.log(&m);
    }
    assert!(all.len() > SIZE);
    assert_eq!(log.index, SIZE);
    assert_eq!(content(&log), all[all.len() - SIZE..].to_vec());
}

#[test]
fn message_longer_than_capacity_keeps_its_tail() {
    let mut log = Logger::new();
    log.log("abc");
    let mut m = String::new();
    for k in 0..SIZE + 10 {
        m.push((b'a' + (k % 26) as u8) as char);
    }
    log.log(&m);
    assert_eq!(content(&log), m.as_bytes()[10..].to_vec());
}

#[test]
fn eviction_keeps_partial_old_content() {
    let mut log = Logger::new();
    let first = "a".repeat(SIZE - 2);
    log.log(&first);
    log.log("bcde");
    let mut expected = "a".repeat(SIZE - 4).into_bytes();
    expected.extend_from_slice(b"bcde");
    assert_eq!(content(&log), expected);
    assert_eq!(log.index, SIZE);
}

#[test]
fn log_bytes_appends_raw_bytes() {
    let mut log = Logger::new();
    log.log_bytes(&[0xff, 0x00, 0x41]);
    assert_eq!(content(&log), vec![0xff, 0x00, 0x41]);
}
