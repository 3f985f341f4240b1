use esp32_s3_rhai::logging::{
    clear_buffer, dump_buffer, write_to_buffer, EspLogger, LogBuffer, LogLevel, BUF_SIZE,
};

#[test]
fn fresh_ring_dumps_nothing() {
    let buf = LogBuffer::new();
    assert_eq!(dump_buffer(&buf).as_str(), "");
}

#[test]
fn write_then_dump_gives_text_and_line_feed() {
    let mut buf = LogBuffer::new();
    write_to_buffer(&mut buf, "hello");
    assert_eq!(dump_buffer(&buf).as_str(), "hello\n");
}

#[test]
fn writes_accumulate_in_order() {
    let mut buf = LogBuffer::new();
    write_to_buffer(&mut buf, "first");
    write_to_buffer(&mut buf, "second");
    assert_eq!(dump_buffer(&buf).as_str(), "first\nsecond\n");
}

#[test]
fn clear_empties_the_ring() {
    let mut buf = LogBuffer::new();
    write_to_buffer(&mut buf, "something");
    clear_buffer(&mut buf);
    assert_eq!(dump_buffer(&buf).as_str(), "");
    write_to_buffer(&mut buf, "after");
    assert_eq!(dump_buffer(&buf).as_str(), "after\n");
}

#[test]
fn long_text_is_cut_to_ring_size_minus_two() {
    let mut buf = LogBuffer::new();
    let text = "a".repeat(5000);
    write_to_buffer(&mut buf, &text);
    // The entry is BUF_SIZE - 2 bytes of text plus a line feed; its zero byte
    // lands on the last slot, where the write position now points.
    let dumped = dump_buffer(&buf);
    assert_eq!(dumped.as_str().len(), BUF_SIZE - 1);
    assert!(dumped.as_str().ends_with("a\n"));
    assert_eq!(dumped.as_str().matches('a').count(), BUF_SIZE - 2);
}

#[test]
fn wrapped_write_dumps_latest_message_whole() {
    let mut buf = LogBuffer::new();
    write_to_buffer(&mut buf, &"a".repeat(4000)); // entry at 0..=4000, zero at 4001
    write_to_buffer(&mut buf, &"b".repeat(100)); // wraps: 95 bytes at the end, 6 at the start
    let dumped = dump_buffer(&buf);
    // In circular order the ring holds what is left of the first entry (its
    // first 7 bytes were overwritten), then the whole latest entry.
    let expected = format!("{}\n{}\n", "a".repeat(3993), "b".repeat(100));
    assert_eq!(dumped.as_str(), expected);
    assert!(dumped.as_str().ends_with(&format!("{}\n", "b".repeat(100))));
    // Dumping does not change the ring.
    assert_eq!(dump_buffer(&buf).as_str(), expected);
}

#[test]
fn many_writes_keep_the_latest_entries_in_order() {
    let mut buf = LogBuffer::new();
    for i in 0..1000 {
        write_to_buffer(&mut buf, &format!("line {}", i));
    }
    let dumped = dump_buffer(&buf);
    assert!(dumped.as_str().ends_with("line 998\nline 999\n"));
    assert!(buf.overflow_count() >= 1);
}

#[test]
fn dump_gives_back_utf8_text() {
    let mut buf = LogBuffer::new();
    write_to_buffer(&mut buf, "é ünïcödé ✓");
    assert_eq!(dump_buffer(&buf).as_str(), "é ünïcödé ✓\n");
}

#[test]
fn dump_leaves_out_a_character_cut_by_truncation() {
    let mut buf = LogBuffer::new();
    // 1 + 2 * 2047 = 4095 bytes; the cut to 4094 bytes splits the last 'é'.
    let text = format!("a{}", "é".repeat(2047));
    write_to_buffer(&mut buf, &text);
    let expected = format!("a{}\n", "é".repeat(2046));
    assert_eq!(dump_buffer(&buf).as_str(), expected);
}

#[test]
fn overflow_count_counts_wrapping_writes() {
    let mut buf = LogBuffer::new();
    write_to_buffer(&mut buf, &"x".repeat(4000));
    assert_eq!(buf.overflow_count(), 0);
    write_to_buffer(&mut buf, &"y".repeat(100));
    assert_eq!(buf.overflow_count(), 1);
    write_to_buffer(&mut buf, "short");
    assert_eq!(buf.overflow_count(), 1);
    clear_buffer(&mut buf);
    assert_eq!(buf.overflow_count(), 0);
}

#[test]
fn write_ending_on_last_slot_does_not_wrap() {
    let mut buf = LogBuffer::new();
    // Entry of 4095 bytes at position 0: its zero lands on the last slot.
    write_to_buffer(&mut buf, &"b".repeat(4094));
    assert_eq!(buf.overflow_count(), 0);
    // One more write starts at 4095 and wraps.
    write_to_buffer(&mut buf, "c");
    assert_eq!(buf.overflow_count(), 1);
}

#[test]
fn dump_leaves_out_zero_bytes() {
    let mut buf = LogBuffer::new();
    write_to_buffer(&mut buf, "ab\0cd");
    assert_eq!(dump_buffer(&buf).as_str(), "abcd\n");
}

#[test]
fn logger_formats_line_and_writes_it_to_ring() {
    let logger = EspLogger;
    let mut buf = LogBuffer::new();
    assert!(logger.enabled());
    let line = logger.log(&mut buf, 0, LogLevel::Info, &["Logging system initialized"]);
    assert_eq!(line.as_str(), "[Core 0] INFO: Logging system initialized");
    assert_eq!(
        dump_buffer(&buf).as_str(),
        "[Core 0] INFO: Logging system initialized\n"
    );
    logger.flush();
}

#[test]
fn logger_level_names() {
    let logger = EspLogger;
    let mut buf = LogBuffer::new();
    assert_eq!(logger.log(&mut buf, 1, LogLevel::Error, &["e"]).as_str(), "[Core 1] ERROR: e");
    assert_eq!(logger.log(&mut buf, 1, LogLevel::Warn, &["w"]).as_str(), "[Core 1] WARN: w");
    assert_eq!(logger.log(&mut buf, 1, LogLevel::Debug, &["d"]).as_str(), "[Core 1] DEBUG: d");
    assert_eq!(logger.log(&mut buf, 1, LogLevel::Trace, &["t"]).as_str(), "[Core 1] TRACE: t");
}

#[test]
fn logger_negative_core_id() {
    let logger = EspLogger;
    let mut buf = LogBuffer::new();
    let line = logger.log(&mut buf, -12, LogLevel::Warn, &["x"]);
    assert_eq!(line.as_str(), "[Core -12] WARN: x");
    let line = logger.log(&mut buf, i32::MIN, LogLevel::Warn, &["x"]);
    assert_eq!(line.as_str(), "[Core -2147483648] WARN: x");
}

#[test]
fn logger_drops_text_that_does_not_fit_the_line() {
    let logger = EspLogger;
    let mut buf = LogBuffer::new();
    let text = "z".repeat(300);
    let line = logger.log(&mut buf, 0, LogLevel::Info, &[text.as_str()]);
    assert_eq!(line.as_str(), "[Core 0] INFO: ");
    // Exactly filling the 256-byte line is still accepted.
    let header = "[Core 0] INFO: ";
    let text = "q".repeat(256 - header.len());
    let line = logger.log(&mut buf, 0, LogLevel::Info, &[text.as_str()]);
    assert_eq!(line.as_str().len(), 256);
    assert!(line.as_str().starts_with(header));
}

#[test]
fn logger_writes_message_pieces_one_by_one() {
    let logger = EspLogger;
    let mut buf = LogBuffer::new();
    let long = "p".repeat(300);
    let line = logger.log(&mut buf, 1, LogLevel::Info, &["[Script] ", long.as_str()]);
    assert_eq!(line.as_str(), "[Core 1] INFO: [Script] ");
    let line = logger.log(&mut buf, 1, LogLevel::Info, &["[Script] ", "hi"]);
    assert_eq!(line.as_str(), "[Core 1] INFO: [Script] hi");
}
