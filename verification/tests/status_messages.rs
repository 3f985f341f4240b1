use esp32_s3_rhai::logging::{rhai_print_handler, send_statustext, telegram_send, LogLevel};
use esp32_s3_rhai::status_queue::{pop, push, push_str, StatusQueue, MSG_MAX, QUEUE_SIZE};

#[test]
fn pop_on_empty_queue_is_none() {
    let mut q = StatusQueue::new();
    assert!(pop(&mut q).is_none());
}

#[test]
fn queue_is_first_in_first_out() {
    let mut q = StatusQueue::new();
    push_str(&mut q, "one");
    push_str(&mut q, "two");
    push_str(&mut q, "three");
    assert_eq!(pop(&mut q).unwrap().as_str(), "one");
    assert_eq!(pop(&mut q).unwrap().as_str(), "two");
    assert_eq!(pop(&mut q).unwrap().as_str(), "three");
    assert!(pop(&mut q).is_none());
}

#[test]
fn full_queue_drops_new_messages() {
    let mut q = StatusQueue::new();
    for i in 0..QUEUE_SIZE + 3 {
        push_str(&mut q, &format!("m{}", i));
    }
    for i in 0..QUEUE_SIZE {
        assert_eq!(pop(&mut q).unwrap().as_str(), format!("m{}", i));
    }
    assert!(pop(&mut q).is_none());
}

#[test]
fn text_longer_than_a_message_is_not_queued() {
    let mut q = StatusQueue::new();
    push_str(&mut q, &"k".repeat(MSG_MAX + 1));
    assert!(pop(&mut q).is_none());
    push_str(&mut q, &"k".repeat(MSG_MAX));
    assert_eq!(pop(&mut q).unwrap().as_str().len(), MSG_MAX);
}

#[test]
fn push_ready_message() {
    let mut q = StatusQueue::new();
    let mut m: heapless::String<128> = heapless::String::new();
    m.push_str("ready").unwrap();
    push(&mut q, m);
    assert_eq!(pop(&mut q).unwrap().as_str(), "ready");
}

#[test]
fn statustext_format() {
    let mut q = StatusQueue::new();
    send_statustext(&mut q, 6, "Core0 started");
    send_statustext(&mut q, 255, "x");
    assert_eq!(pop(&mut q).unwrap().as_str(), "[Sev:6] Core0 started");
    assert_eq!(pop(&mut q).unwrap().as_str(), "[Sev:255] x");
}

#[test]
fn statustext_drops_text_beyond_64_bytes() {
    let mut q = StatusQueue::new();
    send_statustext(&mut q, 0, &"t".repeat(60));
    assert_eq!(pop(&mut q).unwrap().as_str(), "[Sev:0] ");
    let fits = "u".repeat(64 - "[Sev:0] ".len());
    send_statustext(&mut q, 0, &fits);
    assert_eq!(pop(&mut q).unwrap().as_str(), format!("[Sev:0] {}", fits));
}

#[test]
fn telegram_logs_and_queues() {
    let mut q = StatusQueue::new();
    let rec = telegram_send(&mut q, "armed");
    assert_eq!(rec.level, LogLevel::Warn);
    assert_eq!(rec.prefix, "[Telegram] ");
    assert_eq!(rec.text, "armed");
    assert_eq!(pop(&mut q).unwrap().as_str(), "armed");
}

#[test]
fn script_print_is_logged_with_prefix() {
    let rec = rhai_print_handler("hi there");
    assert_eq!(rec.level, LogLevel::Info);
    assert_eq!(rec.prefix, "[Script] ");
    assert_eq!(rec.text, "hi there");
}
