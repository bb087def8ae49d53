use rift_bus::commands::CommandBuffer;

#[test]
fn feed_emits_on_carriage_return() {
    let mut buf = CommandBuffer::new();
    let results = buf.feed(b"ls\r");
    assert_eq!(results.len(), 1);
    assert_eq!(results[0].0, "ls");
    let next = buf.feed(b"");
    assert!(next.is_empty());
}

#[test]
fn feed_emits_on_newline() {
    let mut buf = CommandBuffer::new();
    let results = buf.feed(b"pwd\n");
    assert_eq!(results.len(), 1);
    assert_eq!(results[0].0, "pwd");
}

#[test]
fn feed_handles_crlf_as_single_boundary() {
    let mut buf = CommandBuffer::new();
    let results = buf.feed(b"ls\r\n");
    assert_eq!(results.len(), 1, "\\r\\n must produce exactly one command");
    assert_eq!(results[0].0, "ls");
}

#[test]
fn feed_handles_multiple_in_one_call() {
    let mut buf = CommandBuffer::new();
    let results = buf.feed(b"a\rb\rc\r");
    assert_eq!(results.len(), 3);
    assert_eq!(results[0].0, "a");
    assert_eq!(results[1].0, "b");
    assert_eq!(results[2].0, "c");
}

#[test]
fn feed_partial_buffers() {
    let mut buf = CommandBuffer::new();
    let first = buf.feed(b"hello");
    assert!(first.is_empty(), "no boundary yet — should buffer");
    let second = buf.feed(b" world\r");
    assert_eq!(second.len(), 1);
    assert_eq!(second[0].0, "hello world");
}

#[test]
fn feed_empty_command() {
    let mut buf = CommandBuffer::new();
    let results = buf.feed(b"\r");
    assert_eq!(results.len(), 1, "empty Enter is still a command");
    assert_eq!(results[0].0, "");
}

#[test]
fn feed_lossy_utf8() {
    let mut buf = CommandBuffer::new();
    let results = buf.feed(b"\xFF\r");
    assert_eq!(results.len(), 1);
    assert_eq!(results[0].0, "\u{FFFD}");
}

#[test]
fn feed_raw_len_carriage_return() {
    let mut buf = CommandBuffer::new();
    let results = buf.feed(b"ls\r");
    assert_eq!(results[0].1, 3);
}

#[test]
fn feed_raw_len_crlf() {
    let mut buf = CommandBuffer::new();
    let results = buf.feed(b"ls\r\n");
    assert_eq!(results[0].1, 4);
}

#[test]
fn raw_lengths_account_for_every_byte() {
    let mut buf = CommandBuffer::new();
    let input = b"one\r\ntwo\nthree";
    let results = buf.feed(input);
    let total: usize = results.iter().map(|r| r.1).sum();
    assert_eq!(total + "three".len(), input.len());
    let rest = buf.feed(b"\n");
    assert_eq!(rest[0].0, "three");
}

#[test]
fn lf_then_cr_are_two_boundaries() {
    let mut buf = CommandBuffer::new();
    let results = buf.feed(b"a\n\r");
    assert_eq!(results.len(), 2);
    assert_eq!(results[1].0, "");
}

#[test]
fn feeds_concatenate_across_calls() {
    let mut split = CommandBuffer::new();
    let mut whole = CommandBuffer::new();
    let mut parts = split.feed(b"git st");
    parts.extend(split.feed(b"atus\nls -la\r\n"));
    let all = whole.feed(b"git status\nls -la\r\n");
    let a: Vec<String> = parts.iter().map(|p| p.0.clone()).collect();
    let b: Vec<String> = all.iter().map(|p| p.0.clone()).collect();
    assert_eq!(a, b);
    assert_eq!(b, vec!["git status".to_string(), "ls -la".to_string()]);
}

#[test]
fn input_ending_at_a_boundary_leaves_nothing_pending() {
    let mut buf = CommandBuffer::new();
    let first = buf.feed(b"ab");
    assert!(first.is_empty());
    let lines = buf.feed(b"c\r\nls\n");
    let total: usize = lines.iter().map(|l| l.1).sum();
    assert_eq!(total, 2 + 6);
    assert!(lines.iter().all(|l| !l.0.contains('\r') && !l.0.contains('\n')));
    assert!(buf.feed(b"").is_empty());
}
