use phenix::environment::{
    bounded, describe, CaptureBuffer, ProcessTable, LOCAL_ENVIRONMENT_PLUGIN, MAX_CAPTURE_BYTES,
};

#[test]
fn the_local_environment_keeps_processes_without_a_terminal() {
    let description = describe();
    assert_eq!(description.provider, LOCAL_ENVIRONMENT_PLUGIN);
    assert_eq!(description.provider, "phenix.environment.local");
    assert!(description.persistent_processes);
    assert!(!description.pty);
}

#[test]
fn capture_keeps_at_most_the_limit_and_marks_truncation() {
    let mut buffer = CaptureBuffer::new();
    buffer.push(b"hello ");
    buffer.push(b"world");
    assert_eq!(buffer.take(), (b"hello world".to_vec(), false));
    assert_eq!(buffer.take(), (Vec::new(), false));

    let big = vec![7u8; MAX_CAPTURE_BYTES - 2];
    buffer.push(&big);
    buffer.push(b"abcd");
    let (bytes, truncated) = buffer.take();
    assert_eq!(bytes.len(), MAX_CAPTURE_BYTES);
    assert_eq!(&bytes[MAX_CAPTURE_BYTES - 2..], b"ab");
    assert!(truncated);
    buffer.push(b"x");
    assert_eq!(buffer.take(), (b"x".to_vec(), false));
}

#[test]
fn bounded_output_cuts_at_the_limit() {
    assert_eq!(bounded(b"short".to_vec()), (b"short".to_vec(), false));
    let exact = vec![1u8; MAX_CAPTURE_BYTES];
    assert_eq!(bounded(exact.clone()), (exact, false));
    let (kept, cut) = bounded(vec![2u8; MAX_CAPTURE_BYTES + 3]);
    assert_eq!(kept.len(), MAX_CAPTURE_BYTES);
    assert!(cut);
    assert_eq!(MAX_CAPTURE_BYTES, 1024 * 1024);
}

#[test]
fn process_handles_are_numbered_and_reusable_after_restore() {
    let mut table: ProcessTable<&str> = ProcessTable::new();
    assert_eq!(table.open("shell"), "process-1");
    assert_eq!(table.open("build"), "process-2");
    assert_eq!(table.remove(&"process-1".to_string()), Some("shell"));
    assert_eq!(table.remove(&"process-1".to_string()), None);
    table.restore("process-1".into(), "shell");
    assert_eq!(table.open("tests"), "process-3");
    let drained = table.drain();
    assert_eq!(
        drained,
        vec![
            ("process-1".to_string(), "shell"),
            ("process-2".to_string(), "build"),
            ("process-3".to_string(), "tests"),
        ]
    );
    assert!(table.drain().is_empty());
}
