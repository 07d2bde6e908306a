use lib::client::{Client, UseContext};

#[test]
fn a_new_connection_is_empty() {
    let c = Client::new();
    assert!(c.uuid.is_none());
    assert!(matches!(c.use_context, UseContext::Global));
    assert!(c.read_buffer.is_empty() && c.write_buffer.is_empty());
}

#[test]
fn extract_command_takes_one_line_at_a_time() {
    let mut c = Client::new();
    c.read_buffer.extend_from_slice(b"/users\n/login bob\n/par");
    assert_eq!(c.extract_command(), Some("/users".to_string()));
    assert_eq!(c.extract_command(), Some("/login bob".to_string()));
    assert_eq!(c.extract_command(), None);
    assert_eq!(c.read_buffer, b"/par".to_vec());
}

#[test]
fn extract_command_drops_a_line_that_is_not_utf8() {
    let mut c = Client::new();
    c.read_buffer.extend_from_slice(&[0xff, 0xfe, b'\n', b'o', b'k', b'\n']);
    assert_eq!(c.extract_command(), None);
    assert_eq!(c.extract_command(), Some("ok".to_string()));
}

#[test]
fn queue_message_appends_the_line() {
    let mut c = Client::new();
    c.queue_message("200 OK");
    c.queue_message("é");
    assert_eq!(c.write_buffer, "200 OK\né\n".as_bytes().to_vec());
}

#[test]
fn a_queued_line_is_read_back_as_sent() {
    let mut sender = Client::new();
    sender.queue_message("/send \"u\" \"hi\"");
    let mut receiver = Client::new();
    receiver.read_buffer = sender.write_buffer.clone();
    assert_eq!(receiver.extract_command(), Some("/send \"u\" \"hi\"".to_string()));
    assert!(receiver.read_buffer.is_empty());
}

#[test]
fn duplicate_copies_the_context() {
    let c = UseContext::Channel("t".into(), "c".into());
    assert!(matches!(c.duplicate(), UseContext::Channel(t, ch) if t == "t" && ch == "c"));
}
