use lib::ffi::LogCall;
use lib::models::{Channel, Database, Message, Team, Thread, User};

fn sample() -> Database {
    let mut db = Database::new();
    db.users.push(User { uuid: "u1".into(), name: "al\nice".into(), is_connected: true });
    db.users.push(User { uuid: "u2".into(), name: "bob".into(), is_connected: false });
    db.private_messages.push(Message {
        sender_uuid: "u1".into(),
        receiver_uuid: "u2".into(),
        body: "hi\nthere".into(),
        timestamp: 17,
    });
    let reply = Message { sender_uuid: "u2".into(), receiver_uuid: "h1".into(), body: "ok".into(), timestamp: 99 };
    let thread = Thread {
        uuid: "h1".into(),
        title: "title".into(),
        message: "body".into(),
        author_uuid: "u1".into(),
        replies: vec![reply],
        timestamp: 42,
    };
    let channel = Channel { uuid: "c1".into(), name: "chan".into(), description: "d".into(), threads: vec![thread] };
    db.teams.push(Team {
        uuid: "t1".into(),
        name: "team".into(),
        description: "desc".into(),
        subscribers: vec!["u1".into(), "u2".into()],
        channels: vec![channel],
    });
    db
}

#[test]
fn data_lines_have_the_file_format() {
    let lines = sample().data_lines();
    assert_eq!(
        lines,
        vec![
            "USER|u1|al\\nice|true",
            "USER|u2|bob|false",
            "PM|u1|u2|17|hi\\nthere",
            "TEAM|t1|team|desc",
            "SUB|t1|u1",
            "SUB|t1|u2",
            "CHAN|t1|c1|chan|d",
            "THRE|c1|h1|u1|42|title|body|t1",
            "REPL|h1|u2|99|ok",
        ]
    );
    assert_eq!(Database::new().data_lines(), Vec::<String>::new());
}

#[test]
fn saved_data_loads_back_with_users_disconnected() {
    let saved = sample();
    let mut db = Database::new();
    let mut calls = Vec::new();
    for line in saved.data_lines() {
        if let Some(c) = db.load_line(&line) {
            calls.push(c);
        }
    }
    assert_eq!(db.users.len(), 2);
    assert_eq!((db.users[0].uuid.as_str(), db.users[0].name.as_str(), db.users[0].is_connected), ("u1", "al\nice", false));
    assert_eq!((db.users[1].uuid.as_str(), db.users[1].name.as_str(), db.users[1].is_connected), ("u2", "bob", false));
    let m = &db.private_messages[0];
    assert_eq!((m.sender_uuid.as_str(), m.receiver_uuid.as_str(), m.body.as_str(), m.timestamp), ("u1", "u2", "hi\nthere", 17));
    let t = &db.teams[0];
    assert_eq!((t.uuid.as_str(), t.name.as_str(), t.description.as_str()), ("t1", "team", "desc"));
    assert_eq!(t.subscribers, vec!["u1", "u2"]);
    let c = &t.channels[0];
    assert_eq!((c.uuid.as_str(), c.name.as_str(), c.description.as_str()), ("c1", "chan", "d"));
    let h = &c.threads[0];
    assert_eq!((h.uuid.as_str(), h.author_uuid.as_str(), h.title.as_str(), h.message.as_str(), h.timestamp), ("h1", "u1", "title", "body", 42));
    let r = &h.replies[0];
    assert_eq!((r.sender_uuid.as_str(), r.receiver_uuid.as_str(), r.body.as_str(), r.timestamp), ("u2", "h1", "ok", 99));
    assert_eq!(db.data_lines()[0], "USER|u1|al\\nice|false");
    assert_eq!(calls.len(), 2);
    assert!(matches!(&calls[0], LogCall::ServerEventUserLoaded { user_uuid, user_name } if user_uuid == b"u1\0" && user_name == b"al\nice\0"));
}

#[test]
fn malformed_lines_are_ignored() {
    let mut db = Database::new();
    for line in ["USER|x", "PM|a|b", "BOGUS|1|2|3", "", "SUB|nope|u", "CHAN|nope|c|n|d", "THRE|c|h|u|1|t|m|nope", "REPL|nope|u|1|b"] {
        assert!(db.load_line(line).is_none());
    }
    assert_eq!(db.data_lines(), Vec::<String>::new());
}

#[test]
fn a_user_line_replaces_the_user_with_the_same_identifier() {
    let mut db = Database::new();
    db.load_line("USER|u|first|true");
    db.load_line("USER|u|second|true");
    assert_eq!(db.users.len(), 1);
    assert_eq!(db.users[0].name, "second");
}

#[test]
fn unparsable_numbers_load_as_zero() {
    let mut db = Database::new();
    db.load_line("PM|a|b|soon|text");
    assert_eq!(db.private_messages[0].timestamp, 0);
}

#[test]
fn a_reply_goes_to_the_first_thread_with_its_identifier() {
    let mut db = Database::new();
    for line in ["TEAM|t1|a|b", "CHAN|t1|c1|n|d", "THRE|c1|h|u|1|t|m|t1", "TEAM|t2|a|b", "CHAN|t2|c2|n|d", "THRE|c2|h|u|1|t|m|t2", "REPL|h|u|5|r"] {
        db.load_line(line);
    }
    assert_eq!(db.teams[0].channels[0].threads[0].replies.len(), 1);
    assert_eq!(db.teams[1].channels[0].threads[0].replies.len(), 0);
}
