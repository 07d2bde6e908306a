use lib::client::UseContext;
use lib::ffi::LogCall;
use lib::models::Database;
use lib::server::{parse_command_args, Server};

fn server_with(ids: &[u64]) -> Server {
    let mut s = Server::new(Database::new());
    for id in ids {
        s.add_client(*id);
    }
    s
}

/// Sends a command line and returns the lines it produced on connection `id`.
fn run(s: &mut Server, id: u64, line: &str) -> Vec<String> {
    s.handle_command(id, line);
    take_lines(s, id)
}

fn take_lines(s: &mut Server, id: u64) -> Vec<String> {
    let out = s.pending_output(id);
    s.consume_output(id, out.len());
    let text = String::from_utf8(out).unwrap();
    text.lines().map(|l| l.to_string()).collect()
}

/// Logs `name` in on connection `id` and returns the user's identifier.
fn login(s: &mut Server, id: u64, name: &str) -> String {
    let lines = run(s, id, &format!("/login \"{name}\""));
    assert_eq!(lines.len(), 1);
    let parts: Vec<&str> = lines[0].split('|').collect();
    assert_eq!(parts[0], "200 Login OK");
    assert_eq!(parts[2], name);
    parts[1].to_string()
}

fn is_lower_hex(s: &str) -> bool {
    !s.is_empty() && s.chars().all(|c| c.is_ascii_digit() || ('a'..='f').contains(&c))
}

#[test]
fn parse_command_args_splits_and_drops_quotes() {
    assert_eq!(parse_command_args("/login \"bob smith\""), vec!["/login", "bob smith"]);
    assert_eq!(parse_command_args("  /send  a   b "), vec!["/send", "a", "b"]);
    assert_eq!(parse_command_args("\"\""), Vec::<String>::new());
    assert_eq!(parse_command_args("a\"b c\"d"), vec!["ab cd"]);
    assert_eq!(parse_command_args(""), Vec::<String>::new());
}

#[test]
fn login_creates_user_with_hex_identifier() {
    let mut s = server_with(&[1]);
    let u = login(&mut s, 1, "bob");
    assert!(is_lower_hex(&u));
    assert_eq!(s.get_client_uuid(1), Some(u.clone()));
    let db = s.database();
    assert_eq!(db.users.len(), 1);
    assert_eq!(db.users[0].uuid, u);
    assert_eq!(db.users[0].name, "bob");
    assert!(db.users[0].is_connected);
    let log = s.take_log();
    assert_eq!(log.len(), 2);
    assert!(matches!(&log[0], LogCall::ServerEventUserCreated { user_name, .. } if user_name == b"bob\0"));
    assert!(matches!(&log[1], LogCall::ServerEventUserLoggedIn { user_uuid } if *user_uuid == format!("{u}\0").into_bytes()));
    assert_eq!(s.take_log().len(), 0);
}

#[test]
fn login_errors() {
    let mut s = server_with(&[1]);
    assert_eq!(run(&mut s, 1, "/login"), vec!["400 Bad Request: Missing user_name"]);
    let long = "x".repeat(33);
    assert_eq!(run(&mut s, 1, &format!("/login {long}")), vec!["400 Bad Request: Name too long"]);
    let ok = "y".repeat(32);
    let lines = run(&mut s, 1, &format!("/login {ok}"));
    assert!(lines[0].starts_with("200 Login OK|"));
}

#[test]
fn logging_in_again_gives_the_same_identifier() {
    let mut s = server_with(&[1]);
    let first = login(&mut s, 1, "alice");
    assert_eq!(run(&mut s, 1, "/logout"), vec!["200 Logout OK"]);
    assert_eq!(s.get_client_uuid(1), None);
    assert!(!s.database().users[0].is_connected);
    let second = login(&mut s, 1, "alice");
    assert_eq!(first, second);
    assert_eq!(s.database().users.len(), 1);
}

#[test]
fn commands_before_login_are_refused() {
    let mut s = server_with(&[1]);
    assert_eq!(run(&mut s, 1, "/users"), vec!["401 Unauthorized: Please login first"]);
    assert_eq!(run(&mut s, 1, "/send a b"), vec!["401 Unauthorized: Please login first"]);
    assert_eq!(run(&mut s, 1, "/user a"), vec!["401 Unauthorized"]);
    assert_eq!(run(&mut s, 1, "/messages a"), vec!["401 Unauthorized"]);
    assert_eq!(run(&mut s, 1, "/subscribe t"), vec!["401 Unauthorized"]);
    assert_eq!(run(&mut s, 1, "/subscribed"), vec!["401 Unauthorized"]);
    assert_eq!(run(&mut s, 1, "/create a b"), vec!["401 Unauthorized"]);
    assert_eq!(run(&mut s, 1, "/list"), vec!["401 Unauthorized: Please login first"]);
    assert_eq!(run(&mut s, 1, "/info"), vec!["401 Unauthorized"]);
    assert_eq!(run(&mut s, 1, "/use"), vec!["401 Unauthorized: Please login first"]);
    assert_eq!(run(&mut s, 1, "/logout"), vec!["200 Logout OK"]);
}

#[test]
fn unknown_and_empty_commands() {
    let mut s = server_with(&[1]);
    assert_eq!(run(&mut s, 1, "/dance"), vec!["400 Unknown Command"]);
    assert_eq!(run(&mut s, 1, "   "), Vec::<String>::new());
}

#[test]
fn users_and_user_listing() {
    let mut s = server_with(&[1, 2]);
    let a = login(&mut s, 1, "a");
    let b = login(&mut s, 2, "b");
    assert_eq!(run(&mut s, 1, "/users"), vec![format!("200 USERS|{a}:a:1|{b}:b:1")]);
    assert_eq!(run(&mut s, 1, &format!("/user {b}")), vec![format!("200 USER|{b}|b|1")]);
    assert_eq!(run(&mut s, 1, "/user nobody"), vec!["404 Not Found: User not found"]);
    assert_eq!(run(&mut s, 1, "/user"), vec!["400 Bad Request"]);
    run(&mut s, 2, "/logout");
    assert_eq!(run(&mut s, 1, "/users"), vec![format!("200 USERS|{a}:a:1|{b}:b:0")]);
}

#[test]
fn private_messages_are_delivered_and_listed() {
    let mut s = server_with(&[1, 2]);
    let a = login(&mut s, 1, "a");
    let b = login(&mut s, 2, "b");
    s.take_log();
    assert_eq!(run(&mut s, 1, &format!("/send {b} \"hello b\"")), vec!["200 Message Sent"]);
    assert_eq!(take_lines(&mut s, 2), vec![format!("EVENT PM_RECEIVED|{a}|hello b")]);
    let log = s.take_log();
    assert_eq!(log.len(), 1);
    assert!(matches!(&log[0], LogCall::ServerEventPrivateMessageSended { message_body, .. } if message_body == b"hello b\0"));
    let m = &s.database().private_messages[0];
    assert_eq!((m.sender_uuid.as_str(), m.receiver_uuid.as_str(), m.body.as_str()), (a.as_str(), b.as_str(), "hello b"));
    let ts = m.timestamp;
    assert_eq!(
        run(&mut s, 2, &format!("/messages {a}")),
        vec![format!("200 MESSAGES|{a}:{ts}:hello b")]
    );
    assert_eq!(run(&mut s, 1, "/send nobody hi"), vec!["404 Not Found: User does not exist"]);
    assert_eq!(run(&mut s, 1, "/send x"), vec!["400 Bad Request: /send \"user_uuid\" \"message\""]);
    let long = "m".repeat(513);
    assert_eq!(run(&mut s, 1, &format!("/send {b} {long}")), vec!["400 Bad Request: Message too long"]);
    assert_eq!(run(&mut s, 1, "/messages nobody"), vec!["404 Not Found: User not found"]);
}

#[test]
fn teams_channels_threads_and_replies() {
    let mut s = server_with(&[1, 2]);
    let a = login(&mut s, 1, "a");
    let _b = login(&mut s, 2, "b");
    let lines = run(&mut s, 1, "/create \"team\" \"a team\"");
    let parts: Vec<&str> = lines[0].split('|').collect();
    assert_eq!(parts[0], "200 TEAM_CREATED");
    assert_eq!(&parts[2..], &["team", "a team"]);
    let t = parts[1].to_string();
    assert_eq!(run(&mut s, 1, "/create \"team\" \"again\""), vec!["409 Conflict: Team already exists"]);
    assert!(s.is_subscribed_to_team(&a, &t));

    assert_eq!(run(&mut s, 1, &format!("/use {t}")), vec!["200 Context Updated"]);
    let lines = run(&mut s, 1, "/create \"chan\" \"a channel\"");
    let c = lines[0].split('|').nth(1).unwrap().to_string();
    assert_eq!(lines, vec![
        format!("200 CHANNEL_CREATED|{c}|chan|a channel"),
        format!("EVENT CHANNEL_CREATED|{c}|chan|a channel"),
    ]);
    assert_eq!(run(&mut s, 1, "/create chan other"), vec!["409 Conflict: Channel already exists"]);

    assert_eq!(run(&mut s, 1, &format!("/use {t} {c}")), vec!["200 Context Updated"]);
    let lines = run(&mut s, 1, "/create \"title\" \"body\"");
    let fields: Vec<&str> = lines[0].split('|').collect();
    assert_eq!(fields[0], "200 THREAD_CREATED");
    let h = fields[1].to_string();
    assert_eq!(fields[2], a);
    assert_eq!(&fields[4..], &["title", "body"]);

    assert_eq!(run(&mut s, 1, &format!("/use {t} {c} {h}")), vec!["200 Context Updated"]);
    let lines = run(&mut s, 1, "/create \"a reply\"");
    assert!(lines[0].starts_with(&format!("200 REPLY_CREATED|{h}|{a}|")));
    assert_eq!(lines[1], format!("EVENT THREAD_REPLY_RECEIVED|{t}|{h}|{a}|a reply"));
    let reply = &s.database().teams[0].channels[0].threads[0].replies[0];
    assert_eq!(reply.receiver_uuid, h);
    assert_eq!(reply.body, "a reply");

    let ts = s.database().teams[0].channels[0].threads[0].replies[0].timestamp;
    assert_eq!(run(&mut s, 1, "/list"), vec![format!("200 LIST_REPLIES|{h}:{a}:{ts}:a reply")]);
    assert_eq!(run(&mut s, 1, &format!("/use {t}")), vec!["200 Context Updated"]);
    assert_eq!(run(&mut s, 1, "/list"), vec![format!("200 LIST_CHANNELS|{c}:chan:a channel")]);
    assert_eq!(run(&mut s, 1, "/info"), vec![format!("200 INFO_TEAM|{t}|team|a team")]);
    assert_eq!(run(&mut s, 1, "/use"), vec!["200 Context Updated"]);
    assert_eq!(run(&mut s, 1, "/list"), vec![format!("200 LIST_TEAMS|{t}:team:a team")]);
    assert_eq!(run(&mut s, 1, "/info"), vec![format!("200 INFO_USER|{a}|a|1")]);
}

#[test]
fn use_errors() {
    let mut s = server_with(&[1, 2]);
    login(&mut s, 1, "a");
    login(&mut s, 2, "b");
    let t = run(&mut s, 1, "/create team desc")[0].split('|').nth(1).unwrap().to_string();
    assert_eq!(run(&mut s, 1, "/use nope"), vec!["404 Not Found: Unknown Team"]);
    assert_eq!(run(&mut s, 2, &format!("/use {t}")), vec!["401 Unauthorized: Not subscribed to team"]);
    assert_eq!(run(&mut s, 1, &format!("/use {t} nope")), vec!["404 Not Found: Unknown Channel"]);
    assert_eq!(run(&mut s, 1, "/use a b c d"), vec!["400 Bad Request: Invalid /use arguments"]);
}

#[test]
fn subscribe_twice_and_unsubscribe() {
    let mut s = server_with(&[1, 2]);
    let a = login(&mut s, 1, "a");
    let b = login(&mut s, 2, "b");
    let t = run(&mut s, 1, "/create team desc")[0].split('|').nth(1).unwrap().to_string();
    assert_eq!(run(&mut s, 2, &format!("/subscribe {t}")), vec![format!("200 SUBSCRIBED|{b}|{t}")]);
    let subs = s.database().teams[0].subscribers.clone();
    assert_eq!(subs, vec![a.clone(), b.clone()]);
    assert_eq!(run(&mut s, 2, &format!("/subscribe {t}")), vec![format!("200 SUBSCRIBED|{b}|{t}")]);
    assert_eq!(s.database().teams[0].subscribers, subs);
    assert_eq!(run(&mut s, 2, "/subscribed"), vec![format!("200 SUBSCRIBED_TEAMS|{t}:team:desc")]);
    assert_eq!(
        run(&mut s, 2, &format!("/subscribed {t}")),
        vec![format!("200 SUBSCRIBED_USERS|{a}:a:1|{b}:b:1")]
    );
    assert_eq!(run(&mut s, 2, &format!("/use {t}")), vec!["200 Context Updated"]);
    assert_eq!(run(&mut s, 2, &format!("/unsubscribe {t}")), vec![format!("200 UNSUBSCRIBED|{b}|{t}")]);
    assert_eq!(s.database().teams[0].subscribers, vec![a.clone()]);
    assert_eq!(
        run(&mut s, 2, &format!("/unsubscribe {t}")),
        vec!["401 Unauthorized: Not subscribed to team"]
    );
    assert_eq!(run(&mut s, 2, "/subscribe nope"), vec!["404 Not Found: Team not found"]);
    assert_eq!(run(&mut s, 2, "/unsubscribe nope"), vec!["404 Not Found: Team not found"]);
    assert_eq!(run(&mut s, 2, "/subscribe"), vec!["400 Bad Request"]);
    assert_eq!(run(&mut s, 2, "/subscribed nope"), vec!["404 Not Found: Unknown Team"]);
    assert_eq!(run(&mut s, 2, "/subscribed a b"), vec!["400 Bad Request"]);
}

#[test]
fn unsubscribing_leaves_the_team_context() {
    let mut s = server_with(&[1]);
    login(&mut s, 1, "a");
    let t = run(&mut s, 1, "/create team desc")[0].split('|').nth(1).unwrap().to_string();
    run(&mut s, 1, &format!("/use {t}"));
    run(&mut s, 1, &format!("/unsubscribe {t}"));
    assert_eq!(run(&mut s, 1, "/list"), vec![format!("200 LIST_TEAMS|{t}:team:desc")]);
}

#[test]
fn create_length_limits() {
    let mut s = server_with(&[1]);
    login(&mut s, 1, "a");
    let long = "n".repeat(33);
    assert_eq!(run(&mut s, 1, &format!("/create {long} d")), vec!["400 Bad Request: Length error"]);
    assert_eq!(run(&mut s, 1, "/create only"), vec!["400 Bad Request"]);
}

#[test]
fn receive_splits_lines_and_keeps_partial_input() {
    let mut s = server_with(&[7]);
    let cmds = s.receive(7, b"/users\n/lo");
    assert_eq!(cmds, vec!["/users"]);
    let cmds = s.receive(7, b"gin bob\n");
    assert_eq!(cmds, vec!["/login bob"]);
    assert_eq!(s.receive(99, b"/x\n"), Vec::<String>::new());
}

#[test]
fn output_is_consumed_in_part() {
    let mut s = server_with(&[1]);
    run(&mut s, 1, "/dance");
    s.handle_command(1, "/dance");
    let out = s.pending_output(1);
    assert_eq!(out, b"400 Unknown Command\n".to_vec());
    s.consume_output(1, 4);
    assert_eq!(s.pending_output(1), b"Unknown Command\n".to_vec());
    s.consume_output(1, 1000);
    assert_eq!(s.pending_output(1), Vec::<u8>::new());
    assert_eq!(s.pending_output(42), Vec::<u8>::new());
}

#[test]
fn removing_a_connection_logs_its_user_out() {
    let mut s = server_with(&[1]);
    let a = login(&mut s, 1, "a");
    s.take_log();
    s.remove_client(1);
    let log = s.take_log();
    assert_eq!(log.len(), 1);
    assert!(matches!(&log[0], LogCall::ServerEventUserLoggedOut { user_uuid } if *user_uuid == format!("{a}\0").into_bytes()));
    assert_eq!(s.get_client_uuid(1), None);
    s.remove_client(1);
    assert_eq!(s.take_log().len(), 0);
}

#[test]
fn events_reach_logged_in_connections() {
    let mut s = server_with(&[1, 2]);
    let a = login(&mut s, 1, "a");
    let t = run(&mut s, 1, "/create team desc")[0].split('|').nth(1).unwrap().to_string();
    s.send_event_to_user(&a, "EVENT X");
    assert_eq!(take_lines(&mut s, 1), vec!["EVENT X"]);
    s.send_event_to_team_subscribers(&t, "EVENT Y");
    assert_eq!(take_lines(&mut s, 1), vec!["EVENT Y"]);
    assert_eq!(take_lines(&mut s, 2), Vec::<String>::new());
    s.send_event_to_team_subscribers("nope", "EVENT Z");
    assert_eq!(take_lines(&mut s, 1), Vec::<String>::new());
}

#[test]
fn context_helpers() {
    assert_eq!(Server::context_team_uuid(&UseContext::Global), None);
    assert_eq!(Server::context_team_uuid(&UseContext::Team("t".into())), Some("t"));
    assert_eq!(Server::context_team_uuid(&UseContext::Channel("t".into(), "c".into())), Some("t"));
    assert_eq!(
        Server::context_team_uuid(&UseContext::Thread("t".into(), "c".into(), "h".into())),
        Some("t")
    );
    let mut s = server_with(&[1]);
    login(&mut s, 1, "a");
    let t = run(&mut s, 1, "/create team desc")[0].split('|').nth(1).unwrap().to_string();
    run(&mut s, 1, &format!("/use {t}"));
    s.reset_client_context_if_inside_team(1, "other");
    assert_eq!(run(&mut s, 1, "/info"), vec![format!("200 INFO_TEAM|{t}|team|desc")]);
    s.reset_client_context_if_inside_team(1, &t);
    assert!(run(&mut s, 1, "/info")[0].starts_with("200 INFO_USER|"));
}

/// Sends a command line with a chosen identifier and time stamp.
fn run_at(s: &mut Server, id: u64, line: &str, fresh: &str, ts: u64) -> Vec<String> {
    s.handle_command_stamped(id, line, fresh, ts);
    take_lines(s, id)
}

#[test]
fn stamped_commands_give_exact_answers() {
    let mut s = server_with(&[1, 2]);
    assert_eq!(run_at(&mut s, 1, "/login alice", "a1", 0), vec!["200 Login OK|a1|alice"]);
    assert_eq!(run_at(&mut s, 2, "/login bob", "b2", 0), vec!["200 Login OK|b2|bob"]);
    assert_eq!(run_at(&mut s, 1, "/login alice", "zz", 0), vec!["200 Login OK|a1|alice"]);
    assert_eq!(run_at(&mut s, 1, "/send b2 \"hi bob\"", "x", 1700000000), vec!["200 Message Sent"]);
    assert_eq!(take_lines(&mut s, 2), vec!["EVENT PM_RECEIVED|a1|hi bob"]);
    assert_eq!(run_at(&mut s, 2, "/messages a1", "x", 0), vec!["200 MESSAGES|a1:1700000000:hi bob"]);
    assert_eq!(run_at(&mut s, 1, "/create \"T\" \"team T\"", "t9", 0), vec!["200 TEAM_CREATED|t9|T|team T"]);
    assert_eq!(run_at(&mut s, 1, "/use t9", "x", 0), vec!["200 Context Updated"]);
    assert_eq!(
        run_at(&mut s, 1, "/create C \"chan C\"", "c8", 0),
        vec!["200 CHANNEL_CREATED|c8|C|chan C", "EVENT CHANNEL_CREATED|c8|C|chan C"]
    );
    assert_eq!(run_at(&mut s, 1, "/use t9 c8", "x", 0), vec!["200 Context Updated"]);
    assert_eq!(
        run_at(&mut s, 1, "/create Hello World", "h7", 42),
        vec!["200 THREAD_CREATED|h7|a1|42|Hello|World", "EVENT THREAD_CREATED|h7|a1|42|Hello|World"]
    );
    assert_eq!(run_at(&mut s, 1, "/list", "x", 0), vec!["200 LIST_THREADS|h7:a1:42:Hello:World"]);
    assert_eq!(run_at(&mut s, 1, "/info", "x", 0), vec!["200 INFO_CHANNEL|c8|C|chan C"]);
    assert_eq!(run_at(&mut s, 1, "/use t9 c8 h7", "x", 0), vec!["200 Context Updated"]);
    assert_eq!(run_at(&mut s, 1, "/info", "x", 0), vec!["200 INFO_THREAD|h7|a1|42|Hello|World"]);
    assert_eq!(
        run_at(&mut s, 1, "/create \"well said\"", "x", 43),
        vec!["200 REPLY_CREATED|h7|a1|43|well said", "EVENT THREAD_REPLY_RECEIVED|t9|h7|a1|well said"]
    );
    assert_eq!(run_at(&mut s, 1, "/use t9 c8 nope", "x", 0), vec!["404 Not Found: Unknown Thread"]);
    assert_eq!(run_at(&mut s, 2, "/subscribe t9", "x", 0), vec!["200 SUBSCRIBED|b2|t9"]);
    assert_eq!(
        run_at(&mut s, 2, "/subscribed t9", "x", 0),
        vec!["200 SUBSCRIBED_USERS|a1:alice:1|b2:bob:1"]
    );
    let log = s.take_log();
    assert!(matches!(&log[0], LogCall::ServerEventUserCreated { user_uuid, user_name } if user_uuid == b"a1\0" && user_name == b"alice\0"));
    assert!(log.iter().any(|c| matches!(c, LogCall::ServerEventThreadCreated { channel_uuid, thread_uuid, .. } if channel_uuid == b"c8\0" && thread_uuid == b"h7\0")));
    assert!(log.iter().any(|c| matches!(c, LogCall::ServerEventReplyCreated { thread_uuid, reply_body, .. } if thread_uuid == b"h7\0" && reply_body == b"well said\0")));
    assert!(log.iter().any(|c| matches!(c, LogCall::ServerEventTeamCreated { team_uuid, team_name, user_uuid } if team_uuid == b"t9\0" && team_name == b"T\0" && user_uuid == b"a1\0")));
}
