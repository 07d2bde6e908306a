use lib::command::{Command, Context};
use lib::ffi::LogCall;
use lib::models::Database;
use lib::parser::{parse_command, tokenize_input};
use lib::protocol::is_encodable;
use lib::server::Server;
use lib::text::u128_to_hex;

fn lines(s: &mut Server, id: u64) -> Vec<String> {
    let out = s.pending_output(id);
    s.consume_output(id, out.len());
    String::from_utf8(out).unwrap().lines().map(|l| l.to_string()).collect()
}

fn run_at(s: &mut Server, id: u64, line: &str, fresh: &str) -> Vec<String> {
    s.handle_command_stamped(id, line, fresh, 7);
    lines(s, id)
}

#[test]
fn padding_and_spacing_do_not_change_the_command() {
    for line in ["/login bob", "/send a b", "/use", "/dance x", "/subscribed t"] {
        assert_eq!(parse_command(&format!(" \t{line}\n ")), parse_command(line));
    }
    assert_eq!(parse_command("/send   a\t  b"), parse_command("/send a b"));
    assert_eq!(parse_command("  /use  x   y "), parse_command("/use x y"));
}

#[test]
fn quote_free_lines_split_like_split_whitespace() {
    for line in ["", "  ", "a b  c", "\t/create  x\u{3000}y ", "one"] {
        let expected: Vec<String> = line.split_whitespace().map(|w| w.to_string()).collect();
        assert_eq!(tokenize_input(line).unwrap(), expected, "{line:?}");
    }
}

#[test]
fn identifiers_follow_the_clock() {
    let readings = [0u128, 9, 15, 16, 255, 256, 1_700_000_000_123_456_789, u128::MAX];
    for w in readings.windows(2) {
        let (a, b) = (u128_to_hex(w[0]), u128_to_hex(w[1]));
        assert_ne!(a, b);
        assert_eq!(u128::from_str_radix(&a, 16).unwrap(), w[0]);
        assert!(u128::from_str_radix(&a, 16).unwrap() < u128::from_str_radix(&b, 16).unwrap());
    }
}

#[test]
fn create_needs_enough_arguments_for_its_context() {
    let mut ctx = Context::new();
    let one = Command::Create { args: vec!["x".into()] };
    let two = Command::Create { args: vec!["x".into(), "y".into()] };
    assert!(!is_encodable(&one, &ctx));
    assert!(is_encodable(&two, &ctx));
    ctx.set(Some("t".into()), Some("c".into()), Some("h".into()));
    assert!(is_encodable(&one, &ctx));
    ctx.set(None, Some("c".into()), None);
    assert!(is_encodable(&Command::Create { args: vec![] }, &ctx));
    assert!(is_encodable(&Command::List, &Context::new()));
}

#[test]
fn logging_in_under_a_known_name_from_another_connection_reuses_the_user() {
    let mut s = Server::new(Database::new());
    s.add_client(1);
    s.add_client(2);
    assert_eq!(run_at(&mut s, 1, "/login ann", "a1"), vec!["200 Login OK|a1|ann"]);
    s.take_log();
    assert_eq!(run_at(&mut s, 2, "/login ann", "zz"), vec!["200 Login OK|a1|ann"]);
    assert_eq!(s.get_client_uuid(2), Some("a1".to_string()));
    assert_eq!(s.database().users.len(), 1);
    assert!(s.database().users[0].is_connected);
    let log = s.take_log();
    assert_eq!(log.len(), 1);
    assert!(matches!(&log[0], LogCall::ServerEventUserLoggedIn { user_uuid } if user_uuid == b"a1\0"));
}

#[test]
fn messages_show_only_the_pair() {
    let mut s = Server::new(Database::new());
    for id in 1..=3 {
        s.add_client(id);
    }
    run_at(&mut s, 1, "/login a", "ua");
    run_at(&mut s, 2, "/login b", "ub");
    run_at(&mut s, 3, "/login c", "uc");
    run_at(&mut s, 1, "/send ub one", "x");
    run_at(&mut s, 3, "/send ub other", "x");
    run_at(&mut s, 2, "/send ua two", "x");
    lines(&mut s, 2);
    lines(&mut s, 1);
    assert_eq!(run_at(&mut s, 1, "/messages ub", "x"), vec!["200 MESSAGES|ua:7:one|ub:7:two"]);
}

#[test]
fn subscribing_twice_and_unsubscribing() {
    let mut s = Server::new(Database::new());
    s.add_client(1);
    s.add_client(2);
    run_at(&mut s, 1, "/login a", "ua");
    run_at(&mut s, 2, "/login b", "ub");
    run_at(&mut s, 1, "/create team d", "t1");
    s.take_log();
    assert_eq!(run_at(&mut s, 2, "/subscribe t1", "x"), vec!["200 SUBSCRIBED|ub|t1"]);
    assert_eq!(run_at(&mut s, 2, "/subscribe t1", "x"), vec!["200 SUBSCRIBED|ub|t1"]);
    assert_eq!(s.database().teams[0].subscribers, vec!["ua", "ub"]);
    let log = s.take_log();
    assert_eq!(log.len(), 2);
    assert!(log.iter().all(|c| matches!(c, LogCall::ServerEventUserSubscribed { team_uuid, user_uuid } if team_uuid == b"t1\0" && user_uuid == b"ub\0")));
    run_at(&mut s, 2, "/use t1", "x");
    assert_eq!(run_at(&mut s, 2, "/unsubscribe t1", "x"), vec!["200 UNSUBSCRIBED|ub|t1"]);
    assert_eq!(s.database().teams[0].subscribers, vec!["ua"]);
    let log = s.take_log();
    assert!(matches!(&log[0], LogCall::ServerEventUserUnsubscribed { user_uuid, .. } if user_uuid == b"ub\0"));
    assert_eq!(run_at(&mut s, 2, "/info", "x"), vec!["200 INFO_USER|ub|b|1"]);
    assert_eq!(run_at(&mut s, 2, "/subscribe nope", "x"), vec!["404 Not Found: Team not found"]);
    assert_eq!(s.take_log().len(), 0);
}
