use lib::command::{Command, Context};
use lib::protocol::encode_command;

fn ctx(team: Option<&str>, channel: Option<&str>, thread: Option<&str>) -> Context {
    let mut c = Context::new();
    c.set(team.map(|s| s.to_string()), channel.map(|s| s.to_string()), thread.map(|s| s.to_string()));
    c
}

#[test]
fn encode_simple_commands() {
    let c = Context::new();
    assert_eq!(encode_command(&Command::Help, &c), "HELP\n");
    assert_eq!(encode_command(&Command::Logout, &c), "LOGOUT\n");
    assert_eq!(encode_command(&Command::Users, &c), "USERS\n");
    assert_eq!(encode_command(&Command::Login { user_name: "bob".into() }, &c), "LOGIN|bob\n");
    assert_eq!(encode_command(&Command::User { user_uuid: "u".into() }, &c), "USER|u\n");
    assert_eq!(
        encode_command(&Command::Send { user_uuid: "u".into(), body: "hi".into() }, &c),
        "SEND|u|hi\n"
    );
    assert_eq!(encode_command(&Command::Messages { user_uuid: "u".into() }, &c), "MESSAGES|u\n");
    assert_eq!(encode_command(&Command::Subscribe { team_uuid: "t".into() }, &c), "SUBSCRIBE|t\n");
    assert_eq!(encode_command(&Command::Unsubscribe { team_uuid: "t".into() }, &c), "UNSUBSCRIBE|t\n");
}

#[test]
fn encode_subscribed_with_and_without_team() {
    let c = Context::new();
    assert_eq!(encode_command(&Command::Subscribed { team_uuid: None }, &c), "SUBSCRIBED\n");
    assert_eq!(
        encode_command(&Command::Subscribed { team_uuid: Some("t".into()) }, &c),
        "SUBSCRIBED|t\n"
    );
}

#[test]
fn encode_use_writes_missing_identifiers_as_empty() {
    let c = Context::new();
    let cmd = Command::Use { team_uuid: Some("a".into()), channel_uuid: None, thread_uuid: None };
    assert_eq!(encode_command(&cmd, &c), "USE|a||\n");
    let all = Command::Use {
        team_uuid: Some("a".into()),
        channel_uuid: Some("b".into()),
        thread_uuid: Some("c".into()),
    };
    assert_eq!(encode_command(&all, &c), "USE|a|b|c\n");
}

#[test]
fn encode_create_depends_on_context() {
    let two = Command::Create { args: vec!["n".into(), "d".into()] };
    assert_eq!(encode_command(&two, &ctx(None, None, None)), "CREATE_TEAM|n|d\n");
    assert_eq!(encode_command(&two, &ctx(Some("t"), None, None)), "CREATE_CHANNEL|t|n|d\n");
    assert_eq!(
        encode_command(&two, &ctx(Some("t"), Some("c"), None)),
        "CREATE_THREAD|t|c|n|d\n"
    );
    let one = Command::Create { args: vec!["r".into()] };
    assert_eq!(
        encode_command(&one, &ctx(Some("t"), Some("c"), Some("h"))),
        "CREATE_REPLY|t|c|h|r\n"
    );
    assert_eq!(encode_command(&one, &ctx(None, Some("c"), None)), "ERROR|INVALID_CONTEXT\n");
}

#[test]
fn encode_list_and_info_depend_on_context() {
    assert_eq!(encode_command(&Command::List, &ctx(None, None, None)), "LIST_TEAMS\n");
    assert_eq!(encode_command(&Command::List, &ctx(Some("t"), None, None)), "LIST_CHANNELS|t\n");
    assert_eq!(
        encode_command(&Command::List, &ctx(Some("t"), Some("c"), None)),
        "LIST_THREADS|t|c\n"
    );
    assert_eq!(
        encode_command(&Command::List, &ctx(Some("t"), Some("c"), Some("h"))),
        "LIST_REPLIES|t|c|h\n"
    );
    assert_eq!(encode_command(&Command::Info, &ctx(None, None, None)), "INFO_USER\n");
    assert_eq!(encode_command(&Command::Info, &ctx(Some("t"), None, None)), "INFO_TEAM|t\n");
    assert_eq!(
        encode_command(&Command::Info, &ctx(Some("t"), Some("c"), None)),
        "INFO_CHANNEL|t|c\n"
    );
    assert_eq!(
        encode_command(&Command::Info, &ctx(Some("t"), Some("c"), Some("h"))),
        "INFO_THREAD|t|c|h\n"
    );
    assert_eq!(encode_command(&Command::Info, &ctx(None, None, Some("h"))), "ERROR|INVALID_CONTEXT\n");
    assert_eq!(encode_command(&Command::List, &ctx(None, Some("c"), Some("h"))), "ERROR|INVALID_CONTEXT\n");
}
