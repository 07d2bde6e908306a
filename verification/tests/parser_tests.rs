use lib::command::Command;
use lib::parser::{parse_command, tokenize_input};

fn strings(v: &[&str]) -> Vec<String> {
    v.iter().map(|s| s.to_string()).collect()
}

#[test]
fn tokenize_splits_on_whitespace_and_keeps_quoted_text() {
    let t = tokenize_input("  /send  \"abc\" \"hello world\"  ").unwrap();
    assert_eq!(t, strings(&["/send", "abc", "hello world"]));
}

#[test]
fn tokenize_empty_and_blank_input_give_no_tokens() {
    assert_eq!(tokenize_input("").unwrap(), Vec::<String>::new());
    assert_eq!(tokenize_input("   \t  ").unwrap(), Vec::<String>::new());
}

#[test]
fn tokenize_keeps_empty_quoted_token() {
    assert_eq!(tokenize_input("/login \"\"").unwrap(), strings(&["/login", ""]));
}

#[test]
fn tokenize_quote_inside_a_word_is_kept() {
    assert_eq!(tokenize_input("ab\"c d\"").unwrap(), strings(&["ab\"c", "d\""]));
}

#[test]
fn tokenize_missing_closing_quote_is_an_error() {
    assert_eq!(tokenize_input("/login \"bob").unwrap_err(), "Missing closing quote");
}

#[test]
fn parse_help_logout_users_list_info() {
    assert_eq!(parse_command("/help").unwrap(), Command::Help);
    assert_eq!(parse_command("/logout").unwrap(), Command::Logout);
    assert_eq!(parse_command("/users").unwrap(), Command::Users);
    assert_eq!(parse_command("/list").unwrap(), Command::List);
    assert_eq!(parse_command("/info").unwrap(), Command::Info);
}

#[test]
fn parse_commands_without_arguments_reject_extra_ones() {
    assert_eq!(parse_command("/help x").unwrap_err(), "/help takes no arguments");
    assert_eq!(parse_command("/logout x").unwrap_err(), "/logout takes no arguments");
    assert_eq!(parse_command("/users x").unwrap_err(), "/users takes no arguments");
    assert_eq!(parse_command("/list x").unwrap_err(), "/list takes no arguments");
    assert_eq!(parse_command("/info x").unwrap_err(), "/info takes no arguments");
}

#[test]
fn parse_login() {
    assert_eq!(
        parse_command("/login \"bob\"").unwrap(),
        Command::Login { user_name: "bob".to_string() }
    );
    assert_eq!(parse_command("/login").unwrap_err(), "/login requires \"user_name\"");
}

#[test]
fn parse_user_send_messages() {
    assert_eq!(
        parse_command("/user \"u1\"").unwrap(),
        Command::User { user_uuid: "u1".to_string() }
    );
    assert_eq!(parse_command("/user").unwrap_err(), "/user requires \"user_uuid\"");
    assert_eq!(
        parse_command("/send \"u1\" \"hi there\"").unwrap(),
        Command::Send { user_uuid: "u1".to_string(), body: "hi there".to_string() }
    );
    assert_eq!(
        parse_command("/send \"u1\"").unwrap_err(),
        "/send requires \"user_uuid\" \"message_body\""
    );
    assert_eq!(
        parse_command("/messages \"u1\"").unwrap(),
        Command::Messages { user_uuid: "u1".to_string() }
    );
    assert_eq!(parse_command("/messages").unwrap_err(), "/messages requires \"user_uuid\"");
}

#[test]
fn parse_subscriptions() {
    assert_eq!(
        parse_command("/subscribe \"t\"").unwrap(),
        Command::Subscribe { team_uuid: "t".to_string() }
    );
    assert_eq!(parse_command("/subscribe").unwrap_err(), "/subscribe requires \"team_uuid\"");
    assert_eq!(parse_command("/subscribed").unwrap(), Command::Subscribed { team_uuid: None });
    assert_eq!(
        parse_command("/subscribed \"t\"").unwrap(),
        Command::Subscribed { team_uuid: Some("t".to_string()) }
    );
    assert_eq!(
        parse_command("/subscribed a b").unwrap_err(),
        "/subscribed accepts zero or one \"team_uuid\""
    );
    assert_eq!(
        parse_command("/unsubscribe \"t\"").unwrap(),
        Command::Unsubscribe { team_uuid: "t".to_string() }
    );
    assert_eq!(parse_command("/unsubscribe").unwrap_err(), "/unsubscribe requires \"team_uuid\"");
}

#[test]
fn parse_use_with_zero_to_three_identifiers() {
    assert_eq!(
        parse_command("/use").unwrap(),
        Command::Use { team_uuid: None, channel_uuid: None, thread_uuid: None }
    );
    assert_eq!(
        parse_command("/use \"a\" \"b\"").unwrap(),
        Command::Use {
            team_uuid: Some("a".to_string()),
            channel_uuid: Some("b".to_string()),
            thread_uuid: None
        }
    );
    assert_eq!(
        parse_command("/use a b c").unwrap(),
        Command::Use {
            team_uuid: Some("a".to_string()),
            channel_uuid: Some("b".to_string()),
            thread_uuid: Some("c".to_string())
        }
    );
    assert_eq!(
        parse_command("/use a b c d").unwrap_err(),
        "/use accepts up to \"team_uuid\" \"channel_uuid\" \"thread_uuid\""
    );
}

#[test]
fn parse_create_takes_any_arguments() {
    assert_eq!(parse_command("/create").unwrap(), Command::Create { args: vec![] });
    assert_eq!(
        parse_command("/create \"n\" \"d\" x").unwrap(),
        Command::Create { args: strings(&["n", "d", "x"]) }
    );
}

#[test]
fn parse_errors_empty_unknown_and_quote() {
    assert_eq!(parse_command("   ").unwrap_err(), "Empty command");
    assert_eq!(parse_command("/dance").unwrap_err(), "Unknown command");
    assert_eq!(parse_command("/login \"bob").unwrap_err(), "Missing closing quote");
}
