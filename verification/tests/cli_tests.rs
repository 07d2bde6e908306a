use lib::cli::{handle_server_message, ClientAction, ClientState};
use lib::ffi::LogCall;

fn only_call(actions: Vec<ClientAction>) -> LogCall<Vec<u8>> {
    assert_eq!(actions.len(), 1);
    match actions.into_iter().next().unwrap() {
        ClientAction::Call(c) => c,
        ClientAction::Print(p) => panic!("printed {p}"),
    }
}

#[test]
fn login_and_logout_update_the_state() {
    let mut st = ClientState::new();
    let c = only_call(handle_server_message("200 Login OK|u1|bob", &mut st));
    assert!(matches!(c, LogCall::ClientEventLoggedIn { user_uuid, user_name } if user_uuid == b"u1\0" && user_name == b"bob\0"));
    assert_eq!((st.uuid.as_str(), st.name.as_str()), ("u1", "bob"));
    let c = only_call(handle_server_message("200 Logout OK", &mut st));
    assert!(matches!(c, LogCall::ClientEventLoggedOut { user_uuid, user_name } if user_uuid == b"u1\0" && user_name == b"bob\0"));
    assert_eq!((st.uuid.as_str(), st.name.as_str()), ("", ""));
}

#[test]
fn private_message_event() {
    let mut st = ClientState::new();
    let c = only_call(handle_server_message("EVENT PM_RECEIVED|u2|hello", &mut st));
    assert!(matches!(c, LogCall::ClientEventPrivateMessageReceived { user_uuid, message_body } if user_uuid == b"u2\0" && message_body == b"hello\0"));
}

#[test]
fn users_listing_makes_one_call_per_entry() {
    let mut st = ClientState::new();
    let actions = handle_server_message("200 USERS|a:alice:1|bad|b:bob:x", &mut st);
    assert_eq!(actions.len(), 2);
    assert!(matches!(&actions[0], ClientAction::Call(LogCall::ClientPrintUsers { user_uuid, user_status: 1, .. }) if user_uuid == b"a\0"));
    assert!(matches!(&actions[1], ClientAction::Call(LogCall::ClientPrintUsers { user_name, user_status: 0, .. }) if user_name == b"bob\0"));
    assert_eq!(handle_server_message("200 USERS", &mut st).len(), 0);
}

#[test]
fn single_user_and_reply() {
    let mut st = ClientState::new();
    let c = only_call(handle_server_message("200 USER|a|alice|0", &mut st));
    assert!(matches!(c, LogCall::ClientPrintUser { user_status: 0, .. }));
    let c = only_call(handle_server_message("200 REPLY_CREATED|h|u|123|text", &mut st));
    assert!(matches!(c, LogCall::ClientPrintReplyCreated { reply_timestamp: 123, reply_body, .. } if reply_body == b"text\0"));
}

#[test]
fn error_codes() {
    let mut st = ClientState::new();
    assert!(matches!(only_call(handle_server_message("401 Unauthorized", &mut st)), LogCall::ClientErrorUnauthorized));
    assert!(matches!(only_call(handle_server_message("409 Conflict: Team already exists", &mut st)), LogCall::ClientErrorAlreadyExist));
    assert!(matches!(only_call(handle_server_message("404 Not Found: User not found", &mut st)), LogCall::ClientErrorUnknownUser { user_uuid } if user_uuid == b"unknown\0"));
    assert!(matches!(only_call(handle_server_message("404 Not Found: Unknown Team", &mut st)), LogCall::ClientErrorUnknownTeam { team_uuid } if team_uuid == b"unknwon\0"));
    assert_eq!(handle_server_message("404 Not Found: Unknown Channel", &mut st).len(), 0);
}

#[test]
fn other_lines_are_printed() {
    let mut st = ClientState::new();
    let actions = handle_server_message("200 Message Sent", &mut st);
    assert_eq!(actions.len(), 1);
    assert!(matches!(&actions[0], ClientAction::Print(p) if p == "200 Message Sent"));
    let actions = handle_server_message("200 Login OK|only-two", &mut st);
    assert!(matches!(&actions[0], ClientAction::Print(_)));
    assert_eq!(st.uuid, "");
}
