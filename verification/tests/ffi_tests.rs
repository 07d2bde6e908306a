use lib::ffi::{
    c_string, call_client_error_unknown_team, call_client_print_thread_created, call_team_created,
    call_user_logged_in, client_error_unknown_channel, client_print_teams, LogCall,
};

#[test]
fn c_strings_end_with_one_nul() {
    assert_eq!(c_string("abc"), b"abc\0".to_vec());
    assert_eq!(c_string(""), b"\0".to_vec());
    assert_eq!(c_string("é"), vec![0xc3, 0xa9, 0]);
    assert_eq!(c_string("a\0b"), b"\0".to_vec());
}

#[test]
fn calls_hold_their_arguments_as_c_strings() {
    let c = call_team_created("t", "name", "u");
    assert!(matches!(c, LogCall::ServerEventTeamCreated { team_uuid, team_name, user_uuid }
        if team_uuid == b"t\0" && team_name == b"name\0" && user_uuid == b"u\0"));
    let c = call_user_logged_in("u9");
    assert!(matches!(c, LogCall::ServerEventUserLoggedIn { user_uuid } if user_uuid == b"u9\0"));
    let c = call_client_print_thread_created("h", "u", 7, "ti", "bo");
    assert!(matches!(c, LogCall::ClientPrintThreadCreated { thread_timestamp: 7, thread_title, .. } if thread_title == b"ti\0"));
    let c = call_client_error_unknown_team("x");
    assert!(matches!(c, LogCall::ClientErrorUnknownTeam { team_uuid } if team_uuid == b"x\0"));
}

#[test]
fn calls_built_from_c_strings_keep_them() {
    let c = client_print_teams(b"t\0".to_vec(), b"n\0".to_vec(), b"d\0".to_vec());
    assert!(matches!(c, LogCall::ClientPrintTeams { team_uuid, team_name, team_description }
        if team_uuid == b"t\0" && team_name == b"n\0" && team_description == b"d\0"));
    let c = client_error_unknown_channel(b"c\0".to_vec());
    assert!(matches!(c, LogCall::ClientErrorUnknownChannel { channel_uuid } if channel_uuid == b"c\0"));
}
