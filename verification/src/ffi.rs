//! Calls into the logging library that reports what the client and the server
//! do. The library's functions take NUL-terminated strings; a [`LogCall`]
//! records one call with its arguments already converted, and the program
//! around the library performs it.
use vstd::prelude::*;

verus! {

broadcast use {vstd::string::group_string_axioms, vstd::slice::group_slice_axioms};

/// The bytes of the C string made from `b`: `b` followed by a NUL byte, or
/// the empty C string when `b` holds a NUL byte (as `CString::new(b)
/// .unwrap_or_default()` gives).
pub open spec fn c_bytes(b: Seq<u8>) -> Seq<u8> {
    if b.contains(0u8) {
        seq![0u8]
    } else {
        b.push(0u8)
    }
}

/// The C string made from the UTF-8 encoding of `s`.
pub open spec fn cstr(s: Seq<char>) -> Seq<u8> {
    c_bytes(vstd::utf8::encode_utf8(s))
}

/// Whether `b` is a well-formed C string: one NUL byte, at the end.
pub open spec fn is_c_string(b: Seq<u8>) -> bool {
    b.len() > 0 && b.last() == 0u8 && !b.drop_last().contains(0u8)
}

/// The NUL-terminated bytes of `s`, or a lone NUL byte when `s` holds one.
pub fn c_string(s: &str) -> (r: Vec<u8>)
    ensures
        r@ == cstr(s@),
        is_c_string(r@),
{
    let b = s.as_bytes();
    let mut r: Vec<u8> = Vec::new();
    let mut i: usize = 0;
    while i < b.len()
        invariant
            i <= b@.len(),
            b@ == vstd::utf8::encode_utf8(s@),
            r@ == b@.take(i as int),
            forall|j: int| 0 <= j < i ==> b@[j] != 0u8,
        decreases b@.len() - i,
    {
        if b[i] == 0 {
            assert(b@.contains(0u8)) by {
                assert(b@[i as int] == 0u8);
            };
            let mut z: Vec<u8> = Vec::new();
            z.push(0u8);
            assert(z@ =~= seq![0u8]);
            assert(seq![0u8].drop_last() =~= Seq::<u8>::empty());
            return z;
        }
        r.push(b[i]);
        assert(r@ =~= b@.take(i + 1));
        i += 1;
    }
    assert(b@.take(i as int) =~= b@);
    assert(!b@.contains(0u8));
    r.push(0u8);
    assert(r@.drop_last() =~= b@);
    r
}

/// One call into the logging library, with its string arguments as C strings
/// (`B` is `Vec<u8>` for a call to make and `Seq<u8>` in contracts).
#[derive(Debug)]
pub enum LogCall<B> {
    ServerEventTeamCreated { team_uuid: B, team_name: B, user_uuid: B },
    ServerEventUserLoaded { user_uuid: B, user_name: B },
    ServerEventUserCreated { user_uuid: B, user_name: B },
    ServerEventUserLoggedIn { user_uuid: B },
    ServerEventUserLoggedOut { user_uuid: B },
    ServerEventPrivateMessageSended { sender_uuid: B, receiver_uuid: B, message_body: B },
    ServerEventUserSubscribed { team_uuid: B, user_uuid: B },
    ServerEventUserUnsubscribed { team_uuid: B, user_uuid: B },
    ServerEventChannelCreated { team_uuid: B, channel_uuid: B, channel_name: B },
    ServerEventThreadCreated { channel_uuid: B, thread_uuid: B, user_uuid: B, thread_title: B, thread_body: B },
    ServerEventReplyCreated { thread_uuid: B, user_uuid: B, reply_body: B },
    ClientEventLoggedIn { user_uuid: B, user_name: B },
    ClientEventLoggedOut { user_uuid: B, user_name: B },
    ClientEventPrivateMessageReceived { user_uuid: B, message_body: B },
    ClientEventThreadReplyReceived { team_uuid: B, thread_uuid: B, user_uuid: B, reply_body: B },
    ClientEventTeamCreated { team_uuid: B, team_name: B, team_description: B },
    ClientEventChannelCreated { channel_uuid: B, channel_name: B, channel_description: B },
    ClientEventThreadCreated { thread_uuid: B, user_uuid: B, thread_timestamp: u64, thread_title: B, thread_body: B },
    ClientPrintUsers { user_uuid: B, user_name: B, user_status: i32 },
    ClientPrintUser { user_uuid: B, user_name: B, user_status: i32 },
    ClientPrintTeams { team_uuid: B, team_name: B, team_description: B },
    ClientTeamPrintChannels { channel_uuid: B, channel_name: B, channel_description: B },
    ClientChannelPrintThreads { thread_uuid: B, user_uuid: B, thread_timestamp: u64, thread_title: B, thread_body: B },
    ClientThreadPrintReplies { thread_uuid: B, user_uuid: B, reply_timestamp: u64, reply_body: B },
    ClientPrivateMessagePrintMessages { sender_uuid: B, timestamp: u64, message_body: B },
    ClientPrintTeam { team_uuid: B, team_name: B, team_description: B },
    ClientPrintChannel { channel_uuid: B, channel_name: B, channel_description: B },
    ClientPrintThread { thread_uuid: B, user_uuid: B, thread_timestamp: u64, thread_title: B, thread_body: B },
    ClientPrintTeamCreated { team_uuid: B, team_name: B, team_description: B },
    ClientPrintChannelCreated { channel_uuid: B, channel_name: B, channel_description: B },
    ClientPrintThreadCreated { thread_uuid: B, user_uuid: B, thread_timestamp: u64, thread_title: B, thread_body: B },
    ClientPrintReplyCreated { thread_uuid: B, user_uuid: B, reply_timestamp: u64, reply_body: B },
    ClientPrintSubscribed { user_uuid: B, team_uuid: B },
    ClientPrintUnsubscribed { user_uuid: B, team_uuid: B },
    ClientErrorUnauthorized,
    ClientErrorAlreadyExist,
    ClientErrorUnknownUser { user_uuid: B },
    ClientErrorUnknownTeam { team_uuid: B },
    ClientErrorUnknownChannel { channel_uuid: B },
    ClientErrorUnknownThread { thread_uuid: B },
}

impl View for LogCall<Vec<u8>> {
    type V = LogCall<Seq<u8>>;

    open spec fn view(&self) -> LogCall<Seq<u8>> {
        match self {
            LogCall::ServerEventTeamCreated { team_uuid, team_name, user_uuid } => LogCall::ServerEventTeamCreated { team_uuid: team_uuid@, team_name: team_name@, user_uuid: user_uuid@ },
            LogCall::ServerEventUserLoaded { user_uuid, user_name } => LogCall::ServerEventUserLoaded { user_uuid: user_uuid@, user_name: user_name@ },
            LogCall::ServerEventUserCreated { user_uuid, user_name } => LogCall::ServerEventUserCreated { user_uuid: user_uuid@, user_name: user_name@ },
            LogCall::ServerEventUserLoggedIn { user_uuid } => LogCall::ServerEventUserLoggedIn { user_uuid: user_uuid@ },
            LogCall::ServerEventUserLoggedOut { user_uuid } => LogCall::ServerEventUserLoggedOut { user_uuid: user_uuid@ },
            LogCall::ServerEventPrivateMessageSended { sender_uuid, receiver_uuid, message_body } => LogCall::ServerEventPrivateMessageSended { sender_uuid: sender_uuid@, receiver_uuid: receiver_uuid@, message_body: message_body@ },
            LogCall::ServerEventUserSubscribed { team_uuid, user_uuid } => LogCall::ServerEventUserSubscribed { team_uuid: team_uuid@, user_uuid: user_uuid@ },
            LogCall::ServerEventUserUnsubscribed { team_uuid, user_uuid } => LogCall::ServerEventUserUnsubscribed { team_uuid: team_uuid@, user_uuid: user_uuid@ },
            LogCall::ServerEventChannelCreated { team_uuid, channel_uuid, channel_name } => LogCall::ServerEventChannelCreated { team_uuid: team_uuid@, channel_uuid: channel_uuid@, channel_name: channel_name@ },
            LogCall::ServerEventThreadCreated { channel_uuid, thread_uuid, user_uuid, thread_title, thread_body } => LogCall::ServerEventThreadCreated { channel_uuid: channel_uuid@, thread_uuid: thread_uuid@, user_uuid: user_uuid@, thread_title: thread_title@, thread_body: thread_body@ },
            LogCall::ServerEventReplyCreated { thread_uuid, user_uuid, reply_body } => LogCall::ServerEventReplyCreated { thread_uuid: thread_uuid@, user_uuid: user_uuid@, reply_body: reply_body@ },
            LogCall::ClientEventLoggedIn { user_uuid, user_name } => LogCall::ClientEventLoggedIn { user_uuid: user_uuid@, user_name: user_name@ },
            LogCall::ClientEventLoggedOut { user_uuid, user_name } => LogCall::ClientEventLoggedOut { user_uuid: user_uuid@, user_name: user_name@ },
            LogCall::ClientEventPrivateMessageReceived { user_uuid, message_body } => LogCall::ClientEventPrivateMessageReceived { user_uuid: user_uuid@, message_body: message_body@ },
            LogCall::ClientEventThreadReplyReceived { team_uuid, thread_uuid, user_uuid, reply_body } => LogCall::ClientEventThreadReplyReceived { team_uuid: team_uuid@, thread_uuid: thread_uuid@, user_uuid: user_uuid@, reply_body: reply_body@ },
            LogCall::ClientEventTeamCreated { team_uuid, team_name, team_description } => LogCall::ClientEventTeamCreated { team_uuid: team_uuid@, team_name: team_name@, team_description: team_description@ },
            LogCall::ClientEventChannelCreated { channel_uuid, channel_name, channel_description } => LogCall::ClientEventChannelCreated { channel_uuid: channel_uuid@, channel_name: channel_name@, channel_description: channel_description@ },
            LogCall::ClientEventThreadCreated { thread_uuid, user_uuid, thread_timestamp, thread_title, thread_body } => LogCall::ClientEventThreadCreated { thread_uuid: thread_uuid@, user_uuid: user_uuid@, thread_timestamp: *thread_timestamp, thread_title: thread_title@, thread_body: thread_body@ },
            LogCall::ClientPrintUsers { user_uuid, user_name, user_status } => LogCall::ClientPrintUsers { user_uuid: user_uuid@, user_name: user_name@, user_status: *user_status },
            LogCall::ClientPrintUser { user_uuid, user_name, user_status } => LogCall::ClientPrintUser { user_uuid: user_uuid@, user_name: user_name@, user_status: *user_status },
            LogCall::ClientPrintTeams { team_uuid, team_name, team_description } => LogCall::ClientPrintTeams { team_uuid: team_uuid@, team_name: team_name@, team_description: team_description@ },
            LogCall::ClientTeamPrintChannels { channel_uuid, channel_name, channel_description } => LogCall::ClientTeamPrintChannels { channel_uuid: channel_uuid@, channel_name: channel_name@, channel_description: channel_description@ },
            LogCall::ClientChannelPrintThreads { thread_uuid, user_uuid, thread_timestamp, thread_title, thread_body } => LogCall::ClientChannelPrintThreads { thread_uuid: thread_uuid@, user_uuid: user_uuid@, thread_timestamp: *thread_timestamp, thread_title: thread_title@, thread_body: thread_body@ },
            LogCall::ClientThreadPrintReplies { thread_uuid, user_uuid, reply_timestamp, reply_body } => LogCall::ClientThreadPrintReplies { thread_uuid: thread_uuid@, user_uuid: user_uuid@, reply_timestamp: *reply_timestamp, reply_body: reply_body@ },
            LogCall::ClientPrivateMessagePrintMessages { sender_uuid, timestamp, message_body } => LogCall::ClientPrivateMessagePrintMessages { sender_uuid: sender_uuid@, timestamp: *timestamp, message_body: message_body@ },
            LogCall::ClientPrintTeam { team_uuid, team_name, team_description } => LogCall::ClientPrintTeam { team_uuid: team_uuid@, team_name: team_name@, team_description: team_description@ },
            LogCall::ClientPrintChannel { channel_uuid, channel_name, channel_description } => LogCall::ClientPrintChannel { channel_uuid: channel_uuid@, channel_name: channel_name@, channel_description: channel_description@ },
            LogCall::ClientPrintThread { thread_uuid, user_uuid, thread_timestamp, thread_title, thread_body } => LogCall::ClientPrintThread { thread_uuid: thread_uuid@, user_uuid: user_uuid@, thread_timestamp: *thread_timestamp, thread_title: thread_title@, thread_body: thread_body@ },
            LogCall::ClientPrintTeamCreated { team_uuid, team_name, team_description } => LogCall::ClientPrintTeamCreated { team_uuid: team_uuid@, team_name: team_name@, team_description: team_description@ },
            LogCall::ClientPrintChannelCreated { channel_uuid, channel_name, channel_description } => LogCall::ClientPrintChannelCreated { channel_uuid: channel_uuid@, channel_name: channel_name@, channel_description: channel_description@ },
            LogCall::ClientPrintThreadCreated { thread_uuid, user_uuid, thread_timestamp, thread_title, thread_body } => LogCall::ClientPrintThreadCreated { thread_uuid: thread_uuid@, user_uuid: user_uuid@, thread_timestamp: *thread_timestamp, thread_title: thread_title@, thread_body: thread_body@ },
            LogCall::ClientPrintReplyCreated { thread_uuid, user_uuid, reply_timestamp, reply_body } => LogCall::ClientPrintReplyCreated { thread_uuid: thread_uuid@, user_uuid: user_uuid@, reply_timestamp: *reply_timestamp, reply_body: reply_body@ },
            LogCall::ClientPrintSubscribed { user_uuid, team_uuid } => LogCall::ClientPrintSubscribed { user_uuid: user_uuid@, team_uuid: team_uuid@ },
            LogCall::ClientPrintUnsubscribed { user_uuid, team_uuid } => LogCall::ClientPrintUnsubscribed { user_uuid: user_uuid@, team_uuid: team_uuid@ },
            LogCall::ClientErrorUnauthorized => LogCall::ClientErrorUnauthorized,
            LogCall::ClientErrorAlreadyExist => LogCall::ClientErrorAlreadyExist,
            LogCall::ClientErrorUnknownUser { user_uuid } => LogCall::ClientErrorUnknownUser { user_uuid: user_uuid@ },
            LogCall::ClientErrorUnknownTeam { team_uuid } => LogCall::ClientErrorUnknownTeam { team_uuid: team_uuid@ },
            LogCall::ClientErrorUnknownChannel { channel_uuid } => LogCall::ClientErrorUnknownChannel { channel_uuid: channel_uuid@ },
            LogCall::ClientErrorUnknownThread { thread_uuid } => LogCall::ClientErrorUnknownThread { thread_uuid: thread_uuid@ },
        }
    }
}

/// The call `client_event_thread_reply_received(team_uuid, thread_uuid, user_uuid, reply_body)` of the logging library.
pub fn client_event_thread_reply_received(team_uuid: Vec<u8>, thread_uuid: Vec<u8>, user_uuid: Vec<u8>, reply_body: Vec<u8>) -> (r: LogCall<Vec<u8>>)
    requires
        is_c_string(team_uuid@),
        is_c_string(thread_uuid@),
        is_c_string(user_uuid@),
        is_c_string(reply_body@),
    ensures
        r@ == (LogCall::ClientEventThreadReplyReceived { team_uuid: team_uuid@, thread_uuid: thread_uuid@, user_uuid: user_uuid@, reply_body: reply_body@ }),
{
    LogCall::ClientEventThreadReplyReceived { team_uuid, thread_uuid, user_uuid, reply_body }
}

/// The call `client_event_team_created(team_uuid, team_name, team_description)` of the logging library.
pub fn client_event_team_created(team_uuid: Vec<u8>, team_name: Vec<u8>, team_description: Vec<u8>) -> (r: LogCall<Vec<u8>>)
    requires
        is_c_string(team_uuid@),
        is_c_string(team_name@),
        is_c_string(team_description@),
    ensures
        r@ == (LogCall::ClientEventTeamCreated { team_uuid: team_uuid@, team_name: team_name@, team_description: team_description@ }),
{
    LogCall::ClientEventTeamCreated { team_uuid, team_name, team_description }
}

/// The call `client_event_channel_created(channel_uuid, channel_name, channel_description)` of the logging library.
pub fn client_event_channel_created(channel_uuid: Vec<u8>, channel_name: Vec<u8>, channel_description: Vec<u8>) -> (r: LogCall<Vec<u8>>)
    requires
        is_c_string(channel_uuid@),
        is_c_string(channel_name@),
        is_c_string(channel_description@),
    ensures
        r@ == (LogCall::ClientEventChannelCreated { channel_uuid: channel_uuid@, channel_name: channel_name@, channel_description: channel_description@ }),
{
    LogCall::ClientEventChannelCreated { channel_uuid, channel_name, channel_description }
}

/// The call `client_event_thread_created(thread_uuid, user_uuid, thread_timestamp, thread_title, thread_body)` of the logging library.
pub fn client_event_thread_created(thread_uuid: Vec<u8>, user_uuid: Vec<u8>, thread_timestamp: u64, thread_title: Vec<u8>, thread_body: Vec<u8>) -> (r: LogCall<Vec<u8>>)
    requires
        is_c_string(thread_uuid@),
        is_c_string(user_uuid@),
        is_c_string(thread_title@),
        is_c_string(thread_body@),
    ensures
        r@ == (LogCall::ClientEventThreadCreated { thread_uuid: thread_uuid@, user_uuid: user_uuid@, thread_timestamp: thread_timestamp, thread_title: thread_title@, thread_body: thread_body@ }),
{
    LogCall::ClientEventThreadCreated { thread_uuid, user_uuid, thread_timestamp, thread_title, thread_body }
}

/// The call `client_print_teams(team_uuid, team_name, team_description)` of the logging library.
pub fn client_print_teams(team_uuid: Vec<u8>, team_name: Vec<u8>, team_description: Vec<u8>) -> (r: LogCall<Vec<u8>>)
    requires
        is_c_string(team_uuid@),
        is_c_string(team_name@),
        is_c_string(team_description@),
    ensures
        r@ == (LogCall::ClientPrintTeams { team_uuid: team_uuid@, team_name: team_name@, team_description: team_description@ }),
{
    LogCall::ClientPrintTeams { team_uuid, team_name, team_description }
}

/// The call `client_team_print_channels(channel_uuid, channel_name, channel_description)` of the logging library.
pub fn client_team_print_channels(channel_uuid: Vec<u8>, channel_name: Vec<u8>, channel_description: Vec<u8>) -> (r: LogCall<Vec<u8>>)
    requires
        is_c_string(channel_uuid@),
        is_c_string(channel_name@),
        is_c_string(channel_description@),
    ensures
        r@ == (LogCall::ClientTeamPrintChannels { channel_uuid: channel_uuid@, channel_name: channel_name@, channel_description: channel_description@ }),
{
    LogCall::ClientTeamPrintChannels { channel_uuid, channel_name, channel_description }
}

/// The call `client_channel_print_threads(thread_uuid, user_uuid, thread_timestamp, thread_title, thread_body)` of the logging library.
pub fn client_channel_print_threads(thread_uuid: Vec<u8>, user_uuid: Vec<u8>, thread_timestamp: u64, thread_title: Vec<u8>, thread_body: Vec<u8>) -> (r: LogCall<Vec<u8>>)
    requires
        is_c_string(thread_uuid@),
        is_c_string(user_uuid@),
        is_c_string(thread_title@),
        is_c_string(thread_body@),
    ensures
        r@ == (LogCall::ClientChannelPrintThreads { thread_uuid: thread_uuid@, user_uuid: user_uuid@, thread_timestamp: thread_timestamp, thread_title: thread_title@, thread_body: thread_body@ }),
{
    LogCall::ClientChannelPrintThreads { thread_uuid, user_uuid, thread_timestamp, thread_title, thread_body }
}

/// The call `client_thread_print_replies(thread_uuid, user_uuid, reply_timestamp, reply_body)` of the logging library.
pub fn client_thread_print_replies(thread_uuid: Vec<u8>, user_uuid: Vec<u8>, reply_timestamp: u64, reply_body: Vec<u8>) -> (r: LogCall<Vec<u8>>)
    requires
        is_c_string(thread_uuid@),
        is_c_string(user_uuid@),
        is_c_string(reply_body@),
    ensures
        r@ == (LogCall::ClientThreadPrintReplies { thread_uuid: thread_uuid@, user_uuid: user_uuid@, reply_timestamp: reply_timestamp, reply_body: reply_body@ }),
{
    LogCall::ClientThreadPrintReplies { thread_uuid, user_uuid, reply_timestamp, reply_body }
}

/// The call `client_print_team(team_uuid, team_name, team_description)` of the logging library.
pub fn client_print_team(team_uuid: Vec<u8>, team_name: Vec<u8>, team_description: Vec<u8>) -> (r: LogCall<Vec<u8>>)
    requires
        is_c_string(team_uuid@),
        is_c_string(team_name@),
        is_c_string(team_description@),
    ensures
        r@ == (LogCall::ClientPrintTeam { team_uuid: team_uuid@, team_name: team_name@, team_description: team_description@ }),
{
    LogCall::ClientPrintTeam { team_uuid, team_name, team_description }
}

/// The call `client_print_channel(channel_uuid, channel_name, channel_description)` of the logging library.
pub fn client_print_channel(channel_uuid: Vec<u8>, channel_name: Vec<u8>, channel_description: Vec<u8>) -> (r: LogCall<Vec<u8>>)
    requires
        is_c_string(channel_uuid@),
        is_c_string(channel_name@),
        is_c_string(channel_description@),
    ensures
        r@ == (LogCall::ClientPrintChannel { channel_uuid: channel_uuid@, channel_name: channel_name@, channel_description: channel_description@ }),
{
    LogCall::ClientPrintChannel { channel_uuid, channel_name, channel_description }
}

/// The call `client_print_thread(thread_uuid, user_uuid, thread_timestamp, thread_title, thread_body)` of the logging library.
pub fn client_print_thread(thread_uuid: Vec<u8>, user_uuid: Vec<u8>, thread_timestamp: u64, thread_title: Vec<u8>, thread_body: Vec<u8>) -> (r: LogCall<Vec<u8>>)
    requires
        is_c_string(thread_uuid@),
        is_c_string(user_uuid@),
        is_c_string(thread_title@),
        is_c_string(thread_body@),
    ensures
        r@ == (LogCall::ClientPrintThread { thread_uuid: thread_uuid@, user_uuid: user_uuid@, thread_timestamp: thread_timestamp, thread_title: thread_title@, thread_body: thread_body@ }),
{
    LogCall::ClientPrintThread { thread_uuid, user_uuid, thread_timestamp, thread_title, thread_body }
}

/// The call `client_error_unknown_channel(channel_uuid)` of the logging library.
pub fn client_error_unknown_channel(channel_uuid: Vec<u8>) -> (r: LogCall<Vec<u8>>)
    requires
        is_c_string(channel_uuid@),
    ensures
        r@ == (LogCall::ClientErrorUnknownChannel { channel_uuid: channel_uuid@ }),
{
    LogCall::ClientErrorUnknownChannel { channel_uuid }
}

/// The call `client_error_unknown_thread(thread_uuid)` of the logging library.
pub fn client_error_unknown_thread(thread_uuid: Vec<u8>) -> (r: LogCall<Vec<u8>>)
    requires
        is_c_string(thread_uuid@),
    ensures
        r@ == (LogCall::ClientErrorUnknownThread { thread_uuid: thread_uuid@ }),
{
    LogCall::ClientErrorUnknownThread { thread_uuid }
}

/// Makes the C strings for, and records, the call `server_event_team_created`.
pub fn call_team_created(team_uuid: &str, name: &str, user_uuid: &str) -> (r: LogCall<Vec<u8>>)
    ensures
        r@ == (LogCall::ServerEventTeamCreated { team_uuid: cstr(team_uuid@), team_name: cstr(name@), user_uuid: cstr(user_uuid@) }),
{
    LogCall::ServerEventTeamCreated { team_uuid: c_string(team_uuid), team_name: c_string(name), user_uuid: c_string(user_uuid) }
}

/// Makes the C strings for, and records, the call `server_event_user_loaded`.
pub fn call_user_loaded(uuid: &str, name: &str) -> (r: LogCall<Vec<u8>>)
    ensures
        r@ == (LogCall::ServerEventUserLoaded { user_uuid: cstr(uuid@), user_name: cstr(name@) }),
{
    LogCall::ServerEventUserLoaded { user_uuid: c_string(uuid), user_name: c_string(name) }
}

/// Makes the C strings for, and records, the call `server_event_user_created`.
pub fn call_user_created(uuid: &str, name: &str) -> (r: LogCall<Vec<u8>>)
    ensures
        r@ == (LogCall::ServerEventUserCreated { user_uuid: cstr(uuid@), user_name: cstr(name@) }),
{
    LogCall::ServerEventUserCreated { user_uuid: c_string(uuid), user_name: c_string(name) }
}

/// Makes the C strings for, and records, the call `server_event_user_logged_in`.
pub fn call_user_logged_in(uuid: &str) -> (r: LogCall<Vec<u8>>)
    ensures
        r@ == (LogCall::ServerEventUserLoggedIn { user_uuid: cstr(uuid@) }),
{
    LogCall::ServerEventUserLoggedIn { user_uuid: c_string(uuid) }
}

/// Makes the C strings for, and records, the call `server_event_user_logged_out`.
pub fn call_user_logged_out(uuid: &str) -> (r: LogCall<Vec<u8>>)
    ensures
        r@ == (LogCall::ServerEventUserLoggedOut { user_uuid: cstr(uuid@) }),
{
    LogCall::ServerEventUserLoggedOut { user_uuid: c_string(uuid) }
}

/// Makes the C strings for, and records, the call `server_event_private_message_sended`.
pub fn call_private_message_sended(sender_uuid: &str, receiver_uuid: &str, body: &str) -> (r: LogCall<Vec<u8>>)
    ensures
        r@ == (LogCall::ServerEventPrivateMessageSended { sender_uuid: cstr(sender_uuid@), receiver_uuid: cstr(receiver_uuid@), message_body: cstr(body@) }),
{
    LogCall::ServerEventPrivateMessageSended { sender_uuid: c_string(sender_uuid), receiver_uuid: c_string(receiver_uuid), message_body: c_string(body) }
}

/// Makes the C strings for, and records, the call `server_event_user_subscribed`.
pub fn call_user_subscribed(team_uuid: &str, user_uuid: &str) -> (r: LogCall<Vec<u8>>)
    ensures
        r@ == (LogCall::ServerEventUserSubscribed { team_uuid: cstr(team_uuid@), user_uuid: cstr(user_uuid@) }),
{
    LogCall::ServerEventUserSubscribed { team_uuid: c_string(team_uuid), user_uuid: c_string(user_uuid) }
}

/// Makes the C strings for, and records, the call `server_event_user_unsubscribed`.
pub fn call_user_unsubscribed(team_uuid: &str, user_uuid: &str) -> (r: LogCall<Vec<u8>>)
    ensures
        r@ == (LogCall::ServerEventUserUnsubscribed { team_uuid: cstr(team_uuid@), user_uuid: cstr(user_uuid@) }),
{
    LogCall::ServerEventUserUnsubscribed { team_uuid: c_string(team_uuid), user_uuid: c_string(user_uuid) }
}

/// Makes the C strings for, and records, the call `server_event_channel_created`.
pub fn call_channel_created(team_uuid: &str, channel_uuid: &str, name: &str) -> (r: LogCall<Vec<u8>>)
    ensures
        r@ == (LogCall::ServerEventChannelCreated { team_uuid: cstr(team_uuid@), channel_uuid: cstr(channel_uuid@), channel_name: cstr(name@) }),
{
    LogCall::ServerEventChannelCreated { team_uuid: c_string(team_uuid), channel_uuid: c_string(channel_uuid), channel_name: c_string(name) }
}

/// Makes the C strings for, and records, the call `server_event_thread_created`.
pub fn call_thread_created(channel_uuid: &str, thread_uuid: &str, user_uuid: &str, title: &str, body: &str) -> (r: LogCall<Vec<u8>>)
    ensures
        r@ == (LogCall::ServerEventThreadCreated { channel_uuid: cstr(channel_uuid@), thread_uuid: cstr(thread_uuid@), user_uuid: cstr(user_uuid@), thread_title: cstr(title@), thread_body: cstr(body@) }),
{
    LogCall::ServerEventThreadCreated { channel_uuid: c_string(channel_uuid), thread_uuid: c_string(thread_uuid), user_uuid: c_string(user_uuid), thread_title: c_string(title), thread_body: c_string(body) }
}

/// Makes the C strings for, and records, the call `server_event_reply_created`.
pub fn call_reply_created(thread_uuid: &str, user_uuid: &str, reply_body: &str) -> (r: LogCall<Vec<u8>>)
    ensures
        r@ == (LogCall::ServerEventReplyCreated { thread_uuid: cstr(thread_uuid@), user_uuid: cstr(user_uuid@), reply_body: cstr(reply_body@) }),
{
    LogCall::ServerEventReplyCreated { thread_uuid: c_string(thread_uuid), user_uuid: c_string(user_uuid), reply_body: c_string(reply_body) }
}

/// Makes the C strings for, and records, the call `client_event_logged_in`.
pub fn call_client_event_logged_in(user_uuid: &str, user_name: &str) -> (r: LogCall<Vec<u8>>)
    ensures
        r@ == (LogCall::ClientEventLoggedIn { user_uuid: cstr(user_uuid@), user_name: cstr(user_name@) }),
{
    LogCall::ClientEventLoggedIn { user_uuid: c_string(user_uuid), user_name: c_string(user_name) }
}

/// Makes the C strings for, and records, the call `client_event_logged_out`.
pub fn call_client_event_logged_out(user_uuid: &str, user_name: &str) -> (r: LogCall<Vec<u8>>)
    ensures
        r@ == (LogCall::ClientEventLoggedOut { user_uuid: cstr(user_uuid@), user_name: cstr(user_name@) }),
{
    LogCall::ClientEventLoggedOut { user_uuid: c_string(user_uuid), user_name: c_string(user_name) }
}

/// Makes the C strings for, and records, the call `client_event_private_message_received`.
pub fn call_client_event_private_message_received(user_uuid: &str, message_body: &str) -> (r: LogCall<Vec<u8>>)
    ensures
        r@ == (LogCall::ClientEventPrivateMessageReceived { user_uuid: cstr(user_uuid@), message_body: cstr(message_body@) }),
{
    LogCall::ClientEventPrivateMessageReceived { user_uuid: c_string(user_uuid), message_body: c_string(message_body) }
}

/// Makes the C strings for, and records, the call `client_print_users`.
pub fn call_client_print_users(user_uuid: &str, user_name: &str, user_status: i32) -> (r: LogCall<Vec<u8>>)
    ensures
        r@ == (LogCall::ClientPrintUsers { user_uuid: cstr(user_uuid@), user_name: cstr(user_name@), user_status: user_status }),
{
    LogCall::ClientPrintUsers { user_uuid: c_string(user_uuid), user_name: c_string(user_name), user_status: user_status }
}

/// Makes the C strings for, and records, the call `client_print_user`.
pub fn call_client_print_user(user_uuid: &str, user_name: &str, user_status: i32) -> (r: LogCall<Vec<u8>>)
    ensures
        r@ == (LogCall::ClientPrintUser { user_uuid: cstr(user_uuid@), user_name: cstr(user_name@), user_status: user_status }),
{
    LogCall::ClientPrintUser { user_uuid: c_string(user_uuid), user_name: c_string(user_name), user_status: user_status }
}

/// Makes the C strings for, and records, the call `client_private_message_print_messages`.
pub fn call_client_private_message_print_messages(sender_uuid: &str, timestamp: u64, message_body: &str) -> (r: LogCall<Vec<u8>>)
    ensures
        r@ == (LogCall::ClientPrivateMessagePrintMessages { sender_uuid: cstr(sender_uuid@), timestamp: timestamp, message_body: cstr(message_body@) }),
{
    LogCall::ClientPrivateMessagePrintMessages { sender_uuid: c_string(sender_uuid), timestamp: timestamp, message_body: c_string(message_body) }
}

/// Makes the C strings for, and records, the call `client_print_team_created`.
pub fn call_client_print_team_created(team_uuid: &str, team_name: &str, team_description: &str) -> (r: LogCall<Vec<u8>>)
    ensures
        r@ == (LogCall::ClientPrintTeamCreated { team_uuid: cstr(team_uuid@), team_name: cstr(team_name@), team_description: cstr(team_description@) }),
{
    LogCall::ClientPrintTeamCreated { team_uuid: c_string(team_uuid), team_name: c_string(team_name), team_description: c_string(team_description) }
}

/// Makes the C strings for, and records, the call `client_print_channel_created`.
pub fn call_client_print_channel_created(channel_uuid: &str, channel_name: &str, channel_description: &str) -> (r: LogCall<Vec<u8>>)
    ensures
        r@ == (LogCall::ClientPrintChannelCreated { channel_uuid: cstr(channel_uuid@), channel_name: cstr(channel_name@), channel_description: cstr(channel_description@) }),
{
    LogCall::ClientPrintChannelCreated { channel_uuid: c_string(channel_uuid), channel_name: c_string(channel_name), channel_description: c_string(channel_description) }
}

/// Makes the C strings for, and records, the call `client_print_thread_created`.
pub fn call_client_print_thread_created(thread_uuid: &str, user_uuid: &str, thread_timestamp: u64, thread_title: &str, thread_body: &str) -> (r: LogCall<Vec<u8>>)
    ensures
        r@ == (LogCall::ClientPrintThreadCreated { thread_uuid: cstr(thread_uuid@), user_uuid: cstr(user_uuid@), thread_timestamp: thread_timestamp, thread_title: cstr(thread_title@), thread_body: cstr(thread_body@) }),
{
    LogCall::ClientPrintThreadCreated { thread_uuid: c_string(thread_uuid), user_uuid: c_string(user_uuid), thread_timestamp: thread_timestamp, thread_title: c_string(thread_title), thread_body: c_string(thread_body) }
}

/// Makes the C strings for, and records, the call `client_print_reply_created`.
pub fn call_client_print_reply_created(thread_uuid: &str, user_uuid: &str, reply_timestamp: u64, reply_body: &str) -> (r: LogCall<Vec<u8>>)
    ensures
        r@ == (LogCall::ClientPrintReplyCreated { thread_uuid: cstr(thread_uuid@), user_uuid: cstr(user_uuid@), reply_timestamp: reply_timestamp, reply_body: cstr(reply_body@) }),
{
    LogCall::ClientPrintReplyCreated { thread_uuid: c_string(thread_uuid), user_uuid: c_string(user_uuid), reply_timestamp: reply_timestamp, reply_body: c_string(reply_body) }
}

/// Makes the C strings for, and records, the call `client_print_subscribed`.
pub fn call_client_print_subscribed(user_uuid: &str, team_uuid: &str) -> (r: LogCall<Vec<u8>>)
    ensures
        r@ == (LogCall::ClientPrintSubscribed { user_uuid: cstr(user_uuid@), team_uuid: cstr(team_uuid@) }),
{
    LogCall::ClientPrintSubscribed { user_uuid: c_string(user_uuid), team_uuid: c_string(team_uuid) }
}

/// Makes the C strings for, and records, the call `client_print_unsubscribed`.
pub fn call_client_print_unsubscribed(user_uuid: &str, team_uuid: &str) -> (r: LogCall<Vec<u8>>)
    ensures
        r@ == (LogCall::ClientPrintUnsubscribed { user_uuid: cstr(user_uuid@), team_uuid: cstr(team_uuid@) }),
{
    LogCall::ClientPrintUnsubscribed { user_uuid: c_string(user_uuid), team_uuid: c_string(team_uuid) }
}

/// Makes the C strings for, and records, the call `client_error_unauthorized`.
pub fn call_client_error_unauthorized() -> (r: LogCall<Vec<u8>>)
    ensures
        r@ == LogCall::<Seq<u8>>::ClientErrorUnauthorized,
{
    LogCall::ClientErrorUnauthorized
}

/// Makes the C strings for, and records, the call `client_error_already_exist`.
pub fn call_client_error_already_exist() -> (r: LogCall<Vec<u8>>)
    ensures
        r@ == LogCall::<Seq<u8>>::ClientErrorAlreadyExist,
{
    LogCall::ClientErrorAlreadyExist
}

/// Makes the C strings for, and records, the call `client_error_unknown_user`.
pub fn call_client_error_unknown_user(user_uuid: &str) -> (r: LogCall<Vec<u8>>)
    ensures
        r@ == (LogCall::ClientErrorUnknownUser { user_uuid: cstr(user_uuid@) }),
{
    LogCall::ClientErrorUnknownUser { user_uuid: c_string(user_uuid) }
}

/// Makes the C strings for, and records, the call `client_error_unknown_team`.
pub fn call_client_error_unknown_team(team_uuid: &str) -> (r: LogCall<Vec<u8>>)
    ensures
        r@ == (LogCall::ClientErrorUnknownTeam { team_uuid: cstr(team_uuid@) }),
{
    LogCall::ClientErrorUnknownTeam { team_uuid: c_string(team_uuid) }
}

/// Makes the C strings for, and records, the call `client_print_teams`.
pub fn call_client_print_teams(team_uuid: &str, team_name: &str, team_description: &str) -> (r: LogCall<Vec<u8>>)
    ensures
        r@ == (LogCall::ClientPrintTeams { team_uuid: cstr(team_uuid@), team_name: cstr(team_name@), team_description: cstr(team_description@) }),
{
    client_print_teams(c_string(team_uuid), c_string(team_name), c_string(team_description))
}

} // verus!
