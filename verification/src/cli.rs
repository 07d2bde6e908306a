//! The client's reaction to a line from the server: which logging call it
//! makes, or that it prints the line, and who it remembers as logged in.
use vstd::prelude::*;
use crate::ffi::{LogCall, cstr};
use crate::text::{
    split_on, split_spec, has_prefix, has_infix, starts_with, contains_str, parse_i32,
    parse_i32_spec, parse_u64, parse_u64_spec, owned, str_eq,
};
use crate::command::strings_view;

verus! {

broadcast use vstd::string::group_string_axioms;

/// The user the client knows to be logged in (empty strings when nobody is).
pub struct ClientState {
    pub uuid: String,
    pub name: String,
}

pub struct ClientStateView {
    pub uuid: Seq<char>,
    pub name: Seq<char>,
}

impl View for ClientState {
    type V = ClientStateView;

    open spec fn view(&self) -> ClientStateView {
        ClientStateView { uuid: self.uuid@, name: self.name@ }
    }
}

impl ClientState {
    /// Nobody logged in.
    pub fn new() -> (s: ClientState)
        ensures
            s@ == (ClientStateView { uuid: seq![], name: seq![] }),
    {
        ClientState { uuid: String::new(), name: String::new() }
    }
}

/// What the client does about a line from the server.
pub enum ClientAction {
    /// Make this call into the logging library.
    Call(LogCall<Vec<u8>>),
    /// Print this text on its own line.
    Print(String),
}

pub enum ClientActionView {
    Call(LogCall<Seq<u8>>),
    Print(Seq<char>),
}

impl View for ClientAction {
    type V = ClientActionView;

    open spec fn view(&self) -> ClientActionView {
        match self {
            ClientAction::Call(c) => ClientActionView::Call(c@),
            ClientAction::Print(s) => ClientActionView::Print(s@),
        }
    }
}

pub open spec fn actions_view(v: Seq<ClientAction>) -> Seq<ClientActionView> {
    v.map_values(|a: ClientAction| a@)
}

pub open spec fn i32_or_zero(s: Seq<char>) -> i32 {
    match parse_i32_spec(s) {
        Some(v) => v,
        None => 0,
    }
}

pub open spec fn u64_or_zero(s: Seq<char>) -> u64 {
    match parse_u64_spec(s) {
        Some(v) => v,
        None => 0,
    }
}

/// One call per `uuid:name:status` entry (other entries are skipped).
pub open spec fn user_entries(entries: Seq<Seq<char>>) -> Seq<ClientActionView>
    decreases entries.len(),
{
    if entries.len() == 0 {
        seq![]
    } else {
        let u = split_spec(entries.last(), ':');
        user_entries(entries.drop_last()) + if u.len() == 3 {
            seq![
                ClientActionView::Call(
                    LogCall::ClientPrintUsers {
                        user_uuid: cstr(u[0]),
                        user_name: cstr(u[1]),
                        user_status: i32_or_zero(u[2]),
                    },
                ),
            ]
        } else {
            seq![]
        }
    }
}

/// The client's state after the line `message` from the server, and what it does.
pub open spec fn server_message_spec(message: Seq<char>, st: ClientStateView) -> (
    ClientStateView,
    Seq<ClientActionView>,
) {
    let p = split_spec(message, '|');
    let head = p[0];
    if has_prefix(head, "200 Login OK"@) && p.len() == 3 {
        (
            ClientStateView { uuid: p[1], name: p[2] },
            seq![
                ClientActionView::Call(
                    LogCall::ClientEventLoggedIn { user_uuid: cstr(p[1]), user_name: cstr(p[2]) },
                ),
            ],
        )
    } else if head == "200 Logout OK"@ {
        (
            ClientStateView { uuid: seq![], name: seq![] },
            seq![
                ClientActionView::Call(
                    LogCall::ClientEventLoggedOut {
                        user_uuid: cstr(st.uuid),
                        user_name: cstr(st.name),
                    },
                ),
            ],
        )
    } else if head == "EVENT PM_RECEIVED"@ && p.len() == 3 {
        (
            st,
            seq![
                ClientActionView::Call(
                    LogCall::ClientEventPrivateMessageReceived {
                        user_uuid: cstr(p[1]),
                        message_body: cstr(p[2]),
                    },
                ),
            ],
        )
    } else if head == "200 USERS"@ {
        (st, user_entries(p.skip(1)))
    } else if head == "200 USER"@ && p.len() == 4 {
        (
            st,
            seq![
                ClientActionView::Call(
                    LogCall::ClientPrintUser {
                        user_uuid: cstr(p[1]),
                        user_name: cstr(p[2]),
                        user_status: i32_or_zero(p[3]),
                    },
                ),
            ],
        )
    } else if head == "200 REPLY_CREATED"@ && p.len() == 5 {
        (
            st,
            seq![
                ClientActionView::Call(
                    LogCall::ClientPrintReplyCreated {
                        thread_uuid: cstr(p[1]),
                        user_uuid: cstr(p[2]),
                        reply_timestamp: u64_or_zero(p[3]),
                        reply_body: cstr(p[4]),
                    },
                ),
            ],
        )
    } else if has_prefix(head, "401"@) {
        (st, seq![ClientActionView::Call(LogCall::ClientErrorUnauthorized)])
    } else if has_prefix(head, "409"@) {
        (st, seq![ClientActionView::Call(LogCall::ClientErrorAlreadyExist)])
    } else if has_prefix(head, "404"@) {
        if has_infix(head, "User"@) {
            (
                st,
                seq![
                    ClientActionView::Call(
                        LogCall::ClientErrorUnknownUser { user_uuid: cstr("unknown"@) },
                    ),
                ],
            )
        } else if has_infix(head, "Team"@) {
            (
                st,
                seq![
                    ClientActionView::Call(
                        LogCall::ClientErrorUnknownTeam { team_uuid: cstr("unknwon"@) },
                    ),
                ],
            )
        } else {
            (st, seq![])
        }
    } else {
        (st, seq![ClientActionView::Print(message)])
    }
}

fn one(a: ClientAction) -> (v: Vec<ClientAction>)
    ensures
        actions_view(v@) == seq![a@],
{
    let ghost av = a@;
    let mut v: Vec<ClientAction> = Vec::new();
    v.push(a);
    assert(actions_view(v@) =~= seq![av]);
    v
}

/// Reacts to the line `message` from the server (see [`server_message_spec`]).
pub fn handle_server_message(message: &str, state: &mut ClientState) -> (actions: Vec<
    ClientAction,
>)
    ensures
        (final(state)@, actions_view(actions@)) == server_message_spec(message@, old(state)@),
{
    let parts = split_on(message, '|');
    let ghost p = strings_view(parts@);
    assert(p.len() >= 1);
    let n = parts.len();
    let head = parts[0].as_str();
    assert(p[0] == head@);
    if starts_with(head, "200 Login OK") && n == 3 {
        state.uuid = parts[1].clone();
        state.name = parts[2].clone();
        one(
            ClientAction::Call(
                crate::ffi::call_client_event_logged_in(parts[1].as_str(), parts[2].as_str()),
            ),
        )
    } else if str_eq(head, "200 Logout OK") {
        let call = crate::ffi::call_client_event_logged_out(
            state.uuid.as_str(),
            state.name.as_str(),
        );
        state.uuid = String::new();
        state.name = String::new();
        one(ClientAction::Call(call))
    } else if str_eq(head, "EVENT PM_RECEIVED") && n == 3 {
        one(
            ClientAction::Call(
                crate::ffi::call_client_event_private_message_received(
                    parts[1].as_str(),
                    parts[2].as_str(),
                ),
            ),
        )
    } else if str_eq(head, "200 USERS") {
        let mut actions: Vec<ClientAction> = Vec::new();
        let ghost entries = p.skip(1);
        let mut k: usize = 1;
        assert(entries.take(0) =~= Seq::<Seq<char>>::empty());
        while k < n
            invariant
                1 <= k <= n,
                n == parts@.len(),
                p == strings_view(parts@),
                entries == p.skip(1),
                actions_view(actions@) == user_entries(entries.take(k - 1)),
            decreases n - k,
        {
            assert(entries.take(k as int).drop_last() =~= entries.take(k - 1));
            assert(entries.take(k as int).last() == parts@[k as int]@);
            let u = split_on(parts[k].as_str(), ':');
            let ghost uv = strings_view(u@);
            if u.len() == 3 {
                assert(uv[0] == u@[0]@ && uv[1] == u@[1]@ && uv[2] == u@[2]@);
                let status = match parse_i32(u[2].as_str()) {
                    Some(s) => s,
                    None => 0,
                };
                let call = crate::ffi::call_client_print_users(
                    u[0].as_str(),
                    u[1].as_str(),
                    status,
                );
                let ghost before = actions@;
                let a = ClientAction::Call(call);
                let ghost av = a@;
                actions.push(a);
                assert(actions_view(actions@) =~= actions_view(before).push(av));
                assert(actions_view(actions@) =~= user_entries(entries.take(k as int)));
            } else {
                assert(actions_view(actions@) =~= user_entries(entries.take(k as int)));
            }
            k += 1;
        }
        assert(entries.take(n - 1) =~= entries);
        actions
    } else if str_eq(head, "200 USER") && n == 4 {
        let status = match parse_i32(parts[3].as_str()) {
            Some(s) => s,
            None => 0,
        };
        one(
            ClientAction::Call(
                crate::ffi::call_client_print_user(parts[1].as_str(), parts[2].as_str(), status),
            ),
        )
    } else if str_eq(head, "200 REPLY_CREATED") && n == 5 {
        let ts = match parse_u64(parts[3].as_str()) {
            Some(t) => t,
            None => 0,
        };
        one(
            ClientAction::Call(
                crate::ffi::call_client_print_reply_created(
                    parts[1].as_str(),
                    parts[2].as_str(),
                    ts,
                    parts[4].as_str(),
                ),
            ),
        )
    } else if starts_with(head, "401") {
        one(ClientAction::Call(crate::ffi::call_client_error_unauthorized()))
    } else if starts_with(head, "409") {
        one(ClientAction::Call(crate::ffi::call_client_error_already_exist()))
    } else if starts_with(head, "404") {
        if contains_str(head, "User") {
            one(ClientAction::Call(crate::ffi::call_client_error_unknown_user("unknown")))
        } else if contains_str(head, "Team") {
            one(ClientAction::Call(crate::ffi::call_client_error_unknown_team("unknwon")))
        } else {
            let v: Vec<ClientAction> = Vec::new();
            assert(actions_view(v@) =~= Seq::<ClientActionView>::empty());
            v
        }
    } else {
        one(ClientAction::Print(owned(message)))
    }
}

} // verus!
