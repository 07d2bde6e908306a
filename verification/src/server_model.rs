//! The server in mathematical terms: its state, and what each command line
//! that a connection sends does to it. `fresh` stands for the identifier that
//! the server generates for a new user, team, channel or thread, and `ts` for
//! the clock reading (seconds since the Unix epoch) it stamps a message with.
use vstd::prelude::*;
use crate::client::{ClientView, UseContextView, queue};
use crate::ffi::{LogCall, cstr};
use crate::models::{
    first_index, put, DatabaseView, UserView, MessageView, TeamView, ChannelView, ThreadView,
    user_has_uuid, user_has_name, team_has_uuid, team_has_name, channel_has_uuid,
    channel_has_name, thread_has_uuid, user_of, team_of, channel_of, thread_of, subscribed,
};
use crate::text::{byte_len, dec, is_ws};

verus! {

/// The whole server: its connections (each under the number by which the
/// program knows it), its data, and the logging calls it has yet to make.
pub struct ServerView {
    pub clients: Seq<(u64, ClientView)>,
    pub db: DatabaseView,
    pub log: Seq<LogCall<Seq<u8>>>,
}

pub const MAX_NAME_LENGTH: usize = 32;

pub const MAX_DESCRIPTION_LENGTH: usize = 255;

pub const MAX_BODY_LENGTH: usize = 512;

pub open spec fn has_id(id: u64) -> spec_fn((u64, ClientView)) -> bool {
    |p: (u64, ClientView)| p.0 == id
}

pub open spec fn logged_in_as(user: Seq<char>) -> spec_fn((u64, ClientView)) -> bool {
    |p: (u64, ClientView)| p.1.uuid == Some(user)
}

pub open spec fn client_index(s: ServerView, id: u64) -> Option<int> {
    first_index(s.clients, has_id(id))
}

/// The user logged in on connection `id`.
pub open spec fn client_uuid(s: ServerView, id: u64) -> Option<Seq<char>> {
    match client_index(s, id) {
        Some(i) => s.clients[i].1.uuid,
        None => None,
    }
}

/// `s` with connection `i` replaced by `c`.
pub open spec fn set_client(s: ServerView, i: int, c: ClientView) -> ServerView {
    ServerView { clients: s.clients.update(i, (s.clients[i].0, c)), ..s }
}

/// `s` with `msg` queued on connection `id`, when there is one.
pub open spec fn send_to(s: ServerView, id: u64, msg: Seq<char>) -> ServerView {
    match client_index(s, id) {
        Some(i) => set_client(s, i, queue(s.clients[i].1, msg)),
        None => s,
    }
}

/// `s` with the logging call `call` added.
pub open spec fn log(s: ServerView, call: LogCall<Seq<u8>>) -> ServerView {
    ServerView { log: s.log.push(call), ..s }
}

pub open spec fn with_db(s: ServerView, db: DatabaseView) -> ServerView {
    ServerView { db, ..s }
}

/// `db` with the connection flag of the user stored under `uuid` set to `flag`.
pub open spec fn set_connected(db: DatabaseView, uuid: Seq<char>, flag: bool) -> DatabaseView {
    match first_index(db.users, user_has_uuid(uuid)) {
        Some(j) => DatabaseView {
            users: db.users.update(j, UserView { is_connected: flag, ..db.users[j] }),
            ..db
        },
        None => db,
    }
}

/// Whether `user` subscribes to the team stored under `team`.
pub open spec fn is_subscribed_to_team(db: DatabaseView, user: Seq<char>, team: Seq<char>) -> bool {
    match team_of(db, team) {
        Some(t) => subscribed(t, user),
        None => false,
    }
}

/// The team that a context is inside of.
pub open spec fn context_team(ctx: UseContextView) -> Option<Seq<char>> {
    match ctx {
        UseContextView::Global => None,
        UseContextView::Team(t) => Some(t),
        UseContextView::Channel(t, _) => Some(t),
        UseContextView::Thread(t, _, _) => Some(t),
    }
}

/// `s` with connection `id` moved back to the global context when its
/// context is inside team `team`.
pub open spec fn reset_context_in_team(s: ServerView, id: u64, team: Seq<char>) -> ServerView {
    match client_index(s, id) {
        Some(i) => if context_team(s.clients[i].1.use_context) == Some(team) {
            set_client(s, i, ClientView { use_context: UseContextView::Global, ..s.clients[i].1 })
        } else {
            s
        },
        None => s,
    }
}

/// `s` with `msg` queued on the first connection where `user` is logged in.
pub open spec fn send_event_to_user(s: ServerView, user: Seq<char>, msg: Seq<char>) -> ServerView {
    match first_index(s.clients, logged_in_as(user)) {
        Some(i) => set_client(s, i, queue(s.clients[i].1, msg)),
        None => s,
    }
}

/// Number of occurrences of `x` in `s`.
pub open spec fn occurrences(s: Seq<Seq<char>>, x: Seq<char>) -> nat
    decreases s.len(),
{
    if s.len() == 0 {
        0
    } else {
        occurrences(s.drop_last(), x) + if s.last() == x {
            1nat
        } else {
            0nat
        }
    }
}

/// `b` repeated `n` times.
pub open spec fn repeat(b: Seq<u8>, n: nat) -> Seq<u8>
    decreases n,
{
    if n == 0 {
        seq![]
    } else {
        repeat(b, (n - 1) as nat) + b
    }
}

/// Connection `c` after `msg` was sent to each subscriber in `subs`: once
/// per occurrence of the user logged in on it.
pub open spec fn deliver(c: ClientView, subs: Seq<Seq<char>>, msg: Seq<char>) -> ClientView {
    match c.uuid {
        Some(u) => ClientView {
            write_buffer: c.write_buffer + repeat(
                crate::client::line_bytes(msg),
                occurrences(subs, u),
            ),
            ..c
        },
        None => c,
    }
}

/// `s` with `msg` sent to every connection of every subscriber of team `team`.
pub open spec fn send_event_to_team_subscribers(
    s: ServerView,
    team: Seq<char>,
    msg: Seq<char>,
) -> ServerView {
    match team_of(s.db, team) {
        Some(t) => ServerView {
            clients: s.clients.map_values(
                |p: (u64, ClientView)| (p.0, deliver(p.1, t.subscribers, msg)),
            ),
            ..s
        },
        None => s,
    }
}

pub open spec fn status(b: bool) -> Seq<char> {
    if b {
        "1"@
    } else {
        "0"@
    }
}

/// `|uuid:name:status` for each user.
pub open spec fn users_listing(us: Seq<UserView>) -> Seq<char>
    decreases us.len(),
{
    if us.len() == 0 {
        seq![]
    } else {
        let u = us.last();
        users_listing(us.drop_last()) + "|"@ + u.uuid + ":"@ + u.name + ":"@ + status(
            u.is_connected,
        )
    }
}

/// Whether `m` was exchanged between `a` and `b`, either way.
pub open spec fn between(m: MessageView, a: Seq<char>, b: Seq<char>) -> bool {
    (m.sender_uuid == a && m.receiver_uuid == b) || (m.sender_uuid == b && m.receiver_uuid == a)
}

/// `|sender:timestamp:body` for each message exchanged between `a` and `b`.
pub open spec fn messages_listing(ms: Seq<MessageView>, a: Seq<char>, b: Seq<char>) -> Seq<char>
    decreases ms.len(),
{
    if ms.len() == 0 {
        seq![]
    } else {
        let m = ms.last();
        messages_listing(ms.drop_last(), a, b) + if between(m, a, b) {
            "|"@ + m.sender_uuid + ":"@ + dec(m.timestamp as nat) + ":"@ + m.body
        } else {
            seq![]
        }
    }
}

/// `|uuid:name:description` for each team (only those `user` subscribes to
/// when `only_of` is `Some(user)`).
pub open spec fn teams_listing(ts: Seq<TeamView>, only_of: Option<Seq<char>>) -> Seq<char>
    decreases ts.len(),
{
    if ts.len() == 0 {
        seq![]
    } else {
        let t = ts.last();
        teams_listing(ts.drop_last(), only_of) + if (match only_of {
            Some(u) => subscribed(t, u),
            None => true,
        }) {
            "|"@ + t.uuid + ":"@ + t.name + ":"@ + t.description
        } else {
            seq![]
        }
    }
}

/// `|uuid:name:description` for each channel.
pub open spec fn channels_listing(cs: Seq<ChannelView>) -> Seq<char>
    decreases cs.len(),
{
    if cs.len() == 0 {
        seq![]
    } else {
        let c = cs.last();
        channels_listing(cs.drop_last()) + "|"@ + c.uuid + ":"@ + c.name + ":"@ + c.description
    }
}

/// `|uuid:author:timestamp:title:message` for each thread.
pub open spec fn threads_listing(hs: Seq<ThreadView>) -> Seq<char>
    decreases hs.len(),
{
    if hs.len() == 0 {
        seq![]
    } else {
        let h = hs.last();
        threads_listing(hs.drop_last()) + "|"@ + h.uuid + ":"@ + h.author_uuid + ":"@ + dec(
            h.timestamp as nat,
        ) + ":"@ + h.title + ":"@ + h.message
    }
}

/// `|thread:sender:timestamp:body` for each reply of thread `thread`.
pub open spec fn replies_listing(thread: Seq<char>, rs: Seq<MessageView>) -> Seq<char>
    decreases rs.len(),
{
    if rs.len() == 0 {
        seq![]
    } else {
        let r = rs.last();
        replies_listing(thread, rs.drop_last()) + "|"@ + thread + ":"@ + r.sender_uuid + ":"@
            + dec(r.timestamp as nat) + ":"@ + r.body
    }
}

/// `|uuid:name:status` for each subscriber that is a known user.
pub open spec fn subscribers_listing(subs: Seq<Seq<char>>, db: DatabaseView) -> Seq<char>
    decreases subs.len(),
{
    if subs.len() == 0 {
        seq![]
    } else {
        subscribers_listing(subs.drop_last(), db) + match user_of(db, subs.last()) {
            Some(u) => "|"@ + u.uuid + ":"@ + u.name + ":"@ + status(u.is_connected),
            None => seq![],
        }
    }
}

/// `s` without any occurrence of `x`.
pub open spec fn remove_all(s: Seq<Seq<char>>, x: Seq<char>) -> Seq<Seq<char>>
    decreases s.len(),
{
    if s.len() == 0 {
        seq![]
    } else if s.last() == x {
        remove_all(s.drop_last(), x)
    } else {
        remove_all(s.drop_last(), x).push(s.last())
    }
}

/// `/login "name"`.
pub open spec fn login_spec(s: ServerView, id: u64, args: Seq<Seq<char>>, fresh: Seq<char>) -> ServerView {
    if args.len() != 2 {
        send_to(s, id, "400 Bad Request: Missing user_name"@)
    } else if byte_len(args[1]) > MAX_NAME_LENGTH {
        send_to(s, id, "400 Bad Request: Name too long"@)
    } else {
        let name = args[1];
        let uuid = match first_index(s.db.users, user_has_name(name)) {
            Some(i) => s.db.users[i].uuid,
            None => fresh,
        };
        let s1 = match first_index(s.db.users, user_has_name(name)) {
            Some(i) => with_db(s, set_connected(s.db, uuid, true)),
            None => log(
                with_db(
                    s,
                    DatabaseView {
                        users: put(
                            s.db.users,
                            user_has_uuid(fresh),
                            UserView { uuid: fresh, name, is_connected: true },
                        ),
                        ..s.db
                    },
                ),
                LogCall::ServerEventUserCreated { user_uuid: cstr(fresh), user_name: cstr(name) },
            ),
        };
        let s2 = match client_index(s1, id) {
            Some(i) => set_client(
                s1,
                i,
                queue(
                    ClientView { uuid: Some(uuid), ..s1.clients[i].1 },
                    "200 Login OK|"@ + uuid + "|"@ + name,
                ),
            ),
            None => s1,
        };
        log(s2, LogCall::ServerEventUserLoggedIn { user_uuid: cstr(uuid) })
    }
}

/// `/logout`.
pub open spec fn logout_spec(s: ServerView, id: u64) -> ServerView {
    match client_index(s, id) {
        None => s,
        Some(i) => {
            let c = s.clients[i].1;
            let s1 = match c.uuid {
                Some(u) => with_db(
                    log(s, LogCall::ServerEventUserLoggedOut { user_uuid: cstr(u) }),
                    set_connected(s.db, u, false),
                ),
                None => s,
            };
            set_client(
                s1,
                i,
                queue(
                    ClientView { uuid: None, use_context: UseContextView::Global, ..c },
                    "200 Logout OK"@,
                ),
            )
        },
    }
}

/// `/send "user_uuid" "message_body"`.
pub open spec fn send_spec(s: ServerView, id: u64, args: Seq<Seq<char>>, ts: u64) -> ServerView {
    if args.len() != 3 {
        send_to(s, id, "400 Bad Request: /send \"user_uuid\" \"message\""@)
    } else {
        match client_uuid(s, id) {
            None => send_to(s, id, "401 Unauthorized: Please login first"@),
            Some(sender) => {
                let target = args[1];
                let body = args[2];
                if byte_len(body) > MAX_BODY_LENGTH {
                    send_to(s, id, "400 Bad Request: Message too long"@)
                } else if user_of(s.db, target) is None {
                    send_to(s, id, "404 Not Found: User does not exist"@)
                } else {
                    let m = MessageView {
                        sender_uuid: sender,
                        receiver_uuid: target,
                        body,
                        timestamp: ts,
                    };
                    let s1 = with_db(
                        s,
                        DatabaseView { private_messages: s.db.private_messages.push(m), ..s.db },
                    );
                    let s2 = log(
                        s1,
                        LogCall::ServerEventPrivateMessageSended {
                            sender_uuid: cstr(sender),
                            receiver_uuid: cstr(target),
                            message_body: cstr(body),
                        },
                    );
                    let s3 = send_event_to_user(
                        s2,
                        target,
                        "EVENT PM_RECEIVED|"@ + sender + "|"@ + body,
                    );
                    send_to(s3, id, "200 Message Sent"@)
                }
            },
        }
    }
}

/// `s` with connection `id` in context `ctx`, told so.
pub open spec fn set_context(s: ServerView, id: u64, ctx: UseContextView) -> ServerView {
    match client_index(s, id) {
        Some(i) => set_client(
            s,
            i,
            queue(ClientView { use_context: ctx, ..s.clients[i].1 }, "200 Context Updated"@),
        ),
        None => s,
    }
}

/// `/use` with up to three identifiers.
pub open spec fn use_spec(s: ServerView, id: u64, args: Seq<Seq<char>>) -> ServerView {
    match client_uuid(s, id) {
        None => send_to(s, id, "401 Unauthorized: Please login first"@),
        Some(me) => if args.len() == 1 {
            set_context(s, id, UseContextView::Global)
        } else if 2 <= args.len() <= 4 {
            match team_of(s.db, args[1]) {
                None => send_to(s, id, "404 Not Found: Unknown Team"@),
                Some(team) => if !subscribed(team, me) {
                    send_to(s, id, "401 Unauthorized: Not subscribed to team"@)
                } else if args.len() == 2 {
                    set_context(s, id, UseContextView::Team(args[1]))
                } else {
                    match channel_of(team, args[2]) {
                        None => send_to(s, id, "404 Not Found: Unknown Channel"@),
                        Some(channel) => if args.len() == 3 {
                            set_context(s, id, UseContextView::Channel(args[1], args[2]))
                        } else {
                            match thread_of(channel, args[3]) {
                                None => send_to(s, id, "404 Not Found: Unknown Thread"@),
                                Some(_) => set_context(
                                    s,
                                    id,
                                    UseContextView::Thread(args[1], args[2], args[3]),
                                ),
                            }
                        },
                    }
                },
            }
        } else {
            send_to(s, id, "400 Bad Request: Invalid /use arguments"@)
        },
    }
}

/// `/users`.
pub open spec fn users_spec(s: ServerView, id: u64) -> ServerView {
    match client_uuid(s, id) {
        None => send_to(s, id, "401 Unauthorized: Please login first"@),
        Some(_) => send_to(s, id, "200 USERS"@ + users_listing(s.db.users)),
    }
}

/// `/user "user_uuid"`.
pub open spec fn user_spec(s: ServerView, id: u64, args: Seq<Seq<char>>) -> ServerView {
    if args.len() != 2 {
        send_to(s, id, "400 Bad Request"@)
    } else if client_uuid(s, id) is None {
        send_to(s, id, "401 Unauthorized"@)
    } else {
        match user_of(s.db, args[1]) {
            Some(u) => send_to(
                s,
                id,
                "200 USER|"@ + u.uuid + "|"@ + u.name + "|"@ + status(u.is_connected),
            ),
            None => send_to(s, id, "404 Not Found: User not found"@),
        }
    }
}

/// `/messages "user_uuid"`.
pub open spec fn messages_spec(s: ServerView, id: u64, args: Seq<Seq<char>>) -> ServerView {
    if args.len() != 2 {
        send_to(s, id, "400 Bad Request"@)
    } else {
        match client_uuid(s, id) {
            None => send_to(s, id, "401 Unauthorized"@),
            Some(me) => if user_of(s.db, args[1]) is None {
                send_to(s, id, "404 Not Found: User not found"@)
            } else {
                send_to(
                    s,
                    id,
                    "200 MESSAGES"@ + messages_listing(s.db.private_messages, me, args[1]),
                )
            },
        }
    }
}

/// `db` with team `i` replaced by `t`.
pub open spec fn set_team(db: DatabaseView, i: int, t: TeamView) -> DatabaseView {
    DatabaseView { teams: db.teams.update(i, t), ..db }
}

/// `/subscribe "team_uuid"`.
pub open spec fn subscribe_spec(s: ServerView, id: u64, args: Seq<Seq<char>>) -> ServerView {
    if args.len() != 2 {
        send_to(s, id, "400 Bad Request"@)
    } else {
        match client_uuid(s, id) {
            None => send_to(s, id, "401 Unauthorized"@),
            Some(me) => {
                let t = args[1];
                match first_index(s.db.teams, team_has_uuid(t)) {
                    Some(i) => {
                        let team = s.db.teams[i];
                        let team2 = if subscribed(team, me) {
                            team
                        } else {
                            TeamView { subscribers: team.subscribers.push(me), ..team }
                        };
                        let s1 = log(
                            with_db(s, set_team(s.db, i, team2)),
                            LogCall::ServerEventUserSubscribed {
                                team_uuid: cstr(t),
                                user_uuid: cstr(me),
                            },
                        );
                        send_to(s1, id, "200 SUBSCRIBED|"@ + me + "|"@ + t)
                    },
                    None => send_to(s, id, "404 Not Found: Team not found"@),
                }
            },
        }
    }
}

/// `/unsubscribe "team_uuid"`.
pub open spec fn unsubscribe_spec(s: ServerView, id: u64, args: Seq<Seq<char>>) -> ServerView {
    if args.len() != 2 {
        send_to(s, id, "400 Bad Request"@)
    } else {
        match client_uuid(s, id) {
            None => send_to(s, id, "401 Unauthorized"@),
            Some(me) => {
                let t = args[1];
                match first_index(s.db.teams, team_has_uuid(t)) {
                    Some(i) => {
                        let team = s.db.teams[i];
                        if !subscribed(team, me) {
                            send_to(s, id, "401 Unauthorized: Not subscribed to team"@)
                        } else {
                            let team2 = TeamView {
                                subscribers: remove_all(team.subscribers, me),
                                ..team
                            };
                            let s1 = reset_context_in_team(
                                with_db(s, set_team(s.db, i, team2)),
                                id,
                                t,
                            );
                            let s2 = log(
                                s1,
                                LogCall::ServerEventUserUnsubscribed {
                                    team_uuid: cstr(t),
                                    user_uuid: cstr(me),
                                },
                            );
                            send_to(s2, id, "200 UNSUBSCRIBED|"@ + me + "|"@ + t)
                        }
                    },
                    None => send_to(s, id, "404 Not Found: Team not found"@),
                }
            },
        }
    }
}

/// `/create "name" "description"` outside of any team.
pub open spec fn create_team_spec(
    s: ServerView,
    id: u64,
    me: Seq<char>,
    args: Seq<Seq<char>>,
    fresh: Seq<char>,
) -> ServerView {
    if args.len() != 3 {
        send_to(s, id, "400 Bad Request"@)
    } else {
        let name = args[1];
        let desc = args[2];
        if byte_len(name) > MAX_NAME_LENGTH || byte_len(desc) > MAX_DESCRIPTION_LENGTH {
            send_to(s, id, "400 Bad Request: Length error"@)
        } else if first_index(s.db.teams, team_has_name(name)) is Some {
            send_to(s, id, "409 Conflict: Team already exists"@)
        } else {
            let team = TeamView {
                uuid: fresh,
                name,
                description: desc,
                subscribers: seq![me],
                channels: seq![],
            };
            let s1 = with_db(
                s,
                DatabaseView { teams: put(s.db.teams, team_has_uuid(fresh), team), ..s.db },
            );
            let s2 = log(
                s1,
                LogCall::ServerEventTeamCreated {
                    team_uuid: cstr(fresh),
                    team_name: cstr(name),
                    user_uuid: cstr(me),
                },
            );
            send_to(s2, id, "200 TEAM_CREATED|"@ + fresh + "|"@ + name + "|"@ + desc)
        }
    }
}

/// `/create "name" "description"` inside team `t`.
pub open spec fn create_channel_spec(
    s: ServerView,
    id: u64,
    t: Seq<char>,
    args: Seq<Seq<char>>,
    fresh: Seq<char>,
) -> ServerView {
    if args.len() != 3 {
        send_to(s, id, "400 Bad Request"@)
    } else {
        let name = args[1];
        let desc = args[2];
        if byte_len(name) > MAX_NAME_LENGTH || byte_len(desc) > MAX_DESCRIPTION_LENGTH {
            send_to(s, id, "400 Bad Request: Length error"@)
        } else {
            match first_index(s.db.teams, team_has_uuid(t)) {
                None => send_to(s, id, "404 Not Found: Team unknown"@),
                Some(i) => {
                    let team = s.db.teams[i];
                    if first_index(team.channels, channel_has_name(name)) is Some {
                        send_to(s, id, "409 Conflict: Channel already exists"@)
                    } else {
                        let channel = ChannelView {
                            uuid: fresh,
                            name,
                            description: desc,
                            threads: seq![],
                        };
                        let team2 = TeamView {
                            channels: put(team.channels, channel_has_uuid(fresh), channel),
                            ..team
                        };
                        let s1 = log(
                            with_db(s, set_team(s.db, i, team2)),
                            LogCall::ServerEventChannelCreated {
                                team_uuid: cstr(t),
                                channel_uuid: cstr(fresh),
                                channel_name: cstr(name),
                            },
                        );
                        let s2 = send_to(
                            s1,
                            id,
                            "200 CHANNEL_CREATED|"@ + fresh + "|"@ + name + "|"@ + desc,
                        );
                        send_event_to_team_subscribers(
                            s2,
                            t,
                            "EVENT CHANNEL_CREATED|"@ + fresh + "|"@ + name + "|"@ + desc,
                        )
                    }
                },
            }
        }
    }
}

/// `team` with channel `ci` replaced by `c`.
pub open spec fn set_channel(team: TeamView, ci: int, c: ChannelView) -> TeamView {
    TeamView { channels: team.channels.update(ci, c), ..team }
}

/// `/create "title" "body"` inside channel `ch` of team `t`.
pub open spec fn create_thread_spec(
    s: ServerView,
    id: u64,
    me: Seq<char>,
    t: Seq<char>,
    ch: Seq<char>,
    args: Seq<Seq<char>>,
    fresh: Seq<char>,
    ts: u64,
) -> ServerView {
    if args.len() != 3 {
        send_to(s, id, "400 Bad Request"@)
    } else {
        let title = args[1];
        let body = args[2];
        if byte_len(title) > MAX_NAME_LENGTH || byte_len(body) > MAX_BODY_LENGTH {
            send_to(s, id, "400 Bad Request: Length error"@)
        } else {
            match first_index(s.db.teams, team_has_uuid(t)) {
                None => send_to(s, id, "404 Not Found: Unknown Team"@),
                Some(i) => {
                    let team = s.db.teams[i];
                    match first_index(team.channels, channel_has_uuid(ch)) {
                        None => send_to(s, id, "404 Not Found: Unknown Channel"@),
                        Some(ci) => {
                            let channel = team.channels[ci];
                            let thread = ThreadView {
                                uuid: fresh,
                                title,
                                message: body,
                                author_uuid: me,
                                replies: seq![],
                                timestamp: ts,
                            };
                            let channel2 = ChannelView {
                                threads: put(channel.threads, thread_has_uuid(fresh), thread),
                                ..channel
                            };
                            let s1 = log(
                                with_db(s, set_team(s.db, i, set_channel(team, ci, channel2))),
                                LogCall::ServerEventThreadCreated {
                                    channel_uuid: cstr(ch),
                                    thread_uuid: cstr(fresh),
                                    user_uuid: cstr(me),
                                    thread_title: cstr(title),
                                    thread_body: cstr(body),
                                },
                            );
                            let fields = fresh + "|"@ + me + "|"@ + dec(ts as nat) + "|"@ + title
                                + "|"@ + body;
                            let s2 = send_to(s1, id, "200 THREAD_CREATED|"@ + fields);
                            send_event_to_team_subscribers(
                                s2,
                                t,
                                "EVENT THREAD_CREATED|"@ + fields,
                            )
                        },
                    }
                },
            }
        }
    }
}

/// `/create "body"` inside thread `h` of channel `ch` of team `t`.
pub open spec fn create_reply_spec(
    s: ServerView,
    id: u64,
    me: Seq<char>,
    t: Seq<char>,
    ch: Seq<char>,
    h: Seq<char>,
    args: Seq<Seq<char>>,
    ts: u64,
) -> ServerView {
    if args.len() != 2 {
        send_to(s, id, "400 Bad Request"@)
    } else {
        let reply = args[1];
        if byte_len(reply) > MAX_BODY_LENGTH {
            send_to(s, id, "400 Bad Request: Reply too long"@)
        } else {
            match first_index(s.db.teams, team_has_uuid(t)) {
                None => send_to(s, id, "404 Not Found: Unknown Team"@),
                Some(i) => {
                    let team = s.db.teams[i];
                    match first_index(team.channels, channel_has_uuid(ch)) {
                        None => send_to(s, id, "404 Not Found: Unknown Channel"@),
                        Some(ci) => {
                            let channel = team.channels[ci];
                            match first_index(channel.threads, thread_has_uuid(h)) {
                                None => send_to(s, id, "404 Not Found: Unknown Thread"@),
                                Some(hi) => {
                                    let thread = channel.threads[hi];
                                    let m = MessageView {
                                        sender_uuid: me,
                                        receiver_uuid: h,
                                        body: reply,
                                        timestamp: ts,
                                    };
                                    let thread2 = ThreadView {
                                        replies: thread.replies.push(m),
                                        ..thread
                                    };
                                    let channel2 = ChannelView {
                                        threads: channel.threads.update(hi, thread2),
                                        ..channel
                                    };
                                    let s1 = log(
                                        with_db(
                                            s,
                                            set_team(s.db, i, set_channel(team, ci, channel2)),
                                        ),
                                        LogCall::ServerEventReplyCreated {
                                            thread_uuid: cstr(h),
                                            user_uuid: cstr(me),
                                            reply_body: cstr(reply),
                                        },
                                    );
                                    let s2 = send_to(
                                        s1,
                                        id,
                                        "200 REPLY_CREATED|"@ + h + "|"@ + me + "|"@ + dec(
                                            ts as nat,
                                        ) + "|"@ + reply,
                                    );
                                    send_event_to_team_subscribers(
                                        s2,
                                        t,
                                        "EVENT THREAD_REPLY_RECEIVED|"@ + t + "|"@ + h + "|"@ + me
                                            + "|"@ + reply,
                                    )
                                },
                            }
                        },
                    }
                },
            }
        }
    }
}

/// `/create`, which creates a team, channel, thread or reply depending on
/// the context of the connection.
pub open spec fn create_spec(
    s: ServerView,
    id: u64,
    args: Seq<Seq<char>>,
    fresh: Seq<char>,
    ts: u64,
) -> ServerView {
    match client_index(s, id) {
        None => s,
        Some(ci) => {
            let c = s.clients[ci].1;
            match c.uuid {
                None => send_to(s, id, "401 Unauthorized"@),
                Some(me) => if (match context_team(c.use_context) {
                    Some(t) => !is_subscribed_to_team(s.db, me, t),
                    None => false,
                }) {
                    send_to(s, id, "401 Unauthorized: Not subscribed to team"@)
                } else {
                    match c.use_context {
                        UseContextView::Global => create_team_spec(s, id, me, args, fresh),
                        UseContextView::Team(t) => create_channel_spec(s, id, t, args, fresh),
                        UseContextView::Channel(t, ch) => create_thread_spec(
                            s,
                            id,
                            me,
                            t,
                            ch,
                            args,
                            fresh,
                            ts,
                        ),
                        UseContextView::Thread(t, ch, h) => create_reply_spec(
                            s,
                            id,
                            me,
                            t,
                            ch,
                            h,
                            args,
                            ts,
                        ),
                    }
                },
            }
        },
    }
}

/// The response to `/list` in context `ctx`.
pub open spec fn list_response(db: DatabaseView, ctx: UseContextView) -> Seq<char> {
    match ctx {
        UseContextView::Global => "200 LIST_TEAMS"@ + teams_listing(db.teams, None),
        UseContextView::Team(t) => match team_of(db, t) {
            None => "404 Not Found: Unknown Team"@,
            Some(team) => "200 LIST_CHANNELS"@ + channels_listing(team.channels),
        },
        UseContextView::Channel(t, ch) => match team_of(db, t) {
            None => "404 Not Found: Unknown Team"@,
            Some(team) => match channel_of(team, ch) {
                None => "404 Not Found: Unknown Channel"@,
                Some(channel) => "200 LIST_THREADS"@ + threads_listing(channel.threads),
            },
        },
        UseContextView::Thread(t, ch, h) => match team_of(db, t) {
            None => "404 Not Found: Unknown Team"@,
            Some(team) => match channel_of(team, ch) {
                None => "404 Not Found: Unknown Channel"@,
                Some(channel) => match thread_of(channel, h) {
                    None => "404 Not Found: Unknown Thread"@,
                    Some(thread) => "200 LIST_REPLIES"@ + replies_listing(
                        thread.uuid,
                        thread.replies,
                    ),
                },
            },
        },
    }
}

/// The response to `/info` in context `ctx` for user `me`; `None` only when
/// `me` is not a known user in the global context.
pub open spec fn info_response(db: DatabaseView, me: Seq<char>, ctx: UseContextView) -> Option<
    Seq<char>,
> {
    match ctx {
        UseContextView::Global => match user_of(db, me) {
            Some(u) => Some(
                "200 INFO_USER|"@ + u.uuid + "|"@ + u.name + "|"@ + status(u.is_connected),
            ),
            None => None,
        },
        UseContextView::Team(t) => Some(
            match team_of(db, t) {
                None => "404 Not Found: Unknown Team"@,
                Some(team) => "200 INFO_TEAM"@ + "|"@ + team.uuid + "|"@ + team.name + "|"@
                    + team.description,
            },
        ),
        UseContextView::Channel(t, ch) => Some(
            match team_of(db, t) {
                None => "404 Not Found: Unknown Team"@,
                Some(team) => match channel_of(team, ch) {
                    None => "404 Not Found: Unknown Channel"@,
                    Some(c) => "200 INFO_CHANNEL"@ + "|"@ + c.uuid + "|"@ + c.name + "|"@
                        + c.description,
                },
            },
        ),
        UseContextView::Thread(t, ch, h) => Some(
            match team_of(db, t) {
                None => "404 Not Found: Unknown Team"@,
                Some(team) => match channel_of(team, ch) {
                    None => "404 Not Found: Unknown Channel"@,
                    Some(c) => match thread_of(c, h) {
                        None => "404 Not Found: Unknown Thread"@,
                        Some(th) => "200 INFO_THREAD"@ + "|"@ + th.uuid + "|"@ + th.author_uuid
                            + "|"@ + dec(th.timestamp as nat) + "|"@ + th.title + "|"@
                            + th.message,
                    },
                },
            },
        ),
    }
}

/// `/list` (`info` false) or `/info` (`info` true): both answer according to
/// the context of the connection.
pub open spec fn list_or_info_spec(s: ServerView, id: u64, info: bool) -> ServerView {
    match client_index(s, id) {
        None => s,
        Some(ci) => {
            let c = s.clients[ci].1;
            match c.uuid {
                None => send_to(
                    s,
                    id,
                    if info {
                        "401 Unauthorized"@
                    } else {
                        "401 Unauthorized: Please login first"@
                    },
                ),
                Some(me) => if (match context_team(c.use_context) {
                    Some(t) => !is_subscribed_to_team(s.db, me, t),
                    None => false,
                }) {
                    send_to(s, id, "401 Unauthorized: Not subscribed to team"@)
                } else if info {
                    match info_response(s.db, me, c.use_context) {
                        Some(r) => send_to(s, id, r),
                        None => s,
                    }
                } else {
                    send_to(s, id, list_response(s.db, c.use_context))
                },
            }
        },
    }
}

/// `/subscribed` with no identifier (teams of the user) or one (users of a team).
pub open spec fn subscribed_spec(s: ServerView, id: u64, args: Seq<Seq<char>>) -> ServerView {
    match client_uuid(s, id) {
        None => send_to(s, id, "401 Unauthorized"@),
        Some(me) => if args.len() == 1 {
            send_to(s, id, "200 SUBSCRIBED_TEAMS"@ + teams_listing(s.db.teams, Some(me)))
        } else if args.len() == 2 {
            match team_of(s.db, args[1]) {
                None => send_to(s, id, "404 Not Found: Unknown Team"@),
                Some(team) => if !subscribed(team, me) {
                    send_to(s, id, "401 Unauthorized: Not subscribed to team"@)
                } else {
                    send_to(
                        s,
                        id,
                        "200 SUBSCRIBED_USERS"@ + subscribers_listing(team.subscribers, s.db),
                    )
                },
            }
        } else {
            send_to(s, id, "400 Bad Request"@)
        },
    }
}

/// Left-to-right state of splitting a command line into arguments: the
/// finished arguments, the argument being read, and whether a quote is open.
pub open spec fn args_state(line: Seq<char>) -> (Seq<Seq<char>>, Seq<char>, bool)
    decreases line.len(),
{
    if line.len() == 0 {
        (seq![], seq![], false)
    } else {
        let (args, cur, in_quotes) = args_state(line.drop_last());
        let c = line.last();
        if c == '"' {
            (args, cur, !in_quotes)
        } else if is_ws(c) && !in_quotes {
            if cur.len() > 0 {
                (args.push(cur), seq![], in_quotes)
            } else {
                (args, cur, in_quotes)
            }
        } else {
            (args, cur.push(c), in_quotes)
        }
    }
}

/// The arguments of a command line as the server reads them: white space
/// outside quotes separates them, quotes are dropped, empty ones are skipped.
pub open spec fn command_args(line: Seq<char>) -> Seq<Seq<char>> {
    let (args, cur, _) = args_state(line);
    if cur.len() > 0 {
        args.push(cur)
    } else {
        args
    }
}

/// What the command line `line` from connection `id` does.
pub open spec fn handle_command_spec(
    s: ServerView,
    id: u64,
    line: Seq<char>,
    fresh: Seq<char>,
    ts: u64,
) -> ServerView {
    let args = command_args(line);
    if args.len() == 0 {
        s
    } else {
        let c = args[0];
        if c == "/login"@ {
            login_spec(s, id, args, fresh)
        } else if c == "/logout"@ {
            logout_spec(s, id)
        } else if c == "/send"@ {
            send_spec(s, id, args, ts)
        } else if c == "/use"@ {
            use_spec(s, id, args)
        } else if c == "/users"@ {
            users_spec(s, id)
        } else if c == "/user"@ {
            user_spec(s, id, args)
        } else if c == "/messages"@ {
            messages_spec(s, id, args)
        } else if c == "/subscribe"@ {
            subscribe_spec(s, id, args)
        } else if c == "/unsubscribe"@ {
            unsubscribe_spec(s, id, args)
        } else if c == "/create"@ {
            create_spec(s, id, args, fresh, ts)
        } else if c == "/list"@ {
            list_or_info_spec(s, id, false)
        } else if c == "/info"@ {
            list_or_info_spec(s, id, true)
        } else if c == "/subscribed"@ {
            subscribed_spec(s, id, args)
        } else {
            send_to(s, id, "400 Unknown Command"@)
        }
    }
}

} // verus!
