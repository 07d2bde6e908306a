//! The server: its connections, its data, and the handling of the command
//! lines that connections send. The program around it accepts connections,
//! moves bytes in and out, and makes the logging calls it records.
use vstd::prelude::*;
use crate::client::{Client, ClientView, UseContext, UseContextView, queue, split_line};
use crate::ffi::{LogCall, cstr};
use crate::models::{
    first_index, lemma_first_index, lemma_first_index_at, lemma_first_index_none, put,
    Database, DatabaseView, User, UserView, Message, MessageView, Team, TeamView, Channel,
    ChannelView, Thread, ThreadView, user_has_uuid, user_has_name, team_has_uuid, channel_has_uuid, thread_has_uuid, user_of, team_of, subscribed, users_view, teams_view, channels_view, threads_view, messages_view, ids_view,
    find_user, find_user_by_name, find_team, find_team_by_name, find_channel,
    find_channel_by_name, find_thread, contains_id, put_user, put_team, put_channel, put_thread,
    generate_uuid, now_secs,
};
use crate::server_model::{
    ServerView, MAX_NAME_LENGTH, MAX_DESCRIPTION_LENGTH, MAX_BODY_LENGTH, has_id, logged_in_as,
    client_index, client_uuid, set_client, send_to, log, with_db, set_connected,
    is_subscribed_to_team, context_team, reset_context_in_team, send_event_to_user, occurrences,
    repeat, deliver, send_event_to_team_subscribers, status, users_listing, between,
    messages_listing, teams_listing, channels_listing, threads_listing, replies_listing,
    subscribers_listing, remove_all, login_spec, logout_spec, send_spec, set_context, use_spec,
    users_spec, user_spec, messages_spec, set_team, subscribe_spec, unsubscribe_spec,
    create_team_spec, create_channel_spec, set_channel, create_thread_spec, create_reply_spec,
    create_spec, list_response, info_response, list_or_info_spec, subscribed_spec, args_state,
    command_args, handle_command_spec,
};
use crate::text::{owned, append_str, push_char, is_whitespace, hex, dec, utf8_len, u64_to_string, chars_of};

verus! {

broadcast use vstd::string::group_string_axioms;

/// Whether every user logged in on a connection is a known user.
pub open spec fn sessions_known(s: ServerView) -> bool {
    forall|i: int|
        0 <= i < s.clients.len() && (#[trigger] s.clients[i]).1.uuid is Some ==> user_of(
            s.db,
            s.clients[i].1.uuid->0,
        ) is Some
}

pub open spec fn clients_view(v: Seq<(u64, Client)>) -> Seq<(u64, ClientView)> {
    v.map_values(|p: (u64, Client)| (p.0, p.1@))
}

pub open spec fn log_view(v: Seq<LogCall<Vec<u8>>>) -> Seq<LogCall<Seq<u8>>> {
    v.map_values(|c: LogCall<Vec<u8>>| c@)
}

/// Lines taken from the front of the input bytes `b` until no complete line
/// is left or a line is not valid UTF-8 (that line is dropped), and the
/// bytes left.
pub open spec fn extract_all(b: Seq<u8>) -> (Seq<Seq<char>>, Seq<u8>)
    decreases b.len(),
{
    match split_line(b) {
        None => (seq![], b),
        Some((None, rest)) => {
            proof {
                lemma_first_index(b, crate::client::is_newline());
            }
            (seq![], rest)
        },
        Some((Some(l), rest)) => {
            proof {
                lemma_first_index(b, crate::client::is_newline());
            }
            let (ls, r) = extract_all(rest);
            (seq![l] + ls, r)
        },
    }
}

/// The server's connections, data and pending logging calls.
struct Core {
    clients: Vec<(u64, Client)>,
    db: Database,
    log: Vec<LogCall<Vec<u8>>>,
}

impl View for Core {
    type V = ServerView;

    closed spec fn view(&self) -> ServerView {
        ServerView {
            clients: clients_view(self.clients@),
            db: self.db@,
            log: log_view(self.log@),
        }
    }
}

proof fn lemma_put_user_keeps(users: Seq<UserView>, v: UserView, u: Seq<char>)
    requires
        first_index(users, user_has_uuid(u)) is Some,
    ensures
        first_index(put(users, user_has_uuid(v.uuid), v), user_has_uuid(u)) is Some,
{
    let s2 = put(users, user_has_uuid(v.uuid), v);
    lemma_first_index(users, user_has_uuid(u));
    lemma_first_index(users, user_has_uuid(v.uuid));
    let j = first_index(users, user_has_uuid(u))->0;
    if v.uuid == u {
        match first_index(users, user_has_uuid(v.uuid)) {
            Some(k) => {
                assert(s2[k] == v);
                lemma_first_index(s2, user_has_uuid(u));
                if first_index(s2, user_has_uuid(u)) is None {
                    assert(!user_has_uuid(u)(s2[k]));
                }
            },
            None => {},
        }
    } else {
        assert(s2[j] == users[j]) by {
            match first_index(users, user_has_uuid(v.uuid)) {
                Some(k) => {
                    assert(k != j);
                },
                None => {},
            }
        }
        lemma_first_index(s2, user_has_uuid(u));
        if first_index(s2, user_has_uuid(u)) is None {
            assert(!user_has_uuid(u)(s2[j]));
        }
    }
}

proof fn lemma_set_connected_keeps(db: DatabaseView, uuid: Seq<char>, flag: bool, u: Seq<char>)
    requires
        user_of(db, u) is Some,
    ensures
        user_of(set_connected(db, uuid, flag), u) is Some,
        set_connected(db, uuid, flag).teams == db.teams,
        set_connected(db, uuid, flag).private_messages == db.private_messages,
{
    let db2 = set_connected(db, uuid, flag);
    lemma_first_index(db.users, user_has_uuid(u));
    lemma_first_index(db.users, user_has_uuid(uuid));
    let j = first_index(db.users, user_has_uuid(u))->0;
    assert(db2.users.len() == db.users.len());
    assert(db2.users[j].uuid == db.users[j].uuid);
    lemma_first_index(db2.users, user_has_uuid(u));
    if first_index(db2.users, user_has_uuid(u)) is None {
        assert(!user_has_uuid(u)(db2.users[j]));
    }
}

/// Whether `a` and `b` have the same users and the same user on each connection.
pub open spec fn same_sessions(a: ServerView, b: ServerView) -> bool {
    &&& a.clients.len() == b.clients.len()
    &&& forall|i: int| 0 <= i < a.clients.len() ==> (#[trigger] a.clients[i]).1.uuid == b.clients[i].1.uuid
    &&& a.db.users == b.db.users
}

proof fn lemma_same_sessions(a: ServerView, b: ServerView)
    requires
        same_sessions(a, b),
        sessions_known(a),
    ensures
        sessions_known(b),
{
    assert forall|i: int|
        0 <= i < b.clients.len() && (#[trigger] b.clients[i]).1.uuid is Some implies user_of(
        b.db,
        b.clients[i].1.uuid->0,
    ) is Some by {
        assert(a.clients[i].1.uuid == b.clients[i].1.uuid);
    }
}

proof fn lemma_set_client_twice(s: ServerView, i: int, x: ClientView, y: ClientView)
    requires
        0 <= i < s.clients.len(),
    ensures
        set_client(set_client(s, i, x), i, y) == set_client(s, i, y),
{
    assert(set_client(set_client(s, i, x), i, y).clients =~= set_client(s, i, y).clients);
}

proof fn lemma_put_user_has(users: Seq<UserView>, v: UserView)
    ensures
        first_index(put(users, user_has_uuid(v.uuid), v), user_has_uuid(v.uuid)) is Some,
{
    let s2 = put(users, user_has_uuid(v.uuid), v);
    lemma_first_index(users, user_has_uuid(v.uuid));
    lemma_first_index(s2, user_has_uuid(v.uuid));
    match first_index(users, user_has_uuid(v.uuid)) {
        Some(k) => {
            if first_index(s2, user_has_uuid(v.uuid)) is None {
                assert(!user_has_uuid(v.uuid)(s2[k]));
            }
        },
        None => {
            if first_index(s2, user_has_uuid(v.uuid)) is None {
                assert(!user_has_uuid(v.uuid)(s2[users.len() as int]));
            }
        },
    }
}

/// The state is unchanged but for what is queued on connections and for
/// their contexts.
proof fn lemma_send_to_same(s: ServerView, id: u64, msg: Seq<char>)
    ensures
        same_sessions(s, send_to(s, id, msg)),
        send_to(s, id, msg).db == s.db,
        send_to(s, id, msg).log == s.log,
{
    lemma_first_index(s.clients, has_id(id));
}

proof fn lemma_send_to_known(s: ServerView, id: u64, msg: Seq<char>)
    requires
        sessions_known(s),
    ensures
        sessions_known(send_to(s, id, msg)),
        send_to(s, id, msg).db == s.db,
        send_to(s, id, msg).log == s.log,
{
    lemma_send_to_same(s, id, msg);
    lemma_same_sessions(s, send_to(s, id, msg));
}

proof fn lemma_same_trans(a: ServerView, b: ServerView, c: ServerView)
    requires
        same_sessions(a, b),
        same_sessions(b, c),
    ensures
        same_sessions(a, c),
{
    assert forall|i: int| 0 <= i < a.clients.len() implies (#[trigger] a.clients[i]).1.uuid
        == c.clients[i].1.uuid by {
        assert(a.clients[i].1.uuid == b.clients[i].1.uuid);
    }
}

proof fn lemma_event_to_user_same(s: ServerView, u: Seq<char>, msg: Seq<char>)
    ensures
        same_sessions(s, send_event_to_user(s, u, msg)),
        send_event_to_user(s, u, msg).db == s.db,
        send_event_to_user(s, u, msg).log == s.log,
{
    lemma_first_index(s.clients, logged_in_as(u));
}

proof fn lemma_set_context_same(s: ServerView, id: u64, ctx: UseContextView)
    ensures
        same_sessions(s, set_context(s, id, ctx)),
        set_context(s, id, ctx).db == s.db,
        set_context(s, id, ctx).log == s.log,
{
    lemma_first_index(s.clients, has_id(id));
}

proof fn lemma_reset_same(s: ServerView, id: u64, t: Seq<char>)
    ensures
        same_sessions(s, reset_context_in_team(s, id, t)),
        reset_context_in_team(s, id, t).db == s.db,
        reset_context_in_team(s, id, t).log == s.log,
{
    lemma_first_index(s.clients, has_id(id));
}

proof fn lemma_team_event_same(s: ServerView, t: Seq<char>, msg: Seq<char>)
    ensures
        same_sessions(s, send_event_to_team_subscribers(s, t, msg)),
        send_event_to_team_subscribers(s, t, msg).db == s.db,
        send_event_to_team_subscribers(s, t, msg).log == s.log,
{
}

/// A connection may get a user that is known.
proof fn lemma_set_client_known(s: ServerView, i: int, c: ClientView)
    requires
        sessions_known(s),
        0 <= i < s.clients.len(),
        c.uuid is Some ==> user_of(s.db, c.uuid->0) is Some,
    ensures
        sessions_known(set_client(s, i, c)),
{
    let s2 = set_client(s, i, c);
    assert forall|j: int|
        0 <= j < s2.clients.len() && (#[trigger] s2.clients[j]).1.uuid is Some implies user_of(
        s2.db,
        s2.clients[j].1.uuid->0,
    ) is Some by {
        if j != i {
            assert(s2.clients[j] == s.clients[j]);
        }
    }
}

fn status_str(b: bool) -> (r: &'static str)
    ensures
        r@ == status(b),
{
    if b {
        "1"
    } else {
        "0"
    }
}

/// `|uuid:name:status` for each user.
fn list_users(users: &Vec<User>) -> (r: String)
    ensures
        r@ == users_listing(users_view(users@)),
{
    let ghost us = users_view(users@);
    let mut r = String::new();
    let mut i: usize = 0;
    while i < users.len()
        invariant
            i <= users@.len(),
            us == users_view(users@),
            r@ == users_listing(us.take(i as int)),
        decreases users@.len() - i,
    {
        let u = &users[i];
        append_str(&mut r, "|");
        append_str(&mut r, u.uuid.as_str());
        append_str(&mut r, ":");
        append_str(&mut r, u.name.as_str());
        append_str(&mut r, ":");
        append_str(&mut r, status_str(u.is_connected));
        assert(us.take(i + 1).drop_last() =~= us.take(i as int));
        i += 1;
    }
    assert(us.take(i as int) =~= us);
    r
}

/// `|sender:timestamp:body` for each message exchanged between `a` and `b`.
fn list_messages(ms: &Vec<Message>, a: &str, b: &str) -> (r: String)
    ensures
        r@ == messages_listing(messages_view(ms@), a@, b@),
{
    let ghost v = messages_view(ms@);
    let mut r = String::new();
    let mut i: usize = 0;
    while i < ms.len()
        invariant
            i <= ms@.len(),
            v == messages_view(ms@),
            r@ == messages_listing(v.take(i as int), a@, b@),
        decreases ms@.len() - i,
    {
        let m = &ms[i];
        assert(v.take(i + 1).drop_last() =~= v.take(i as int));
        let s_a = crate::text::str_eq(m.sender_uuid.as_str(), a);
        let r_b = crate::text::str_eq(m.receiver_uuid.as_str(), b);
        let s_b = crate::text::str_eq(m.sender_uuid.as_str(), b);
        let r_a = crate::text::str_eq(m.receiver_uuid.as_str(), a);
        if (s_a && r_b) || (s_b && r_a) {
            let ghost before = r@;
            append_str(&mut r, "|");
            append_str(&mut r, m.sender_uuid.as_str());
            append_str(&mut r, ":");
            let ts = u64_to_string(m.timestamp);
            append_str(&mut r, ts.as_str());
            append_str(&mut r, ":");
            append_str(&mut r, m.body.as_str());
            assert(r@ =~= before + ("|"@ + m.sender_uuid@ + ":"@ + dec(m.timestamp as nat) + ":"@
                + m.body@));
        } else {
            assert(r@ =~= r@ + Seq::<char>::empty());
        }
        i += 1;
    }
    assert(v.take(i as int) =~= v);
    r
}

/// `|uuid:name:description` for each team, only those `only_of` subscribes
/// to when it is given.
fn list_teams(teams: &Vec<Team>, only_of: Option<&str>) -> (r: String)
    ensures
        r@ == teams_listing(
            teams_view(teams@),
            match only_of {
                Some(u) => Some(u@),
                None => None,
            },
        ),
{
    let ghost v = teams_view(teams@);
    let ghost o = match only_of {
        Some(u) => Some(u@),
        None => None,
    };
    let mut r = String::new();
    let mut i: usize = 0;
    while i < teams.len()
        invariant
            i <= teams@.len(),
            v == teams_view(teams@),
            o == (match only_of {
                Some(u) => Some(u@),
                None => None::<Seq<char>>,
            }),
            r@ == teams_listing(v.take(i as int), o),
        decreases teams@.len() - i,
    {
        let t = &teams[i];
        assert(v.take(i + 1).drop_last() =~= v.take(i as int));
        let keep = match only_of {
            Some(u) => contains_id(&t.subscribers, u),
            None => true,
        };
        if keep {
            let ghost before = r@;
            append_str(&mut r, "|");
            append_str(&mut r, t.uuid.as_str());
            append_str(&mut r, ":");
            append_str(&mut r, t.name.as_str());
            append_str(&mut r, ":");
            append_str(&mut r, t.description.as_str());
            assert(r@ =~= before + ("|"@ + t.uuid@ + ":"@ + t.name@ + ":"@ + t.description@));
        } else {
            assert(r@ =~= r@ + Seq::<char>::empty());
        }
        i += 1;
    }
    assert(v.take(i as int) =~= v);
    r
}

/// `|uuid:name:description` for each channel.
fn list_channels(cs: &Vec<Channel>) -> (r: String)
    ensures
        r@ == channels_listing(channels_view(cs@)),
{
    let ghost v = channels_view(cs@);
    let mut r = String::new();
    let mut i: usize = 0;
    while i < cs.len()
        invariant
            i <= cs@.len(),
            v == channels_view(cs@),
            r@ == channels_listing(v.take(i as int)),
        decreases cs@.len() - i,
    {
        let c = &cs[i];
        append_str(&mut r, "|");
        append_str(&mut r, c.uuid.as_str());
        append_str(&mut r, ":");
        append_str(&mut r, c.name.as_str());
        append_str(&mut r, ":");
        append_str(&mut r, c.description.as_str());
        assert(v.take(i + 1).drop_last() =~= v.take(i as int));
        i += 1;
    }
    assert(v.take(i as int) =~= v);
    r
}

/// `|uuid:author:timestamp:title:message` for each thread.
fn list_threads(hs: &Vec<Thread>) -> (r: String)
    ensures
        r@ == threads_listing(threads_view(hs@)),
{
    let ghost v = threads_view(hs@);
    let mut r = String::new();
    let mut i: usize = 0;
    while i < hs.len()
        invariant
            i <= hs@.len(),
            v == threads_view(hs@),
            r@ == threads_listing(v.take(i as int)),
        decreases hs@.len() - i,
    {
        let h = &hs[i];
        append_str(&mut r, "|");
        append_str(&mut r, h.uuid.as_str());
        append_str(&mut r, ":");
        append_str(&mut r, h.author_uuid.as_str());
        append_str(&mut r, ":");
        let ts = u64_to_string(h.timestamp);
        append_str(&mut r, ts.as_str());
        append_str(&mut r, ":");
        append_str(&mut r, h.title.as_str());
        append_str(&mut r, ":");
        append_str(&mut r, h.message.as_str());
        assert(v.take(i + 1).drop_last() =~= v.take(i as int));
        i += 1;
    }
    assert(v.take(i as int) =~= v);
    r
}

/// `|thread:sender:timestamp:body` for each reply.
fn list_replies(thread: &str, rs: &Vec<Message>) -> (r: String)
    ensures
        r@ == replies_listing(thread@, messages_view(rs@)),
{
    let ghost v = messages_view(rs@);
    let mut r = String::new();
    let mut i: usize = 0;
    while i < rs.len()
        invariant
            i <= rs@.len(),
            v == messages_view(rs@),
            r@ == replies_listing(thread@, v.take(i as int)),
        decreases rs@.len() - i,
    {
        let m = &rs[i];
        append_str(&mut r, "|");
        append_str(&mut r, thread);
        append_str(&mut r, ":");
        append_str(&mut r, m.sender_uuid.as_str());
        append_str(&mut r, ":");
        let ts = u64_to_string(m.timestamp);
        append_str(&mut r, ts.as_str());
        append_str(&mut r, ":");
        append_str(&mut r, m.body.as_str());
        assert(v.take(i + 1).drop_last() =~= v.take(i as int));
        i += 1;
    }
    assert(v.take(i as int) =~= v);
    r
}

/// `|uuid:name:status` for each subscriber that is a known user.
fn list_subscribers(subs: &Vec<String>, db: &Database) -> (r: String)
    ensures
        r@ == subscribers_listing(ids_view(subs@), db@),
{
    let ghost v = ids_view(subs@);
    let mut r = String::new();
    let mut i: usize = 0;
    while i < subs.len()
        invariant
            i <= subs@.len(),
            v == ids_view(subs@),
            r@ == subscribers_listing(v.take(i as int), db@),
        decreases subs@.len() - i,
    {
        assert(v.take(i + 1).drop_last() =~= v.take(i as int));
        assert(v[i as int] == subs@[i as int]@);
        match find_user(&db.users, subs[i].as_str()) {
            Some(j) => {
                proof {
                    lemma_first_index(db@.users, user_has_uuid(v[i as int]));
                }
                let u = &db.users[j];
                let ghost before = r@;
                append_str(&mut r, "|");
                append_str(&mut r, u.uuid.as_str());
                append_str(&mut r, ":");
                append_str(&mut r, u.name.as_str());
                append_str(&mut r, ":");
                append_str(&mut r, status_str(u.is_connected));
                assert(r@ =~= before + ("|"@ + u.uuid@ + ":"@ + u.name@ + ":"@ + status(
                    u.is_connected,
                )));
            },
            None => {
                assert(r@ =~= r@ + Seq::<char>::empty());
            },
        }
        i += 1;
    }
    assert(v.take(i as int) =~= v);
    r
}

/// Splits a command line into arguments (see [`command_args`]).
pub fn parse_command_args(command_line: &str) -> (args: Vec<String>)
    ensures
        crate::command::strings_view(args@) == command_args(command_line@),
{
    let v = chars_of(command_line);
    let mut args: Vec<String> = Vec::new();
    let mut current = String::new();
    let mut current_len: usize = 0;
    let mut in_quotes = false;
    let mut i: usize = 0;
    while i < v.len()
        invariant
            i <= v@.len(),
            v@ == command_line@,
            current_len == current@.len(),
            current_len <= i,
            (crate::command::strings_view(args@), current@, in_quotes) == args_state(
                v@.take(i as int),
            ),
        decreases v@.len() - i,
    {
        let c = v[i];
        assert(v@.take(i + 1).drop_last() =~= v@.take(i as int));
        assert(v@.take(i + 1).last() == c);
        if c == '"' {
            in_quotes = !in_quotes;
        } else if is_whitespace(c) && !in_quotes {
            if current_len > 0 {
                let ghost before = args@;
                let done = current;
                let ghost dv = done@;
                args.push(done);
                assert(crate::command::strings_view(args@) =~= crate::command::strings_view(
                    before,
                ).push(dv));
                current = String::new();
                current_len = 0;
            }
        } else {
            push_char(&mut current, c);
            current_len += 1;
        }
        i += 1;
    }
    assert(v@.take(i as int) =~= v@);
    if current_len > 0 {
        let ghost before = args@;
        let ghost dv = current@;
        args.push(current);
        assert(crate::command::strings_view(args@) =~= crate::command::strings_view(before).push(
            dv,
        ));
    }
    args
}

/// `ids` without any occurrence of `x`.
fn without_id(ids: &Vec<String>, x: &str) -> (r: Vec<String>)
    ensures
        ids_view(r@) == remove_all(ids_view(ids@), x@),
{
    let ghost v = ids_view(ids@);
    let mut r: Vec<String> = Vec::new();
    let mut i: usize = 0;
    while i < ids.len()
        invariant
            i <= ids@.len(),
            v == ids_view(ids@),
            ids_view(r@) == remove_all(v.take(i as int), x@),
        decreases ids@.len() - i,
    {
        assert(v.take(i + 1).drop_last() =~= v.take(i as int));
        assert(v[i as int] == ids@[i as int]@);
        if !crate::text::str_eq(ids[i].as_str(), x) {
            let ghost before = r@;
            let e = ids[i].clone();
            r.push(e);
            assert(ids_view(r@) =~= ids_view(before).push(v[i as int]));
        }
        i += 1;
    }
    assert(v.take(i as int) =~= v);
    r
}

impl Core {
    /// A server with no connections, holding `db`.
    fn new(db: Database) -> (s: Core)
        ensures
            s@ == (ServerView { clients: seq![], db: db@, log: seq![] }),
    {
        let s = Core { clients: Vec::new(), db, log: Vec::new() };
        assert(s@.clients =~= Seq::<(u64, ClientView)>::empty());
        assert(s@.log =~= Seq::<LogCall<Seq<u8>>>::empty());
        s
    }

    /// The server's data.
    fn database(&self) -> (db: &Database)
        ensures
            db@ == self@.db,
    {
        &self.db
    }

    fn client_pos(&self, id: u64) -> (r: Option<usize>)
        ensures
            match r {
                Some(i) => client_index(self@, id) == Some(i as int) && i < self@.clients.len(),
                None => client_index(self@, id) is None,
            },
    {
        let ghost s = self@.clients;
        let mut i: usize = 0;
        while i < self.clients.len()
            invariant
                i <= self.clients@.len(),
                s == clients_view(self.clients@),
                forall|j: int| 0 <= j < i ==> !has_id(id)(s[j]),
            decreases self.clients@.len() - i,
        {
            if self.clients[i].0 == id {
                proof {
                    lemma_first_index_at(s, has_id(id), i as int);
                }
                return Some(i);
            }
            i += 1;
        }
        proof {
            lemma_first_index_none(s, has_id(id));
        }
        None
    }

    /// Registers a new connection under `id`, replacing any connection
    /// already registered under it.
    fn add_client(&mut self, id: u64)
        requires
            sessions_known(old(self)@),
        ensures
            sessions_known(final(self)@),
            final(self)@ == (ServerView {
                clients: put(old(self)@.clients, has_id(id), (id, crate::client::fresh_client())),
                ..old(self)@
            }),
    {
        let c = Client::new();
        let ghost cv = c@;
        match self.client_pos(id) {
            Some(i) => {
                self.clients.set(i, (id, c));
                assert(self@.clients =~= old(self)@.clients.update(i as int, (id, cv)));
            },
            None => {
                self.clients.push((id, c));
                assert(self@.clients =~= old(self)@.clients.push((id, cv)));
            },
        }
        assert(sessions_known(self@)) by {
            assert forall|j: int|
                0 <= j < self@.clients.len() && (#[trigger] self@.clients[j]).1.uuid is Some implies user_of(
                self@.db,
                self@.clients[j].1.uuid->0,
            ) is Some by {
                assert(self@.clients[j] == old(self)@.clients[j]);
            }
        }
    }

    /// Forgets connection `id`, recording that its user logged out when one
    /// was logged in on it.
    fn remove_client(&mut self, id: u64)
        requires
            sessions_known(old(self)@),
        ensures
            sessions_known(final(self)@),
            final(self)@ == match client_index(old(self)@, id) {
                None => old(self)@,
                Some(i) => {
                    let s1 = ServerView {
                        clients: old(self)@.clients.remove(i),
                        ..old(self)@
                    };
                    match old(self)@.clients[i].1.uuid {
                        Some(u) => log(s1, LogCall::ServerEventUserLoggedOut { user_uuid: cstr(u) }),
                        None => s1,
                    }
                },
            },
    {
        match self.client_pos(id) {
            None => {},
            Some(i) => {
                let (_, c) = self.clients.remove(i);
                assert(self@.clients =~= old(self)@.clients.remove(i as int));
                assert(sessions_known(self@)) by {
                    assert forall|j: int|
                        0 <= j < self@.clients.len() && (#[trigger] self@.clients[j]).1.uuid is Some implies user_of(
                        self@.db,
                        self@.clients[j].1.uuid->0,
                    ) is Some by {
                        if j < i {
                            assert(self@.clients[j] == old(self)@.clients[j]);
                        } else {
                            assert(self@.clients[j] == old(self)@.clients[j + 1]);
                        }
                    }
                }
                match &c.uuid {
                    Some(u) => {
                        let call = crate::ffi::call_user_logged_out(u.as_str());
                        self.log.push(call);
                        assert(self@.log =~= old(self)@.log.push(call@));
                    },
                    None => {},
                }
            },
        }
    }

    /// Appends `data` to the input bytes of connection `id` and takes out the
    /// complete command lines (see [`extract_all`]); nothing happens when no
    /// connection is registered under `id`.
    fn receive(&mut self, id: u64, data: &[u8]) -> (cmds: Vec<String>)
        requires
            sessions_known(old(self)@),
        ensures
            sessions_known(final(self)@),
            match client_index(old(self)@, id) {
                None => final(self)@ == old(self)@ && cmds@.len() == 0,
                Some(i) => {
                    let c = old(self)@.clients[i].1;
                    let (lines, rest) = extract_all(c.read_buffer + data@);
                    &&& crate::command::strings_view(cmds@) == lines
                    &&& final(self)@ == set_client(
                        old(self)@,
                        i,
                        ClientView { read_buffer: rest, ..c },
                    )
                },
            },
    {
        let mut cmds: Vec<String> = Vec::new();
        let i = match self.client_pos(id) {
            None => {
                return cmds;
            },
            Some(i) => i,
        };
        proof {
            lemma_first_index(old(self)@.clients, has_id(id));
        }
        let ghost c0 = old(self)@.clients[i as int].1;
        let mut rb = self.clients[i].1.read_buffer.clone();
        assert(rb@ == c0.read_buffer);
        let mut k: usize = 0;
        while k < data.len()
            invariant
                k <= data@.len(),
                rb@ == c0.read_buffer + data@.take(k as int),
            decreases data@.len() - k,
        {
            rb.push(data[k]);
            assert(rb@ =~= c0.read_buffer + data@.take(k + 1));
            k += 1;
        }
        assert(data@.take(k as int) =~= data@);
        let ghost all = rb@;
        self.clients[i].1.read_buffer = rb;
        assert(extract_all(all).0 =~= crate::command::strings_view(cmds@) + extract_all(all).0);
        loop
            invariant
                i < self.clients@.len(),
                self.clients@.len() == old(self)@.clients.len(),
                sessions_known(old(self)@),
                all == c0.read_buffer + data@,
                client_index(old(self)@, id) == Some(i as int),
                self@.clients == old(self)@.clients.update(
                    i as int,
                    (id, ClientView { read_buffer: self@.clients[i as int].1.read_buffer, ..c0 }),
                ),
                self@.db == old(self)@.db,
                self@.log == old(self)@.log,
                old(self)@.clients[i as int].0 == id,
                c0 == old(self)@.clients[i as int].1,
                extract_all(all).0 == crate::command::strings_view(cmds@) + extract_all(
                    self@.clients[i as int].1.read_buffer,
                ).0,
                extract_all(all).1 == extract_all(self@.clients[i as int].1.read_buffer).1,
            decreases self@.clients[i as int].1.read_buffer.len(),
        {
            let ghost before = self@.clients[i as int].1.read_buffer;
            proof {
                lemma_first_index(before, crate::client::is_newline());
            }
            let ghost v0 = self.clients@;
            let ghost x0 = (id, ClientView { read_buffer: before, ..c0 });
            assert(clients_view(v0) == old(self)@.clients.update(i as int, x0));
            assert(clients_view(v0).len() == v0.len());
            assert(v0.len() == old(self)@.clients.len());
            assert(self@.clients[i as int] == (v0[i as int].0, v0[i as int].1@));
            let next = self.clients[i].1.extract_command();
            assert(next is None ==> extract_all(before).1 == self.clients@[i as int].1@.read_buffer);
            assert(self.clients@ == v0.update(i as int, (v0[i as int].0, self.clients@[i as int].1)));
            assert forall|j: int| 0 <= j < v0.len() && j != i implies #[trigger] self@.clients[j] == old(self)@.clients[j] by {
                assert(clients_view(v0)[j] == (v0[j].0, v0[j].1@));
                assert(old(self)@.clients.update(i as int, x0)[j] == old(self)@.clients[j]);
                assert(self@.clients[j] == (self.clients@[j].0, self.clients@[j].1@));
            }
            assert(self@.clients[i as int] == (self.clients@[i as int].0, self.clients@[i as int].1@));
            assert(self@.clients =~= old(self)@.clients.update(
                i as int,
                (id, ClientView { read_buffer: self@.clients[i as int].1.read_buffer, ..c0 }),
            ));
            match next {
                Some(cmd) => {
                    let ghost cv = cmd@;
                    let ghost prev = cmds@;
                    cmds.push(cmd);
                    assert(crate::command::strings_view(cmds@) =~= crate::command::strings_view(
                        prev,
                    ).push(cv));
                    assert(crate::command::strings_view(prev) + extract_all(before).0 =~=
                        crate::command::strings_view(cmds@) + extract_all(
                        self@.clients[i as int].1.read_buffer,
                    ).0);
                },
                None => {
                    assert(crate::command::strings_view(cmds@) + extract_all(before).0 =~=
                        crate::command::strings_view(cmds@));
                    assert(self@.clients =~= set_client(
                        old(self)@,
                        i as int,
                        ClientView { read_buffer: extract_all(all).1, ..c0 },
                    ).clients);
                    assert(self@ == set_client(
                        old(self)@,
                        i as int,
                        ClientView { read_buffer: extract_all(all).1, ..c0 },
                    ));
                    assert(all == c0.read_buffer + data@);
                    assert(same_sessions(old(self)@, self@));
                    proof {
                        lemma_same_sessions(old(self)@, self@);
                    }
                    return cmds;
                },
            }
        }
    }

    /// The bytes waiting to be sent on connection `id`.
    fn pending_output(&self, id: u64) -> (out: Vec<u8>)
        ensures
            out@ == match client_index(self@, id) {
                Some(i) => self@.clients[i].1.write_buffer,
                None => seq![],
            },
    {
        match self.client_pos(id) {
            Some(i) => self.clients[i].1.write_buffer.clone(),
            None => Vec::new(),
        }
    }

    /// Drops the first `n` bytes waiting on connection `id`, once they were sent.
    fn consume_output(&mut self, id: u64, n: usize)
        requires
            sessions_known(old(self)@),
        ensures
            sessions_known(final(self)@),
            final(self)@ == match client_index(old(self)@, id) {
                Some(i) => set_client(
                    old(self)@,
                    i,
                    ClientView {
                        write_buffer: old(self)@.clients[i].1.write_buffer.skip(
                            if n <= old(self)@.clients[i].1.write_buffer.len() {
                                n as int
                            } else {
                                old(self)@.clients[i].1.write_buffer.len() as int
                            },
                        ),
                        ..old(self)@.clients[i].1
                    },
                ),
                None => old(self)@,
            },
    {
        match self.client_pos(id) {
            None => {},
            Some(i) => {
                let w = &self.clients[i].1.write_buffer;
                let from = if n <= w.len() {
                    n
                } else {
                    w.len()
                };
                let mut rest: Vec<u8> = Vec::new();
                let mut k = from;
                while k < w.len()
                    invariant
                        from <= k <= w@.len(),
                        rest@ == w@.subrange(from as int, k as int),
                    decreases w@.len() - k,
                {
                    rest.push(w[k]);
                    assert(rest@ =~= w@.subrange(from as int, k + 1));
                    k += 1;
                }
                assert(rest@ =~= w@.skip(from as int));
                self.clients[i].1.write_buffer = rest;
                assert(same_sessions(old(self)@, self@));
                proof {
                    lemma_same_sessions(old(self)@, self@);
                }
                assert(self@.clients =~= set_client(
                    old(self)@,
                    i as int,
                    ClientView {
                        write_buffer: old(self)@.clients[i as int].1.write_buffer.skip(
                            from as int,
                        ),
                        ..old(self)@.clients[i as int].1
                    },
                ).clients);
            },
        }
    }

    /// Takes out the logging calls recorded so far, oldest first.
    fn take_log(&mut self) -> (calls: Vec<LogCall<Vec<u8>>>)
        requires
            sessions_known(old(self)@),
        ensures
            sessions_known(final(self)@),
            log_view(calls@) == old(self)@.log,
            final(self)@ == (ServerView { log: seq![], ..old(self)@ }),
    {
        let mut calls: Vec<LogCall<Vec<u8>>> = Vec::new();
        std::mem::swap(&mut calls, &mut self.log);
        assert(self@.log =~= Seq::<LogCall<Seq<u8>>>::empty());
        proof {
            lemma_same_sessions(old(self)@, self@);
        }
        calls
    }

    /// The user logged in on connection `id`.
    fn get_client_uuid(&self, id: u64) -> (r: Option<String>)
        ensures
            crate::command::opt_view(r) == client_uuid(self@, id),
    {
        match self.client_pos(id) {
            Some(i) => match &self.clients[i].1.uuid {
                Some(u) => Some(u.clone()),
                None => None,
            },
            None => None,
        }
    }

    /// Queues `msg` on connection `id`, when there is one.
    fn send_to(&mut self, id: u64, msg: &str)
        ensures
            final(self)@ == send_to(old(self)@, id, msg@),
    {
        match self.client_pos(id) {
            Some(i) => {
                self.clients[i].1.queue_message(msg);
                assert(self@.clients =~= send_to(old(self)@, id, msg@).clients);
            },
            None => {},
        }
    }

    /// Takes connection `i`'s state out, leaving a fresh one in its place.
    fn take_client(&mut self, i: usize) -> (c: Client)
        requires
            i < old(self)@.clients.len(),
        ensures
            c@ == old(self)@.clients[i as int].1,
            final(self)@ == set_client(old(self)@, i as int, crate::client::fresh_client()),
    {
        let mut c = Client::new();
        let ghost v0 = self.clients@;
        assert(self@.clients[i as int] == (v0[i as int].0, v0[i as int].1@));
        std::mem::swap(&mut c, &mut self.clients[i].1);
        assert(self.clients@ == v0.update(i as int, (v0[i as int].0, self.clients@[i as int].1)));
        assert forall|j: int| 0 <= j < v0.len() && j != i implies #[trigger] self@.clients[j]
            == old(self)@.clients[j] by {
            assert(clients_view(v0)[j] == (v0[j].0, v0[j].1@));
            assert(self@.clients[j] == (self.clients@[j].0, self.clients@[j].1@));
        }
        assert(self@.clients[i as int] == (self.clients@[i as int].0, self.clients@[i as int].1@));
        assert(self@.clients =~= set_client(
            old(self)@,
            i as int,
            crate::client::fresh_client(),
        ).clients);
        c
    }

    /// Puts `c` back as connection `i`'s state.
    fn put_client(&mut self, i: usize, c: Client)
        requires
            i < old(self)@.clients.len(),
        ensures
            final(self)@ == set_client(old(self)@, i as int, c@),
    {
        let id = self.clients[i].0;
        let ghost cv = c@;
        self.clients.set(i, (id, c));
        assert(self@.clients =~= set_client(old(self)@, i as int, cv).clients);
    }

    /// Records the logging call `call`.
    fn push_log(&mut self, call: LogCall<Vec<u8>>)
        ensures
            final(self)@ == log(old(self)@, call@),
    {
        let ghost cv = call@;
        self.log.push(call);
        assert(self@.log =~= old(self)@.log.push(cv));
    }

    /// Sets whether the user stored under `uuid` is connected.
    fn set_user_connected(&mut self, uuid: &str, flag: bool)
        ensures
            final(self)@ == with_db(old(self)@, set_connected(old(self)@.db, uuid@, flag)),
    {
        match find_user(&self.db.users, uuid) {
            Some(j) => {
                proof {
                    lemma_first_index(old(self)@.db.users, user_has_uuid(uuid@));
                }
                self.db.users[j].is_connected = flag;
                assert(self@.db.users =~= set_connected(old(self)@.db, uuid@, flag).users);
            },
            None => {},
        }
    }

    /// Whether `user` subscribes to the team stored under `team`.
    pub fn is_subscribed_to_team(&self, user: &str, team: &str) -> (r: bool)
        ensures
            r == is_subscribed_to_team(self@.db, user@, team@),
    {
        match find_team(&self.db.teams, team) {
            Some(i) => {
                proof {
                    lemma_first_index(self@.db.teams, team_has_uuid(team@));
                }
                contains_id(&self.db.teams[i].subscribers, user)
            },
            None => false,
        }
    }

    /// The team that `context` is inside of.
    pub fn context_team_uuid(context: &UseContext) -> (r: Option<&str>)
        ensures
            match r {
                Some(t) => context_team(context@) == Some(t@),
                None => context_team(context@) is None,
            },
    {
        match context {
            UseContext::Global => None,
            UseContext::Team(team_uuid) => Some(team_uuid.as_str()),
            UseContext::Channel(team_uuid, _) => Some(team_uuid.as_str()),
            UseContext::Thread(team_uuid, _, _) => Some(team_uuid.as_str()),
        }
    }

    /// Moves connection `id` back to the global context when its context is
    /// inside team `team_uuid`.
    fn reset_client_context_if_inside_team(&mut self, id: u64, team_uuid: &str)
        ensures
            final(self)@ == reset_context_in_team(old(self)@, id, team_uuid@),
    {
        match self.client_pos(id) {
            Some(i) => {
                let must_reset = match Self::context_team_uuid(&self.clients[i].1.use_context) {
                    Some(t) => crate::text::str_eq(t, team_uuid),
                    None => false,
                };
                if must_reset {
                    let mut c = self.take_client(i);
                    c.use_context = UseContext::Global;
                    self.put_client(i, c);
                    proof {
                        lemma_set_client_twice(
                            old(self)@,
                            i as int,
                            crate::client::fresh_client(),
                            ClientView {
                                use_context: UseContextView::Global,
                                ..old(self)@.clients[i as int].1
                            },
                        );
                    }
                }
            },
            None => {},
        }
    }

    /// Queues `msg` on the first connection where `user_uuid` is logged in.
    fn send_event_to_user(&mut self, user_uuid: &str, msg: &str)
        ensures
            final(self)@ == send_event_to_user(old(self)@, user_uuid@, msg@),
    {
        let ghost s = self@.clients;
        let ghost p = logged_in_as(user_uuid@);
        let mut i: usize = 0;
        while i < self.clients.len()
            invariant
                self@ == old(self)@,
                i <= self.clients@.len(),
                s == self@.clients,
                p == logged_in_as(user_uuid@),
                forall|j: int| 0 <= j < i ==> !p(s[j]),
            decreases self.clients@.len() - i,
        {
            let hit = match &self.clients[i].1.uuid {
                Some(u) => crate::text::str_eq(u.as_str(), user_uuid),
                None => false,
            };
            assert(s[i as int] == (self.clients@[i as int].0, self.clients@[i as int].1@));
            if hit {
                proof {
                    lemma_first_index_at(s, p, i as int);
                }
                let mut c = self.take_client(i);
                c.queue_message(msg);
                self.put_client(i, c);
                proof {
                    lemma_set_client_twice(
                        old(self)@,
                        i as int,
                        crate::client::fresh_client(),
                        queue(old(self)@.clients[i as int].1, msg@),
                    );
                }
                return;
            }
            i += 1;
        }
        proof {
            lemma_first_index_none(s, p);
        }
    }

    /// Queues `msg` on every connection of every subscriber of team
    /// `team_uuid` (once per time the user appears among the subscribers).
    fn send_event_to_team_subscribers(&mut self, team_uuid: &str, msg: &str)
        ensures
            final(self)@ == send_event_to_team_subscribers(old(self)@, team_uuid@, msg@),
    {
        let subscribers = match find_team(&self.db.teams, team_uuid) {
            Some(t) => {
                proof {
                    lemma_first_index(old(self)@.db.teams, team_has_uuid(team_uuid@));
                }
                self.db.teams[t].subscribers.clone()
            },
            None => {
                return;
            },
        };
        let ghost subs = ids_view(subscribers@);
        assert(subs == team_of(old(self)@.db, team_uuid@)->0.subscribers);
        let ghost o = old(self)@.clients;
        let mut k: usize = 0;
        while k < subscribers.len()
            invariant
                k <= subscribers@.len(),
                subs == ids_view(subscribers@),
                self@.db == old(self)@.db,
                self@.log == old(self)@.log,
                self@.clients.len() == o.len(),
                o == old(self)@.clients,
                forall|j: int|
                    0 <= j < o.len() ==> #[trigger] self@.clients[j] == (
                        o[j].0,
                        deliver(o[j].1, subs.take(k as int), msg@),
                    ),
            decreases subscribers@.len() - k,
        {
            let mut j: usize = 0;
            while j < self.clients.len()
                invariant
                    k < subscribers@.len(),
                    j <= self@.clients.len(),
                    subs == ids_view(subscribers@),
                    self@.db == old(self)@.db,
                    self@.log == old(self)@.log,
                    self@.clients.len() == o.len(),
                    self.clients@.len() == o.len(),
                    forall|m: int|
                        0 <= m < o.len() ==> #[trigger] self@.clients[m] == (
                            o[m].0,
                            deliver(o[m].1, subs.take(if m < j { k + 1 } else { k as int }), msg@),
                        ),
                decreases self.clients@.len() - j,
            {
                let hit = match &self.clients[j].1.uuid {
                    Some(u) => crate::text::str_eq(u.as_str(), subscribers[k].as_str()),
                    None => false,
                };
                assert(self@.clients[j as int] == (
                    self.clients@[j as int].0,
                    self.clients@[j as int].1@,
                ));
                let ghost before = self@;
                assert(subs.take(k + 1).drop_last() =~= subs.take(k as int));
                if hit {
                    let mut c = self.take_client(j);
                    c.queue_message(msg);
                    self.put_client(j, c);
                    proof {
                        let cj = o[j as int].1;
                        let u = cj.uuid->0;
                        assert(subs[k as int] == subscribers@[k as int]@);
                        assert(u == subs[k as int]);
                        lemma_set_client_twice(
                            before,
                            j as int,
                            crate::client::fresh_client(),
                            queue(before.clients[j as int].1, msg@),
                        );
                        assert(self@.clients[j as int].1.write_buffer =~= deliver(cj, subs.take(k + 1), msg@).write_buffer);
                        assert(occurrences(subs.take(k + 1), u) == occurrences(subs.take(k as int), u) + 1);
                        assert(repeat(crate::client::line_bytes(msg@), occurrences(subs.take(k + 1), u))
                            == repeat(crate::client::line_bytes(msg@), occurrences(subs.take(k as int), u))
                            + crate::client::line_bytes(msg@));
                        assert(self@.clients[j as int].1 =~= deliver(cj, subs.take(k + 1), msg@));
                        assert forall|m: int| 0 <= m < o.len() && m != j implies #[trigger] self@.clients[m]
                            == before.clients[m] by {}
                    }
                } else {
                    proof {
                        let cj = o[j as int].1;
                        if cj.uuid is Some {
                            let u = cj.uuid->0;
                            assert(occurrences(subs.take(k + 1), u) == occurrences(subs.take(k as int), u));
                        }
                        assert(deliver(cj, subs.take(k + 1), msg@) == deliver(cj, subs.take(k as int), msg@));
                    }
                }
                assert(clients_view(self.clients@).len() == self.clients@.len());
                j += 1;
            }
            k += 1;
        }
        assert(subs.take(k as int) =~= subs);
        assert(self@.clients =~= send_event_to_team_subscribers(old(self)@, team_uuid@, msg@).clients);
    }

    /// `/login "user_name"`: logs the connection in as the user of that
    /// name, creating the user when there is none.
    fn cmd_login(&mut self, id: u64, args: &Vec<String>, fresh: &str)
        requires
            sessions_known(old(self)@),
        ensures
            sessions_known(final(self)@),
                final(self)@ == login_spec(
                    old(self)@,
                    id,
                    crate::command::strings_view(args@),
                    fresh@,
                ),
    {
        let ghost a = crate::command::strings_view(args@);
        if args.len() != 2 {
            self.send_to(id, "400 Bad Request: Missing user_name");
            assert(self@ == login_spec(old(self)@, id, a, fresh@));
            proof {
                lemma_send_to_known(old(self)@, id, "400 Bad Request: Missing user_name"@);
            }
            return;
        }
        let user_name = &args[1];
        assert(user_name@ == a[1]);
        if utf8_len(user_name) > MAX_NAME_LENGTH {
            self.send_to(id, "400 Bad Request: Name too long");
            assert(self@ == login_spec(old(self)@, id, a, fresh@));
            proof {
                lemma_send_to_known(old(self)@, id, "400 Bad Request: Name too long"@);
            }
            return;
        }
        let existing = find_user_by_name(&self.db.users, user_name.as_str());
        let user_uuid: String = match existing {
            Some(j) => {
                proof {
                    lemma_first_index(old(self)@.db.users, user_has_name(a[1]));
                }
                let u = self.db.users[j].uuid.clone();
                assert(u@ == old(self)@.db.users[j as int].uuid);
                self.set_user_connected(u.as_str(), true);
                u
            },
            None => {
                let uuid = owned(fresh);
                let new_user = User { uuid: uuid.clone(), name: user_name.clone(), is_connected: true };
                let ghost nu = new_user@;
                put_user(&mut self.db.users, new_user);
                assert(self@.db == (DatabaseView {
                    users: put(old(self)@.db.users, user_has_uuid(fresh@), nu),
                    ..old(self)@.db
                }));
                let call = crate::ffi::call_user_created(uuid.as_str(), user_name.as_str());
                self.push_log(call);
                uuid
            },
        };
        let ghost s1 = self@;
        proof {
            assert(s1.clients == old(self)@.clients);
        }
        match self.client_pos(id) {
            Some(i) => {
                let mut c = self.take_client(i);
                c.uuid = Some(user_uuid.clone());
                let mut msg = owned("200 Login OK|");
                append_str(&mut msg, user_uuid.as_str());
                append_str(&mut msg, "|");
                append_str(&mut msg, user_name.as_str());
                c.queue_message(msg.as_str());
                self.put_client(i, c);
                proof {
                    lemma_set_client_twice(
                        s1,
                        i as int,
                        crate::client::fresh_client(),
                        queue(
                            ClientView { uuid: Some(user_uuid@), ..s1.clients[i as int].1 },
                            msg@,
                        ),
                    );
                }
            },
            None => {},
        }
        let call = crate::ffi::call_user_logged_in(user_uuid.as_str());
        self.push_log(call);
        assert(self@ == login_spec(old(self)@, id, a, fresh@));
        proof {
            assert(user_of(s1.db, user_uuid@) is Some) by {
                match existing {
                    Some(j) => {
                        lemma_first_index(old(self)@.db.users, user_has_uuid(user_uuid@));
                        lemma_set_connected_keeps(old(self)@.db, user_uuid@, true, user_uuid@);
                    },
                    None => {
                        lemma_put_user_has(
                            old(self)@.db.users,
                            UserView { uuid: user_uuid@, name: a[1], is_connected: true },
                        );
                    },
                }
            }
            assert(sessions_known(s1)) by {
                assert forall|j: int|
                    0 <= j < s1.clients.len() && (#[trigger] s1.clients[j]).1.uuid is Some implies user_of(
                    s1.db,
                    s1.clients[j].1.uuid->0,
                ) is Some by {
                    let u = s1.clients[j].1.uuid->0;
                    assert(s1.clients[j] == old(self)@.clients[j]);
                    match existing {
                        Some(_) => {
                            lemma_set_connected_keeps(old(self)@.db, user_uuid@, true, u);
                        },
                        None => {
                            lemma_first_index(old(self)@.db.users, user_has_uuid(u));
                            lemma_put_user_keeps(
                                old(self)@.db.users,
                                UserView { uuid: user_uuid@, name: a[1], is_connected: true },
                                u,
                            );
                        },
                    }
                }
            }
            match client_index(s1, id) {
                Some(i) => {
                    lemma_first_index(s1.clients, has_id(id));
                    lemma_set_client_known(
                        s1,
                        i,
                        queue(
                            ClientView { uuid: Some(user_uuid@), ..s1.clients[i].1 },
                            "200 Login OK|"@ + user_uuid@ + "|"@ + a[1],
                        ),
                    );
                },
                None => {},
            }
        }
    }

    /// `/logout`: logs the connection out and moves it back to the global context.
    fn cmd_logout(&mut self, id: u64)
        requires
            sessions_known(old(self)@),
        ensures
            sessions_known(final(self)@),
            final(self)@ == logout_spec(old(self)@, id),
    {
        match self.client_pos(id) {
            None => {},
            Some(i) => {
                let mut c = self.take_client(i);
                match &c.uuid {
                    Some(u) => {
                        let call = crate::ffi::call_user_logged_out(u.as_str());
                        self.push_log(call);
                        self.set_user_connected(u.as_str(), false);
                    },
                    None => {},
                }
                c.uuid = None;
                c.use_context = UseContext::Global;
                c.queue_message("200 Logout OK");
                self.put_client(i, c);
                proof {
                    let c0 = old(self)@.clients[i as int].1;
                    let s1 = match c0.uuid {
                        Some(u) => with_db(
                            log(old(self)@, LogCall::ServerEventUserLoggedOut { user_uuid: cstr(u) }),
                            set_connected(old(self)@.db, u, false),
                        ),
                        None => old(self)@,
                    };
                    lemma_set_client_twice(
                        s1,
                        i as int,
                        crate::client::fresh_client(),
                        queue(
                            ClientView { uuid: None, use_context: UseContextView::Global, ..c0 },
                            "200 Logout OK"@,
                        ),
                    );
                    assert(sessions_known(s1)) by {
                        assert forall|j: int|
                            0 <= j < s1.clients.len() && (#[trigger] s1.clients[j]).1.uuid is Some implies user_of(
                            s1.db,
                            s1.clients[j].1.uuid->0,
                        ) is Some by {
                            if let Some(u) = c0.uuid {
                                lemma_set_connected_keeps(
                                    old(self)@.db,
                                    u,
                                    false,
                                    s1.clients[j].1.uuid->0,
                                );
                            }
                        }
                    }
                    lemma_set_client_known(
                        s1,
                        i as int,
                        queue(
                            ClientView { uuid: None, use_context: UseContextView::Global, ..c0 },
                            "200 Logout OK"@,
                        ),
                    );
                }
            },
        }
    }

    /// `/send "user_uuid" "message_body"`: stores a private message and
    /// forwards it to the receiver.
    fn cmd_send(&mut self, id: u64, args: &Vec<String>, ts: u64)
        requires
            sessions_known(old(self)@),
        ensures
            sessions_known(final(self)@),
                final(self)@ == send_spec(
                    old(self)@,
                    id,
                    crate::command::strings_view(args@),
                    ts,
                ),
    {
        let ghost a = crate::command::strings_view(args@);
        let ghost s0 = self@;
        if args.len() != 3 {
            self.send_to(id, "400 Bad Request: /send \"user_uuid\" \"message\"");
            assert(self@ == send_spec(s0, id, a, ts));
            proof {
                lemma_send_to_known(old(self)@, id, "400 Bad Request: /send \"user_uuid\" \"message\""@);
            }
            return;
        }
        let sender = match self.get_client_uuid(id) {
            Some(u) => u,
            None => {
                self.send_to(id, "401 Unauthorized: Please login first");
                assert(self@ == send_spec(s0, id, a, ts));
            proof {
                lemma_send_to_known(old(self)@, id, "401 Unauthorized: Please login first"@);
            }
                return;
            },
        };
        let target = &args[1];
        let body = &args[2];
        assert(target@ == a[1] && body@ == a[2]);
        if utf8_len(body) > MAX_BODY_LENGTH {
            self.send_to(id, "400 Bad Request: Message too long");
            assert(self@ == send_spec(s0, id, a, ts));
            proof {
                lemma_send_to_known(old(self)@, id, "400 Bad Request: Message too long"@);
            }
            return;
        }
        if find_user(&self.db.users, target.as_str()).is_none() {
            self.send_to(id, "404 Not Found: User does not exist");
            assert(self@ == send_spec(s0, id, a, ts));
            proof {
                lemma_send_to_known(old(self)@, id, "404 Not Found: User does not exist"@);
            }
            return;
        }
        let msg = Message {
            sender_uuid: sender.clone(),
            receiver_uuid: target.clone(),
            body: body.clone(),
            timestamp: ts,
        };
        let ghost mv = msg@;
        self.db.private_messages.push(msg);
        assert(self@.db.private_messages =~= s0.db.private_messages.push(mv));
        let ghost s1 = self@;
        let call = crate::ffi::call_private_message_sended(
            sender.as_str(),
            target.as_str(),
            body.as_str(),
        );
        self.push_log(call);
        let ghost s2 = self@;
        let mut ev = owned("EVENT PM_RECEIVED|");
        append_str(&mut ev, sender.as_str());
        append_str(&mut ev, "|");
        append_str(&mut ev, body.as_str());
        self.send_event_to_user(target.as_str(), ev.as_str());
        let ghost s3 = self@;
        self.send_to(id, "200 Message Sent");
        assert(self@ == send_spec(s0, id, a, ts));
        proof {
            assert(same_sessions(s0, s2));
            lemma_event_to_user_same(s2, a[1], ev@);
            lemma_send_to_same(s3, id, "200 Message Sent"@);
            lemma_same_trans(s0, s2, s3);
            lemma_same_trans(s0, s3, self@);
            lemma_same_sessions(s0, self@);
        }
    }

    /// Sets the context of connection `id` and tells it so.
    fn set_context_of(&mut self, id: u64, ctx: UseContext)
        ensures
            final(self)@ == set_context(old(self)@, id, ctx@),
    {
        match self.client_pos(id) {
            Some(i) => {
                let ghost cv = ctx@;
                let mut c = self.take_client(i);
                c.use_context = ctx;
                c.queue_message("200 Context Updated");
                self.put_client(i, c);
                proof {
                    lemma_set_client_twice(
                        old(self)@,
                        i as int,
                        crate::client::fresh_client(),
                        queue(
                            ClientView { use_context: cv, ..old(self)@.clients[i as int].1 },
                            "200 Context Updated"@,
                        ),
                    );
                }
            },
            None => {},
        }
    }

    /// `/use` with up to three identifiers: sets the context after checking
    /// that the team, channel and thread exist and that the user subscribes
    /// to the team.
    fn cmd_use(&mut self, id: u64, args: &Vec<String>)
        requires
            sessions_known(old(self)@),
        ensures
            sessions_known(final(self)@),
            final(self)@ == use_spec(old(self)@, id, crate::command::strings_view(args@)),
    {
        let ghost a = crate::command::strings_view(args@);
        let ghost s0 = self@;
        let client_uuid = match self.get_client_uuid(id) {
            Some(uuid) => uuid,
            None => {
                self.send_to(id, "401 Unauthorized: Please login first");
                proof {
                    lemma_send_to_known(s0, id, "401 Unauthorized: Please login first"@);
                }
                return;
            },
        };
        let n = args.len();
        if n == 1 {
            self.set_context_of(id, UseContext::Global);
            proof {
                lemma_set_context_same(s0, id, UseContextView::Global);
                lemma_same_sessions(s0, self@);
            }
            return;
        }
        if n < 2 || n > 4 {
            self.send_to(id, "400 Bad Request: Invalid /use arguments");
            proof {
                lemma_send_to_known(s0, id, "400 Bad Request: Invalid /use arguments"@);
            }
            return;
        }
        let team_uuid = &args[1];
        assert(team_uuid@ == a[1]);
        let ti = match find_team(&self.db.teams, team_uuid.as_str()) {
            Some(ti) => ti,
            None => {
                self.send_to(id, "404 Not Found: Unknown Team");
                proof {
                    lemma_send_to_known(s0, id, "404 Not Found: Unknown Team"@);
                }
                return;
            },
        };
        proof {
            lemma_first_index(s0.db.teams, team_has_uuid(a[1]));
        }
        if !contains_id(&self.db.teams[ti].subscribers, client_uuid.as_str()) {
            self.send_to(id, "401 Unauthorized: Not subscribed to team");
            proof {
                lemma_send_to_known(s0, id, "401 Unauthorized: Not subscribed to team"@);
            }
            return;
        }
        let ctx = if n == 2 {
            UseContext::Team(team_uuid.clone())
        } else {
            let channel_uuid = &args[2];
            assert(channel_uuid@ == a[2]);
            let ci = match find_channel(&self.db.teams[ti].channels, channel_uuid.as_str()) {
                Some(ci) => ci,
                None => {
                    self.send_to(id, "404 Not Found: Unknown Channel");
                    proof {
                        lemma_send_to_known(s0, id, "404 Not Found: Unknown Channel"@);
                    }
                    return;
                },
            };
            proof {
                lemma_first_index(s0.db.teams[ti as int].channels, channel_has_uuid(a[2]));
            }
            if n == 3 {
                UseContext::Channel(team_uuid.clone(), channel_uuid.clone())
            } else {
                let thread_uuid = &args[3];
                assert(thread_uuid@ == a[3]);
                if find_thread(
                    &self.db.teams[ti].channels[ci].threads,
                    thread_uuid.as_str(),
                ).is_none() {
                    self.send_to(id, "404 Not Found: Unknown Thread");
                    proof {
                        lemma_send_to_known(s0, id, "404 Not Found: Unknown Thread"@);
                    }
                    return;
                }
                UseContext::Thread(team_uuid.clone(), channel_uuid.clone(), thread_uuid.clone())
            }
        };
        let ghost cv = ctx@;
        self.set_context_of(id, ctx);
        proof {
            lemma_set_context_same(s0, id, cv);
            lemma_same_sessions(s0, self@);
        }
    }

    /// `/users`: lists every user.
    fn cmd_users(&mut self, id: u64)
        requires
            sessions_known(old(self)@),
        ensures
            sessions_known(final(self)@),
            final(self)@ == users_spec(old(self)@, id),
    {
        if self.get_client_uuid(id).is_none() {
            self.send_to(id, "401 Unauthorized: Please login first");
            proof {
                lemma_send_to_known(old(self)@, id, "401 Unauthorized: Please login first"@);
            }
            return;
        }
        let mut response = owned("200 USERS");
        let listing = list_users(&self.db.users);
        append_str(&mut response, listing.as_str());
        self.send_to(id, response.as_str());
        proof {
            lemma_send_to_known(old(self)@, id, response@);
        }
    }

    /// `/user "user_uuid"`: details of one user.
    fn cmd_user(&mut self, id: u64, args: &Vec<String>)
        requires
            sessions_known(old(self)@),
        ensures
            sessions_known(final(self)@),
            final(self)@ == user_spec(old(self)@, id, crate::command::strings_view(args@)),
    {
        let ghost a = crate::command::strings_view(args@);
        let ghost s0 = self@;
        if args.len() != 2 {
            self.send_to(id, "400 Bad Request");
            proof {
                lemma_send_to_known(s0, id, "400 Bad Request"@);
            }
            return;
        }
        if self.get_client_uuid(id).is_none() {
            self.send_to(id, "401 Unauthorized");
            proof {
                lemma_send_to_known(s0, id, "401 Unauthorized"@);
            }
            return;
        }
        let target_uuid = &args[1];
        assert(target_uuid@ == a[1]);
        match find_user(&self.db.users, target_uuid.as_str()) {
            Some(j) => {
                proof {
                    lemma_first_index(s0.db.users, user_has_uuid(a[1]));
                }
                let user = &self.db.users[j];
                let mut r = owned("200 USER|");
                append_str(&mut r, user.uuid.as_str());
                append_str(&mut r, "|");
                append_str(&mut r, user.name.as_str());
                append_str(&mut r, "|");
                append_str(&mut r, status_str(user.is_connected));
                self.send_to(id, r.as_str());
                proof {
                    lemma_send_to_known(s0, id, r@);
                }
            },
            None => {
                self.send_to(id, "404 Not Found: User not found");
                proof {
                    lemma_send_to_known(s0, id, "404 Not Found: User not found"@);
                }
            },
        }
    }

    /// `/messages "user_uuid"`: the private messages exchanged with a user.
    fn cmd_messages(&mut self, id: u64, args: &Vec<String>)
        requires
            sessions_known(old(self)@),
        ensures
            sessions_known(final(self)@),
            final(self)@ == messages_spec(old(self)@, id, crate::command::strings_view(args@)),
    {
        let ghost a = crate::command::strings_view(args@);
        let ghost s0 = self@;
        if args.len() != 2 {
            self.send_to(id, "400 Bad Request");
            proof {
                lemma_send_to_known(s0, id, "400 Bad Request"@);
            }
            return;
        }
        let client_uuid = match self.get_client_uuid(id) {
            Some(uuid) => uuid,
            None => {
                self.send_to(id, "401 Unauthorized");
                proof {
                    lemma_send_to_known(s0, id, "401 Unauthorized"@);
                }
                return;
            },
        };
        let target_uuid = &args[1];
        assert(target_uuid@ == a[1]);
        if find_user(&self.db.users, target_uuid.as_str()).is_none() {
            self.send_to(id, "404 Not Found: User not found");
            proof {
                lemma_send_to_known(s0, id, "404 Not Found: User not found"@);
            }
            return;
        }
        let mut response = owned("200 MESSAGES");
        let listing = list_messages(
            &self.db.private_messages,
            client_uuid.as_str(),
            target_uuid.as_str(),
        );
        append_str(&mut response, listing.as_str());
        self.send_to(id, response.as_str());
        proof {
            lemma_send_to_known(s0, id, response@);
        }
    }

    /// `/subscribe "team_uuid"`: adds the user to the team's subscribers.
    fn cmd_subscribe(&mut self, id: u64, args: &Vec<String>)
        requires
            sessions_known(old(self)@),
        ensures
            sessions_known(final(self)@),
            final(self)@ == subscribe_spec(old(self)@, id, crate::command::strings_view(args@)),
    {
        let ghost a = crate::command::strings_view(args@);
        let ghost s0 = self@;
        if args.len() != 2 {
            self.send_to(id, "400 Bad Request");
            proof {
                lemma_send_to_known(s0, id, "400 Bad Request"@);
            }
            return;
        }
        let client_uuid = match self.get_client_uuid(id) {
            Some(uuid) => uuid,
            None => {
                self.send_to(id, "401 Unauthorized");
                proof {
                    lemma_send_to_known(s0, id, "401 Unauthorized"@);
                }
                return;
            },
        };
        let team_uuid = &args[1];
        assert(team_uuid@ == a[1]);
        match find_team(&self.db.teams, team_uuid.as_str()) {
            Some(ti) => {
                proof {
                    lemma_first_index(s0.db.teams, team_has_uuid(a[1]));
                }
                if !contains_id(&self.db.teams[ti].subscribers, client_uuid.as_str()) {
                    self.db.teams[ti].subscribers.push(client_uuid.clone());
                    assert(ids_view(self.db.teams@[ti as int].subscribers@) =~= ids_view(
                        old(self).db.teams@[ti as int].subscribers@,
                    ).push(client_uuid@));
                }
                assert(self@.db.teams[ti as int] == self.db.teams@[ti as int]@);
                assert(self@.db =~= (DatabaseView {
                    teams: self@.db.teams,
                    ..s0.db
                }));
                let ghost team0 = s0.db.teams[ti as int];
                assert(self@.db.teams =~= set_team(
                    s0.db,
                    ti as int,
                    if subscribed(team0, client_uuid@) {
                        team0
                    } else {
                        TeamView { subscribers: team0.subscribers.push(client_uuid@), ..team0 }
                    },
                ).teams);
                let call = crate::ffi::call_user_subscribed(
                    team_uuid.as_str(),
                    client_uuid.as_str(),
                );
                self.push_log(call);
                let mut r = owned("200 SUBSCRIBED|");
                append_str(&mut r, client_uuid.as_str());
                append_str(&mut r, "|");
                append_str(&mut r, team_uuid.as_str());
                let ghost s1 = self@;
                self.send_to(id, r.as_str());
                proof {
                    assert(same_sessions(s0, s1));
                    lemma_send_to_same(s1, id, r@);
                    lemma_same_trans(s0, s1, self@);
                    lemma_same_sessions(s0, self@);
                }
            },
            None => {
                self.send_to(id, "404 Not Found: Team not found");
                proof {
                    lemma_send_to_known(s0, id, "404 Not Found: Team not found"@);
                }
            },
        }
    }

    /// `/unsubscribe "team_uuid"`: removes the user from the team's
    /// subscribers and leaves the team's context if the connection was in it.
    fn cmd_unsubscribe(&mut self, id: u64, args: &Vec<String>)
        requires
            sessions_known(old(self)@),
        ensures
            sessions_known(final(self)@),
            final(self)@ == unsubscribe_spec(old(self)@, id, crate::command::strings_view(args@)),
    {
        let ghost a = crate::command::strings_view(args@);
        let ghost s0 = self@;
        if args.len() != 2 {
            self.send_to(id, "400 Bad Request");
            proof {
                lemma_send_to_known(s0, id, "400 Bad Request"@);
            }
            return;
        }
        let client_uuid = match self.get_client_uuid(id) {
            Some(uuid) => uuid,
            None => {
                self.send_to(id, "401 Unauthorized");
                proof {
                    lemma_send_to_known(s0, id, "401 Unauthorized"@);
                }
                return;
            },
        };
        let team_uuid = &args[1];
        assert(team_uuid@ == a[1]);
        match find_team(&self.db.teams, team_uuid.as_str()) {
            Some(ti) => {
                proof {
                    lemma_first_index(s0.db.teams, team_has_uuid(a[1]));
                }
                if !contains_id(&self.db.teams[ti].subscribers, client_uuid.as_str()) {
                    self.send_to(id, "401 Unauthorized: Not subscribed to team");
                    proof {
                        lemma_send_to_known(s0, id, "401 Unauthorized: Not subscribed to team"@);
                    }
                    return;
                }
                let kept = without_id(&self.db.teams[ti].subscribers, client_uuid.as_str());
                self.db.teams[ti].subscribers = kept;
                let ghost team0 = s0.db.teams[ti as int];
                assert(self@.db.teams[ti as int] == self.db.teams@[ti as int]@);
                assert(self@.db.teams =~= set_team(
                    s0.db,
                    ti as int,
                    TeamView { subscribers: remove_all(team0.subscribers, client_uuid@), ..team0 },
                ).teams);
                let ghost s1 = self@;
                self.reset_client_context_if_inside_team(id, team_uuid.as_str());
                let ghost s2 = self@;
                let call = crate::ffi::call_user_unsubscribed(
                    team_uuid.as_str(),
                    client_uuid.as_str(),
                );
                self.push_log(call);
                let ghost s3 = self@;
                let mut r = owned("200 UNSUBSCRIBED|");
                append_str(&mut r, client_uuid.as_str());
                append_str(&mut r, "|");
                append_str(&mut r, team_uuid.as_str());
                self.send_to(id, r.as_str());
                proof {
                    assert(same_sessions(s0, s1));
                    lemma_reset_same(s1, id, a[1]);
                    lemma_same_trans(s0, s1, s2);
                    assert(same_sessions(s2, s3));
                    lemma_same_trans(s0, s2, s3);
                    lemma_send_to_same(s3, id, r@);
                    lemma_same_trans(s0, s3, self@);
                    lemma_same_sessions(s0, self@);
                }
            },
            None => {
                self.send_to(id, "404 Not Found: Team not found");
                proof {
                    lemma_send_to_known(s0, id, "404 Not Found: Team not found"@);
                }
            },
        }
    }

    /// Creates a team (the global-context case of `/create`).
    fn create_team(&mut self, id: u64, me: &String, args: &Vec<String>, fresh: &str)
        requires
            sessions_known(old(self)@),
        ensures
            sessions_known(final(self)@),
                final(self)@ == create_team_spec(
                    old(self)@,
                    id,
                    me@,
                    crate::command::strings_view(args@),
                    fresh@,
                ),
    {
        let ghost a = crate::command::strings_view(args@);
        let ghost s0 = self@;
        if args.len() != 3 {
            self.send_to(id, "400 Bad Request");
            proof {
                lemma_send_to_known(s0, id, "400 Bad Request"@);
            }
            assert(self@ == create_team_spec(s0, id, me@, a, fresh@));
            return;
        }
        let name = &args[1];
        let desc = &args[2];
        assert(name@ == a[1] && desc@ == a[2]);
        if utf8_len(name) > MAX_NAME_LENGTH || utf8_len(desc) > MAX_DESCRIPTION_LENGTH {
            self.send_to(id, "400 Bad Request: Length error");
            proof {
                lemma_send_to_known(s0, id, "400 Bad Request: Length error"@);
            }
            assert(self@ == create_team_spec(s0, id, me@, a, fresh@));
            return;
        }
        if find_team_by_name(&self.db.teams, name.as_str()).is_some() {
            self.send_to(id, "409 Conflict: Team already exists");
            proof {
                lemma_send_to_known(s0, id, "409 Conflict: Team already exists"@);
            }
            assert(self@ == create_team_spec(s0, id, me@, a, fresh@));
            return;
        }
        let new_uuid = owned(fresh);
        let mut subscribers: Vec<String> = Vec::new();
        subscribers.push(me.clone());
        let team = Team {
            uuid: new_uuid.clone(),
            name: name.clone(),
            description: desc.clone(),
            subscribers,
            channels: Vec::new(),
        };
        assert(team@.subscribers =~= seq![me@]);
        assert(team@.channels =~= Seq::<ChannelView>::empty());
        put_team(&mut self.db.teams, team);
        let call = crate::ffi::call_team_created(new_uuid.as_str(), name.as_str(), me.as_str());
        self.push_log(call);
        let ghost s1 = self@;
        let mut r = owned("200 TEAM_CREATED|");
        append_str(&mut r, new_uuid.as_str());
        append_str(&mut r, "|");
        append_str(&mut r, name.as_str());
        append_str(&mut r, "|");
        append_str(&mut r, desc.as_str());
        self.send_to(id, r.as_str());
        assert(self@ == create_team_spec(s0, id, me@, a, fresh@));
        proof {
            assert(same_sessions(s0, s1));
            lemma_send_to_same(s1, id, r@);
            lemma_same_trans(s0, s1, self@);
            lemma_same_sessions(s0, self@);
        }
    }

    /// Creates a channel in team `t` (the team-context case of `/create`).
    fn create_channel(&mut self, id: u64, t: &String, args: &Vec<String>, fresh: &str)
        requires
            sessions_known(old(self)@),
        ensures
            sessions_known(final(self)@),
                final(self)@ == create_channel_spec(
                    old(self)@,
                    id,
                    t@,
                    crate::command::strings_view(args@),
                    fresh@,
                ),
    {
        let ghost a = crate::command::strings_view(args@);
        let ghost s0 = self@;
        if args.len() != 3 {
            self.send_to(id, "400 Bad Request");
            proof {
                lemma_send_to_known(s0, id, "400 Bad Request"@);
            }
            assert(self@ == create_channel_spec(s0, id, t@, a, fresh@));
            return;
        }
        let name = &args[1];
        let desc = &args[2];
        assert(name@ == a[1] && desc@ == a[2]);
        if utf8_len(name) > MAX_NAME_LENGTH || utf8_len(desc) > MAX_DESCRIPTION_LENGTH {
            self.send_to(id, "400 Bad Request: Length error");
            proof {
                lemma_send_to_known(s0, id, "400 Bad Request: Length error"@);
            }
            assert(self@ == create_channel_spec(s0, id, t@, a, fresh@));
            return;
        }
        let ti = match find_team(&self.db.teams, t.as_str()) {
            Some(ti) => ti,
            None => {
                self.send_to(id, "404 Not Found: Team unknown");
                proof {
                    lemma_send_to_known(s0, id, "404 Not Found: Team unknown"@);
                }
                assert(self@ == create_channel_spec(s0, id, t@, a, fresh@));
                return;
            },
        };
        proof {
            lemma_first_index(s0.db.teams, team_has_uuid(t@));
        }
        if find_channel_by_name(&self.db.teams[ti].channels, name.as_str()).is_some() {
            self.send_to(id, "409 Conflict: Channel already exists");
            proof {
                lemma_send_to_known(s0, id, "409 Conflict: Channel already exists"@);
            }
            assert(self@ == create_channel_spec(s0, id, t@, a, fresh@));
            return;
        }
        let new_uuid = owned(fresh);
        let channel = Channel {
            uuid: new_uuid.clone(),
            name: name.clone(),
            description: desc.clone(),
            threads: Vec::new(),
        };
        assert(channel@.threads =~= Seq::<ThreadView>::empty());
        let ghost cv = channel@;
        put_channel(&mut self.db.teams[ti].channels, channel);
        let ghost team0 = s0.db.teams[ti as int];
        assert(self@.db.teams[ti as int] == self.db.teams@[ti as int]@);
        assert(self@.db.teams =~= set_team(
            s0.db,
            ti as int,
            TeamView { channels: put(team0.channels, channel_has_uuid(new_uuid@), cv), ..team0 },
        ).teams);
        let call = crate::ffi::call_channel_created(t.as_str(), new_uuid.as_str(), name.as_str());
        self.push_log(call);
        let ghost s1 = self@;
        let mut r = owned("200 CHANNEL_CREATED|");
        append_str(&mut r, new_uuid.as_str());
        append_str(&mut r, "|");
        append_str(&mut r, name.as_str());
        append_str(&mut r, "|");
        append_str(&mut r, desc.as_str());
        self.send_to(id, r.as_str());
        let ghost s2 = self@;
        let mut ev = owned("EVENT CHANNEL_CREATED|");
        append_str(&mut ev, new_uuid.as_str());
        append_str(&mut ev, "|");
        append_str(&mut ev, name.as_str());
        append_str(&mut ev, "|");
        append_str(&mut ev, desc.as_str());
        self.send_event_to_team_subscribers(t.as_str(), ev.as_str());
        assert(self@ == create_channel_spec(s0, id, t@, a, fresh@));
        proof {
            assert(same_sessions(s0, s1));
            lemma_send_to_same(s1, id, r@);
            lemma_same_trans(s0, s1, s2);
            lemma_team_event_same(s2, t@, ev@);
            lemma_same_trans(s0, s2, self@);
            lemma_same_sessions(s0, self@);
        }
    }

    /// Creates a thread in channel `ch` of team `t` (the channel-context case of `/create`).
    fn create_thread(
        &mut self,
        id: u64,
        me: &String,
        t: &String,
        ch: &String,
        args: &Vec<String>,
        fresh: &str,
        ts: u64,
    )
        requires
            sessions_known(old(self)@),
        ensures
            sessions_known(final(self)@),
                final(self)@ == create_thread_spec(
                    old(self)@,
                    id,
                    me@,
                    t@,
                    ch@,
                    crate::command::strings_view(args@),
                    fresh@,
                    ts,
                ),
    {
        let ghost a = crate::command::strings_view(args@);
        let ghost s0 = self@;
        if args.len() != 3 {
            self.send_to(id, "400 Bad Request");
            proof {
                lemma_send_to_known(s0, id, "400 Bad Request"@);
            }
            assert(self@ == create_thread_spec(s0, id, me@, t@, ch@, a, fresh@, ts));
            return;
        }
        let title = &args[1];
        let body = &args[2];
        assert(title@ == a[1] && body@ == a[2]);
        if utf8_len(title) > MAX_NAME_LENGTH || utf8_len(body) > MAX_BODY_LENGTH {
            self.send_to(id, "400 Bad Request: Length error");
            proof {
                lemma_send_to_known(s0, id, "400 Bad Request: Length error"@);
            }
            assert(self@ == create_thread_spec(s0, id, me@, t@, ch@, a, fresh@, ts));
            return;
        }
        let ti = match find_team(&self.db.teams, t.as_str()) {
            Some(ti) => ti,
            None => {
                self.send_to(id, "404 Not Found: Unknown Team");
                proof {
                    lemma_send_to_known(s0, id, "404 Not Found: Unknown Team"@);
                }
                assert(self@ == create_thread_spec(s0, id, me@, t@, ch@, a, fresh@, ts));
                return;
            },
        };
        proof {
            lemma_first_index(s0.db.teams, team_has_uuid(t@));
        }
        let ci = match find_channel(&self.db.teams[ti].channels, ch.as_str()) {
            Some(ci) => ci,
            None => {
                self.send_to(id, "404 Not Found: Unknown Channel");
                proof {
                    lemma_send_to_known(s0, id, "404 Not Found: Unknown Channel"@);
                }
                assert(self@ == create_thread_spec(s0, id, me@, t@, ch@, a, fresh@, ts));
                return;
            },
        };
        proof {
            lemma_first_index(s0.db.teams[ti as int].channels, channel_has_uuid(ch@));
        }
        let new_uuid = owned(fresh);
        let timestamp = ts;
        let thread = Thread {
            uuid: new_uuid.clone(),
            title: title.clone(),
            message: body.clone(),
            author_uuid: me.clone(),
            replies: Vec::new(),
            timestamp,
        };
        assert(thread@.replies =~= Seq::<MessageView>::empty());
        let ghost hv = thread@;
        put_thread(&mut self.db.teams[ti].channels[ci].threads, thread);
        let ghost team0 = s0.db.teams[ti as int];
        let ghost chan0 = team0.channels[ci as int];
        assert(self.db.teams@[ti as int]@.channels[ci as int] == self.db.teams@[ti as int].channels@[ci as int]@);
        assert(self.db.teams@[ti as int]@.channels =~= set_channel(
            team0,
            ci as int,
            ChannelView { threads: put(chan0.threads, thread_has_uuid(new_uuid@), hv), ..chan0 },
        ).channels);
        assert(self@.db.teams[ti as int] == self.db.teams@[ti as int]@);
        assert(self@.db.teams =~= set_team(
            s0.db,
            ti as int,
            set_channel(
                team0,
                ci as int,
                ChannelView { threads: put(chan0.threads, thread_has_uuid(new_uuid@), hv), ..chan0 },
            ),
        ).teams);
        let call = crate::ffi::call_thread_created(
            ch.as_str(),
            new_uuid.as_str(),
            me.as_str(),
            title.as_str(),
            body.as_str(),
        );
        self.push_log(call);
        let ghost s1 = self@;
        let mut fields = new_uuid.clone();
        append_str(&mut fields, "|");
        append_str(&mut fields, me.as_str());
        append_str(&mut fields, "|");
        let ts = u64_to_string(timestamp);
        append_str(&mut fields, ts.as_str());
        append_str(&mut fields, "|");
        append_str(&mut fields, title.as_str());
        append_str(&mut fields, "|");
        append_str(&mut fields, body.as_str());
        let mut r = owned("200 THREAD_CREATED|");
        append_str(&mut r, fields.as_str());
        self.send_to(id, r.as_str());
        let ghost s2 = self@;
        let mut ev = owned("EVENT THREAD_CREATED|");
        append_str(&mut ev, fields.as_str());
        self.send_event_to_team_subscribers(t.as_str(), ev.as_str());
        assert(self@ == create_thread_spec(s0, id, me@, t@, ch@, a, fresh@, timestamp));
        proof {
            assert(same_sessions(s0, s1));
            lemma_send_to_same(s1, id, r@);
            lemma_same_trans(s0, s1, s2);
            lemma_team_event_same(s2, t@, ev@);
            lemma_same_trans(s0, s2, self@);
            lemma_same_sessions(s0, self@);
        }
    }

    /// Adds a reply to thread `h` of channel `ch` of team `t` (the
    /// thread-context case of `/create`).
    fn create_reply(
        &mut self,
        id: u64,
        me: &String,
        t: &String,
        ch: &String,
        h: &String,
        args: &Vec<String>,
        ts: u64,
    )
        requires
            sessions_known(old(self)@),
        ensures
            sessions_known(final(self)@),
                final(self)@ == create_reply_spec(
                    old(self)@,
                    id,
                    me@,
                    t@,
                    ch@,
                    h@,
                    crate::command::strings_view(args@),
                    ts,
                ),
    {
        let ghost a = crate::command::strings_view(args@);
        let ghost s0 = self@;
        if args.len() != 2 {
            self.send_to(id, "400 Bad Request");
            proof {
                lemma_send_to_known(s0, id, "400 Bad Request"@);
            }
            assert(self@ == create_reply_spec(s0, id, me@, t@, ch@, h@, a, ts));
            return;
        }
        let reply = &args[1];
        assert(reply@ == a[1]);
        if utf8_len(reply) > MAX_BODY_LENGTH {
            self.send_to(id, "400 Bad Request: Reply too long");
            proof {
                lemma_send_to_known(s0, id, "400 Bad Request: Reply too long"@);
            }
            assert(self@ == create_reply_spec(s0, id, me@, t@, ch@, h@, a, ts));
            return;
        }
        let ti = match find_team(&self.db.teams, t.as_str()) {
            Some(ti) => ti,
            None => {
                self.send_to(id, "404 Not Found: Unknown Team");
                proof {
                    lemma_send_to_known(s0, id, "404 Not Found: Unknown Team"@);
                }
                assert(self@ == create_reply_spec(s0, id, me@, t@, ch@, h@, a, ts));
                return;
            },
        };
        proof {
            lemma_first_index(s0.db.teams, team_has_uuid(t@));
        }
        let ci = match find_channel(&self.db.teams[ti].channels, ch.as_str()) {
            Some(ci) => ci,
            None => {
                self.send_to(id, "404 Not Found: Unknown Channel");
                proof {
                    lemma_send_to_known(s0, id, "404 Not Found: Unknown Channel"@);
                }
                assert(self@ == create_reply_spec(s0, id, me@, t@, ch@, h@, a, ts));
                return;
            },
        };
        proof {
            lemma_first_index(s0.db.teams[ti as int].channels, channel_has_uuid(ch@));
        }
        let hi = match find_thread(&self.db.teams[ti].channels[ci].threads, h.as_str()) {
            Some(hi) => hi,
            None => {
                self.send_to(id, "404 Not Found: Unknown Thread");
                proof {
                    lemma_send_to_known(s0, id, "404 Not Found: Unknown Thread"@);
                }
                assert(self@ == create_reply_spec(s0, id, me@, t@, ch@, h@, a, ts));
                return;
            },
        };
        proof {
            lemma_first_index(
                s0.db.teams[ti as int].channels[ci as int].threads,
                thread_has_uuid(h@),
            );
        }
        let timestamp = ts;
        let message = Message {
            sender_uuid: me.clone(),
            receiver_uuid: h.clone(),
            body: reply.clone(),
            timestamp,
        };
        let ghost mv = message@;
        self.db.teams[ti].channels[ci].threads[hi].replies.push(message);
        let ghost team0 = s0.db.teams[ti as int];
        let ghost chan0 = team0.channels[ci as int];
        let ghost th0 = chan0.threads[hi as int];
        let ghost th2 = ThreadView { replies: th0.replies.push(mv), ..th0 };
        let ghost chan2 = ChannelView { threads: chan0.threads.update(hi as int, th2), ..chan0 };
        assert(self.db.teams@[ti as int].channels@[ci as int].threads@[hi as int]@.replies =~= th0.replies.push(mv));
        assert(self.db.teams@[ti as int].channels@[ci as int]@.threads =~= chan2.threads);
        assert(self.db.teams@[ti as int]@.channels =~= set_channel(team0, ci as int, chan2).channels);
        assert(self@.db.teams =~= set_team(s0.db, ti as int, set_channel(team0, ci as int, chan2)).teams);
        let call = crate::ffi::call_reply_created(h.as_str(), me.as_str(), reply.as_str());
        self.push_log(call);
        let ghost s1 = self@;
        let mut r = owned("200 REPLY_CREATED|");
        append_str(&mut r, h.as_str());
        append_str(&mut r, "|");
        append_str(&mut r, me.as_str());
        append_str(&mut r, "|");
        let ts = u64_to_string(timestamp);
        append_str(&mut r, ts.as_str());
        append_str(&mut r, "|");
        append_str(&mut r, reply.as_str());
        self.send_to(id, r.as_str());
        let ghost s2 = self@;
        let mut ev = owned("EVENT THREAD_REPLY_RECEIVED|");
        append_str(&mut ev, t.as_str());
        append_str(&mut ev, "|");
        append_str(&mut ev, h.as_str());
        append_str(&mut ev, "|");
        append_str(&mut ev, me.as_str());
        append_str(&mut ev, "|");
        append_str(&mut ev, reply.as_str());
        self.send_event_to_team_subscribers(t.as_str(), ev.as_str());
        assert(self@ == create_reply_spec(s0, id, me@, t@, ch@, h@, a, timestamp));
        proof {
            assert(same_sessions(s0, s1));
            lemma_send_to_same(s1, id, r@);
            lemma_same_trans(s0, s1, s2);
            lemma_team_event_same(s2, t@, ev@);
            lemma_same_trans(s0, s2, self@);
            lemma_same_sessions(s0, self@);
        }
    }

    /// `/create`: creates a team, channel, thread or reply depending on the
    /// context of the connection.
    fn cmd_create(&mut self, id: u64, args: &Vec<String>, fresh: &str, ts: u64)
        requires
            sessions_known(old(self)@),
        ensures
            sessions_known(final(self)@),
                final(self)@ == create_spec(
                    old(self)@,
                    id,
                    crate::command::strings_view(args@),
                    fresh@,
                    ts,
                ),
    {
        let ghost a = crate::command::strings_view(args@);
        let ghost s0 = self@;
        let i = match self.client_pos(id) {
            None => {
                assert(self@ == create_spec(s0, id, a, fresh@, ts));
                return;
            },
            Some(i) => i,
        };
        assert(self@.clients[i as int] == (self.clients@[i as int].0, self.clients@[i as int].1@));
        let client_uuid = match &self.clients[i].1.uuid {
            Some(uuid) => uuid.clone(),
            None => {
                self.send_to(id, "401 Unauthorized");
                proof {
                    lemma_send_to_known(s0, id, "401 Unauthorized"@);
                }
                assert(self@ == create_spec(s0, id, a, fresh@, ts));
                return;
            },
        };
        let context = self.clients[i].1.use_context.duplicate();
        let denied = match Self::context_team_uuid(&context) {
            Some(t) => !self.is_subscribed_to_team(client_uuid.as_str(), t),
            None => false,
        };
        if denied {
            self.send_to(id, "401 Unauthorized: Not subscribed to team");
            proof {
                lemma_send_to_known(s0, id, "401 Unauthorized: Not subscribed to team"@);
            }
            assert(self@ == create_spec(s0, id, a, fresh@, ts));
            return;
        }
        match context {
            UseContext::Global => {
                self.create_team(id, &client_uuid, args, fresh);
                assert(self@ == create_spec(s0, id, a, fresh@, ts));
            },
            UseContext::Team(t) => {
                self.create_channel(id, &t, args, fresh);
                assert(self@ == create_spec(s0, id, a, fresh@, ts));
            },
            UseContext::Channel(t, ch) => {
                self.create_thread(id, &client_uuid, &t, &ch, args, fresh, ts);
                assert(self@ == create_spec(s0, id, a, fresh@, ts));
            },
            UseContext::Thread(t, ch, h) => {
                self.create_reply(id, &client_uuid, &t, &ch, &h, args, ts);
                assert(self@ == create_spec(s0, id, a, fresh@, ts));
            },
        }
    }

    /// The response to `/list` in context `ctx`.
    fn list_response_of(&self, ctx: &UseContext) -> (r: String)
        ensures
            r@ == list_response(self@.db, ctx@),
    {
        let db = &self.db;
        match ctx {
            UseContext::Global => {
                let mut r = owned("200 LIST_TEAMS");
                let l = list_teams(&db.teams, None);
                append_str(&mut r, l.as_str());
                r
            },
            UseContext::Team(t) => match find_team(&db.teams, t.as_str()) {
                None => owned("404 Not Found: Unknown Team"),
                Some(ti) => {
                    proof {
                        lemma_first_index(self@.db.teams, team_has_uuid(t@));
                    }
                    let mut r = owned("200 LIST_CHANNELS");
                    let l = list_channels(&db.teams[ti].channels);
                    append_str(&mut r, l.as_str());
                    r
                },
            },
            UseContext::Channel(t, ch) => match find_team(&db.teams, t.as_str()) {
                None => owned("404 Not Found: Unknown Team"),
                Some(ti) => {
                    proof {
                        lemma_first_index(self@.db.teams, team_has_uuid(t@));
                    }
                    match find_channel(&db.teams[ti].channels, ch.as_str()) {
                        None => owned("404 Not Found: Unknown Channel"),
                        Some(ci) => {
                            proof {
                                lemma_first_index(
                                    self@.db.teams[ti as int].channels,
                                    channel_has_uuid(ch@),
                                );
                            }
                            let mut r = owned("200 LIST_THREADS");
                            let l = list_threads(&db.teams[ti].channels[ci].threads);
                            append_str(&mut r, l.as_str());
                            r
                        },
                    }
                },
            },
            UseContext::Thread(t, ch, h) => match find_team(&db.teams, t.as_str()) {
                None => owned("404 Not Found: Unknown Team"),
                Some(ti) => {
                    proof {
                        lemma_first_index(self@.db.teams, team_has_uuid(t@));
                    }
                    match find_channel(&db.teams[ti].channels, ch.as_str()) {
                        None => owned("404 Not Found: Unknown Channel"),
                        Some(ci) => {
                            proof {
                                lemma_first_index(
                                    self@.db.teams[ti as int].channels,
                                    channel_has_uuid(ch@),
                                );
                            }
                            match find_thread(&db.teams[ti].channels[ci].threads, h.as_str()) {
                                None => owned("404 Not Found: Unknown Thread"),
                                Some(hi) => {
                                    proof {
                                        lemma_first_index(
                                            self@.db.teams[ti as int].channels[ci as int].threads,
                                            thread_has_uuid(h@),
                                        );
                                    }
                                    let th = &db.teams[ti].channels[ci].threads[hi];
                                    let mut r = owned("200 LIST_REPLIES");
                                    let l = list_replies(th.uuid.as_str(), &th.replies);
                                    append_str(&mut r, l.as_str());
                                    r
                                },
                            }
                        },
                    }
                },
            },
        }
    }

    /// The response to `/info` in context `ctx` for user `me`.
    fn info_response_of(&self, me: &String, ctx: &UseContext) -> (r: Option<String>)
        ensures
            crate::command::opt_view(r) == info_response(self@.db, me@, ctx@),
    {
        let db = &self.db;
        match ctx {
            UseContext::Global => match find_user(&db.users, me.as_str()) {
                None => None,
                Some(j) => {
                    proof {
                        lemma_first_index(self@.db.users, user_has_uuid(me@));
                    }
                    let u = &db.users[j];
                    let mut r = owned("200 INFO_USER|");
                    append_str(&mut r, u.uuid.as_str());
                    append_str(&mut r, "|");
                    append_str(&mut r, u.name.as_str());
                    append_str(&mut r, "|");
                    append_str(&mut r, status_str(u.is_connected));
                    Some(r)
                },
            },
            UseContext::Team(t) => match find_team(&db.teams, t.as_str()) {
                None => Some(owned("404 Not Found: Unknown Team")),
                Some(ti) => {
                    proof {
                        lemma_first_index(self@.db.teams, team_has_uuid(t@));
                    }
                    let team = &db.teams[ti];
                    let mut r = owned("200 INFO_TEAM");
                    append_str(&mut r, "|");
                    append_str(&mut r, team.uuid.as_str());
                    append_str(&mut r, "|");
                    append_str(&mut r, team.name.as_str());
                    append_str(&mut r, "|");
                    append_str(&mut r, team.description.as_str());
                    Some(r)
                },
            },
            UseContext::Channel(t, ch) => match find_team(&db.teams, t.as_str()) {
                None => Some(owned("404 Not Found: Unknown Team")),
                Some(ti) => {
                    proof {
                        lemma_first_index(self@.db.teams, team_has_uuid(t@));
                    }
                    match find_channel(&db.teams[ti].channels, ch.as_str()) {
                        None => Some(owned("404 Not Found: Unknown Channel")),
                        Some(ci) => {
                            proof {
                                lemma_first_index(
                                    self@.db.teams[ti as int].channels,
                                    channel_has_uuid(ch@),
                                );
                            }
                            let c = &db.teams[ti].channels[ci];
                            let mut r = owned("200 INFO_CHANNEL");
                            append_str(&mut r, "|");
                            append_str(&mut r, c.uuid.as_str());
                            append_str(&mut r, "|");
                            append_str(&mut r, c.name.as_str());
                            append_str(&mut r, "|");
                            append_str(&mut r, c.description.as_str());
                            Some(r)
                        },
                    }
                },
            },
            UseContext::Thread(t, ch, h) => match find_team(&db.teams, t.as_str()) {
                None => Some(owned("404 Not Found: Unknown Team")),
                Some(ti) => {
                    proof {
                        lemma_first_index(self@.db.teams, team_has_uuid(t@));
                    }
                    match find_channel(&db.teams[ti].channels, ch.as_str()) {
                        None => Some(owned("404 Not Found: Unknown Channel")),
                        Some(ci) => {
                            proof {
                                lemma_first_index(
                                    self@.db.teams[ti as int].channels,
                                    channel_has_uuid(ch@),
                                );
                            }
                            match find_thread(&db.teams[ti].channels[ci].threads, h.as_str()) {
                                None => Some(owned("404 Not Found: Unknown Thread")),
                                Some(hi) => {
                                    proof {
                                        lemma_first_index(
                                            self@.db.teams[ti as int].channels[ci as int].threads,
                                            thread_has_uuid(h@),
                                        );
                                    }
                                    let th = &db.teams[ti].channels[ci].threads[hi];
                                    let mut r = owned("200 INFO_THREAD");
                                    append_str(&mut r, "|");
                                    append_str(&mut r, th.uuid.as_str());
                                    append_str(&mut r, "|");
                                    append_str(&mut r, th.author_uuid.as_str());
                                    append_str(&mut r, "|");
                                    let ts = u64_to_string(th.timestamp);
                                    append_str(&mut r, ts.as_str());
                                    append_str(&mut r, "|");
                                    append_str(&mut r, th.title.as_str());
                                    append_str(&mut r, "|");
                                    append_str(&mut r, th.message.as_str());
                                    Some(r)
                                },
                            }
                        },
                    }
                },
            },
        }
    }

    /// `/list` (when `info` is false) or `/info` (when it is true).
    fn cmd_list_or_info(&mut self, id: u64, info: bool)
        requires
            sessions_known(old(self)@),
        ensures
            sessions_known(final(self)@),
            final(self)@ == list_or_info_spec(old(self)@, id, info),
    {
        let ghost s0 = self@;
        let i = match self.client_pos(id) {
            None => {
                return;
            },
            Some(i) => i,
        };
        assert(self@.clients[i as int] == (self.clients@[i as int].0, self.clients@[i as int].1@));
        let client_uuid = match &self.clients[i].1.uuid {
            Some(uuid) => uuid.clone(),
            None => {
                let m = if info {
                    "401 Unauthorized"
                } else {
                    "401 Unauthorized: Please login first"
                };
                self.send_to(id, m);
                proof {
                    lemma_send_to_known(s0, id, m@);
                }
                return;
            },
        };
        let context = self.clients[i].1.use_context.duplicate();
        let denied = match Self::context_team_uuid(&context) {
            Some(t) => !self.is_subscribed_to_team(client_uuid.as_str(), t),
            None => false,
        };
        if denied {
            self.send_to(id, "401 Unauthorized: Not subscribed to team");
            proof {
                lemma_send_to_known(s0, id, "401 Unauthorized: Not subscribed to team"@);
            }
            return;
        }
        if info {
            match self.info_response_of(&client_uuid, &context) {
                Some(r) => {
                    self.send_to(id, r.as_str());
                    proof {
                        lemma_send_to_known(s0, id, r@);
                    }
                },
                None => {},
            }
        } else {
            let r = self.list_response_of(&context);
            self.send_to(id, r.as_str());
            proof {
                lemma_send_to_known(s0, id, r@);
            }
        }
    }

    /// `/subscribed`: the teams of the user, or the users of a team.
    fn cmd_subscribed(&mut self, id: u64, args: &Vec<String>)
        requires
            sessions_known(old(self)@),
        ensures
            sessions_known(final(self)@),
            final(self)@ == subscribed_spec(old(self)@, id, crate::command::strings_view(args@)),
    {
        let ghost a = crate::command::strings_view(args@);
        let ghost s0 = self@;
        let client_uuid = match self.get_client_uuid(id) {
            Some(uuid) => uuid,
            None => {
                self.send_to(id, "401 Unauthorized");
                proof {
                    lemma_send_to_known(s0, id, "401 Unauthorized"@);
                }
                return;
            },
        };
        if args.len() == 1 {
            let mut r = owned("200 SUBSCRIBED_TEAMS");
            let l = list_teams(&self.db.teams, Some(client_uuid.as_str()));
            append_str(&mut r, l.as_str());
            self.send_to(id, r.as_str());
            proof {
                lemma_send_to_known(s0, id, r@);
            }
        } else if args.len() == 2 {
            let team_uuid = &args[1];
            assert(team_uuid@ == a[1]);
            match find_team(&self.db.teams, team_uuid.as_str()) {
                None => {
                    self.send_to(id, "404 Not Found: Unknown Team");
                    proof {
                        lemma_send_to_known(s0, id, "404 Not Found: Unknown Team"@);
                    }
                },
                Some(ti) => {
                    proof {
                        lemma_first_index(s0.db.teams, team_has_uuid(a[1]));
                    }
                    if !contains_id(&self.db.teams[ti].subscribers, client_uuid.as_str()) {
                        self.send_to(id, "401 Unauthorized: Not subscribed to team");
                        proof {
                            lemma_send_to_known(
                                s0,
                                id,
                                "401 Unauthorized: Not subscribed to team"@,
                            );
                        }
                        return;
                    }
                    let mut r = owned("200 SUBSCRIBED_USERS");
                    let l = list_subscribers(&self.db.teams[ti].subscribers, &self.db);
                    append_str(&mut r, l.as_str());
                    self.send_to(id, r.as_str());
                    proof {
                        lemma_send_to_known(s0, id, r@);
                    }
                },
            }
        } else {
            self.send_to(id, "400 Bad Request");
            proof {
                lemma_send_to_known(s0, id, "400 Bad Request"@);
            }
        }
    }

    /// Carries out the command line `command_line` sent by connection `id`.
    fn handle_command(&mut self, id: u64, command_line: &str, fresh: &str, ts: u64)
        requires
            sessions_known(old(self)@),
        ensures
            sessions_known(final(self)@),
                final(self)@ == handle_command_spec(
                    old(self)@,
                    id,
                    command_line@,
                    fresh@,
                    ts,
                ),
    {
        let ghost s0 = self@;
        let args = parse_command_args(command_line);
        let ghost a = crate::command::strings_view(args@);
        if args.len() == 0 {
            assert(self@ == handle_command_spec(s0, id, command_line@, fresh@, ts));
            return;
        }
        let command = args[0].as_str();
        assert(a[0] == command@);
        if crate::text::str_eq(command, "/login") {
            self.cmd_login(id, &args, fresh);
            assert(self@ == handle_command_spec(s0, id, command_line@, fresh@, ts));
        } else if crate::text::str_eq(command, "/logout") {
            self.cmd_logout(id);
            assert(self@ == handle_command_spec(s0, id, command_line@, fresh@, ts));
        } else if crate::text::str_eq(command, "/send") {
            self.cmd_send(id, &args, ts);
            assert(self@ == handle_command_spec(s0, id, command_line@, fresh@, ts));
        } else if crate::text::str_eq(command, "/use") {
            self.cmd_use(id, &args);
            assert(self@ == handle_command_spec(s0, id, command_line@, fresh@, ts));
        } else if crate::text::str_eq(command, "/users") {
            self.cmd_users(id);
            assert(self@ == handle_command_spec(s0, id, command_line@, fresh@, ts));
        } else if crate::text::str_eq(command, "/user") {
            self.cmd_user(id, &args);
            assert(self@ == handle_command_spec(s0, id, command_line@, fresh@, ts));
        } else if crate::text::str_eq(command, "/messages") {
            self.cmd_messages(id, &args);
            assert(self@ == handle_command_spec(s0, id, command_line@, fresh@, ts));
        } else if crate::text::str_eq(command, "/subscribe") {
            self.cmd_subscribe(id, &args);
            assert(self@ == handle_command_spec(s0, id, command_line@, fresh@, ts));
        } else if crate::text::str_eq(command, "/unsubscribe") {
            self.cmd_unsubscribe(id, &args);
            assert(self@ == handle_command_spec(s0, id, command_line@, fresh@, ts));
        } else if crate::text::str_eq(command, "/create") {
            self.cmd_create(id, &args, fresh, ts);
            assert(self@ == handle_command_spec(s0, id, command_line@, fresh@, ts));
        } else if crate::text::str_eq(command, "/list") {
            self.cmd_list_or_info(id, false);
            assert(self@ == handle_command_spec(s0, id, command_line@, fresh@, ts));
        } else if crate::text::str_eq(command, "/info") {
            self.cmd_list_or_info(id, true);
            assert(self@ == handle_command_spec(s0, id, command_line@, fresh@, ts));
        } else if crate::text::str_eq(command, "/subscribed") {
            self.cmd_subscribed(id, &args);
            assert(self@ == handle_command_spec(s0, id, command_line@, fresh@, ts));
        } else {
            self.send_to(id, "400 Unknown Command");
            proof {
                lemma_send_to_known(s0, id, "400 Unknown Command"@);
            }
            assert(self@ == handle_command_spec(s0, id, command_line@, fresh@, ts));
        }
    }
}


/// The server: its connections, its data, and the logging calls it has
/// recorded. Every user logged in on a connection is a known user.
pub struct Server {
    core: Core,
}

impl View for Server {
    type V = ServerView;

    closed spec fn view(&self) -> ServerView {
        self.core@
    }
}

impl Server {
    #[verifier::type_invariant]
    spec fn well_formed(self) -> bool {
        sessions_known(self.core@)
    }

    /// Takes the state out, leaving an empty one behind.
    fn take_core(&mut self) -> (c: Core)
        ensures
            c@ == old(self)@,
            sessions_known(c@),
    {
        proof {
            use_type_invariant(&*self);
        }
        let mut c = Core::new(Database::new());
        std::mem::swap(&mut c, &mut self.core);
        c
    }

    /// A server with no connections, holding `db`.
    pub fn new(db: Database) -> (s: Server)
        ensures
            s@ == (ServerView { clients: seq![], db: db@, log: seq![] }),
    {
        Server { core: Core::new(db) }
    }

    /// The server's data.
    pub fn database(&self) -> (db: &Database)
        ensures
            db@ == self@.db,
    {
        self.core.database()
    }

    /// Registers a new connection under `id`, replacing any connection
    /// already registered under it.
    pub fn add_client(&mut self, id: u64)
        ensures
            final(self)@ == (ServerView {
                clients: put(old(self)@.clients, has_id(id), (id, crate::client::fresh_client())),
                ..old(self)@
            }),
    {
        let mut c = self.take_core();
        c.add_client(id);
        self.core = c;
    }

    /// Forgets connection `id`, recording that its user logged out when one
    /// was logged in on it.
    pub fn remove_client(&mut self, id: u64)
        ensures
            final(self)@ == match client_index(old(self)@, id) {
                None => old(self)@,
                Some(i) => {
                    let s1 = ServerView {
                        clients: old(self)@.clients.remove(i),
                        ..old(self)@
                    };
                    match old(self)@.clients[i].1.uuid {
                        Some(u) => log(s1, LogCall::ServerEventUserLoggedOut { user_uuid: cstr(u) }),
                        None => s1,
                    }
                },
            },
    {
        let mut c = self.take_core();
        c.remove_client(id);
        self.core = c;
    }

    /// Appends `data` to the input bytes of connection `id` and takes out the
    /// complete command lines (see [`extract_all`]); nothing happens when no
    /// connection is registered under `id`.
    pub fn receive(&mut self, id: u64, data: &[u8]) -> (cmds: Vec<String>)
        ensures
            match client_index(old(self)@, id) {
                None => final(self)@ == old(self)@ && cmds@.len() == 0,
                Some(i) => {
                    let c = old(self)@.clients[i].1;
                    let (lines, rest) = extract_all(c.read_buffer + data@);
                    &&& crate::command::strings_view(cmds@) == lines
                    &&& final(self)@ == set_client(
                        old(self)@,
                        i,
                        ClientView { read_buffer: rest, ..c },
                    )
                },
            },
    {
        let mut c = self.take_core();
        let cmds = c.receive(id, data);
        self.core = c;
        cmds
    }

    /// Carries out the command line `command_line` sent by connection `id`,
    /// with `fresh` as the identifier of anything it creates and `ts` as the
    /// time stamp of any message or thread it stores.
    pub fn handle_command_stamped(&mut self, id: u64, command_line: &str, fresh: &str, ts: u64)
        ensures
            final(self)@ == handle_command_spec(old(self)@, id, command_line@, fresh@, ts),
    {
        let mut c = self.take_core();
        c.handle_command(id, command_line, fresh, ts);
        self.core = c;
    }

    /// Carries out the command line `command_line` sent by connection `id`.
    /// New users, teams, channels and threads get an identifier made from the
    /// clock (lower-case hexadecimal nanoseconds since the Unix epoch) and
    /// messages the clock's seconds: the result is the command's effect for
    /// some such readings.
    pub fn handle_command(&mut self, id: u64, command_line: &str)
        ensures
            exists|n: u128, ts: u64|
                final(self)@ == handle_command_spec(
                    old(self)@,
                    id,
                    command_line@,
                    hex(n as nat),
                    ts,
                ),
    {
        let fresh = generate_uuid();
        let ts = now_secs();
        self.handle_command_stamped(id, command_line, fresh.as_str(), ts);
    }

    /// The bytes waiting to be sent on connection `id`.
    pub fn pending_output(&self, id: u64) -> (out: Vec<u8>)
        ensures
            out@ == match client_index(self@, id) {
                Some(i) => self@.clients[i].1.write_buffer,
                None => seq![],
            },
    {
        self.core.pending_output(id)
    }

    /// Drops the first `n` bytes waiting on connection `id`, once they were
    /// sent (all of them when fewer are waiting).
    pub fn consume_output(&mut self, id: u64, n: usize)
        ensures
            final(self)@ == match client_index(old(self)@, id) {
                Some(i) => set_client(
                    old(self)@,
                    i,
                    ClientView {
                        write_buffer: old(self)@.clients[i].1.write_buffer.skip(
                            if n <= old(self)@.clients[i].1.write_buffer.len() {
                                n as int
                            } else {
                                old(self)@.clients[i].1.write_buffer.len() as int
                            },
                        ),
                        ..old(self)@.clients[i].1
                    },
                ),
                None => old(self)@,
            },
    {
        let mut c = self.take_core();
        c.consume_output(id, n);
        self.core = c;
    }

    /// Takes out the logging calls recorded so far, oldest first.
    pub fn take_log(&mut self) -> (calls: Vec<LogCall<Vec<u8>>>)
        ensures
            log_view(calls@) == old(self)@.log,
            final(self)@ == (ServerView { log: seq![], ..old(self)@ }),
    {
        let mut c = self.take_core();
        let calls = c.take_log();
        self.core = c;
        calls
    }

    /// The user logged in on connection `id`.
    pub fn get_client_uuid(&self, id: u64) -> (r: Option<String>)
        ensures
            crate::command::opt_view(r) == client_uuid(self@, id),
    {
        self.core.get_client_uuid(id)
    }

    /// Whether `user_uuid` subscribes to the team stored under `team_uuid`.
    pub fn is_subscribed_to_team(&self, user_uuid: &str, team_uuid: &str) -> (r: bool)
        ensures
            r == is_subscribed_to_team(self@.db, user_uuid@, team_uuid@),
    {
        self.core.is_subscribed_to_team(user_uuid, team_uuid)
    }

    /// The team that `context` is inside of.
    pub fn context_team_uuid(context: &UseContext) -> (r: Option<&str>)
        ensures
            match r {
                Some(t) => context_team(context@) == Some(t@),
                None => context_team(context@) is None,
            },
    {
        Core::context_team_uuid(context)
    }

    /// Moves connection `id` back to the global context when its context is
    /// inside team `team_uuid`.
    pub fn reset_client_context_if_inside_team(&mut self, id: u64, team_uuid: &str)
        ensures
            final(self)@ == reset_context_in_team(old(self)@, id, team_uuid@),
    {
        let mut c = self.take_core();
        c.reset_client_context_if_inside_team(id, team_uuid);
        proof {
            lemma_reset_same(old(self)@, id, team_uuid@);
            lemma_same_sessions(old(self)@, c@);
        }
        self.core = c;
    }

    /// Queues `msg` on the first connection where `user_uuid` is logged in.
    pub fn send_event_to_user(&mut self, user_uuid: &str, msg: &str)
        ensures
            final(self)@ == send_event_to_user(old(self)@, user_uuid@, msg@),
    {
        let mut c = self.take_core();
        c.send_event_to_user(user_uuid, msg);
        proof {
            lemma_event_to_user_same(old(self)@, user_uuid@, msg@);
            lemma_same_sessions(old(self)@, c@);
        }
        self.core = c;
    }

    /// Queues `msg` on every connection of every subscriber of team `team_uuid`.
    pub fn send_event_to_team_subscribers(&mut self, team_uuid: &str, msg: &str)
        ensures
            final(self)@ == send_event_to_team_subscribers(old(self)@, team_uuid@, msg@),
    {
        let mut c = self.take_core();
        c.send_event_to_team_subscribers(team_uuid, msg);
        proof {
            lemma_team_event_same(old(self)@, team_uuid@, msg@);
            lemma_same_sessions(old(self)@, c@);
        }
        self.core = c;
    }
}

} // verus!
