//! Properties that hold across the server's commands.
use vstd::prelude::*;
use crate::client::{ClientView, UseContextView};
use crate::models::{
    first_index, lemma_first_index, put, DatabaseView, UserView, TeamView, ChannelView, ThreadView,
    user_has_uuid, user_has_name, team_has_uuid, team_has_name, channel_has_uuid,
    channel_has_name, subscribed,
};
use crate::server_model::{
    ServerView, send_to, set_context, log, with_db, set_connected, reset_context_in_team,
    send_event_to_user, send_event_to_team_subscribers, set_team, set_channel, remove_all,
    login_spec, logout_spec, use_spec, messages_spec, subscribe_spec, unsubscribe_spec, create_channel_spec, create_thread_spec,
    create_reply_spec, create_spec, list_or_info_spec, handle_command_spec,
    command_args, client_index, client_uuid,
};

verus! {

/// No two elements of `s` have the same `key`.
pub open spec fn all_distinct<T>(s: Seq<T>, key: spec_fn(T) -> Seq<char>) -> bool {
    forall|i: int, j: int| 0 <= i < s.len() && 0 <= j < s.len() && i != j ==> key(s[i]) != key(s[j])
}

pub open spec fn user_name() -> spec_fn(UserView) -> Seq<char> {
    |u: UserView| u.name
}

pub open spec fn team_name() -> spec_fn(TeamView) -> Seq<char> {
    |t: TeamView| t.name
}

pub open spec fn channel_name() -> spec_fn(ChannelView) -> Seq<char> {
    |c: ChannelView| c.name
}

pub open spec fn user_uuid() -> spec_fn(UserView) -> Seq<char> {
    |u: UserView| u.uuid
}

pub open spec fn team_uuid() -> spec_fn(TeamView) -> Seq<char> {
    |t: TeamView| t.uuid
}

pub open spec fn channel_uuid() -> spec_fn(ChannelView) -> Seq<char> {
    |c: ChannelView| c.uuid
}

pub open spec fn thread_uuid() -> spec_fn(ThreadView) -> Seq<char> {
    |h: ThreadView| h.uuid
}

/// Whether a team's channels have distinct names and distinct identifiers,
/// the threads of each channel distinct identifiers, and its subscribers are
/// listed once each.
pub open spec fn team_consistent(t: TeamView) -> bool {
    &&& all_distinct(t.channels, channel_name())
    &&& all_distinct(t.channels, channel_uuid())
    &&& forall|k: int|
        0 <= k < t.channels.len() ==> all_distinct((#[trigger] t.channels[k]).threads, thread_uuid())
    &&& t.subscribers.no_duplicates()
}

/// The uniqueness that the commands keep: user names and identifiers, team
/// names and identifiers, the channel names and identifiers of each team, the
/// thread identifiers of each channel, and the subscribers of each team.
pub open spec fn consistent(db: DatabaseView) -> bool {
    &&& all_distinct(db.users, user_name())
    &&& all_distinct(db.users, user_uuid())
    &&& all_distinct(db.teams, team_name())
    &&& all_distinct(db.teams, team_uuid())
    &&& forall|i: int| 0 <= i < db.teams.len() ==> team_consistent(#[trigger] db.teams[i])
}

proof fn lemma_put_distinct<T>(
    s: Seq<T>,
    p: spec_fn(T) -> bool,
    v: T,
    key: spec_fn(T) -> Seq<char>,
)
    requires
        all_distinct(s, key),
        forall|i: int| 0 <= i < s.len() ==> key(s[i]) != key(v),
    ensures
        all_distinct(put(s, p, v), key),
{
    lemma_first_index(s, p);
    let s2 = put(s, p, v);
    assert forall|i: int, j: int|
        0 <= i < s2.len() && 0 <= j < s2.len() && i != j implies key(s2[i]) != key(s2[j]) by {
        match first_index(s, p) {
            Some(k) => {
                if i != k && j != k {
                    assert(s2[i] == s[i] && s2[j] == s[j]);
                }
            },
            None => {
                if i < s.len() && j < s.len() {
                    assert(s2[i] == s[i] && s2[j] == s[j]);
                }
            },
        }
    }
}

proof fn lemma_put_keyed<T>(s: Seq<T>, p: spec_fn(T) -> bool, v: T, key: spec_fn(T) -> Seq<char>)
    requires
        all_distinct(s, key),
        forall|x: T| #[trigger] p(x) <==> key(x) == key(v),
    ensures
        all_distinct(put(s, p, v), key),
{
    lemma_first_index(s, p);
    match first_index(s, p) {
        Some(k) => {
            assert(p(s[k]));
            lemma_update_distinct(s, k, v, key);
        },
        None => {
            assert forall|i: int| 0 <= i < s.len() implies key(s[i]) != key(v) by {
                assert(!p(s[i]));
            }
            lemma_put_distinct(s, p, v, key);
        },
    }
}

proof fn lemma_update_distinct<T>(s: Seq<T>, i: int, v: T, key: spec_fn(T) -> Seq<char>)
    requires
        all_distinct(s, key),
        0 <= i < s.len(),
        key(v) == key(s[i]),
    ensures
        all_distinct(s.update(i, v), key),
{
    let s2 = s.update(i, v);
    assert forall|a: int, b: int|
        0 <= a < s2.len() && 0 <= b < s2.len() && a != b implies key(s2[a]) != key(s2[b]) by {
        assert(key(s2[a]) == key(s[a]));
        assert(key(s2[b]) == key(s[b]));
    }
}

proof fn lemma_no_name_match<T>(s: Seq<T>, p: spec_fn(T) -> bool, key: spec_fn(T) -> Seq<char>, n: Seq<char>)
    requires
        first_index(s, p) is None,
        forall|x: T| #[trigger] p(x) <==> key(x) == n,
    ensures
        forall|i: int| 0 <= i < s.len() ==> key(s[i]) != n,
{
    lemma_first_index(s, p);
    assert forall|i: int| 0 <= i < s.len() implies key(s[i]) != n by {
        assert(!p(s[i]));
    }
}

proof fn lemma_remove_all(s: Seq<Seq<char>>, x: Seq<char>)
    requires
        s.no_duplicates(),
    ensures
        remove_all(s, x).no_duplicates(),
        forall|y: Seq<char>| #[trigger] remove_all(s, x).contains(y) ==> s.contains(y) && y != x,
    decreases s.len(),
{
    if s.len() > 0 {
        let d = s.drop_last();
        assert(d.no_duplicates()) by {
            assert forall|i: int, j: int| 0 <= i < d.len() && 0 <= j < d.len() && i != j implies d[i] != d[j] by {
                assert(d[i] == s[i] && d[j] == s[j]);
            }
        }
        lemma_remove_all(d, x);
        let r = remove_all(d, x);
        assert forall|y: Seq<char>| #[trigger] remove_all(s, x).contains(y) implies s.contains(y) && y != x by {
            if s.last() != x && y == s.last() {
                assert(s[s.len() - 1] == y);
            } else {
                assert(r.contains(y));
                let k = choose|k: int| 0 <= k < d.len() && d[k] == y;
                assert(s[k] == y);
            }
        }
        if s.last() != x {
            assert(!r.contains(s.last())) by {
                if r.contains(s.last()) {
                    assert(d.contains(s.last()));
                    let k = choose|k: int| 0 <= k < d.len() && d[k] == s.last();
                    assert(s[k] == s[s.len() - 1]);
                }
            }
            let r2 = r.push(s.last());
            assert forall|i: int, j: int| 0 <= i < r2.len() && 0 <= j < r2.len() && i != j implies r2[i] != r2[j] by {
                if i == r.len() {
                    assert(r.contains(r2[j]));
                } else if j == r.len() {
                    assert(r.contains(r2[i]));
                }
            }
        }
    }
}

proof fn lemma_set_team_consistent(db: DatabaseView, i: int, t: TeamView)
    requires
        consistent(db),
        0 <= i < db.teams.len(),
        t.name == db.teams[i].name,
        t.uuid == db.teams[i].uuid,
        team_consistent(t),
    ensures
        consistent(set_team(db, i, t)),
{
    lemma_update_distinct(db.teams, i, t, team_name());
    lemma_update_distinct(db.teams, i, t, team_uuid());
    let db2 = set_team(db, i, t);
    assert forall|k: int| 0 <= k < db2.teams.len() implies team_consistent(#[trigger] db2.teams[k]) by {
        if k != i {
            assert(db2.teams[k] == db.teams[k]);
        }
    }
}

proof fn lemma_set_connected_consistent(db: DatabaseView, u: Seq<char>, flag: bool)
    requires
        consistent(db),
    ensures
        consistent(set_connected(db, u, flag)),
{
    lemma_first_index(db.users, user_has_uuid(u));
    if let Some(j) = first_index(db.users, user_has_uuid(u)) {
        lemma_update_distinct(
            db.users,
            j,
            UserView { is_connected: flag, ..db.users[j] },
            user_name(),
        );
        lemma_update_distinct(
            db.users,
            j,
            UserView { is_connected: flag, ..db.users[j] },
            user_uuid(),
        );
    }
}

proof fn lemma_send_to_db(s: ServerView, id: u64, msg: Seq<char>)
    ensures
        send_to(s, id, msg).db == s.db,
{
    lemma_first_index(s.clients, crate::server_model::has_id(id));
}

proof fn lemma_send_to_uuid(s: ServerView, id: u64, msg: Seq<char>, other: u64)
    ensures
        client_index(send_to(s, id, msg), other) == client_index(s, other),
        client_uuid(send_to(s, id, msg), other) == client_uuid(s, other),
{
    lemma_first_index(s.clients, crate::server_model::has_id(id));
    if let Some(i) = client_index(s, id) {
        lemma_first_index_update_same(
            s.clients,
            i,
            (s.clients[i].0, crate::client::queue(s.clients[i].1, msg)),
            crate::server_model::has_id(other),
        );
        let s2 = send_to(s, id, msg);
        lemma_first_index(s.clients, crate::server_model::has_id(other));
        if let Some(k) = client_index(s, other) {
            assert(s2.clients[k].1.uuid == s.clients[k].1.uuid);
        }
    }
}

proof fn lemma_set_context_db(s: ServerView, id: u64, ctx: UseContextView)
    ensures
        set_context(s, id, ctx).db == s.db,
{
    lemma_first_index(s.clients, crate::server_model::has_id(id));
}

proof fn lemma_login(s: ServerView, id: u64, args: Seq<Seq<char>>, fresh: Seq<char>)
    requires
        consistent(s.db),
    ensures
        consistent(login_spec(s, id, args, fresh).db),
{
    if args.len() != 2 {
        lemma_send_to_db(s, id, "400 Bad Request: Missing user_name"@);
    } else if crate::text::byte_len(args[1]) > crate::server_model::MAX_NAME_LENGTH {
        lemma_send_to_db(s, id, "400 Bad Request: Name too long"@);
    } else {
        let name = args[1];
        lemma_first_index(s.clients, crate::server_model::has_id(id));
        match first_index(s.db.users, user_has_name(name)) {
            Some(i) => {
                lemma_set_connected_consistent(s.db, s.db.users[i].uuid, true);
            },
            None => {
                lemma_no_name_match(s.db.users, user_has_name(name), user_name(), name);
                lemma_put_distinct(
                    s.db.users,
                    user_has_uuid(fresh),
                    UserView { uuid: fresh, name, is_connected: true },
                    user_name(),
                );
                lemma_put_keyed(
                    s.db.users,
                    user_has_uuid(fresh),
                    UserView { uuid: fresh, name, is_connected: true },
                    user_uuid(),
                );
            },
        }
    }
}

proof fn lemma_create(s: ServerView, id: u64, args: Seq<Seq<char>>, fresh: Seq<char>, ts: u64)
    requires
        consistent(s.db),
    ensures
        consistent(create_spec(s, id, args, fresh, ts).db),
{
    lemma_first_index(s.clients, crate::server_model::has_id(id));
    match client_index(s, id) {
        None => {},
        Some(ci) => {
            let c = s.clients[ci].1;
            match c.uuid {
                None => lemma_send_to_db(s, id, "401 Unauthorized"@),
                Some(me) => {
                    lemma_send_to_db(s, id, "401 Unauthorized: Not subscribed to team"@);
                    lemma_send_to_db(s, id, "400 Bad Request"@);
                    lemma_send_to_db(s, id, "400 Bad Request: Length error"@);
                    match c.use_context {
                        UseContextView::Global => {
                            if args.len() == 3 {
                                let name = args[1];
                                lemma_send_to_db(s, id, "409 Conflict: Team already exists"@);
                                if first_index(s.db.teams, team_has_name(name)) is None {
                                    lemma_no_name_match(
                                        s.db.teams,
                                        team_has_name(name),
                                        team_name(),
                                        name,
                                    );
                                    let team = TeamView {
                                        uuid: fresh,
                                        name,
                                        description: args[2],
                                        subscribers: seq![me],
                                        channels: seq![],
                                    };
                                    lemma_put_distinct(
                                        s.db.teams,
                                        team_has_uuid(fresh),
                                        team,
                                        team_name(),
                                    );
                                    lemma_put_keyed(
                                        s.db.teams,
                                        team_has_uuid(fresh),
                                        team,
                                        team_uuid(),
                                    );
                                    lemma_first_index(s.db.teams, team_has_uuid(fresh));
                                    let db2 = DatabaseView {
                                        teams: put(s.db.teams, team_has_uuid(fresh), team),
                                        ..s.db
                                    };
                                    assert(team_consistent(team)) by {
                                        assert(team.subscribers.no_duplicates());
                                    }
                                    assert forall|k: int| 0 <= k < db2.teams.len() implies team_consistent(
                                        #[trigger] db2.teams[k],
                                    ) by {
                                        if db2.teams[k] != team {
                                            assert(db2.teams[k] == s.db.teams[k]);
                                        }
                                    }
                                    let s2 = log(with_db(s, db2), crate::ffi::LogCall::ServerEventTeamCreated {
                                        team_uuid: crate::ffi::cstr(fresh),
                                        team_name: crate::ffi::cstr(name),
                                        user_uuid: crate::ffi::cstr(me),
                                    });
                                    lemma_send_to_db(
                                        s2,
                                        id,
                                        "200 TEAM_CREATED|"@ + fresh + "|"@ + name + "|"@ + args[2],
                                    );
                                }
                            }
                        },
                        UseContextView::Team(t) => {
                            lemma_create_channel(s, id, t, args, fresh);
                        },
                        UseContextView::Channel(t, ch) => {
                            lemma_create_thread(s, id, me, t, ch, args, fresh, ts);
                        },
                        UseContextView::Thread(t, ch, h) => {
                            lemma_create_reply(s, id, me, t, ch, h, args, ts);
                        },
                    }
                },
            }
        },
    }
}

proof fn lemma_team_event_db(s: ServerView, t: Seq<char>, msg: Seq<char>)
    ensures
        send_event_to_team_subscribers(s, t, msg).db == s.db,
{
}

proof fn lemma_create_channel(s: ServerView, id: u64, t: Seq<char>, args: Seq<Seq<char>>, fresh: Seq<char>)
    requires
        consistent(s.db),
    ensures
        consistent(create_channel_spec(s, id, t, args, fresh).db),
{
    lemma_send_to_db(s, id, "400 Bad Request"@);
    lemma_send_to_db(s, id, "400 Bad Request: Length error"@);
    lemma_send_to_db(s, id, "404 Not Found: Team unknown"@);
    lemma_send_to_db(s, id, "409 Conflict: Channel already exists"@);
    lemma_first_index(s.db.teams, team_has_uuid(t));
    if args.len() == 3 {
        let name = args[1];
        let desc = args[2];
        if let Some(i) = first_index(s.db.teams, team_has_uuid(t)) {
            let team = s.db.teams[i];
            if first_index(team.channels, channel_has_name(name)) is None {
                lemma_no_name_match(team.channels, channel_has_name(name), channel_name(), name);
                let channel = ChannelView { uuid: fresh, name, description: desc, threads: seq![] };
                lemma_put_distinct(team.channels, channel_has_uuid(fresh), channel, channel_name());
                lemma_put_keyed(team.channels, channel_has_uuid(fresh), channel, channel_uuid());
                let team2 = TeamView {
                    channels: put(team.channels, channel_has_uuid(fresh), channel),
                    ..team
                };
                assert(team_consistent(team));
                lemma_first_index(team.channels, channel_has_uuid(fresh));
                assert forall|k: int| 0 <= k < team2.channels.len() implies all_distinct(
                    (#[trigger] team2.channels[k]).threads,
                    thread_uuid(),
                ) by {
                    if team2.channels[k] != channel {
                        assert(team2.channels[k] == team.channels[k]);
                    } else {
                        assert(channel.threads.len() == 0);
                    }
                }
                assert(team_consistent(team2));
                lemma_set_team_consistent(s.db, i, team2);
                let s1 = log(
                    with_db(s, set_team(s.db, i, team2)),
                    crate::ffi::LogCall::ServerEventChannelCreated {
                        team_uuid: crate::ffi::cstr(t),
                        channel_uuid: crate::ffi::cstr(fresh),
                        channel_name: crate::ffi::cstr(name),
                    },
                );
                let m = "200 CHANNEL_CREATED|"@ + fresh + "|"@ + name + "|"@ + desc;
                lemma_send_to_db(s1, id, m);
                lemma_team_event_db(
                    send_to(s1, id, m),
                    t,
                    "EVENT CHANNEL_CREATED|"@ + fresh + "|"@ + name + "|"@ + desc,
                );
            }
        }
    }
}

proof fn lemma_set_channel_consistent(db: DatabaseView, i: int, ci: int, c: ChannelView)
    requires
        consistent(db),
        0 <= i < db.teams.len(),
        0 <= ci < db.teams[i].channels.len(),
        c.name == db.teams[i].channels[ci].name,
        c.uuid == db.teams[i].channels[ci].uuid,
        all_distinct(c.threads, thread_uuid()),
    ensures
        consistent(set_team(db, i, set_channel(db.teams[i], ci, c))),
{
    let team = db.teams[i];
    assert(team_consistent(team));
    lemma_update_distinct(team.channels, ci, c, channel_name());
    lemma_update_distinct(team.channels, ci, c, channel_uuid());
    let team2 = set_channel(team, ci, c);
    assert forall|k: int| 0 <= k < team2.channels.len() implies all_distinct(
        (#[trigger] team2.channels[k]).threads,
        thread_uuid(),
    ) by {
        if k != ci {
            assert(team2.channels[k] == team.channels[k]);
        }
    }
    lemma_set_team_consistent(db, i, set_channel(team, ci, c));
}

proof fn lemma_create_thread(
    s: ServerView,
    id: u64,
    me: Seq<char>,
    t: Seq<char>,
    ch: Seq<char>,
    args: Seq<Seq<char>>,
    fresh: Seq<char>,
    ts: u64,
)
    requires
        consistent(s.db),
    ensures
        consistent(create_thread_spec(s, id, me, t, ch, args, fresh, ts).db),
{
    lemma_send_to_db(s, id, "400 Bad Request"@);
    lemma_send_to_db(s, id, "400 Bad Request: Length error"@);
    lemma_send_to_db(s, id, "404 Not Found: Unknown Team"@);
    lemma_send_to_db(s, id, "404 Not Found: Unknown Channel"@);
    lemma_first_index(s.db.teams, team_has_uuid(t));
    if args.len() == 3 {
        if let Some(i) = first_index(s.db.teams, team_has_uuid(t)) {
            let team = s.db.teams[i];
            lemma_first_index(team.channels, channel_has_uuid(ch));
            if let Some(ci) = first_index(team.channels, channel_has_uuid(ch)) {
                let c = team.channels[ci];
                let thread = crate::models::ThreadView {
                    uuid: fresh,
                    title: args[1],
                    message: args[2],
                    author_uuid: me,
                    replies: seq![],
                    timestamp: ts,
                };
                let c2 = ChannelView {
                    threads: put(c.threads, crate::models::thread_has_uuid(fresh), thread),
                    ..c
                };
                assert(team_consistent(team));
                assert(all_distinct(team.channels[ci].threads, thread_uuid()));
                lemma_put_keyed(c.threads, crate::models::thread_has_uuid(fresh), thread, thread_uuid());
                lemma_set_channel_consistent(s.db, i, ci, c2);
                let s1 = log(
                    with_db(s, set_team(s.db, i, set_channel(team, ci, c2))),
                    crate::ffi::LogCall::ServerEventThreadCreated {
                        channel_uuid: crate::ffi::cstr(ch),
                        thread_uuid: crate::ffi::cstr(fresh),
                        user_uuid: crate::ffi::cstr(me),
                        thread_title: crate::ffi::cstr(args[1]),
                        thread_body: crate::ffi::cstr(args[2]),
                    },
                );
                let fields = fresh + "|"@ + me + "|"@ + crate::text::dec(ts as nat) + "|"@
                    + args[1] + "|"@ + args[2];
                lemma_send_to_db(s1, id, "200 THREAD_CREATED|"@ + fields);
            }
        }
    }
}

proof fn lemma_create_reply(
    s: ServerView,
    id: u64,
    me: Seq<char>,
    t: Seq<char>,
    ch: Seq<char>,
    h: Seq<char>,
    args: Seq<Seq<char>>,
    ts: u64,
)
    requires
        consistent(s.db),
    ensures
        consistent(create_reply_spec(s, id, me, t, ch, h, args, ts).db),
{
    lemma_send_to_db(s, id, "400 Bad Request"@);
    lemma_send_to_db(s, id, "400 Bad Request: Reply too long"@);
    lemma_send_to_db(s, id, "404 Not Found: Unknown Team"@);
    lemma_send_to_db(s, id, "404 Not Found: Unknown Channel"@);
    lemma_send_to_db(s, id, "404 Not Found: Unknown Thread"@);
    lemma_first_index(s.db.teams, team_has_uuid(t));
    if args.len() == 2 {
        if let Some(i) = first_index(s.db.teams, team_has_uuid(t)) {
            let team = s.db.teams[i];
            lemma_first_index(team.channels, channel_has_uuid(ch));
            if let Some(ci) = first_index(team.channels, channel_has_uuid(ch)) {
                let c = team.channels[ci];
                lemma_first_index(c.threads, crate::models::thread_has_uuid(h));
                if let Some(hi) = first_index(c.threads, crate::models::thread_has_uuid(h)) {
                    let th = c.threads[hi];
                    let m = crate::models::MessageView {
                        sender_uuid: me,
                        receiver_uuid: h,
                        body: args[1],
                        timestamp: ts,
                    };
                    let th2 = crate::models::ThreadView { replies: th.replies.push(m), ..th };
                    let c2 = ChannelView { threads: c.threads.update(hi, th2), ..c };
                    assert(team_consistent(team));
                    assert(all_distinct(team.channels[ci].threads, thread_uuid()));
                    lemma_update_distinct(c.threads, hi, th2, thread_uuid());
                    lemma_set_channel_consistent(s.db, i, ci, c2);
                    let s1 = log(
                        with_db(s, set_team(s.db, i, set_channel(team, ci, c2))),
                        crate::ffi::LogCall::ServerEventReplyCreated {
                            thread_uuid: crate::ffi::cstr(h),
                            user_uuid: crate::ffi::cstr(me),
                            reply_body: crate::ffi::cstr(args[1]),
                        },
                    );
                    lemma_send_to_db(
                        s1,
                        id,
                        "200 REPLY_CREATED|"@ + h + "|"@ + me + "|"@ + crate::text::dec(ts as nat)
                            + "|"@ + args[1],
                    );
                }
            }
        }
    }
}

proof fn lemma_subscribe(s: ServerView, id: u64, args: Seq<Seq<char>>)
    requires
        consistent(s.db),
    ensures
        consistent(subscribe_spec(s, id, args).db),
{
    lemma_send_to_db(s, id, "400 Bad Request"@);
    lemma_send_to_db(s, id, "401 Unauthorized"@);
    lemma_send_to_db(s, id, "404 Not Found: Team not found"@);
    if args.len() == 2 {
        if let Some(me) = client_uuid(s, id) {
            let t = args[1];
            lemma_first_index(s.db.teams, team_has_uuid(t));
            if let Some(i) = first_index(s.db.teams, team_has_uuid(t)) {
                let team = s.db.teams[i];
                assert(team_consistent(team));
                let team2 = if subscribed(team, me) {
                    team
                } else {
                    TeamView { subscribers: team.subscribers.push(me), ..team }
                };
                assert(team2.subscribers.no_duplicates()) by {
                    if !subscribed(team, me) {
                        let a = team.subscribers.push(me);
                        assert forall|x: int, y: int| 0 <= x < a.len() && 0 <= y < a.len() && x != y implies a[x] != a[y] by {
                            if x == team.subscribers.len() {
                                assert(team.subscribers.contains(a[y]));
                            } else if y == team.subscribers.len() {
                                assert(team.subscribers.contains(a[x]));
                            }
                        }
                    }
                }
                lemma_set_team_consistent(s.db, i, team2);
                let s1 = log(
                    with_db(s, set_team(s.db, i, team2)),
                    crate::ffi::LogCall::ServerEventUserSubscribed {
                        team_uuid: crate::ffi::cstr(t),
                        user_uuid: crate::ffi::cstr(me),
                    },
                );
                lemma_send_to_db(s1, id, "200 SUBSCRIBED|"@ + me + "|"@ + t);
            }
        }
    }
}

proof fn lemma_unsubscribe(s: ServerView, id: u64, args: Seq<Seq<char>>)
    requires
        consistent(s.db),
    ensures
        consistent(unsubscribe_spec(s, id, args).db),
{
    lemma_send_to_db(s, id, "400 Bad Request"@);
    lemma_send_to_db(s, id, "401 Unauthorized"@);
    lemma_send_to_db(s, id, "404 Not Found: Team not found"@);
    lemma_send_to_db(s, id, "401 Unauthorized: Not subscribed to team"@);
    if args.len() == 2 {
        if let Some(me) = client_uuid(s, id) {
            let t = args[1];
            lemma_first_index(s.db.teams, team_has_uuid(t));
            if let Some(i) = first_index(s.db.teams, team_has_uuid(t)) {
                let team = s.db.teams[i];
                if subscribed(team, me) {
                    assert(team_consistent(team));
                    lemma_remove_all(team.subscribers, me);
                    let team2 = TeamView { subscribers: remove_all(team.subscribers, me), ..team };
                    lemma_set_team_consistent(s.db, i, team2);
                    let s0 = with_db(s, set_team(s.db, i, team2));
                    lemma_first_index(s0.clients, crate::server_model::has_id(id));
                    let s1 = reset_context_in_team(s0, id, t);
                    let s2 = log(
                        s1,
                        crate::ffi::LogCall::ServerEventUserUnsubscribed {
                            team_uuid: crate::ffi::cstr(t),
                            user_uuid: crate::ffi::cstr(me),
                        },
                    );
                    lemma_send_to_db(s2, id, "200 UNSUBSCRIBED|"@ + me + "|"@ + t);
                }
            }
        }
    }
}

proof fn lemma_use(s: ServerView, id: u64, args: Seq<Seq<char>>)
    ensures
        use_spec(s, id, args).db == s.db,
{
    lemma_first_index(s.clients, crate::server_model::has_id(id));
}

proof fn lemma_list_or_info(s: ServerView, id: u64, info: bool)
    ensures
        list_or_info_spec(s, id, info).db == s.db,
{
    lemma_first_index(s.clients, crate::server_model::has_id(id));
}

/// No command lets two users share a name or an identifier, two teams share a
/// name or an identifier, two channels of a team share a name or an
/// identifier, two threads of a channel share an identifier, or a team list a
/// subscriber twice.
pub proof fn law_commands_keep_names_and_identifiers_unique(
    s: ServerView,
    id: u64,
    line: Seq<char>,
    fresh: Seq<char>,
    ts: u64,
)
    requires
        consistent(s.db),
    ensures
        consistent(handle_command_spec(s, id, line, fresh, ts).db),
{
    let args = command_args(line);
    lemma_first_index(s.clients, crate::server_model::has_id(id));
    lemma_send_to_db(s, id, "400 Unknown Command"@);
    if args.len() > 0 {
        let c = args[0];
        if c == "/login"@ {
            lemma_login(s, id, args, fresh);
        } else if c == "/logout"@ {
            if let Some(i) = client_index(s, id) {
                if let Some(u) = s.clients[i].1.uuid {
                    lemma_set_connected_consistent(s.db, u, false);
                }
            }
        } else if c == "/send"@ {
            lemma_send_to_db(s, id, "400 Bad Request: /send \"user_uuid\" \"message\""@);
            lemma_send_to_db(s, id, "401 Unauthorized: Please login first"@);
            lemma_send_to_db(s, id, "400 Bad Request: Message too long"@);
            lemma_send_to_db(s, id, "404 Not Found: User does not exist"@);
            if args.len() == 3 {
                if let Some(sender) = client_uuid(s, id) {
                    let m = crate::models::MessageView {
                        sender_uuid: sender,
                        receiver_uuid: args[1],
                        body: args[2],
                        timestamp: ts,
                    };
                    let s1 = with_db(
                        s,
                        DatabaseView { private_messages: s.db.private_messages.push(m), ..s.db },
                    );
                    let s2 = log(
                        s1,
                        crate::ffi::LogCall::ServerEventPrivateMessageSended {
                            sender_uuid: crate::ffi::cstr(sender),
                            receiver_uuid: crate::ffi::cstr(args[1]),
                            message_body: crate::ffi::cstr(args[2]),
                        },
                    );
                    let ev = "EVENT PM_RECEIVED|"@ + sender + "|"@ + args[2];
                    lemma_first_index(s2.clients, crate::server_model::logged_in_as(args[1]));
                    lemma_send_to_db(
                        send_event_to_user(s2, args[1], ev),
                        id,
                        "200 Message Sent"@,
                    );
                }
            }
        } else if c == "/use"@ {
            lemma_use(s, id, args);
        } else if c == "/users"@ {
            lemma_send_to_db(s, id, "401 Unauthorized: Please login first"@);
            lemma_send_to_db(s, id, "200 USERS"@ + crate::server_model::users_listing(s.db.users));
        } else if c == "/user"@ {
            lemma_send_to_db(s, id, "400 Bad Request"@);
            lemma_send_to_db(s, id, "401 Unauthorized"@);
            lemma_send_to_db(s, id, "404 Not Found: User not found"@);
            if args.len() == 2 {
                if let Some(u) = crate::models::user_of(s.db, args[1]) {
                    lemma_send_to_db(
                        s,
                        id,
                        "200 USER|"@ + u.uuid + "|"@ + u.name + "|"@ + crate::server_model::status(
                            u.is_connected,
                        ),
                    );
                }
            }
        } else if c == "/messages"@ {
            lemma_send_to_db(s, id, "400 Bad Request"@);
            lemma_send_to_db(s, id, "401 Unauthorized"@);
            lemma_send_to_db(s, id, "404 Not Found: User not found"@);
            if args.len() == 2 {
                if let Some(me) = client_uuid(s, id) {
                    lemma_send_to_db(
                        s,
                        id,
                        "200 MESSAGES"@ + crate::server_model::messages_listing(
                            s.db.private_messages,
                            me,
                            args[1],
                        ),
                    );
                }
            }
        } else if c == "/subscribe"@ {
            lemma_subscribe(s, id, args);
        } else if c == "/unsubscribe"@ {
            lemma_unsubscribe(s, id, args);
        } else if c == "/create"@ {
            lemma_create(s, id, args, fresh, ts);
        } else if c == "/list"@ {
            lemma_list_or_info(s, id, false);
        } else if c == "/info"@ {
            lemma_list_or_info(s, id, true);
        } else if c == "/subscribed"@ {
            lemma_send_to_db(s, id, "401 Unauthorized"@);
            lemma_send_to_db(s, id, "400 Bad Request"@);
            lemma_send_to_db(s, id, "404 Not Found: Unknown Team"@);
            lemma_send_to_db(s, id, "401 Unauthorized: Not subscribed to team"@);
            if let Some(me) = client_uuid(s, id) {
                lemma_send_to_db(
                    s,
                    id,
                    "200 SUBSCRIBED_TEAMS"@ + crate::server_model::teams_listing(
                        s.db.teams,
                        Some(me),
                    ),
                );
                if args.len() == 2 {
                    if let Some(team) = crate::models::team_of(s.db, args[1]) {
                        lemma_send_to_db(
                            s,
                            id,
                            "200 SUBSCRIBED_USERS"@ + crate::server_model::subscribers_listing(
                                team.subscribers,
                                s.db,
                            ),
                        );
                    }
                }
            }
        }
    }
}

pub(crate) proof fn lemma_first_index_update_same<T>(s: Seq<T>, j: int, v: T, p: spec_fn(T) -> bool)
    requires
        0 <= j < s.len(),
        p(v) == p(s[j]),
    ensures
        first_index(s.update(j, v), p) == first_index(s, p),
{
    let s2 = s.update(j, v);
    lemma_first_index(s, p);
    lemma_first_index(s2, p);
    assert forall|k: int| 0 <= k < s.len() implies p(s2[k]) == p(s[k]) by {}
    match first_index(s, p) {
        Some(k) => {
            crate::models::lemma_first_index_at(s2, p, k);
        },
        None => {
            crate::models::lemma_first_index_none(s2, p);
        },
    }
}

proof fn lemma_first_index_put_new<T>(s: Seq<T>, key: spec_fn(T) -> bool, v: T, q: spec_fn(T) -> bool)
    requires
        forall|i: int| 0 <= i < s.len() ==> !q(s[i]),
        q(v),
    ensures
        first_index(put(s, key, v), q) == Some(
            match first_index(s, key) {
                Some(k) => k,
                None => s.len() as int,
            },
        ),
{
    lemma_first_index(s, key);
    let s2 = put(s, key, v);
    let pos = match first_index(s, key) {
        Some(k) => k,
        None => s.len() as int,
    };
    assert forall|j: int| 0 <= j < pos implies !q(s2[j]) by {
        assert(s2[j] == s[j]);
    }
    crate::models::lemma_first_index_at(s2, q, pos);
}

proof fn lemma_set_connected_users(db: DatabaseView, u: Seq<char>, flag: bool, n: Seq<char>)
    ensures
        first_index(set_connected(db, u, flag).users, user_has_name(n)) == first_index(
            db.users,
            user_has_name(n),
        ),
        set_connected(db, u, flag).users.len() == db.users.len(),
        forall|k: int|
            0 <= k < db.users.len() ==> #[trigger] set_connected(db, u, flag).users[k].uuid
                == db.users[k].uuid,
{
    lemma_first_index(db.users, user_has_uuid(u));
    if let Some(j) = first_index(db.users, user_has_uuid(u)) {
        lemma_first_index_update_same(
            db.users,
            j,
            UserView { is_connected: flag, ..db.users[j] },
            user_has_name(n),
        );
    }
}

/// A user who logs in, logs out and logs in again under the same name, on
/// the same connection, gets the same identifier both times.
pub proof fn law_login_again_same_user(
    s: ServerView,
    id: u64,
    name: Seq<char>,
    fresh1: Seq<char>,
    fresh2: Seq<char>,
)
    requires
        client_index(s, id) is Some,
        crate::text::byte_len(name) <= crate::server_model::MAX_NAME_LENGTH,
    ensures
        ({
            let args = seq!["/login"@, name];
            let s1 = login_spec(s, id, args, fresh1);
            let s3 = login_spec(logout_spec(s1, id), id, args, fresh2);
            &&& client_uuid(s1, id) is Some
            &&& client_uuid(s3, id) == client_uuid(s1, id)
        }),
{
    let args = seq!["/login"@, name];
    let i = client_index(s, id)->0;
    lemma_first_index(s.clients, crate::server_model::has_id(id));
    let s1 = login_spec(s, id, args, fresh1);
    let users0 = s.db.users;
    lemma_first_index(users0, user_has_name(name));
    let (k, u) = match first_index(users0, user_has_name(name)) {
        Some(k) => (k, users0[k].uuid),
        None => (
            match first_index(users0, user_has_uuid(fresh1)) {
                Some(k) => k,
                None => users0.len() as int,
            },
            fresh1,
        ),
    };
    let p0 = match first_index(users0, user_has_name(name)) {
        Some(_) => with_db(s, set_connected(s.db, u, true)),
        None => log(
            with_db(
                s,
                DatabaseView {
                    users: put(
                        users0,
                        user_has_uuid(fresh1),
                        UserView { uuid: fresh1, name, is_connected: true },
                    ),
                    ..s.db
                },
            ),
            crate::ffi::LogCall::ServerEventUserCreated {
                user_uuid: crate::ffi::cstr(fresh1),
                user_name: crate::ffi::cstr(name),
            },
        ),
    };
    assert(p0.clients == s.clients);
    match first_index(users0, user_has_name(name)) {
        Some(k0) => {
            lemma_set_connected_users(s.db, u, true, name);
        },
        None => {
            assert forall|j: int| 0 <= j < users0.len() implies !user_has_name(name)(users0[j]) by {}
            lemma_first_index_put_new(
                users0,
                user_has_uuid(fresh1),
                UserView { uuid: fresh1, name, is_connected: true },
                user_has_name(name),
            );
            lemma_first_index(users0, user_has_uuid(fresh1));
        },
    }
    assert(first_index(p0.db.users, user_has_name(name)) == Some(k));
    assert(p0.db.users[k].uuid == u);
    assert(client_index(p0, id) == Some(i));
    assert(client_uuid(s1, id) == Some(u)) by {
        lemma_first_index(s1.clients, crate::server_model::has_id(id));
        crate::models::lemma_first_index_at(s1.clients, crate::server_model::has_id(id), i);
    }
    let s2 = logout_spec(s1, id);
    assert(s1.clients.len() == s.clients.len());
    assert forall|j: int| 0 <= j < i implies !crate::server_model::has_id(id)(s1.clients[j]) by {
        assert(s1.clients[j] == s.clients[j]);
    }
    crate::models::lemma_first_index_at(s1.clients, crate::server_model::has_id(id), i);
    lemma_set_connected_users(s1.db, u, false, name);
    assert(first_index(s2.db.users, user_has_name(name)) == Some(k));
    assert(s2.db.users[k].uuid == u);
    assert forall|j: int| 0 <= j < i implies !crate::server_model::has_id(id)(s2.clients[j]) by {
        assert(s2.clients[j] == s.clients[j]);
    }
    crate::models::lemma_first_index_at(s2.clients, crate::server_model::has_id(id), i);
    let s3 = login_spec(s2, id, args, fresh2);
    assert(s3.clients[i].1.uuid == Some(u));
    assert forall|j: int| 0 <= j < i implies !crate::server_model::has_id(id)(s3.clients[j]) by {
        assert(s3.clients[j] == s.clients[j]);
    }
    crate::models::lemma_first_index_at(s3.clients, crate::server_model::has_id(id), i);
}

/// Subscribing to a team a second time changes nothing more in the data.
pub proof fn law_subscribe_idempotent(s: ServerView, id: u64, team: Seq<char>)
    ensures
        ({
            let args = seq!["/subscribe"@, team];
            let s1 = subscribe_spec(s, id, args);
            subscribe_spec(s1, id, args).db == s1.db
        }),
{
    let args = seq!["/subscribe"@, team];
    let s1 = subscribe_spec(s, id, args);
    lemma_send_to_db(s, id, "401 Unauthorized"@);
    lemma_send_to_db(s, id, "404 Not Found: Team not found"@);
    lemma_first_index(s.clients, crate::server_model::has_id(id));
    lemma_first_index(s.db.teams, team_has_uuid(team));
    match client_uuid(s, id) {
        None => {
            lemma_send_to_uuid(s, id, "401 Unauthorized"@, id);
            lemma_send_to_db(s1, id, "401 Unauthorized"@);
        },
        Some(me) => {
            match first_index(s.db.teams, team_has_uuid(team)) {
                None => {
                    lemma_send_to_uuid(s, id, "404 Not Found: Team not found"@, id);
                    lemma_send_to_db(s1, id, "404 Not Found: Team not found"@);
                },
                Some(i) => {
                    let t0 = s.db.teams[i];
                    let t1 = if subscribed(t0, me) {
                        t0
                    } else {
                        TeamView { subscribers: t0.subscribers.push(me), ..t0 }
                    };
                    assert(subscribed(t1, me)) by {
                        if !subscribed(t0, me) {
                            assert(t1.subscribers[t0.subscribers.len() as int] == me);
                        }
                    }
                    let p1 = log(
                        with_db(s, set_team(s.db, i, t1)),
                        crate::ffi::LogCall::ServerEventUserSubscribed {
                            team_uuid: crate::ffi::cstr(team),
                            user_uuid: crate::ffi::cstr(me),
                        },
                    );
                    lemma_send_to_db(p1, id, "200 SUBSCRIBED|"@ + me + "|"@ + team);
                    lemma_first_index_update_same(s.db.teams, i, t1, team_has_uuid(team));
                    lemma_send_to_uuid(p1, id, "200 SUBSCRIBED|"@ + me + "|"@ + team, id);
                    assert(client_uuid(s1, id) == Some(me));
                    assert(s1.db.teams[i] == t1);
                    let p2 = log(
                        with_db(s1, set_team(s1.db, i, t1)),
                        crate::ffi::LogCall::ServerEventUserSubscribed {
                            team_uuid: crate::ffi::cstr(team),
                            user_uuid: crate::ffi::cstr(me),
                        },
                    );
                    lemma_send_to_db(p2, id, "200 SUBSCRIBED|"@ + me + "|"@ + team);
                    assert(s1.db.teams.update(i, t1) =~= s1.db.teams);
                },
            }
        },
    }
}

proof fn lemma_remove_all_absent(s: Seq<Seq<char>>, x: Seq<char>)
    requires
        !s.contains(x),
    ensures
        remove_all(s, x) == s,
    decreases s.len(),
{
    if s.len() > 0 {
        let s2 = s.drop_last();
        assert(!s2.contains(x)) by {
            if s2.contains(x) {
                let k = choose|k: int| 0 <= k < s2.len() && s2[k] == x;
                assert(s[k] == x);
            }
        }
        lemma_remove_all_absent(s2, x);
        assert(s.last() != x) by {
            assert(s[s.len() - 1] == s.last());
        }
        assert(s2.push(s.last()) =~= s);
    }
}

proof fn lemma_reset_context_keeps(s: ServerView, id: u64, team: Seq<char>, other: u64)
    ensures
        reset_context_in_team(s, id, team).db == s.db,
        client_index(reset_context_in_team(s, id, team), other) == client_index(s, other),
        client_uuid(reset_context_in_team(s, id, team), other) == client_uuid(s, other),
{
    lemma_first_index(s.clients, crate::server_model::has_id(id));
    if let Some(i) = client_index(s, id) {
        let c = ClientView { use_context: UseContextView::Global, ..s.clients[i].1 };
        lemma_first_index_update_same(
            s.clients,
            i,
            (s.clients[i].0, c),
            crate::server_model::has_id(other),
        );
        lemma_first_index(s.clients, crate::server_model::has_id(other));
    }
}

/// Subscribing to a team and then unsubscribing from it, for a logged-in
/// user who was not subscribed, gives the data back as it was; the user is
/// subscribed in between; the connection is answered `200 SUBSCRIBED|user|team`
/// and then `200 UNSUBSCRIBED|user|team`; the subscription and then the
/// unsubscription are reported; and the connection leaves its context for the
/// global one when that context was inside the team, and keeps it otherwise.
pub proof fn law_unsubscribe_undoes_subscribe(s: ServerView, id: u64, team: Seq<char>)
    requires
        client_uuid(s, id) is Some,
        crate::models::team_of(s.db, team) is Some,
        !subscribed(crate::models::team_of(s.db, team)->0, client_uuid(s, id)->0),
    ensures
        ({
            let me = client_uuid(s, id)->0;
            let i = client_index(s, id)->0;
            let c = s.clients[i].1;
            let s1 = subscribe_spec(s, id, seq!["/subscribe"@, team]);
            let s2 = unsubscribe_spec(s1, id, seq!["/unsubscribe"@, team]);
            &&& subscribed(crate::models::team_of(s1.db, team)->0, me)
            &&& s2.db == s.db
            &&& s2.log == s.log.push(
                crate::ffi::LogCall::ServerEventUserSubscribed {
                    team_uuid: crate::ffi::cstr(team),
                    user_uuid: crate::ffi::cstr(me),
                },
            ).push(
                crate::ffi::LogCall::ServerEventUserUnsubscribed {
                    team_uuid: crate::ffi::cstr(team),
                    user_uuid: crate::ffi::cstr(me),
                },
            )
            &&& s2.clients == s.clients.update(
                i,
                (
                    id,
                    ClientView {
                        use_context: if crate::server_model::context_team(c.use_context) == Some(
                            team,
                        ) {
                            UseContextView::Global
                        } else {
                            c.use_context
                        },
                        write_buffer: c.write_buffer + crate::client::line_bytes(
                            "200 SUBSCRIBED|"@ + me + "|"@ + team,
                        ) + crate::client::line_bytes("200 UNSUBSCRIBED|"@ + me + "|"@ + team),
                        ..c
                    },
                ),
            )
        }),
{
    let me = client_uuid(s, id)->0;
    let ci = client_index(s, id)->0;
    let c = s.clients[ci].1;
    lemma_first_index(s.clients, crate::server_model::has_id(id));
    lemma_first_index(s.db.teams, team_has_uuid(team));
    let i = first_index(s.db.teams, team_has_uuid(team))->0;
    let t0 = s.db.teams[i];
    let t1 = TeamView { subscribers: t0.subscribers.push(me), ..t0 };
    let p1 = log(
        with_db(s, set_team(s.db, i, t1)),
        crate::ffi::LogCall::ServerEventUserSubscribed {
            team_uuid: crate::ffi::cstr(team),
            user_uuid: crate::ffi::cstr(me),
        },
    );
    let m1 = "200 SUBSCRIBED|"@ + me + "|"@ + team;
    let s1 = subscribe_spec(s, id, seq!["/subscribe"@, team]);
    assert(client_index(p1, id) == Some(ci));
    lemma_send_to_effect(p1, id, m1);
    lemma_send_to_db(p1, id, m1);
    lemma_send_to_uuid(p1, id, m1, id);
    let c1 = crate::client::queue(c, m1);
    assert(s1.clients == s.clients.update(ci, (id, c1)));
    lemma_first_index_update_same(s.db.teams, i, t1, team_has_uuid(team));
    assert(s1.db.teams[i] == t1);
    assert(subscribed(t1, me)) by {
        assert(t1.subscribers[t0.subscribers.len() as int] == me);
    }
    let t2 = TeamView { subscribers: remove_all(t1.subscribers, me), ..t1 };
    assert(t1.subscribers.drop_last() =~= t0.subscribers);
    lemma_remove_all_absent(t0.subscribers, me);
    assert(t2 == t0);
    let q0 = with_db(s1, set_team(s1.db, i, t2));
    lemma_reset_context_keeps(q0, id, team, id);
    let q1 = reset_context_in_team(q0, id, team);
    assert(client_index(q0, id) == Some(ci));
    let c2 = ClientView {
        use_context: if crate::server_model::context_team(c.use_context) == Some(team) {
            UseContextView::Global
        } else {
            c.use_context
        },
        ..c1
    };
    assert(q1.clients =~= s.clients.update(ci, (id, c2)));
    let q2 = log(
        q1,
        crate::ffi::LogCall::ServerEventUserUnsubscribed {
            team_uuid: crate::ffi::cstr(team),
            user_uuid: crate::ffi::cstr(me),
        },
    );
    let m2 = "200 UNSUBSCRIBED|"@ + me + "|"@ + team;
    assert(client_index(q2, id) == Some(ci));
    lemma_send_to_effect(q2, id, m2);
    lemma_send_to_db(q2, id, m2);
    assert(s1.db.teams.update(i, t2) =~= s.db.teams);
    let s2 = unsubscribe_spec(s1, id, seq!["/unsubscribe"@, team]);
    assert(s2.clients =~= s.clients.update(ci, (id, crate::client::queue(c2, m2))));
}

/// The client, told by the server that a user logged in and then that the
/// user logged out, reports the logout of that same user and forgets it.
pub proof fn law_client_logout_reports_the_logged_in_user(
    st: crate::cli::ClientStateView,
    uuid: Seq<char>,
    name: Seq<char>,
)
    requires
        crate::reload::plain(uuid),
        crate::reload::plain(name),
    ensures
        ({
            let (st1, _) = crate::cli::server_message_spec(
                "200 Login OK|"@ + uuid + "|"@ + name,
                st,
            );
            let (st2, actions) = crate::cli::server_message_spec("200 Logout OK"@, st1);
            &&& st1 == crate::cli::ClientStateView { uuid, name }
            &&& st2 == crate::cli::ClientStateView { uuid: seq![], name: seq![] }
            &&& actions == seq![
                crate::cli::ClientActionView::Call(
                    crate::ffi::LogCall::ClientEventLoggedOut {
                        user_uuid: crate::ffi::cstr(uuid),
                        user_name: crate::ffi::cstr(name),
                    },
                ),
            ]
        }),
{
    reveal_strlit("200 Login OK");
    reveal_strlit("200 Logout OK");
    let head = "200 Login OK"@;
    assert(crate::reload::plain(head)) by {
        if head.contains('|') {
            let k = choose|k: int| 0 <= k < head.len() && head[k] == '|';
        }
    }
    let fs = seq![head, uuid, name];
    reveal_with_fuel(crate::reload::joined, 4);
    assert("200 Login OK|"@ + uuid + "|"@ + name =~= crate::reload::joined(fs)) by {
        reveal_strlit("200 Login OK|");
        reveal_strlit("|");
    }
    crate::reload::lemma_split_joined(fs);
    assert(crate::text::has_prefix(head, head)) by {
        assert(head.take(head.len() as int) =~= head);
    }
    let out = "200 Logout OK"@;
    assert(crate::reload::plain(out)) by {
        if out.contains('|') {
            let k = choose|k: int| 0 <= k < out.len() && out[k] == '|';
        }
    }
    crate::reload::lemma_split_joined(seq![out]);
    assert(crate::reload::joined(seq![out]) == out);
}

/// Whether users, teams, the channels of each team and the threads of each
/// channel have distinct identifiers, as the keys of a map would.
pub open spec fn keys_unique(db: DatabaseView) -> bool {
    &&& all_distinct(db.users, user_uuid())
    &&& all_distinct(db.teams, team_uuid())
    &&& forall|i: int| 0 <= i < db.teams.len() ==> team_keys_unique(#[trigger] db.teams[i])
}

pub open spec fn team_keys_unique(t: TeamView) -> bool {
    &&& all_distinct(t.channels, channel_uuid())
    &&& forall|k: int|
        0 <= k < t.channels.len() ==> all_distinct((#[trigger] t.channels[k]).threads, thread_uuid())
}

proof fn lemma_set_team_keys(db: DatabaseView, i: int, t: TeamView)
    requires
        keys_unique(db),
        0 <= i < db.teams.len(),
        t.uuid == db.teams[i].uuid,
        team_keys_unique(t),
    ensures
        keys_unique(DatabaseView { teams: db.teams.update(i, t), ..db }),
{
    lemma_update_distinct(db.teams, i, t, team_uuid());
    let ts = db.teams.update(i, t);
    assert forall|k: int| 0 <= k < ts.len() implies team_keys_unique(#[trigger] ts[k]) by {
        if k != i {
            assert(ts[k] == db.teams[k]);
        }
    }
}

proof fn lemma_set_channel_keys(t: TeamView, ci: int, c: ChannelView)
    requires
        team_keys_unique(t),
        0 <= ci < t.channels.len(),
        c.uuid == t.channels[ci].uuid,
        all_distinct(c.threads, thread_uuid()),
    ensures
        team_keys_unique(TeamView { channels: t.channels.update(ci, c), ..t }),
{
    lemma_update_distinct(t.channels, ci, c, channel_uuid());
    let cs = t.channels.update(ci, c);
    assert forall|k: int| 0 <= k < cs.len() implies all_distinct(
        (#[trigger] cs[k]).threads,
        thread_uuid(),
    ) by {
        if k != ci {
            assert(cs[k] == t.channels[k]);
        }
    }
}

/// Loading a line of the data file keeps the identifiers of users, teams,
/// the channels of each team and the threads of each channel distinct; since
/// loading starts from an empty database, every loaded database has them so.
pub proof fn law_loading_keeps_identifiers_unique(db: DatabaseView, line: Seq<char>)
    requires
        keys_unique(db),
    ensures
        keys_unique(crate::storage::load_line_spec(db, line).0),
{
    let p = crate::text::split_spec(line, '|');
    let kind = p[0];
    let db2 = crate::storage::load_line_spec(db, line).0;
    if kind == "USER"@ && p.len() == 4 {
        let u = UserView { uuid: p[1], name: crate::text::unescape_newlines(p[2]), is_connected: false };
        lemma_put_keyed(db.users, user_has_uuid(p[1]), u, user_uuid());
    } else if kind == "PM"@ && p.len() == 5 {
    } else if kind == "TEAM"@ && p.len() == 4 {
        let t = TeamView {
            uuid: p[1],
            name: crate::text::unescape_newlines(p[2]),
            description: crate::text::unescape_newlines(p[3]),
            subscribers: seq![],
            channels: seq![],
        };
        lemma_put_keyed(db.teams, team_has_uuid(p[1]), t, team_uuid());
        lemma_first_index(db.teams, team_has_uuid(p[1]));
        let ts = put(db.teams, team_has_uuid(p[1]), t);
        assert forall|k: int| 0 <= k < ts.len() implies team_keys_unique(#[trigger] ts[k]) by {
            if ts[k] != t {
                assert(ts[k] == db.teams[k]);
            }
        }
    } else if kind == "SUB"@ && p.len() == 3 {
        lemma_first_index(db.teams, team_has_uuid(p[1]));
        if let Some(i) = first_index(db.teams, team_has_uuid(p[1])) {
            let t = db.teams[i];
            lemma_set_team_keys(db, i, TeamView { subscribers: t.subscribers.push(p[2]), ..t });
        }
    } else if kind == "CHAN"@ && p.len() == 5 {
        lemma_first_index(db.teams, team_has_uuid(p[1]));
        if let Some(i) = first_index(db.teams, team_has_uuid(p[1])) {
            let t = db.teams[i];
            let c = ChannelView {
                uuid: p[2],
                name: crate::text::unescape_newlines(p[3]),
                description: crate::text::unescape_newlines(p[4]),
                threads: seq![],
            };
            lemma_put_keyed(t.channels, channel_has_uuid(p[2]), c, channel_uuid());
            lemma_first_index(t.channels, channel_has_uuid(p[2]));
            let cs = put(t.channels, channel_has_uuid(p[2]), c);
            assert(team_keys_unique(t));
            assert forall|k: int| 0 <= k < cs.len() implies all_distinct(
                (#[trigger] cs[k]).threads,
                thread_uuid(),
            ) by {
                if cs[k] != c {
                    assert(cs[k] == t.channels[k]);
                } else {
                    assert(c.threads.len() == 0);
                }
            }
            lemma_set_team_keys(db, i, TeamView { channels: cs, ..t });
        }
    } else if kind == "THRE"@ && p.len() == 8 {
        lemma_first_index(db.teams, team_has_uuid(p[7]));
        if let Some(i) = first_index(db.teams, team_has_uuid(p[7])) {
            let t = db.teams[i];
            lemma_first_index(t.channels, channel_has_uuid(p[1]));
            if let Some(ci) = first_index(t.channels, channel_has_uuid(p[1])) {
                let c = t.channels[ci];
                let h = ThreadView {
                    uuid: p[2],
                    author_uuid: p[3],
                    timestamp: crate::storage::number_field(p[4]),
                    title: crate::text::unescape_newlines(p[5]),
                    message: crate::text::unescape_newlines(p[6]),
                    replies: seq![],
                };
                assert(team_keys_unique(t));
                assert(all_distinct(t.channels[ci].threads, thread_uuid()));
                lemma_put_keyed(c.threads, crate::models::thread_has_uuid(p[2]), h, thread_uuid());
                let c2 = ChannelView {
                    threads: put(c.threads, crate::models::thread_has_uuid(p[2]), h),
                    ..c
                };
                lemma_set_channel_keys(t, ci, c2);
                lemma_set_team_keys(db, i, TeamView { channels: t.channels.update(ci, c2), ..t });
            }
        }
    } else if kind == "REPL"@ && p.len() == 5 {
        let h = p[1];
        lemma_first_index(db.teams, crate::storage::team_has_thread(h));
        if let Some(ti) = first_index(db.teams, crate::storage::team_has_thread(h)) {
            let team = db.teams[ti];
            lemma_first_index(team.channels, crate::storage::has_thread(h));
            let ci = first_index(team.channels, crate::storage::has_thread(h))->0;
            let c = team.channels[ci];
            lemma_first_index(c.threads, crate::models::thread_has_uuid(h));
            let hi = first_index(c.threads, crate::models::thread_has_uuid(h))->0;
            let th = c.threads[hi];
            let r = crate::models::MessageView {
                sender_uuid: p[2],
                receiver_uuid: p[1],
                timestamp: crate::storage::number_field(p[3]),
                body: crate::text::unescape_newlines(p[4]),
            };
            let th2 = ThreadView { replies: th.replies.push(r), ..th };
            assert(team_keys_unique(team));
            assert(all_distinct(team.channels[ci].threads, thread_uuid()));
            lemma_update_distinct(c.threads, hi, th2, thread_uuid());
            let c2 = ChannelView { threads: c.threads.update(hi, th2), ..c };
            lemma_set_channel_keys(team, ci, c2);
            lemma_set_team_keys(db, ti, TeamView { channels: team.channels.update(ci, c2), ..team });
        }
    }
}

/// Team names are distinct, and so are the channel names within each team.
pub open spec fn names_unique(db: DatabaseView) -> bool {
    &&& all_distinct(db.teams, team_name())
    &&& forall|i: int| 0 <= i < db.teams.len() ==> all_distinct(#[trigger] db.teams[i].channels, channel_name())
}

proof fn lemma_set_team_names(db: DatabaseView, i: int, t: TeamView)
    requires
        names_unique(db),
        0 <= i < db.teams.len(),
        t.name == db.teams[i].name,
        all_distinct(t.channels, channel_name()),
    ensures
        names_unique(set_team(db, i, t)),
{
    lemma_update_distinct(db.teams, i, t, team_name());
    let ts = db.teams.update(i, t);
    assert forall|k: int| 0 <= k < ts.len() implies all_distinct(#[trigger] ts[k].channels, channel_name()) by {
        if k != i {
            assert(ts[k] == db.teams[k]);
        }
    }
}

proof fn lemma_set_channel_names(db: DatabaseView, i: int, ci: int, c: ChannelView)
    requires
        names_unique(db),
        0 <= i < db.teams.len(),
        0 <= ci < db.teams[i].channels.len(),
        c.name == db.teams[i].channels[ci].name,
    ensures
        names_unique(set_team(db, i, set_channel(db.teams[i], ci, c))),
{
    let team = db.teams[i];
    assert(all_distinct(team.channels, channel_name()));
    lemma_update_distinct(team.channels, ci, c, channel_name());
    lemma_set_team_names(db, i, set_channel(team, ci, c));
}

/// `/create` keeps team names distinct and the channel names of each team
/// distinct, whatever else holds of the data.
pub proof fn law_create_keeps_team_and_channel_names_unique(
    s: ServerView,
    id: u64,
    args: Seq<Seq<char>>,
    fresh: Seq<char>,
    ts: u64,
)
    requires
        names_unique(s.db),
    ensures
        names_unique(create_spec(s, id, args, fresh, ts).db),
{
    lemma_first_index(s.clients, crate::server_model::has_id(id));
    if let Some(ci0) = client_index(s, id) {
        let c = s.clients[ci0].1;
        lemma_send_to_db(s, id, "401 Unauthorized"@);
        lemma_send_to_db(s, id, "401 Unauthorized: Not subscribed to team"@);
        lemma_send_to_db(s, id, "400 Bad Request"@);
        lemma_send_to_db(s, id, "400 Bad Request: Length error"@);
        lemma_send_to_db(s, id, "404 Not Found: Unknown Team"@);
        lemma_send_to_db(s, id, "404 Not Found: Unknown Channel"@);
        lemma_send_to_db(s, id, "404 Not Found: Unknown Thread"@);
        lemma_send_to_db(s, id, "404 Not Found: Team unknown"@);
        lemma_send_to_db(s, id, "409 Conflict: Channel already exists"@);
        lemma_send_to_db(s, id, "409 Conflict: Team already exists"@);
        lemma_send_to_db(s, id, "400 Bad Request: Reply too long"@);
        if let Some(me) = c.uuid {
            match c.use_context {
                UseContextView::Global => {
                    if args.len() == 3 && first_index(s.db.teams, team_has_name(args[1])) is None {
                        let name = args[1];
                        lemma_no_name_match(s.db.teams, team_has_name(name), team_name(), name);
                        let team = TeamView {
                            uuid: fresh,
                            name,
                            description: args[2],
                            subscribers: seq![me],
                            channels: seq![],
                        };
                        lemma_put_distinct(s.db.teams, team_has_uuid(fresh), team, team_name());
                        lemma_first_index(s.db.teams, team_has_uuid(fresh));
                        let ts2 = put(s.db.teams, team_has_uuid(fresh), team);
                        assert forall|k: int| 0 <= k < ts2.len() implies all_distinct(
                            #[trigger] ts2[k].channels,
                            channel_name(),
                        ) by {
                            if ts2[k] != team {
                                assert(ts2[k] == s.db.teams[k]);
                            }
                        }
                        let db2 = DatabaseView { teams: ts2, ..s.db };
                        let s2 = log(with_db(s, db2), crate::ffi::LogCall::ServerEventTeamCreated {
                            team_uuid: crate::ffi::cstr(fresh),
                            team_name: crate::ffi::cstr(name),
                            user_uuid: crate::ffi::cstr(me),
                        });
                        lemma_send_to_db(
                            s2,
                            id,
                            "200 TEAM_CREATED|"@ + fresh + "|"@ + name + "|"@ + args[2],
                        );
                    }
                },
                UseContextView::Team(t) => {
                    lemma_first_index(s.db.teams, team_has_uuid(t));
                    if args.len() == 3 {
                        if let Some(i) = first_index(s.db.teams, team_has_uuid(t)) {
                            let name = args[1];
                            let desc = args[2];
                            let team = s.db.teams[i];
                            if first_index(team.channels, channel_has_name(name)) is None {
                                lemma_no_name_match(team.channels, channel_has_name(name), channel_name(), name);
                                let channel = ChannelView { uuid: fresh, name, description: desc, threads: seq![] };
                                assert(all_distinct(team.channels, channel_name()));
                                lemma_put_distinct(team.channels, channel_has_uuid(fresh), channel, channel_name());
                                let team2 = TeamView {
                                    channels: put(team.channels, channel_has_uuid(fresh), channel),
                                    ..team
                                };
                                lemma_set_team_names(s.db, i, team2);
                                let s1 = log(
                                    with_db(s, set_team(s.db, i, team2)),
                                    crate::ffi::LogCall::ServerEventChannelCreated {
                                        team_uuid: crate::ffi::cstr(t),
                                        channel_uuid: crate::ffi::cstr(fresh),
                                        channel_name: crate::ffi::cstr(name),
                                    },
                                );
                                let m = "200 CHANNEL_CREATED|"@ + fresh + "|"@ + name + "|"@ + desc;
                                lemma_send_to_db(s1, id, m);
                            }
                        }
                    }
                },
                UseContextView::Channel(t, ch) => {
                    lemma_first_index(s.db.teams, team_has_uuid(t));
                    if args.len() == 3 {
                        if let Some(i) = first_index(s.db.teams, team_has_uuid(t)) {
                            let team = s.db.teams[i];
                            lemma_first_index(team.channels, channel_has_uuid(ch));
                            if let Some(ci) = first_index(team.channels, channel_has_uuid(ch)) {
                                let c = team.channels[ci];
                                let thread = ThreadView {
                                    uuid: fresh,
                                    title: args[1],
                                    message: args[2],
                                    author_uuid: me,
                                    replies: seq![],
                                    timestamp: ts,
                                };
                                let c2 = ChannelView {
                                    threads: put(c.threads, crate::models::thread_has_uuid(fresh), thread),
                                    ..c
                                };
                                lemma_set_channel_names(s.db, i, ci, c2);
                                let s1 = log(
                                    with_db(s, set_team(s.db, i, set_channel(team, ci, c2))),
                                    crate::ffi::LogCall::ServerEventThreadCreated {
                                        channel_uuid: crate::ffi::cstr(ch),
                                        thread_uuid: crate::ffi::cstr(fresh),
                                        user_uuid: crate::ffi::cstr(me),
                                        thread_title: crate::ffi::cstr(args[1]),
                                        thread_body: crate::ffi::cstr(args[2]),
                                    },
                                );
                                let fields = fresh + "|"@ + me + "|"@ + crate::text::dec(ts as nat) + "|"@
                                    + args[1] + "|"@ + args[2];
                                lemma_send_to_db(s1, id, "200 THREAD_CREATED|"@ + fields);
                            }
                        }
                    }
                },
                UseContextView::Thread(t, ch, h) => {
                    lemma_first_index(s.db.teams, team_has_uuid(t));
                    if args.len() == 2 {
                        if let Some(i) = first_index(s.db.teams, team_has_uuid(t)) {
                            let team = s.db.teams[i];
                            lemma_first_index(team.channels, channel_has_uuid(ch));
                            if let Some(ci) = first_index(team.channels, channel_has_uuid(ch)) {
                                let c = team.channels[ci];
                                lemma_first_index(c.threads, crate::models::thread_has_uuid(h));
                                if let Some(hi) = first_index(c.threads, crate::models::thread_has_uuid(h)) {
                                    let th = c.threads[hi];
                                    let m = crate::models::MessageView {
                                        sender_uuid: me,
                                        receiver_uuid: h,
                                        body: args[1],
                                        timestamp: ts,
                                    };
                                    let th2 = ThreadView { replies: th.replies.push(m), ..th };
                                    let c2 = ChannelView { threads: c.threads.update(hi, th2), ..c };
                                    lemma_set_channel_names(s.db, i, ci, c2);
                                    let s1 = log(
                                        with_db(s, set_team(s.db, i, set_channel(team, ci, c2))),
                                        crate::ffi::LogCall::ServerEventReplyCreated {
                                            thread_uuid: crate::ffi::cstr(h),
                                            user_uuid: crate::ffi::cstr(me),
                                            reply_body: crate::ffi::cstr(args[1]),
                                        },
                                    );
                                    lemma_send_to_db(
                                        s1,
                                        id,
                                        "200 REPLY_CREATED|"@ + h + "|"@ + me + "|"@ + crate::text::dec(ts as nat)
                                            + "|"@ + args[1],
                                    );
                                }
                            }
                        }
                    }
                },
            }
        }
    }
}

/// The bytes waiting to be sent on connection `id`.
pub open spec fn output_of(s: ServerView, id: u64) -> Seq<u8> {
    match client_index(s, id) {
        Some(i) => s.clients[i].1.write_buffer,
        None => seq![],
    }
}

pub(crate) proof fn lemma_send_to_effect(s: ServerView, id: u64, msg: Seq<char>)
    requires
        client_index(s, id) is Some,
    ensures
        ({
            let i = client_index(s, id)->0;
            let c = s.clients[i].1;
            send_to(s, id, msg) == (ServerView {
                clients: s.clients.update(i, (id, crate::client::queue(c, msg))),
                ..s
            })
        }),
        output_of(send_to(s, id, msg), id) == output_of(s, id) + crate::client::line_bytes(msg),
        client_index(send_to(s, id, msg), id) == client_index(s, id),
{
    let i = client_index(s, id)->0;
    lemma_first_index(s.clients, crate::server_model::has_id(id));
    lemma_send_to_uuid(s, id, msg, id);
    assert(s.clients[i].0 == id);
}

/// Logging in under the name of a known user reuses that user: the users
/// keep their identifiers and names, that user is marked connected, the
/// connection is logged in as that user and told so, and the only logging
/// call made is the login; so repeated logins under one name, from any
/// connection, give the same identifier, and distinct names stay distinct.
pub proof fn law_login_reuses_the_user_of_that_name(
    s: ServerView,
    id: u64,
    n: Seq<char>,
    fresh: Seq<char>,
)
    requires
        crate::text::byte_len(n) <= crate::server_model::MAX_NAME_LENGTH,
        first_index(s.db.users, user_has_name(n)) is Some,
    ensures
        ({
            let v = s.db.users[first_index(s.db.users, user_has_name(n))->0].uuid;
            let s2 = login_spec(s, id, seq!["/login"@, n], fresh);
            &&& s2.db.users.len() == s.db.users.len()
            &&& forall|j: int|
                0 <= j < s.db.users.len() ==> (#[trigger] s2.db.users[j]).uuid == s.db.users[j].uuid
                    && s2.db.users[j].name == s.db.users[j].name
            &&& crate::models::user_of(s2.db, v) is Some
            &&& crate::models::user_of(s2.db, v)->0.is_connected
            &&& s2.db.teams == s.db.teams
            &&& s2.db.private_messages == s.db.private_messages
            &&& s2.log == s.log.push(
                crate::ffi::LogCall::ServerEventUserLoggedIn { user_uuid: crate::ffi::cstr(v) },
            )
            &&& client_index(s, id) is Some ==> client_uuid(s2, id) == Some(v) && output_of(s2, id)
                == output_of(s, id) + crate::client::line_bytes("200 Login OK|"@ + v + "|"@ + n)
            &&& all_distinct(s.db.users, user_name()) ==> all_distinct(s2.db.users, user_name())
        }),
{
    let k = first_index(s.db.users, user_has_name(n))->0;
    lemma_first_index(s.db.users, user_has_name(n));
    let v = s.db.users[k].uuid;
    let users = s.db.users;
    lemma_first_index(users, user_has_uuid(v));
    let j = first_index(users, user_has_uuid(v))->0;
    let u2 = UserView { is_connected: true, ..users[j] };
    lemma_first_index_update_same(users, j, u2, user_has_uuid(v));
    let db1 = set_connected(s.db, v, true);
    assert(db1.users == users.update(j, u2));
    let s1 = with_db(s, db1);
    let s2 = login_spec(s, id, seq!["/login"@, n], fresh);
    assert forall|a: int, b: int|
        0 <= a < db1.users.len() && 0 <= b < db1.users.len() && a != b && all_distinct(users, user_name())
            implies user_name()(db1.users[a]) != user_name()(db1.users[b]) by {
        assert(db1.users[a].name == users[a].name);
        assert(db1.users[b].name == users[b].name);
    }
    lemma_first_index(s.clients, crate::server_model::has_id(id));
    if let Some(i) = client_index(s, id) {
        let msg = "200 Login OK|"@ + v + "|"@ + n;
        let c2 = crate::client::queue(ClientView { uuid: Some(v), ..s1.clients[i].1 }, msg);
        lemma_first_index_update_same(s1.clients, i, (s1.clients[i].0, c2), crate::server_model::has_id(id));
        lemma_first_index(s1.clients, crate::server_model::has_id(id));
        assert(client_index(s1, id) == Some(i));
        assert(s2.clients[i].1 == c2);
        assert(client_index(s2, id) == Some(i));
    }
}

/// What one `/subscribe` to team `t` does for a connection logged in as `u`.
proof fn lemma_subscribe_effect(s: ServerView, id: u64, t: Seq<char>)
    requires
        client_uuid(s, id) is Some,
    ensures
        ({
            let u = client_uuid(s, id)->0;
            let s1 = subscribe_spec(s, id, seq!["/subscribe"@, t]);
            &&& client_uuid(s1, id) == client_uuid(s, id)
            &&& match first_index(s.db.teams, team_has_uuid(t)) {
                Some(i) => {
                    let subs = s.db.teams[i].subscribers;
                    let subs2 = if subs.contains(u) {
                        subs
                    } else {
                        subs.push(u)
                    };
                    &&& s1.db == set_team(s.db, i, TeamView { subscribers: subs2, ..s.db.teams[i] })
                    &&& s1.log == s.log.push(
                        crate::ffi::LogCall::ServerEventUserSubscribed {
                            team_uuid: crate::ffi::cstr(t),
                            user_uuid: crate::ffi::cstr(u),
                        },
                    )
                    &&& output_of(s1, id) == output_of(s, id) + crate::client::line_bytes(
                        "200 SUBSCRIBED|"@ + u + "|"@ + t,
                    )
                },
                None => {
                    &&& s1.db == s.db
                    &&& s1.log == s.log
                    &&& output_of(s1, id) == output_of(s, id) + crate::client::line_bytes(
                        "404 Not Found: Team not found"@,
                    )
                },
            }
        }),
{
    let u = client_uuid(s, id)->0;
    lemma_first_index(s.clients, crate::server_model::has_id(id));
    lemma_first_index(s.db.teams, team_has_uuid(t));
    match first_index(s.db.teams, team_has_uuid(t)) {
        Some(i) => {
            let t0 = s.db.teams[i];
            let t1 = if subscribed(t0, u) {
                t0
            } else {
                TeamView { subscribers: t0.subscribers.push(u), ..t0 }
            };
            let p1 = log(
                with_db(s, set_team(s.db, i, t1)),
                crate::ffi::LogCall::ServerEventUserSubscribed {
                    team_uuid: crate::ffi::cstr(t),
                    user_uuid: crate::ffi::cstr(u),
                },
            );
            assert(client_index(p1, id) == client_index(s, id));
            lemma_send_to_effect(p1, id, "200 SUBSCRIBED|"@ + u + "|"@ + t);
            lemma_send_to_uuid(p1, id, "200 SUBSCRIBED|"@ + u + "|"@ + t, id);
            if subscribed(t0, u) {
                assert(TeamView { subscribers: t0.subscribers, ..t0 } == t0);
            }
        },
        None => {
            lemma_send_to_effect(s, id, "404 Not Found: Team not found"@);
            lemma_send_to_uuid(s, id, "404 Not Found: Team not found"@, id);
        },
    }
}

/// Subscribing to a team once or twice: a logged-in user is added to the
/// subscribers only when not among them already, never twice; each call
/// answers `200 SUBSCRIBED|user|team` and reports the subscription. For an
/// unknown team each call only answers `404 Not Found: Team not found` and
/// leaves the data as it was.
pub proof fn law_subscribe_twice(s: ServerView, id: u64, t: Seq<char>)
    requires
        client_uuid(s, id) is Some,
    ensures
        ({
            let u = client_uuid(s, id)->0;
            let args = seq!["/subscribe"@, t];
            let s1 = subscribe_spec(s, id, args);
            let s2 = subscribe_spec(s1, id, args);
            match first_index(s.db.teams, team_has_uuid(t)) {
                Some(i) => {
                    let subs = s.db.teams[i].subscribers;
                    let call = crate::ffi::LogCall::ServerEventUserSubscribed {
                        team_uuid: crate::ffi::cstr(t),
                        user_uuid: crate::ffi::cstr(u),
                    };
                    let line = crate::client::line_bytes("200 SUBSCRIBED|"@ + u + "|"@ + t);
                    &&& s1.db.teams[i].subscribers == (if subs.contains(u) {
                        subs
                    } else {
                        subs.push(u)
                    })
                    &&& s2.db == s1.db
                    &&& s1.log == s.log.push(call)
                    &&& s2.log == s1.log.push(call)
                    &&& output_of(s1, id) == output_of(s, id) + line
                    &&& output_of(s2, id) == output_of(s1, id) + line
                },
                None => {
                    let line = crate::client::line_bytes("404 Not Found: Team not found"@);
                    &&& s1.db == s.db
                    &&& s2.db == s.db
                    &&& s2.log == s.log
                    &&& output_of(s1, id) == output_of(s, id) + line
                    &&& output_of(s2, id) == output_of(s1, id) + line
                },
            }
        }),
{
    let args = seq!["/subscribe"@, t];
    let s1 = subscribe_spec(s, id, args);
    lemma_subscribe_effect(s, id, t);
    lemma_subscribe_effect(s1, id, t);
    law_subscribe_idempotent(s, id, t);
    lemma_first_index(s.db.teams, team_has_uuid(t));
    if let Some(i) = first_index(s.db.teams, team_has_uuid(t)) {
        let u = client_uuid(s, id)->0;
        let subs = s.db.teams[i].subscribers;
        let t1 = TeamView {
            subscribers: if subs.contains(u) {
                subs
            } else {
                subs.push(u)
            },
            ..s.db.teams[i]
        };
        lemma_first_index_update_same(s.db.teams, i, t1, team_has_uuid(t));
        assert(first_index(s1.db.teams, team_has_uuid(t)) == Some(i));
        assert(s1.db.teams[i].subscribers.contains(u)) by {
            if !subs.contains(u) {
                assert(subs.push(u)[subs.len() as int] == u);
            }
        }
    }
}

/// The messages of `ms` exchanged between `a` and `b`, either way, in order.
pub open spec fn between_only(
    ms: Seq<crate::models::MessageView>,
    a: Seq<char>,
    b: Seq<char>,
) -> Seq<crate::models::MessageView>
    decreases ms.len(),
{
    if ms.len() == 0 {
        seq![]
    } else if crate::server_model::between(ms.last(), a, b) {
        between_only(ms.drop_last(), a, b).push(ms.last())
    } else {
        between_only(ms.drop_last(), a, b)
    }
}

proof fn lemma_listing_between_only(ms: Seq<crate::models::MessageView>, a: Seq<char>, b: Seq<char>)
    ensures
        crate::server_model::messages_listing(ms, a, b) == crate::server_model::messages_listing(
            between_only(ms, a, b),
            a,
            b,
        ),
    decreases ms.len(),
{
    if ms.len() > 0 {
        lemma_listing_between_only(ms.drop_last(), a, b);
        let f = between_only(ms.drop_last(), a, b);
        if crate::server_model::between(ms.last(), a, b) {
            assert(f.push(ms.last()).drop_last() =~= f);
            assert(f.push(ms.last()).last() == ms.last());
        } else {
            assert(crate::server_model::messages_listing(ms, a, b)
                == crate::server_model::messages_listing(ms.drop_last(), a, b) + Seq::<char>::empty());
            assert(crate::server_model::messages_listing(ms.drop_last(), a, b) + Seq::<char>::empty()
                =~= crate::server_model::messages_listing(ms.drop_last(), a, b));
        }
    }
}

/// `/messages` shows only the messages between the two users: two states
/// that differ only in messages exchanged between other pairs give the same
/// answer, and the data is left as it was.
pub proof fn law_messages_shows_only_that_pair(s1: ServerView, s2: ServerView, id: u64, v: Seq<char>)
    requires
        s1.clients == s2.clients,
        s1.db.users == s2.db.users,
        client_uuid(s1, id) is Some,
        between_only(s1.db.private_messages, client_uuid(s1, id)->0, v) == between_only(
            s2.db.private_messages,
            client_uuid(s1, id)->0,
            v,
        ),
    ensures
        ({
            let u = client_uuid(s1, id)->0;
            let args = seq!["/messages"@, v];
            let r1 = messages_spec(s1, id, args);
            let r2 = messages_spec(s2, id, args);
            &&& r1.clients == r2.clients
            &&& r1.db == s1.db
            &&& r2.db == s2.db
            &&& crate::server_model::messages_listing(s1.db.private_messages, u, v)
                == crate::server_model::messages_listing(
                between_only(s1.db.private_messages, u, v),
                u,
                v,
            )
        }),
{
    let u = client_uuid(s1, id)->0;
    lemma_listing_between_only(s1.db.private_messages, u, v);
    lemma_listing_between_only(s2.db.private_messages, u, v);
    assert(client_index(s1, id) == client_index(s2, id));
    assert(client_uuid(s2, id) == client_uuid(s1, id));
    lemma_send_to_db(s1, id, "404 Not Found: User not found"@);
    lemma_send_to_db(s2, id, "404 Not Found: User not found"@);
    let msg = "200 MESSAGES"@ + crate::server_model::messages_listing(s1.db.private_messages, u, v);
    lemma_send_to_db(s1, id, msg);
    lemma_send_to_db(s2, id, msg);
    assert(crate::models::user_of(s1.db, v) == crate::models::user_of(s2.db, v));
}

} // verus!
