//! What the server answers, stated from the data: which teams `/subscribed`
//! lists, what `/user` reports, which threads `/list` shows, and who hears of
//! a new channel.
use vstd::prelude::*;
use crate::client::{ClientView, UseContextView, line_bytes};
use crate::laws::{output_of, lemma_send_to_effect};
use crate::models::{
    first_index, lemma_first_index, TeamView, ThreadView, UserView, team_of, channel_of, user_of,
};
use crate::server_model::{
    ServerView, handle_command_spec, command_args, client_index, client_uuid, subscribed_spec,
    user_spec, create_spec, list_or_info_spec, teams_listing, threads_listing, send_to,
};

verus! {

/// The pieces of `parts` one after another.
pub open spec fn concat_all(parts: Seq<Seq<char>>) -> Seq<char>
    decreases parts.len(),
{
    if parts.len() == 0 {
        seq![]
    } else {
        concat_all(parts.drop_last()) + parts.last()
    }
}

/// The entry for one team in a team listing.
pub open spec fn team_entry(t: TeamView) -> Seq<char> {
    "|"@ + t.uuid + ":"@ + t.name + ":"@ + t.description
}

/// The entry for one thread in a thread listing.
pub open spec fn thread_entry(h: ThreadView) -> Seq<char> {
    "|"@ + h.uuid + ":"@ + h.author_uuid + ":"@ + crate::text::dec(h.timestamp as nat) + ":"@
        + h.title + ":"@ + h.message
}

/// A connection status as the server writes it.
pub open spec fn status_text(connected: bool) -> Seq<char> {
    if connected {
        "1"@
    } else {
        "0"@
    }
}

proof fn lemma_names_differ()
    ensures
        "/subscribed"@ != "/login"@,
        "/subscribed"@ != "/logout"@,
        "/subscribed"@ != "/send"@,
        "/subscribed"@ != "/use"@,
        "/subscribed"@ != "/users"@,
        "/subscribed"@ != "/user"@,
        "/subscribed"@ != "/messages"@,
        "/subscribed"@ != "/subscribe"@,
        "/subscribed"@ != "/unsubscribe"@,
        "/subscribed"@ != "/create"@,
        "/subscribed"@ != "/list"@,
        "/subscribed"@ != "/info"@,
        "/user"@ != "/login"@,
        "/user"@ != "/logout"@,
        "/user"@ != "/send"@,
        "/user"@ != "/use"@,
        "/user"@ != "/users"@,
        "/create"@ != "/login"@,
        "/create"@ != "/logout"@,
        "/create"@ != "/send"@,
        "/create"@ != "/use"@,
        "/create"@ != "/users"@,
        "/create"@ != "/user"@,
        "/create"@ != "/messages"@,
        "/create"@ != "/subscribe"@,
        "/create"@ != "/unsubscribe"@,
        "/list"@ != "/login"@,
        "/list"@ != "/logout"@,
        "/list"@ != "/send"@,
        "/list"@ != "/use"@,
        "/list"@ != "/users"@,
        "/list"@ != "/user"@,
        "/list"@ != "/messages"@,
        "/list"@ != "/subscribe"@,
        "/list"@ != "/unsubscribe"@,
        "/list"@ != "/create"@,
{
    reveal_strlit("/subscribed");
    reveal_strlit("/login");
    reveal_strlit("/logout");
    reveal_strlit("/send");
    reveal_strlit("/use");
    reveal_strlit("/users");
    reveal_strlit("/user");
    reveal_strlit("/messages");
    reveal_strlit("/subscribe");
    reveal_strlit("/unsubscribe");
    reveal_strlit("/create");
    reveal_strlit("/list");
    reveal_strlit("/info");
    assert("/subscribed"@.len() == 11);
    assert("/login"@.len() == 6);
    assert("/logout"@.len() == 7);
    assert("/send"@.len() == 5);
    assert("/use"@.len() == 4);
    assert("/users"@.len() == 6);
    assert("/user"@.len() == 5);
    assert("/messages"@.len() == 9);
    assert("/subscribe"@.len() == 10);
    assert("/unsubscribe"@.len() == 12);
    assert("/create"@.len() == 7);
    assert("/list"@.len() == 5);
    assert("/info"@.len() == 5);
    assert("/user"@[1] != "/send"@[1]);
    assert("/user"@[1] != "/list"@[1]);
    assert("/create"@[1] != "/logout"@[1]);
    assert("/list"@[1] != "/send"@[1]);
}

proof fn lemma_teams_listing(ts: Seq<TeamView>, me: Seq<char>)
    ensures
        teams_listing(ts, Some(me)) == concat_all(
            ts.filter(|t: TeamView| t.subscribers.contains(me)).map_values(|t: TeamView| team_entry(t)),
        ),
    decreases ts.len(),
{
    let p = |t: TeamView| t.subscribers.contains(me);
    let f = |t: TeamView| team_entry(t);
    reveal(Seq::filter);
    if ts.len() == 0 {
        assert(ts.filter(p).map_values(f) =~= Seq::<Seq<char>>::empty());
    } else {
        lemma_teams_listing(ts.drop_last(), me);
        let sub = ts.drop_last().filter(p);
        let t = ts.last();
        if p(t) {
            assert(ts.filter(p) == sub.push(t));
            assert(sub.push(t).map_values(f).drop_last() =~= sub.map_values(f));
            assert(sub.push(t).map_values(f).last() == team_entry(t));
        } else {
            assert(ts.filter(p) == sub);
            assert(teams_listing(ts, Some(me)) =~= teams_listing(ts.drop_last(), Some(me)));
        }
    }
}

proof fn lemma_threads_listing(hs: Seq<ThreadView>)
    ensures
        threads_listing(hs) == concat_all(hs.map_values(|h: ThreadView| thread_entry(h))),
    decreases hs.len(),
{
    let f = |h: ThreadView| thread_entry(h);
    if hs.len() == 0 {
        assert(hs.map_values(f) =~= Seq::<Seq<char>>::empty());
    } else {
        lemma_threads_listing(hs.drop_last());
        assert(hs.map_values(f).drop_last() =~= hs.drop_last().map_values(f));
        assert(hs.map_values(f).last() == thread_entry(hs.last()));
        assert(threads_listing(hs) =~= threads_listing(hs.drop_last()) + thread_entry(hs.last()));
    }
}

/// `/subscribed` without an argument answers with one entry for each team
/// that the logged-in user subscribes to, in order, and for no other team;
/// nothing else changes.
pub proof fn law_subscribed_lists_exactly_the_teams_of_the_user(
    s: ServerView,
    id: u64,
    line: Seq<char>,
    fresh: Seq<char>,
    ts: u64,
)
    requires
        command_args(line) == seq!["/subscribed"@],
        client_uuid(s, id) is Some,
    ensures
        ({
            let me = client_uuid(s, id)->0;
            let s2 = handle_command_spec(s, id, line, fresh, ts);
            &&& s2.db == s.db
            &&& s2.log == s.log
            &&& output_of(s2, id) == output_of(s, id) + line_bytes(
                "200 SUBSCRIBED_TEAMS"@ + concat_all(
                    s.db.teams.filter(|t: TeamView| t.subscribers.contains(me)).map_values(
                        |t: TeamView| team_entry(t),
                    ),
                ),
            )
        }),
{
    let me = client_uuid(s, id)->0;
    lemma_names_differ();
    lemma_first_index(s.clients, crate::server_model::has_id(id));
    let args = command_args(line);
    assert(args[0] == "/subscribed"@);
    assert(handle_command_spec(s, id, line, fresh, ts) == subscribed_spec(s, id, args));
    lemma_teams_listing(s.db.teams, me);
    lemma_send_to_effect(s, id, "200 SUBSCRIBED_TEAMS"@ + teams_listing(s.db.teams, Some(me)));
}

/// `/user v` for a known user answers with that user's identifier, name and
/// connection status: `1` when the stored user is connected, `0` when not.
pub proof fn law_user_reports_the_stored_status(
    s: ServerView,
    id: u64,
    line: Seq<char>,
    v: Seq<char>,
    fresh: Seq<char>,
    ts: u64,
)
    requires
        command_args(line) == seq!["/user"@, v],
        client_uuid(s, id) is Some,
        user_of(s.db, v) is Some,
    ensures
        ({
            let u = user_of(s.db, v)->0;
            let s2 = handle_command_spec(s, id, line, fresh, ts);
            &&& u.uuid == v
            &&& s2.db == s.db
            &&& s2.log == s.log
            &&& output_of(s2, id) == output_of(s, id) + line_bytes(
                "200 USER|"@ + u.uuid + "|"@ + u.name + "|"@ + (if u.is_connected {
                    "1"@
                } else {
                    "0"@
                }),
            )
        }),
{
    lemma_names_differ();
    lemma_first_index(s.clients, crate::server_model::has_id(id));
    lemma_first_index(s.db.users, crate::models::user_has_uuid(v));
    let args = command_args(line);
    assert(args[0] == "/user"@);
    assert(handle_command_spec(s, id, line, fresh, ts) == user_spec(s, id, args));
    let u = user_of(s.db, v)->0;
    lemma_send_to_effect(
        s,
        id,
        "200 USER|"@ + u.uuid + "|"@ + u.name + "|"@ + crate::server_model::status(u.is_connected),
    );
}

/// `/list` inside a channel answers with exactly one entry per thread of the
/// channel, entry `k` describing thread `k`; nothing else changes.
pub proof fn law_list_shows_every_thread_of_the_channel(
    s: ServerView,
    id: u64,
    line: Seq<char>,
    fresh: Seq<char>,
    ts: u64,
    t: Seq<char>,
    ch: Seq<char>,
)
    requires
        command_args(line) == seq!["/list"@],
        client_uuid(s, id) is Some,
        s.clients[client_index(s, id)->0].1.use_context == UseContextView::Channel(t, ch),
        crate::server_model::is_subscribed_to_team(s.db, client_uuid(s, id)->0, t),
        team_of(s.db, t) is Some,
        channel_of(team_of(s.db, t)->0, ch) is Some,
    ensures
        ({
            let c = channel_of(team_of(s.db, t)->0, ch)->0;
            let s2 = handle_command_spec(s, id, line, fresh, ts);
            &&& s2.db == s.db
            &&& s2.log == s.log
            &&& output_of(s2, id) == output_of(s, id) + line_bytes(
                "200 LIST_THREADS"@ + concat_all(c.threads.map_values(|h: ThreadView| thread_entry(h))),
            )
        }),
{
    lemma_names_differ();
    lemma_first_index(s.clients, crate::server_model::has_id(id));
    let args = command_args(line);
    assert(args[0] == "/list"@);
    assert(handle_command_spec(s, id, line, fresh, ts) == list_or_info_spec(s, id, false));
    let c = channel_of(team_of(s.db, t)->0, ch)->0;
    lemma_threads_listing(c.threads);
    lemma_send_to_effect(s, id, "200 LIST_THREADS"@ + threads_listing(c.threads));
}

proof fn lemma_plain_literal(s: Seq<char>)
    requires
        forall|i: int| 0 <= i < s.len() ==> s[i] != '|',
    ensures
        crate::reload::plain(s),
{
    if s.contains('|') {
        let k = choose|k: int| 0 <= k < s.len() && s[k] == '|';
        assert(s[k] != '|');
    }
}

/// The client, given the server's answer `200 USER|u|n|status` to `/user`,
/// makes one call that prints the user with `u` as identifier, `n` as name
/// and the status as a number: 1 for a connected user, 0 otherwise; it
/// remembers nothing new.
pub proof fn law_client_prints_the_user_as_sent(
    st: crate::cli::ClientStateView,
    u: Seq<char>,
    n: Seq<char>,
    connected: bool,
)
    requires
        crate::reload::plain(u),
        crate::reload::plain(n),
    ensures
        crate::cli::server_message_spec(
            "200 USER|"@ + u + "|"@ + n + "|"@ + status_text(connected),
            st,
        ) == (
            st,
            seq![
                crate::cli::ClientActionView::Call(
                    crate::ffi::LogCall::ClientPrintUser {
                        user_uuid: crate::ffi::cstr(u),
                        user_name: crate::ffi::cstr(n),
                        user_status: if connected {
                            1i32
                        } else {
                            0i32
                        },
                    },
                ),
            ],
        ),
{
    reveal_strlit("200 USER|");
    reveal_strlit("200 USER");
    reveal_strlit("|");
    reveal_strlit("1");
    reveal_strlit("0");
    reveal_strlit("200 Logout OK");
    reveal_strlit("EVENT PM_RECEIVED");
    reveal_strlit("200 USERS");
    reveal_strlit("200 Login OK");
    let head = "200 USER"@;
    let stx = status_text(connected);
    lemma_plain_literal(head);
    lemma_plain_literal(stx);
    let fs = seq![head, u, n, stx];
    reveal_with_fuel(crate::reload::joined, 5);
    assert("200 USER|"@ + u + "|"@ + n + "|"@ + stx =~= crate::reload::joined(fs));
    crate::reload::lemma_split_joined(fs);
    assert(head.len() == 8);
    assert("200 Logout OK"@.len() == 13);
    assert("200 USERS"@.len() == 9);
    assert("EVENT PM_RECEIVED"@.len() == 17);
    assert(head != "200 Logout OK"@);
    assert(head != "200 USERS"@);
    assert(head != "EVENT PM_RECEIVED"@);
    assert(stx.len() == 1);
    assert(crate::text::all_digits(stx));
    assert(stx.drop_last() =~= Seq::<char>::empty());
    assert(crate::text::digits_value(Seq::<char>::empty()) == 0);
    assert(crate::text::digits_value(stx) == if connected {
        1nat
    } else {
        0nat
    });
    assert(crate::cli::i32_or_zero(stx) == if connected {
        1i32
    } else {
        0i32
    });
}

proof fn lemma_occurrences_once(subs: Seq<Seq<char>>, u: Seq<char>)
    requires
        subs.no_duplicates(),
    ensures
        crate::server_model::occurrences(subs, u) == if subs.contains(u) {
            1nat
        } else {
            0nat
        },
    decreases subs.len(),
{
    if subs.len() > 0 {
        let d = subs.drop_last();
        assert(d.no_duplicates()) by {
            assert forall|a: int, b: int| 0 <= a < d.len() && 0 <= b < d.len() && a != b implies d[a] != d[b] by {
                assert(d[a] == subs[a] && d[b] == subs[b]);
            }
        }
        lemma_occurrences_once(d, u);
        if subs.last() == u {
            assert(!d.contains(u)) by {
                if d.contains(u) {
                    let k = choose|k: int| 0 <= k < d.len() && d[k] == u;
                    assert(subs[k] == subs[subs.len() - 1]);
                }
            }
            assert(subs[subs.len() - 1] == u);
        } else {
            assert(subs.contains(u) == d.contains(u)) by {
                if subs.contains(u) {
                    let k = choose|k: int| 0 <= k < subs.len() && subs[k] == u;
                    assert(k != subs.len() - 1);
                    assert(d[k] == u);
                }
                if d.contains(u) {
                    let k = choose|k: int| 0 <= k < d.len() && d[k] == u;
                    assert(subs[k] == u);
                }
            }
        }
    }
}

/// A new channel is announced to its team: after `/create "name" "desc"`
/// creates a channel in team `t`, every connection logged in as a subscriber
/// of `t` (the creator's among them) gets `EVENT CHANNEL_CREATED|uuid|name|desc`,
/// the creating connection first gets `200 CHANNEL_CREATED|uuid|name|desc`,
/// and no other connection gets anything; who is logged in where stays.
pub proof fn law_new_channel_is_announced_to_every_subscriber(
    s: ServerView,
    id: u64,
    line: Seq<char>,
    name: Seq<char>,
    desc: Seq<char>,
    t: Seq<char>,
    fresh: Seq<char>,
    ts: u64,
)
    requires
        command_args(line) == seq!["/create"@, name, desc],
        client_uuid(s, id) is Some,
        s.clients[client_index(s, id)->0].1.use_context == UseContextView::Team(t),
        crate::server_model::is_subscribed_to_team(s.db, client_uuid(s, id)->0, t),
        crate::text::byte_len(name) <= crate::server_model::MAX_NAME_LENGTH,
        crate::text::byte_len(desc) <= crate::server_model::MAX_DESCRIPTION_LENGTH,
        first_index(
            team_of(s.db, t)->0.channels,
            crate::models::channel_has_name(name),
        ) is None,
        (team_of(s.db, t)->0).subscribers.no_duplicates(),
    ensures
        ({
            let i = client_index(s, id)->0;
            let subs = (team_of(s.db, t)->0).subscribers;
            let resp = "200 CHANNEL_CREATED|"@ + fresh + "|"@ + name + "|"@ + desc;
            let ev = "EVENT CHANNEL_CREATED|"@ + fresh + "|"@ + name + "|"@ + desc;
            let s2 = handle_command_spec(s, id, line, fresh, ts);
            &&& s2.clients.len() == s.clients.len()
            &&& forall|k: int|
                #![trigger s2.clients[k]]
                0 <= k < s.clients.len() ==> {
                    let old_c = s.clients[k].1;
                    &&& s2.clients[k].0 == s.clients[k].0
                    &&& s2.clients[k].1.uuid == old_c.uuid
                    &&& s2.clients[k].1.write_buffer == old_c.write_buffer + (if k == i {
                        line_bytes(resp)
                    } else {
                        seq![]
                    }) + (if (match old_c.uuid {
                        Some(u) => subs.contains(u),
                        None => false,
                    }) {
                        line_bytes(ev)
                    } else {
                        seq![]
                    })
                }
        }),
{
    lemma_names_differ();
    lemma_first_index(s.clients, crate::server_model::has_id(id));
    let i = client_index(s, id)->0;
    let c = s.clients[i].1;
    let me = c.uuid->0;
    let args = command_args(line);
    assert(args[0] == "/create"@);
    assert(handle_command_spec(s, id, line, fresh, ts) == create_spec(s, id, args, fresh, ts));
    assert(create_spec(s, id, args, fresh, ts) == crate::server_model::create_channel_spec(
        s,
        id,
        t,
        args,
        fresh,
    ));
    lemma_first_index(s.db.teams, crate::models::team_has_uuid(t));
    let ti = first_index(s.db.teams, crate::models::team_has_uuid(t))->0;
    let team = s.db.teams[ti];
    let channel = crate::models::ChannelView { uuid: fresh, name, description: desc, threads: seq![] };
    let team2 = TeamView {
        channels: crate::models::put(team.channels, crate::models::channel_has_uuid(fresh), channel),
        ..team
    };
    let s1 = crate::server_model::log(
        crate::server_model::with_db(s, crate::server_model::set_team(s.db, ti, team2)),
        crate::ffi::LogCall::ServerEventChannelCreated {
            team_uuid: crate::ffi::cstr(t),
            channel_uuid: crate::ffi::cstr(fresh),
            channel_name: crate::ffi::cstr(name),
        },
    );
    let resp = "200 CHANNEL_CREATED|"@ + fresh + "|"@ + name + "|"@ + desc;
    let ev = "EVENT CHANNEL_CREATED|"@ + fresh + "|"@ + name + "|"@ + desc;
    assert(client_index(s1, id) == Some(i));
    lemma_send_to_effect(s1, id, resp);
    let s2a = send_to(s1, id, resp);
    assert(s2a.clients == s.clients.update(i, (id, crate::client::queue(c, resp))));
    crate::laws::lemma_first_index_update_same(s.db.teams, ti, team2, crate::models::team_has_uuid(t));
    assert(team_of(s2a.db, t) == Some(team2));
    let subs = team.subscribers;
    let s2 = handle_command_spec(s, id, line, fresh, ts);
    assert(s2 == crate::server_model::send_event_to_team_subscribers(s2a, t, ev));
    let bl = line_bytes(ev);
    assert(crate::server_model::repeat(bl, 0) =~= Seq::<u8>::empty());
    assert(crate::server_model::repeat(bl, 1) =~= bl) by {
        assert(crate::server_model::repeat(bl, 1) == crate::server_model::repeat(bl, 0) + bl);
    }
    assert forall|k: int| #![trigger s2.clients[k]] 0 <= k < s.clients.len() implies {
        let old_c = s.clients[k].1;
        &&& s2.clients[k].0 == s.clients[k].0
        &&& s2.clients[k].1.uuid == old_c.uuid
        &&& s2.clients[k].1.write_buffer == old_c.write_buffer + (if k == i {
            line_bytes(resp)
        } else {
            seq![]
        }) + (if (match old_c.uuid {
            Some(u) => subs.contains(u),
            None => false,
        }) {
            line_bytes(ev)
        } else {
            seq![]
        })
    } by {
        let old_c = s.clients[k].1;
        let mid = s2a.clients[k].1;
        assert(s2.clients[k] == (s2a.clients[k].0, crate::server_model::deliver(mid, subs, ev)));
        if k == i {
            assert(s.clients[i].0 == id);
            assert(mid == crate::client::queue(c, resp));
        } else {
            assert(mid == old_c);
            assert(old_c.write_buffer + Seq::<u8>::empty() =~= old_c.write_buffer);
        }
        if let Some(u) = old_c.uuid {
            lemma_occurrences_once(subs, u);
        }
        assert(mid.write_buffer + Seq::<u8>::empty() =~= mid.write_buffer);
    }
}

} // verus!
