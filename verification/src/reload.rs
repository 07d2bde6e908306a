//! Saving and loading again: the lines that `Database::data_lines` writes,
//! loaded one by one into an empty database, give back the database, with
//! every user marked as disconnected.
use vstd::prelude::*;
use crate::models::{
    first_index, lemma_first_index, lemma_first_index_none, put, DatabaseView, UserView,
    MessageView, TeamView, ChannelView, ThreadView, user_has_uuid, team_has_uuid,
    channel_has_uuid, thread_has_uuid,
};
use crate::storage::{
    bool_text, user_line, pm_line, team_line, sub_line, channel_line, thread_line, reply_line,
    users_lines, pms_lines, subs_lines, replies_lines, thread_lines, threads_lines, channel_lines,
    channels_lines, team_lines, teams_lines, data_lines, number_field, has_thread,
    team_has_thread, add_reply, load_line_spec, load_lines,
};
use crate::text::{
    dec, digit_char, digits_value, all_digits, is_digit, parse_u64_spec, escape_newlines,
    unescape_newlines, split_state, split_spec,
};

verus! {

/// The fields `fs` joined with `|` between them.
pub open spec fn joined(fs: Seq<Seq<char>>) -> Seq<char>
    decreases fs.len(),
{
    if fs.len() == 0 {
        seq![]
    } else if fs.len() == 1 {
        fs[0]
    } else {
        joined(fs.drop_last()) + "|"@ + fs.last()
    }
}

/// A field that holds no `|`.
pub open spec fn plain(s: Seq<char>) -> bool {
    !s.contains('|')
}

/// A text field that holds neither `|` nor `\`, so that escaping its
/// newlines can be undone.
pub open spec fn plain_text(s: Seq<char>) -> bool {
    !s.contains('|') && !s.contains('\\')
}

proof fn lemma_split_state_plain(p: Seq<char>, s: Seq<char>)
    requires
        plain(s),
    ensures
        split_state(p + s, '|') == (split_state(p, '|').0, split_state(p, '|').1 + s),
    decreases s.len(),
{
    if s.len() == 0 {
        assert(p + s =~= p);
        assert(split_state(p, '|').1 + s =~= split_state(p, '|').1);
    } else {
        let s2 = s.drop_last();
        assert(!s2.contains('|')) by {
            if s2.contains('|') {
                let k = choose|k: int| 0 <= k < s2.len() && s2[k] == '|';
                assert(s[k] == '|');
            }
        }
        lemma_split_state_plain(p, s2);
        assert((p + s).drop_last() =~= p + s2);
        assert((p + s).last() == s.last());
        assert(s.last() != '|') by {
            assert(s[s.len() - 1] == s.last());
        }
        assert((split_state(p, '|').1 + s2).push(s.last()) =~= split_state(p, '|').1 + s);
    }
}

pub proof fn lemma_split_joined(fs: Seq<Seq<char>>)
    requires
        fs.len() >= 1,
        forall|i: int| 0 <= i < fs.len() ==> plain(#[trigger] fs[i]),
    ensures
        split_state(joined(fs), '|') == (fs.drop_last(), fs.last()),
        split_spec(joined(fs), '|') == fs,
    decreases fs.len(),
{
    reveal_strlit("|");
    if fs.len() == 1 {
        lemma_split_state_plain(seq![], fs[0]);
        assert(Seq::<char>::empty() + fs[0] =~= fs[0]);
        assert(fs.drop_last() =~= Seq::<Seq<char>>::empty());
        assert(Seq::<char>::empty() + fs[0] =~= fs[0]);
    } else {
        let f2 = fs.drop_last();
        assert forall|i: int| 0 <= i < f2.len() implies plain(#[trigger] f2[i]) by {
            assert(f2[i] == fs[i]);
        }
        lemma_split_joined(f2);
        let head = joined(f2) + "|"@;
        assert(head.drop_last() =~= joined(f2));
        assert(head.last() == '|');
        assert(split_state(head, '|') == (f2.drop_last().push(f2.last()), Seq::<char>::empty()));
        assert(f2.drop_last().push(f2.last()) =~= f2);
        assert(plain(fs.last())) by {
            assert(fs[fs.len() - 1] == fs.last());
        }
        lemma_split_state_plain(head, fs.last());
        assert(joined(fs) == head + fs.last());
        assert(Seq::<char>::empty() + fs.last() =~= fs.last());
        assert(f2.push(fs.last()) =~= fs);
    }
}

proof fn lemma_escape_concat(x: Seq<char>, y: Seq<char>)
    ensures
        escape_newlines(x + y) == escape_newlines(x) + escape_newlines(y),
    decreases y.len(),
{
    if y.len() == 0 {
        assert(x + y =~= x);
        assert(escape_newlines(x) + escape_newlines(y) =~= escape_newlines(x));
    } else {
        lemma_escape_concat(x, y.drop_last());
        assert((x + y).drop_last() =~= x + y.drop_last());
        assert((x + y).last() == y.last());
        if y.last() == '\n' {
            assert(escape_newlines(x) + escape_newlines(y.drop_last()) + seq!['\\', 'n']
                =~= escape_newlines(x) + (escape_newlines(y.drop_last()) + seq!['\\', 'n']));
        } else {
            assert((escape_newlines(x) + escape_newlines(y.drop_last())).push(y.last())
                =~= escape_newlines(x) + escape_newlines(y.drop_last()).push(y.last()));
        }
    }
}

proof fn lemma_unescape_escape(s: Seq<char>)
    requires
        !s.contains('\\'),
    ensures
        unescape_newlines(escape_newlines(s)) == s,
    decreases s.len(),
{
    if s.len() > 0 {
        let c = s[0];
        let r = s.drop_first();
        assert(!r.contains('\\')) by {
            if r.contains('\\') {
                let k = choose|k: int| 0 <= k < r.len() && r[k] == '\\';
                assert(s[k + 1] == '\\');
            }
        }
        lemma_unescape_escape(r);
        assert(s =~= seq![c] + r);
        lemma_escape_concat(seq![c], r);
        let e = escape_newlines(seq![c]);
        assert(seq![c].drop_last() =~= Seq::<char>::empty());
        assert(seq![c].last() == c);
        assert(escape_newlines(Seq::<char>::empty()) =~= Seq::<char>::empty());
        let full = e + escape_newlines(r);
        if c == '\n' {
            assert(e =~= seq!['\\', 'n']);
            assert(full.skip(2) =~= escape_newlines(r));
            assert(unescape_newlines(full) == seq!['\n'] + unescape_newlines(full.skip(2)));
            assert(seq!['\n'] + r =~= s);
        } else {
            assert(e =~= seq![c]);
            assert(c != '\\');
            assert(full[0] == c);
            assert(full.drop_first() =~= escape_newlines(r));
        }
    }
}

proof fn lemma_escape_plain(s: Seq<char>)
    requires
        plain(s),
    ensures
        plain(escape_newlines(s)),
    decreases s.len(),
{
    if s.len() > 0 {
        let s2 = s.drop_last();
        assert(plain(s2)) by {
            if s2.contains('|') {
                let k = choose|k: int| 0 <= k < s2.len() && s2[k] == '|';
                assert(s[k] == '|');
            }
        }
        lemma_escape_plain(s2);
        assert(s.last() != '|') by {
            assert(s[s.len() - 1] == s.last());
        }
        let e = escape_newlines(s);
        if e.contains('|') {
            let k = choose|k: int| 0 <= k < e.len() && e[k] == '|';
            let e2 = escape_newlines(s2);
            if k < e2.len() {
                assert(e[k] == e2[k]);
            }
        }
    }
}

proof fn lemma_digit_value(d: nat)
    requires
        d < 10,
    ensures
        is_digit(digit_char(d)),
        (digit_char(d) as u32 - 48) as nat == d,
{
    let c = digit_char(d);
    assert(c == (48 + d) as char);
    assert(c as u32 == 48 + d);
}

proof fn lemma_dec_digits(n: nat)
    ensures
        dec(n).len() > 0,
        all_digits(dec(n)),
        digits_value(dec(n)) == n,
    decreases n,
{
    if n < 10 {
        lemma_digit_value(n);
        assert(dec(n) =~= seq![digit_char(n)]);
        assert(seq![digit_char(n)].drop_last() =~= Seq::<char>::empty());
        assert(digits_value(Seq::<char>::empty()) == 0);
    } else {
        lemma_dec_digits(n / 10);
        lemma_digit_value(n % 10);
        let d = dec(n / 10);
        assert(dec(n).drop_last() =~= d);
        assert(dec(n).last() == digit_char(n % 10));
        assert forall|i: int| 0 <= i < dec(n).len() implies is_digit(#[trigger] dec(n)[i]) by {
            if i < d.len() {
                assert(dec(n)[i] == d[i]);
            }
        }
    }
}

proof fn lemma_dec_parses(n: u64)
    ensures
        parse_u64_spec(dec(n as nat)) == Some(n),
        number_field(dec(n as nat)) == n,
        plain(dec(n as nat)),
{
    lemma_dec_digits(n as nat);
    let d = dec(n as nat);
    assert(is_digit(d[0]));
    if d.contains('|') {
        let k = choose|k: int| 0 <= k < d.len() && d[k] == '|';
        assert(is_digit(d[k]));
    }
}

proof fn lemma_bool_plain(b: bool)
    ensures
        plain(bool_text(b)),
{
    reveal_strlit("true");
    reveal_strlit("false");
    let t = bool_text(b);
    if t.contains('|') {
        let k = choose|k: int| 0 <= k < t.len() && t[k] == '|';
    }
}

proof fn lemma_kinds_differ()
    ensures
        "USER"@ != "PM"@,
        "USER"@ != "TEAM"@,
        "USER"@ != "SUB"@,
        "USER"@ != "CHAN"@,
        "USER"@ != "THRE"@,
        "USER"@ != "REPL"@,
        "PM"@ != "TEAM"@,
        "PM"@ != "SUB"@,
        "PM"@ != "CHAN"@,
        "PM"@ != "THRE"@,
        "PM"@ != "REPL"@,
        "TEAM"@ != "SUB"@,
        "TEAM"@ != "CHAN"@,
        "TEAM"@ != "THRE"@,
        "TEAM"@ != "REPL"@,
        "SUB"@ != "CHAN"@,
        "SUB"@ != "THRE"@,
        "SUB"@ != "REPL"@,
        "CHAN"@ != "THRE"@,
        "CHAN"@ != "REPL"@,
        "THRE"@ != "REPL"@,
        plain("USER"@),
        plain("PM"@),
        plain("TEAM"@),
        plain("SUB"@),
        plain("CHAN"@),
        plain("THRE"@),
        plain("REPL"@),
{
    reveal_strlit("USER");
    reveal_strlit("PM");
    reveal_strlit("TEAM");
    reveal_strlit("SUB");
    reveal_strlit("CHAN");
    reveal_strlit("THRE");
    reveal_strlit("REPL");
    assert("USER"@[0] != "PM"@[0]);
    assert("USER"@[0] != "TEAM"@[0]);
    assert("USER"@[0] != "SUB"@[0]);
    assert("USER"@[0] != "CHAN"@[0]);
    assert("USER"@[0] != "THRE"@[0]);
    assert("USER"@[0] != "REPL"@[0]);
    assert("PM"@[0] != "TEAM"@[0]);
    assert("PM"@[0] != "SUB"@[0]);
    assert("PM"@[0] != "CHAN"@[0]);
    assert("PM"@[0] != "THRE"@[0]);
    assert("PM"@[0] != "REPL"@[0]);
    assert("TEAM"@[0] != "SUB"@[0]);
    assert("TEAM"@[0] != "CHAN"@[0]);
    assert("TEAM"@[1] != "THRE"@[1]);
    assert("TEAM"@[0] != "REPL"@[0]);
    assert("SUB"@[0] != "CHAN"@[0]);
    assert("SUB"@[0] != "THRE"@[0]);
    assert("SUB"@[0] != "REPL"@[0]);
    assert("CHAN"@[0] != "THRE"@[0]);
    assert("CHAN"@[0] != "REPL"@[0]);
    assert("THRE"@[0] != "REPL"@[0]);
    assert(plain("USER"@)) by {
        if "USER"@.contains('|') {
            let k = choose|k: int| 0 <= k < "USER"@.len() && "USER"@[k] == '|';
        }
    }
    assert(plain("PM"@)) by {
        if "PM"@.contains('|') {
            let k = choose|k: int| 0 <= k < "PM"@.len() && "PM"@[k] == '|';
        }
    }
    assert(plain("TEAM"@)) by {
        if "TEAM"@.contains('|') {
            let k = choose|k: int| 0 <= k < "TEAM"@.len() && "TEAM"@[k] == '|';
        }
    }
    assert(plain("SUB"@)) by {
        if "SUB"@.contains('|') {
            let k = choose|k: int| 0 <= k < "SUB"@.len() && "SUB"@[k] == '|';
        }
    }
    assert(plain("CHAN"@)) by {
        if "CHAN"@.contains('|') {
            let k = choose|k: int| 0 <= k < "CHAN"@.len() && "CHAN"@[k] == '|';
        }
    }
    assert(plain("THRE"@)) by {
        if "THRE"@.contains('|') {
            let k = choose|k: int| 0 <= k < "THRE"@.len() && "THRE"@[k] == '|';
        }
    }
    assert(plain("REPL"@)) by {
        if "REPL"@.contains('|') {
            let k = choose|k: int| 0 <= k < "REPL"@.len() && "REPL"@[k] == '|';
        }
    }
}

/// The user as it is read back: disconnected.
pub open spec fn disconnected(u: UserView) -> UserView {
    UserView { is_connected: false, ..u }
}

proof fn lemma_text_field(s: Seq<char>)
    requires
        plain_text(s),
    ensures
        plain(escape_newlines(s)),
        unescape_newlines(escape_newlines(s)) == s,
{
    lemma_escape_plain(s);
    lemma_unescape_escape(s);
}

proof fn lemma_load_user(db: DatabaseView, u: UserView)
    requires
        plain(u.uuid),
        plain_text(u.name),
    ensures
        load_line_spec(db, user_line(u)).0 == (DatabaseView {
            users: put(db.users, user_has_uuid(u.uuid), disconnected(u)),
            ..db
        }),
{
    reveal_with_fuel(joined, 5);
    lemma_kinds_differ();
    lemma_text_field(u.name);
    lemma_bool_plain(u.is_connected);
    let fs = seq!["USER"@, u.uuid, escape_newlines(u.name), bool_text(u.is_connected)];
    assert(user_line(u) =~= joined(fs));
    lemma_split_joined(fs);
}

proof fn lemma_load_pm(db: DatabaseView, m: MessageView)
    requires
        plain(m.sender_uuid),
        plain(m.receiver_uuid),
        plain_text(m.body),
    ensures
        load_line_spec(db, pm_line(m)).0 == (DatabaseView {
            private_messages: db.private_messages.push(m),
            ..db
        }),
{
    reveal_with_fuel(joined, 6);
    lemma_kinds_differ();
    lemma_text_field(m.body);
    lemma_dec_parses(m.timestamp);
    let fs = seq![
        "PM"@,
        m.sender_uuid,
        m.receiver_uuid,
        dec(m.timestamp as nat),
        escape_newlines(m.body),
    ];
    assert(pm_line(m) =~= joined(fs));
    lemma_split_joined(fs);
}

/// A team as its own line loads it: without subscribers or channels.
pub open spec fn bare_team(t: TeamView) -> TeamView {
    TeamView { subscribers: seq![], channels: seq![], ..t }
}

/// A channel as its own line loads it: without threads.
pub open spec fn bare_channel(c: ChannelView) -> ChannelView {
    ChannelView { threads: seq![], ..c }
}

/// A thread as its own line loads it: without replies.
pub open spec fn bare_thread(h: ThreadView) -> ThreadView {
    ThreadView { replies: seq![], ..h }
}

proof fn lemma_load_team(db: DatabaseView, t: TeamView)
    requires
        plain(t.uuid),
        plain_text(t.name),
        plain_text(t.description),
    ensures
        load_line_spec(db, team_line(t)).0 == (DatabaseView {
            teams: put(db.teams, team_has_uuid(t.uuid), bare_team(t)),
            ..db
        }),
{
    reveal_with_fuel(joined, 5);
    lemma_kinds_differ();
    lemma_text_field(t.name);
    lemma_text_field(t.description);
    let fs = seq!["TEAM"@, t.uuid, escape_newlines(t.name), escape_newlines(t.description)];
    assert(team_line(t) =~= joined(fs));
    lemma_split_joined(fs);
}

proof fn lemma_load_sub(db: DatabaseView, team: Seq<char>, user: Seq<char>)
    requires
        plain(team),
        plain(user),
    ensures
        load_line_spec(db, sub_line(team, user)).0 == match first_index(
            db.teams,
            team_has_uuid(team),
        ) {
            Some(i) => DatabaseView {
                teams: db.teams.update(
                    i,
                    TeamView { subscribers: db.teams[i].subscribers.push(user), ..db.teams[i] },
                ),
                ..db
            },
            None => db,
        },
{
    reveal_with_fuel(joined, 4);
    lemma_kinds_differ();
    let fs = seq!["SUB"@, team, user];
    assert(sub_line(team, user) =~= joined(fs));
    lemma_split_joined(fs);
}

proof fn lemma_load_channel(db: DatabaseView, team: Seq<char>, c: ChannelView)
    requires
        plain(team),
        plain(c.uuid),
        plain_text(c.name),
        plain_text(c.description),
    ensures
        load_line_spec(db, channel_line(team, c)).0 == match first_index(
            db.teams,
            team_has_uuid(team),
        ) {
            Some(i) => DatabaseView {
                teams: db.teams.update(
                    i,
                    TeamView {
                        channels: put(db.teams[i].channels, channel_has_uuid(c.uuid), bare_channel(c)),
                        ..db.teams[i]
                    },
                ),
                ..db
            },
            None => db,
        },
{
    reveal_with_fuel(joined, 6);
    lemma_kinds_differ();
    lemma_text_field(c.name);
    lemma_text_field(c.description);
    let fs = seq!["CHAN"@, team, c.uuid, escape_newlines(c.name), escape_newlines(c.description)];
    assert(channel_line(team, c) =~= joined(fs));
    lemma_split_joined(fs);
}

proof fn lemma_load_thread(db: DatabaseView, team: Seq<char>, channel: Seq<char>, h: ThreadView)
    requires
        plain(team),
        plain(channel),
        plain(h.uuid),
        plain(h.author_uuid),
        plain_text(h.title),
        plain_text(h.message),
    ensures
        load_line_spec(db, thread_line(team, channel, h)).0 == match first_index(
            db.teams,
            team_has_uuid(team),
        ) {
            Some(i) => match first_index(db.teams[i].channels, channel_has_uuid(channel)) {
                Some(ci) => DatabaseView {
                    teams: db.teams.update(
                        i,
                        TeamView {
                            channels: db.teams[i].channels.update(
                                ci,
                                ChannelView {
                                    threads: put(
                                        db.teams[i].channels[ci].threads,
                                        thread_has_uuid(h.uuid),
                                        bare_thread(h),
                                    ),
                                    ..db.teams[i].channels[ci]
                                },
                            ),
                            ..db.teams[i]
                        },
                    ),
                    ..db
                },
                None => db,
            },
            None => db,
        },
{
    reveal_with_fuel(joined, 9);
    lemma_kinds_differ();
    lemma_text_field(h.title);
    lemma_text_field(h.message);
    lemma_dec_parses(h.timestamp);
    let fs = seq![
        "THRE"@,
        channel,
        h.uuid,
        h.author_uuid,
        dec(h.timestamp as nat),
        escape_newlines(h.title),
        escape_newlines(h.message),
        team,
    ];
    assert(thread_line(team, channel, h) =~= joined(fs));
    lemma_split_joined(fs);
}

proof fn lemma_load_reply(db: DatabaseView, thread: Seq<char>, r: MessageView)
    requires
        plain(thread),
        plain(r.sender_uuid),
        plain_text(r.body),
        r.receiver_uuid == thread,
    ensures
        load_line_spec(db, reply_line(thread, r)).0 == add_reply(db, thread, r),
{
    reveal_with_fuel(joined, 6);
    lemma_kinds_differ();
    lemma_text_field(r.body);
    lemma_dec_parses(r.timestamp);
    let fs = seq!["REPL"@, thread, r.sender_uuid, dec(r.timestamp as nat), escape_newlines(r.body)];
    assert(reply_line(thread, r) =~= joined(fs));
    lemma_split_joined(fs);
}

proof fn lemma_load_lines_push(db: DatabaseView, a: Seq<Seq<char>>, l: Seq<char>)
    ensures
        load_lines(db, a.push(l)) == load_line_spec(load_lines(db, a), l).0,
{
    assert(a.push(l).drop_last() =~= a);
}

proof fn lemma_load_lines_concat(db: DatabaseView, a: Seq<Seq<char>>, b: Seq<Seq<char>>)
    ensures
        load_lines(db, a + b) == load_lines(load_lines(db, a), b),
    decreases b.len(),
{
    if b.len() == 0 {
        assert(a + b =~= a);
    } else {
        lemma_load_lines_concat(db, a, b.drop_last());
        assert((a + b).drop_last() =~= a + b.drop_last());
        assert((a + b).last() == b.last());
    }
}

proof fn lemma_load_one(db: DatabaseView, l: Seq<char>)
    ensures
        load_lines(db, seq![l]) == load_line_spec(db, l).0,
{
    assert(seq![l].drop_last() =~= Seq::<Seq<char>>::empty());
    assert(seq![l].last() == l);
    assert(load_lines(db, Seq::<Seq<char>>::empty()) == db);
}

/// A user whose line reads back as the user.
pub open spec fn user_ok(u: UserView) -> bool {
    plain(u.uuid) && plain_text(u.name)
}

/// A message whose line reads back as the message.
pub open spec fn message_ok(m: MessageView) -> bool {
    plain(m.sender_uuid) && plain(m.receiver_uuid) && plain_text(m.body)
}

/// All users disconnected.
pub open spec fn all_disconnected(us: Seq<UserView>) -> Seq<UserView> {
    us.map_values(|u: UserView| disconnected(u))
}

proof fn lemma_load_users(db: DatabaseView, us: Seq<UserView>)
    requires
        db.users.len() == 0,
        forall|i: int| 0 <= i < us.len() ==> user_ok(#[trigger] us[i]),
        forall|i: int, j: int| 0 <= i < us.len() && 0 <= j < us.len() && i != j ==> us[i].uuid != us[j].uuid,
    ensures
        load_lines(db, users_lines(us)) == (DatabaseView { users: all_disconnected(us), ..db }),
    decreases us.len(),
{
    if us.len() > 0 {
        let u2 = us.drop_last();
        let u = us.last();
        assert(u == us[us.len() - 1]);
        assert forall|i: int| 0 <= i < u2.len() implies user_ok(#[trigger] u2[i]) by {
            assert(u2[i] == us[i]);
        }
        assert forall|i: int, j: int| 0 <= i < u2.len() && 0 <= j < u2.len() && i != j implies u2[i].uuid != u2[j].uuid by {
            assert(u2[i] == us[i] && u2[j] == us[j]);
        }
        lemma_load_users(db, u2);
        lemma_load_lines_push(db, users_lines(u2), user_line(u));
        let d = DatabaseView { users: all_disconnected(u2), ..db };
        lemma_load_user(d, u);
        assert forall|j: int| 0 <= j < d.users.len() implies !user_has_uuid(u.uuid)(d.users[j]) by {
            assert(d.users[j].uuid == us[j].uuid);
        }
        lemma_first_index_none(d.users, user_has_uuid(u.uuid));
        assert(all_disconnected(u2).push(disconnected(u)) =~= all_disconnected(us));
    } else {
        assert(all_disconnected(us) =~= db.users);
    }
}

proof fn lemma_load_pms(db: DatabaseView, ms: Seq<MessageView>)
    requires
        forall|i: int| 0 <= i < ms.len() ==> message_ok(#[trigger] ms[i]),
    ensures
        load_lines(db, pms_lines(ms)) == (DatabaseView {
            private_messages: db.private_messages + ms,
            ..db
        }),
    decreases ms.len(),
{
    if ms.len() > 0 {
        let m2 = ms.drop_last();
        let m = ms.last();
        assert(m == ms[ms.len() - 1]);
        assert forall|i: int| 0 <= i < m2.len() implies message_ok(#[trigger] m2[i]) by {
            assert(m2[i] == ms[i]);
        }
        lemma_load_pms(db, m2);
        lemma_load_lines_push(db, pms_lines(m2), pm_line(m));
        lemma_load_pm(DatabaseView { private_messages: db.private_messages + m2, ..db }, m);
        assert((db.private_messages + m2).push(m) =~= db.private_messages + ms);
    } else {
        assert(db.private_messages + ms =~= db.private_messages);
    }
}

/// No thread of the channels `cs` is stored under `h`.
pub open spec fn channels_lack(cs: Seq<ChannelView>, h: Seq<char>) -> bool {
    forall|ci: int, hi: int|
        0 <= ci < cs.len() && 0 <= hi < cs[ci].threads.len() ==> #[trigger] cs[ci].threads[hi].uuid
            != h
}

/// No thread of the teams `ts` is stored under `h`.
pub open spec fn teams_lack(ts: Seq<TeamView>, h: Seq<char>) -> bool {
    forall|ti: int| 0 <= ti < ts.len() ==> channels_lack(#[trigger] ts[ti].channels, h)
}

/// No two threads of the channels `cs` share an identifier.
pub open spec fn threads_distinct(cs: Seq<ChannelView>) -> bool {
    forall|ci: int, hi: int, cj: int, hj: int|
        0 <= ci < cs.len() && 0 <= hi < cs[ci].threads.len() && 0 <= cj < cs.len() && 0 <= hj
            < cs[cj].threads.len() && (ci != cj || hi != hj) ==> #[trigger] cs[ci].threads[hi].uuid
            != #[trigger] cs[cj].threads[hj].uuid
}

/// A reply of the thread `h` whose line reads back as the reply.
pub open spec fn reply_ok(h: ThreadView, r: MessageView) -> bool {
    message_ok(r) && r.receiver_uuid == h.uuid
}

/// A thread whose lines read back as the thread.
pub open spec fn thread_ok(h: ThreadView) -> bool {
    &&& plain(h.uuid)
    &&& plain(h.author_uuid)
    &&& plain_text(h.title)
    &&& plain_text(h.message)
    &&& forall|i: int| 0 <= i < h.replies.len() ==> reply_ok(h, #[trigger] h.replies[i])
}

/// A channel whose lines read back as the channel.
pub open spec fn channel_ok(c: ChannelView) -> bool {
    &&& plain(c.uuid)
    &&& plain_text(c.name)
    &&& plain_text(c.description)
    &&& forall|i: int| 0 <= i < c.threads.len() ==> thread_ok(#[trigger] c.threads[i])
}

/// A team whose lines read back as the team.
pub open spec fn team_ok(t: TeamView) -> bool {
    &&& plain(t.uuid)
    &&& plain_text(t.name)
    &&& plain_text(t.description)
    &&& forall|i: int| 0 <= i < t.subscribers.len() ==> plain(#[trigger] t.subscribers[i])
    &&& forall|i: int| 0 <= i < t.channels.len() ==> channel_ok(#[trigger] t.channels[i])
    &&& forall|i: int, j: int|
        0 <= i < t.channels.len() && 0 <= j < t.channels.len() && i != j ==> t.channels[i].uuid
            != t.channels[j].uuid
    &&& threads_distinct(t.channels)
}

proof fn lemma_channels_lack(cs: Seq<ChannelView>, h: Seq<char>, ci: int)
    requires
        channels_lack(cs, h),
        0 <= ci < cs.len(),
    ensures
        !has_thread(h)(cs[ci]),
{
    lemma_first_index(cs[ci].threads, thread_has_uuid(h));
    if let Some(k) = first_index(cs[ci].threads, thread_has_uuid(h)) {
        assert(cs[ci].threads[k].uuid != h);
    }
}

proof fn lemma_teams_lack(ts: Seq<TeamView>, h: Seq<char>, ti: int)
    requires
        teams_lack(ts, h),
        0 <= ti < ts.len(),
    ensures
        !team_has_thread(h)(ts[ti]),
{
    let cs = ts[ti].channels;
    assert(channels_lack(cs, h));
    lemma_first_index(cs, has_thread(h));
    if let Some(k) = first_index(cs, has_thread(h)) {
        lemma_channels_lack(cs, h, k);
    }
}

/// The teams `pt`, then `t` whose channels are `pc` then `c`, whose threads
/// are `ph` then `h`.
pub open spec fn nest(
    pt: Seq<TeamView>,
    t: TeamView,
    pc: Seq<ChannelView>,
    c: ChannelView,
    ph: Seq<ThreadView>,
    h: ThreadView,
) -> Seq<TeamView> {
    pt.push(TeamView { channels: pc.push(ChannelView { threads: ph.push(h), ..c }), ..t })
}

proof fn lemma_load_replies(
    db: DatabaseView,
    pt: Seq<TeamView>,
    t: TeamView,
    pc: Seq<ChannelView>,
    c: ChannelView,
    ph: Seq<ThreadView>,
    h: ThreadView,
    rs: Seq<MessageView>,
)
    requires
        db.teams == nest(pt, t, pc, c, ph, h),
        plain(h.uuid),
        teams_lack(pt, h.uuid),
        channels_lack(pc, h.uuid),
        forall|j: int| 0 <= j < ph.len() ==> (#[trigger] ph[j]).uuid != h.uuid,
        forall|i: int| 0 <= i < rs.len() ==> reply_ok(h, #[trigger] rs[i]),
    ensures
        load_lines(db, replies_lines(h.uuid, rs)) == (DatabaseView {
            teams: nest(pt, t, pc, c, ph, ThreadView { replies: h.replies + rs, ..h }),
            ..db
        }),
    decreases rs.len(),
{
    if rs.len() == 0 {
        assert(h.replies + rs =~= h.replies);
        assert(ThreadView { replies: h.replies + rs, ..h } == h);
    } else {
        let r2 = rs.drop_last();
        let r = rs.last();
        assert(r == rs[rs.len() - 1]);
        assert forall|i: int| 0 <= i < r2.len() implies reply_ok(h, #[trigger] r2[i]) by {
            assert(r2[i] == rs[i]);
        }
        lemma_load_replies(db, pt, t, pc, c, ph, h, r2);
        lemma_load_lines_push(db, replies_lines(h.uuid, r2), reply_line(h.uuid, r));
        let h1 = ThreadView { replies: h.replies + r2, ..h };
        let d1 = DatabaseView { teams: nest(pt, t, pc, c, ph, h1), ..db };
        lemma_load_reply(d1, h.uuid, r);
        let c1 = ChannelView { threads: ph.push(h1), ..c };
        let t1 = TeamView { channels: pc.push(c1), ..t };
        assert forall|j: int| 0 <= j < ph.len() implies !thread_has_uuid(h.uuid)(
            c1.threads[j],
        ) by {
            assert(c1.threads[j] == ph[j]);
        }
        crate::models::lemma_first_index_at(c1.threads, thread_has_uuid(h.uuid), ph.len() as int);
        assert forall|j: int| 0 <= j < pc.len() implies !has_thread(h.uuid)(t1.channels[j]) by {
            assert(t1.channels[j] == pc[j]);
            lemma_channels_lack(pc, h.uuid, j);
        }
        crate::models::lemma_first_index_at(t1.channels, has_thread(h.uuid), pc.len() as int);
        assert forall|j: int| 0 <= j < pt.len() implies !team_has_thread(h.uuid)(d1.teams[j]) by {
            assert(d1.teams[j] == pt[j]);
            lemma_teams_lack(pt, h.uuid, j);
        }
        crate::models::lemma_first_index_at(d1.teams, team_has_thread(h.uuid), pt.len() as int);
        let h2 = ThreadView { replies: h.replies + rs, ..h };
        assert(h1.replies.push(r) =~= h2.replies);
        assert(c1.threads.update(ph.len() as int, ThreadView { replies: h1.replies.push(r), ..h1 })
            =~= ph.push(h2));
        assert(t1.channels.update(
            pc.len() as int,
            ChannelView { threads: ph.push(h2), ..c1 },
        ) =~= pc.push(ChannelView { threads: ph.push(h2), ..c }));
        assert(add_reply(d1, h.uuid, r).teams =~= nest(pt, t, pc, c, ph, h2));
    }
}

proof fn lemma_load_threads(
    db: DatabaseView,
    pt: Seq<TeamView>,
    t: TeamView,
    pc: Seq<ChannelView>,
    c: ChannelView,
    ph: Seq<ThreadView>,
    hs: Seq<ThreadView>,
)
    requires
        db.teams == pt.push(TeamView { channels: pc.push(ChannelView { threads: ph, ..c }), ..t }),
        plain(t.uuid),
        plain(c.uuid),
        forall|j: int| 0 <= j < pt.len() ==> (#[trigger] pt[j]).uuid != t.uuid,
        forall|j: int| 0 <= j < pc.len() ==> (#[trigger] pc[j]).uuid != c.uuid,
        forall|i: int| 0 <= i < hs.len() ==> thread_ok(#[trigger] hs[i]),
        forall|i: int| 0 <= i < hs.len() ==> teams_lack(pt, (#[trigger] hs[i]).uuid),
        forall|i: int| 0 <= i < hs.len() ==> channels_lack(pc, (#[trigger] hs[i]).uuid),
        forall|i: int, j: int|
            0 <= i < hs.len() && 0 <= j < ph.len() ==> (#[trigger] hs[i]).uuid != (#[trigger] ph[j]).uuid,
        forall|i: int, j: int|
            0 <= i < hs.len() && 0 <= j < hs.len() && i != j ==> (#[trigger] hs[i]).uuid
                != (#[trigger] hs[j]).uuid,
    ensures
        load_lines(db, threads_lines(t.uuid, c.uuid, hs)) == (DatabaseView {
            teams: pt.push(
                TeamView { channels: pc.push(ChannelView { threads: ph + hs, ..c }), ..t },
            ),
            ..db
        }),
    decreases hs.len(),
{
    if hs.len() == 0 {
        assert(ph + hs =~= ph);
    } else {
        let h2 = hs.drop_last();
        let h = hs.last();
        assert(h == hs[hs.len() - 1]);
        assert forall|i: int| 0 <= i < h2.len() implies thread_ok(#[trigger] h2[i]) && teams_lack(
            pt,
            h2[i].uuid,
        ) && channels_lack(pc, h2[i].uuid) by {
            assert(h2[i] == hs[i]);
        }
        assert forall|i: int, j: int| 0 <= i < h2.len() && 0 <= j < ph.len() implies (
        #[trigger] h2[i]).uuid != (#[trigger] ph[j]).uuid by {
            assert(h2[i] == hs[i]);
        }
        assert forall|i: int, j: int| 0 <= i < h2.len() && 0 <= j < h2.len() && i != j implies (
        #[trigger] h2[i]).uuid != (#[trigger] h2[j]).uuid by {
            assert(h2[i] == hs[i] && h2[j] == hs[j]);
        }
        lemma_load_threads(db, pt, t, pc, c, ph, h2);
        assert(threads_lines(t.uuid, c.uuid, hs) == threads_lines(t.uuid, c.uuid, h2)
            + thread_lines(t.uuid, c.uuid, h));
        lemma_load_lines_concat(db, threads_lines(t.uuid, c.uuid, h2), thread_lines(t.uuid, c.uuid, h));
        let ph1 = ph + h2;
        let d1 = DatabaseView {
            teams: pt.push(TeamView { channels: pc.push(ChannelView { threads: ph1, ..c }), ..t }),
            ..db
        };
        lemma_load_lines_concat(d1, seq![thread_line(t.uuid, c.uuid, h)], replies_lines(h.uuid, h.replies));
        lemma_load_one(d1, thread_line(t.uuid, c.uuid, h));
        lemma_load_thread(d1, t.uuid, c.uuid, h);
        assert forall|j: int| 0 <= j < pt.len() implies !team_has_uuid(t.uuid)(d1.teams[j]) by {
            assert(d1.teams[j] == pt[j]);
        }
        crate::models::lemma_first_index_at(d1.teams, team_has_uuid(t.uuid), pt.len() as int);
        let t1 = d1.teams[pt.len() as int];
        assert forall|j: int| 0 <= j < pc.len() implies !channel_has_uuid(c.uuid)(t1.channels[j]) by {
            assert(t1.channels[j] == pc[j]);
        }
        crate::models::lemma_first_index_at(t1.channels, channel_has_uuid(c.uuid), pc.len() as int);
        assert forall|j: int| 0 <= j < ph1.len() implies !thread_has_uuid(h.uuid)(ph1[j]) by {
            if j < ph.len() {
                assert(ph1[j] == ph[j]);
            } else {
                assert(ph1[j] == hs[j - ph.len()]);
            }
        }
        lemma_first_index_none(ph1, thread_has_uuid(h.uuid));
        let d2 = DatabaseView { teams: nest(pt, t, pc, c, ph1, bare_thread(h)), ..db };
        let c1 = t1.channels[pc.len() as int];
        assert(c1.threads == ph1);
        assert(put(c1.threads, thread_has_uuid(h.uuid), bare_thread(h)) == ph1.push(bare_thread(h)));
        assert(t1.channels.update(
            pc.len() as int,
            ChannelView { threads: ph1.push(bare_thread(h)), ..c1 },
        ) =~= pc.push(ChannelView { threads: ph1.push(bare_thread(h)), ..c }));
        assert(d1.teams.update(
            pt.len() as int,
            TeamView {
                channels: pc.push(ChannelView { threads: ph1.push(bare_thread(h)), ..c }),
                ..t1
            },
        ) =~= d2.teams);
        assert(load_line_spec(d1, thread_line(t.uuid, c.uuid, h)).0.teams =~= d2.teams);
        assert forall|j: int| 0 <= j < ph1.len() implies (#[trigger] ph1[j]).uuid != h.uuid by {
            if j < ph.len() {
                assert(ph1[j] == ph[j]);
            } else {
                assert(ph1[j] == hs[j - ph.len()]);
            }
        }
        assert forall|i: int| 0 <= i < h.replies.len() implies reply_ok(
            bare_thread(h),
            #[trigger] h.replies[i],
        ) by {
            assert(reply_ok(h, h.replies[i]));
        }
        lemma_load_replies(d2, pt, t, pc, c, ph1, bare_thread(h), h.replies);
        assert(Seq::<MessageView>::empty() + h.replies =~= h.replies);
        assert(ThreadView { replies: h.replies, ..bare_thread(h) } == h);
        assert(ph1.push(h) =~= ph + hs);
    }
}

proof fn lemma_load_channels(
    db: DatabaseView,
    pt: Seq<TeamView>,
    t: TeamView,
    pc: Seq<ChannelView>,
    cs: Seq<ChannelView>,
)
    requires
        db.teams == pt.push(TeamView { channels: pc, ..t }),
        plain(t.uuid),
        forall|j: int| 0 <= j < pt.len() ==> (#[trigger] pt[j]).uuid != t.uuid,
        forall|i: int| 0 <= i < cs.len() ==> channel_ok(#[trigger] cs[i]),
        forall|i: int, j: int|
            0 <= i < cs.len() && 0 <= j < pc.len() ==> (#[trigger] cs[i]).uuid != (#[trigger] pc[j]).uuid,
        forall|i: int, j: int|
            0 <= i < cs.len() && 0 <= j < cs.len() && i != j ==> (#[trigger] cs[i]).uuid
                != (#[trigger] cs[j]).uuid,
        threads_distinct(cs),
        forall|ci: int, hi: int|
            0 <= ci < cs.len() && 0 <= hi < cs[ci].threads.len() ==> teams_lack(
                pt,
                #[trigger] cs[ci].threads[hi].uuid,
            ) && channels_lack(pc, cs[ci].threads[hi].uuid),
    ensures
        load_lines(db, channels_lines(t.uuid, cs)) == (DatabaseView {
            teams: pt.push(TeamView { channels: pc + cs, ..t }),
            ..db
        }),
    decreases cs.len(),
{
    if cs.len() == 0 {
        assert(pc + cs =~= pc);
    } else {
        let c2 = cs.drop_last();
        let c = cs.last();
        let n = cs.len() - 1;
        assert(c == cs[n]);
        assert forall|i: int| 0 <= i < c2.len() implies channel_ok(#[trigger] c2[i]) by {
            assert(c2[i] == cs[i]);
        }
        assert forall|i: int, j: int| 0 <= i < c2.len() && 0 <= j < pc.len() implies (
        #[trigger] c2[i]).uuid != (#[trigger] pc[j]).uuid by {
            assert(c2[i] == cs[i]);
        }
        assert forall|i: int, j: int| 0 <= i < c2.len() && 0 <= j < c2.len() && i != j implies (
        #[trigger] c2[i]).uuid != (#[trigger] c2[j]).uuid by {
            assert(c2[i] == cs[i] && c2[j] == cs[j]);
        }
        assert forall|ci: int, hi: int, cj: int, hj: int|
            0 <= ci < c2.len() && 0 <= hi < c2[ci].threads.len() && 0 <= cj < c2.len() && 0 <= hj
                < c2[cj].threads.len() && (ci != cj || hi != hj) implies #[trigger] c2[ci].threads[hi].uuid
            != #[trigger] c2[cj].threads[hj].uuid by {
            assert(c2[ci] == cs[ci] && c2[cj] == cs[cj]);
            assert(cs[ci].threads[hi].uuid != cs[cj].threads[hj].uuid);
        }
        assert forall|ci: int, hi: int| 0 <= ci < c2.len() && 0 <= hi < c2[ci].threads.len() implies teams_lack(
            pt,
            #[trigger] c2[ci].threads[hi].uuid,
        ) && channels_lack(pc, c2[ci].threads[hi].uuid) by {
            assert(c2[ci] == cs[ci]);
            assert(teams_lack(pt, cs[ci].threads[hi].uuid));
        }
        lemma_load_channels(db, pt, t, pc, c2);
        assert(channels_lines(t.uuid, cs) == channels_lines(t.uuid, c2) + channel_lines(t.uuid, c));
        lemma_load_lines_concat(db, channels_lines(t.uuid, c2), channel_lines(t.uuid, c));
        let pc1 = pc + c2;
        let d1 = DatabaseView { teams: pt.push(TeamView { channels: pc1, ..t }), ..db };
        lemma_load_lines_concat(
            d1,
            seq![channel_line(t.uuid, c)],
            threads_lines(t.uuid, c.uuid, c.threads),
        );
        lemma_load_one(d1, channel_line(t.uuid, c));
        lemma_load_channel(d1, t.uuid, c);
        assert forall|j: int| 0 <= j < pt.len() implies !team_has_uuid(t.uuid)(d1.teams[j]) by {
            assert(d1.teams[j] == pt[j]);
        }
        crate::models::lemma_first_index_at(d1.teams, team_has_uuid(t.uuid), pt.len() as int);
        assert forall|j: int| 0 <= j < pc1.len() implies (#[trigger] pc1[j]).uuid != c.uuid by {
            if j < pc.len() {
                assert(pc1[j] == pc[j]);
                assert(cs[n].uuid != pc[j].uuid);
            } else {
                assert(pc1[j] == cs[j - pc.len()]);
            }
        }
        assert forall|j: int| 0 <= j < pc1.len() implies !channel_has_uuid(c.uuid)(pc1[j]) by {
            assert(pc1[j].uuid != c.uuid);
        }
        lemma_first_index_none(pc1, channel_has_uuid(c.uuid));
        let d2 = DatabaseView {
            teams: pt.push(TeamView { channels: pc1.push(ChannelView { threads: seq![], ..c }), ..t }),
            ..db
        };
        assert(load_line_spec(d1, channel_line(t.uuid, c)).0.teams =~= d2.teams);
        assert forall|k: int| 0 <= k < c.threads.len() implies channels_lack(
            pc1,
            (#[trigger] c.threads[k]).uuid,
        ) by {
            assert(c.threads[k] == cs[n].threads[k]);
            assert(channels_lack(pc, cs[n].threads[k].uuid));
            assert forall|ci: int, hi: int|
                0 <= ci < pc1.len() && 0 <= hi < pc1[ci].threads.len() implies #[trigger] pc1[ci].threads[hi].uuid
                != c.threads[k].uuid by {
                if ci < pc.len() {
                    assert(pc1[ci] == pc[ci]);
                } else {
                    assert(pc1[ci] == cs[ci - pc.len()]);
                    assert(cs[ci - pc.len()].threads[hi].uuid != cs[n].threads[k].uuid);
                }
            }
        }
        assert forall|k: int| 0 <= k < c.threads.len() implies thread_ok(#[trigger] c.threads[k])
            && teams_lack(pt, c.threads[k].uuid) by {
            assert(c.threads[k] == cs[n].threads[k]);
            assert(teams_lack(pt, cs[n].threads[k].uuid));
        }
        assert forall|i: int, j: int|
            0 <= i < c.threads.len() && 0 <= j < c.threads.len() && i != j implies (
            #[trigger] c.threads[i]).uuid != (#[trigger] c.threads[j]).uuid by {
            assert(cs[n].threads[i].uuid != cs[n].threads[j].uuid);
        }
        lemma_load_threads(d2, pt, t, pc1, c, seq![], c.threads);
        assert(Seq::<ThreadView>::empty() + c.threads =~= c.threads);
        assert(ChannelView { threads: c.threads, ..c } == c);
        assert(pc1.push(c) =~= pc + cs);
    }
}

proof fn lemma_load_subs(db: DatabaseView, pt: Seq<TeamView>, t: TeamView, subs: Seq<Seq<char>>)
    requires
        db.teams == pt.push(t),
        forall|j: int| 0 <= j < pt.len() ==> (#[trigger] pt[j]).uuid != t.uuid,
        plain(t.uuid),
        forall|i: int| 0 <= i < subs.len() ==> plain(#[trigger] subs[i]),
    ensures
        load_lines(db, subs_lines(t.uuid, subs)) == (DatabaseView {
            teams: pt.push(TeamView { subscribers: t.subscribers + subs, ..t }),
            ..db
        }),
    decreases subs.len(),
{
    if subs.len() == 0 {
        assert(t.subscribers + subs =~= t.subscribers);
    } else {
        let s2 = subs.drop_last();
        let u = subs.last();
        assert(u == subs[subs.len() - 1]);
        assert forall|i: int| 0 <= i < s2.len() implies plain(#[trigger] s2[i]) by {
            assert(s2[i] == subs[i]);
        }
        lemma_load_subs(db, pt, t, s2);
        lemma_load_lines_push(db, subs_lines(t.uuid, s2), sub_line(t.uuid, u));
        let t1 = TeamView { subscribers: t.subscribers + s2, ..t };
        let d1 = DatabaseView { teams: pt.push(t1), ..db };
        lemma_load_sub(d1, t.uuid, u);
        assert forall|j: int| 0 <= j < pt.len() implies !team_has_uuid(t.uuid)(d1.teams[j]) by {
            assert(d1.teams[j] == pt[j]);
        }
        crate::models::lemma_first_index_at(d1.teams, team_has_uuid(t.uuid), pt.len() as int);
        assert((t.subscribers + s2).push(u) =~= t.subscribers + subs);
        assert(d1.teams.update(
            pt.len() as int,
            TeamView { subscribers: t1.subscribers.push(u), ..t1 },
        ) =~= pt.push(TeamView { subscribers: t.subscribers + subs, ..t }));
    }
}

proof fn lemma_load_one_team(db: DatabaseView, pt: Seq<TeamView>, t: TeamView)
    requires
        db.teams == pt,
        team_ok(t),
        forall|j: int| 0 <= j < pt.len() ==> (#[trigger] pt[j]).uuid != t.uuid,
        forall|ci: int, hi: int|
            0 <= ci < t.channels.len() && 0 <= hi < t.channels[ci].threads.len() ==> teams_lack(
                pt,
                #[trigger] t.channels[ci].threads[hi].uuid,
            ),
    ensures
        load_lines(db, team_lines(t)) == (DatabaseView { teams: pt.push(t), ..db }),
{
    let l0 = seq![team_line(t)];
    let ls = subs_lines(t.uuid, t.subscribers);
    let lc = channels_lines(t.uuid, t.channels);
    assert(team_lines(t) == l0 + ls + lc);
    lemma_load_lines_concat(db, l0 + ls, lc);
    lemma_load_lines_concat(db, l0, ls);
    lemma_load_one(db, team_line(t));
    lemma_load_team(db, t);
    assert forall|j: int| 0 <= j < pt.len() implies !team_has_uuid(t.uuid)(pt[j]) by {}
    lemma_first_index_none(pt, team_has_uuid(t.uuid));
    let d1 = DatabaseView { teams: pt.push(bare_team(t)), ..db };
    lemma_load_subs(d1, pt, bare_team(t), t.subscribers);
    let t2 = TeamView { channels: seq![], ..t };
    assert(Seq::<Seq<char>>::empty() + t.subscribers =~= t.subscribers);
    assert(TeamView { subscribers: Seq::<Seq<char>>::empty() + t.subscribers, ..bare_team(t) } == t2);
    let d2 = DatabaseView { teams: pt.push(t2), ..db };
    assert forall|ci: int, hi: int|
        0 <= ci < t.channels.len() && 0 <= hi < t.channels[ci].threads.len() implies teams_lack(
        pt,
        #[trigger] t.channels[ci].threads[hi].uuid,
    ) && channels_lack(Seq::<ChannelView>::empty(), t.channels[ci].threads[hi].uuid) by {}
    lemma_load_channels(d2, pt, t, seq![], t.channels);
    assert(Seq::<ChannelView>::empty() + t.channels =~= t.channels);
    assert(TeamView { channels: t.channels, ..t } == t);
}

/// No two threads anywhere in the teams `ts` share an identifier.
pub open spec fn all_threads_distinct(ts: Seq<TeamView>) -> bool {
    forall|ti: int, ci: int, hi: int, tj: int, cj: int, hj: int|
        0 <= ti < ts.len() && 0 <= ci < ts[ti].channels.len() && 0 <= hi
            < ts[ti].channels[ci].threads.len() && 0 <= tj < ts.len() && 0 <= cj
            < ts[tj].channels.len() && 0 <= hj < ts[tj].channels[cj].threads.len() && (ti != tj
            || ci != cj || hi != hj) ==> #[trigger] ts[ti].channels[ci].threads[hi].uuid
            != #[trigger] ts[tj].channels[cj].threads[hj].uuid
}

proof fn lemma_load_teams(db: DatabaseView, ts: Seq<TeamView>)
    requires
        db.teams.len() == 0,
        forall|i: int| 0 <= i < ts.len() ==> team_ok(#[trigger] ts[i]),
        forall|i: int, j: int|
            0 <= i < ts.len() && 0 <= j < ts.len() && i != j ==> (#[trigger] ts[i]).uuid
                != (#[trigger] ts[j]).uuid,
        all_threads_distinct(ts),
    ensures
        load_lines(db, teams_lines(ts)) == (DatabaseView { teams: ts, ..db }),
    decreases ts.len(),
{
    if ts.len() == 0 {
        assert(db.teams =~= ts);
    } else {
        let t2 = ts.drop_last();
        let t = ts.last();
        let n = ts.len() - 1;
        assert(t == ts[n]);
        assert forall|i: int| 0 <= i < t2.len() implies team_ok(#[trigger] t2[i]) by {
            assert(t2[i] == ts[i]);
        }
        assert forall|i: int, j: int| 0 <= i < t2.len() && 0 <= j < t2.len() && i != j implies (
        #[trigger] t2[i]).uuid != (#[trigger] t2[j]).uuid by {
            assert(t2[i] == ts[i] && t2[j] == ts[j]);
        }
        assert forall|ti: int, ci: int, hi: int, tj: int, cj: int, hj: int|
            0 <= ti < t2.len() && 0 <= ci < t2[ti].channels.len() && 0 <= hi
                < t2[ti].channels[ci].threads.len() && 0 <= tj < t2.len() && 0 <= cj
                < t2[tj].channels.len() && 0 <= hj < t2[tj].channels[cj].threads.len() && (ti
                != tj || ci != cj || hi != hj) implies #[trigger] t2[ti].channels[ci].threads[hi].uuid
            != #[trigger] t2[tj].channels[cj].threads[hj].uuid by {
            assert(t2[ti] == ts[ti] && t2[tj] == ts[tj]);
            assert(ts[ti].channels[ci].threads[hi].uuid != ts[tj].channels[cj].threads[hj].uuid);
        }
        lemma_load_teams(db, t2);
        assert(teams_lines(ts) == teams_lines(t2) + team_lines(t));
        lemma_load_lines_concat(db, teams_lines(t2), team_lines(t));
        let d1 = DatabaseView { teams: t2, ..db };
        assert forall|j: int| 0 <= j < t2.len() implies (#[trigger] t2[j]).uuid != t.uuid by {
            assert(t2[j] == ts[j]);
        }
        assert forall|ci: int, hi: int|
            0 <= ci < t.channels.len() && 0 <= hi < t.channels[ci].threads.len() implies teams_lack(
            t2,
            #[trigger] t.channels[ci].threads[hi].uuid,
        ) by {
            assert forall|ti: int| 0 <= ti < t2.len() implies channels_lack(
                #[trigger] t2[ti].channels,
                t.channels[ci].threads[hi].uuid,
            ) by {
                assert(t2[ti] == ts[ti]);
                assert forall|cj: int, hj: int|
                    0 <= cj < t2[ti].channels.len() && 0 <= hj < t2[ti].channels[cj].threads.len() implies #[trigger] t2[ti].channels[cj].threads[hj].uuid
                    != t.channels[ci].threads[hi].uuid by {
                    assert(ts[ti].channels[cj].threads[hj].uuid
                        != ts[n].channels[ci].threads[hi].uuid);
                }
            }
        }
        lemma_load_one_team(d1, t2, t);
        assert(t2.push(t) =~= ts);
    }
}

/// A database whose data file reads back as the database: every field that
/// is written as it stands holds no `|`, every text holds neither `|` nor
/// `\`, users, teams, the channels of a team and all threads have distinct
/// identifiers, and every reply names its thread as receiver.
pub open spec fn storable(db: DatabaseView) -> bool {
    &&& forall|i: int| 0 <= i < db.users.len() ==> user_ok(#[trigger] db.users[i])
    &&& forall|i: int, j: int|
        0 <= i < db.users.len() && 0 <= j < db.users.len() && i != j ==> (
        #[trigger] db.users[i]).uuid != (#[trigger] db.users[j]).uuid
    &&& forall|i: int|
        0 <= i < db.private_messages.len() ==> message_ok(#[trigger] db.private_messages[i])
    &&& forall|i: int| 0 <= i < db.teams.len() ==> team_ok(#[trigger] db.teams[i])
    &&& forall|i: int, j: int|
        0 <= i < db.teams.len() && 0 <= j < db.teams.len() && i != j ==> (
        #[trigger] db.teams[i]).uuid != (#[trigger] db.teams[j]).uuid
    &&& all_threads_distinct(db.teams)
}

/// The empty database that the server starts from.
pub open spec fn empty_database() -> DatabaseView {
    DatabaseView { users: seq![], teams: seq![], private_messages: seq![] }
}

/// Saving then loading gives the database back: the lines of the data file
/// of a storable database, loaded one by one into an empty database, give
/// the same users (all disconnected), private messages and teams, with their
/// subscribers, channels, threads and replies, in the same order.
pub proof fn law_saved_data_loads_back(db: DatabaseView)
    requires
        storable(db),
    ensures
        load_lines(empty_database(), data_lines(db)) == (DatabaseView {
            users: all_disconnected(db.users),
            ..db
        }),
{
    let e = empty_database();
    let lu = users_lines(db.users);
    let lm = pms_lines(db.private_messages);
    let lt = teams_lines(db.teams);
    lemma_load_lines_concat(e, lu + lm, lt);
    lemma_load_lines_concat(e, lu, lm);
    lemma_load_users(e, db.users);
    let d1 = DatabaseView { users: all_disconnected(db.users), ..e };
    lemma_load_pms(d1, db.private_messages);
    assert(Seq::<MessageView>::empty() + db.private_messages =~= db.private_messages);
    let d2 = DatabaseView { private_messages: db.private_messages, ..d1 };
    lemma_load_teams(d2, db.teams);
}

} // verus!
