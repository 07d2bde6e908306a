//! The data file: one line per user, private message, team, subscription,
//! channel, thread and reply, fields separated by `|`, newlines inside text
//! written as `\n`. Saving turns the database into lines; loading applies
//! lines one by one.
use vstd::prelude::*;
use crate::command::strings_view;
use crate::ffi::{LogCall, cstr};
use crate::models::{
    Database, DatabaseView, User, UserView, Message, MessageView, Team, TeamView, Channel,
    ChannelView, Thread, ThreadView, first_index, lemma_first_index, put, user_has_uuid,
    team_has_uuid, channel_has_uuid, thread_has_uuid, users_view, teams_view, channels_view,
    threads_view, messages_view, ids_view, find_team, find_channel, find_thread, put_user,
    put_team, put_channel, put_thread,
};
use crate::text::{
    dec, escape_newlines, unescape_newlines, escape_newlines_of, unescape_newlines_of, owned,
    append_str, u64_to_string, parse_u64, parse_u64_spec, split_on, split_spec,
};

verus! {

broadcast use vstd::string::group_string_axioms;

pub open spec fn bool_text(b: bool) -> Seq<char> {
    if b {
        "true"@
    } else {
        "false"@
    }
}

pub open spec fn user_line(u: UserView) -> Seq<char> {
    "USER"@ + "|"@ + u.uuid + "|"@ + escape_newlines(u.name) + "|"@ + bool_text(u.is_connected)
}

pub open spec fn pm_line(m: MessageView) -> Seq<char> {
    "PM"@ + "|"@ + m.sender_uuid + "|"@ + m.receiver_uuid + "|"@ + dec(m.timestamp as nat) + "|"@
        + escape_newlines(m.body)
}

pub open spec fn team_line(t: TeamView) -> Seq<char> {
    "TEAM"@ + "|"@ + t.uuid + "|"@ + escape_newlines(t.name) + "|"@ + escape_newlines(
        t.description,
    )
}

pub open spec fn sub_line(team: Seq<char>, user: Seq<char>) -> Seq<char> {
    "SUB"@ + "|"@ + team + "|"@ + user
}

pub open spec fn channel_line(team: Seq<char>, c: ChannelView) -> Seq<char> {
    "CHAN"@ + "|"@ + team + "|"@ + c.uuid + "|"@ + escape_newlines(c.name) + "|"@
        + escape_newlines(c.description)
}

pub open spec fn thread_line(team: Seq<char>, channel: Seq<char>, h: ThreadView) -> Seq<char> {
    "THRE"@ + "|"@ + channel + "|"@ + h.uuid + "|"@ + h.author_uuid + "|"@ + dec(
        h.timestamp as nat,
    ) + "|"@ + escape_newlines(h.title) + "|"@ + escape_newlines(h.message) + "|"@ + team
}

pub open spec fn reply_line(thread: Seq<char>, r: MessageView) -> Seq<char> {
    "REPL"@ + "|"@ + thread + "|"@ + r.sender_uuid + "|"@ + dec(r.timestamp as nat) + "|"@
        + escape_newlines(r.body)
}

pub open spec fn users_lines(us: Seq<UserView>) -> Seq<Seq<char>>
    decreases us.len(),
{
    if us.len() == 0 {
        seq![]
    } else {
        users_lines(us.drop_last()).push(user_line(us.last()))
    }
}

pub open spec fn pms_lines(ms: Seq<MessageView>) -> Seq<Seq<char>>
    decreases ms.len(),
{
    if ms.len() == 0 {
        seq![]
    } else {
        pms_lines(ms.drop_last()).push(pm_line(ms.last()))
    }
}

pub open spec fn subs_lines(team: Seq<char>, subs: Seq<Seq<char>>) -> Seq<Seq<char>>
    decreases subs.len(),
{
    if subs.len() == 0 {
        seq![]
    } else {
        subs_lines(team, subs.drop_last()).push(sub_line(team, subs.last()))
    }
}

pub open spec fn replies_lines(thread: Seq<char>, rs: Seq<MessageView>) -> Seq<Seq<char>>
    decreases rs.len(),
{
    if rs.len() == 0 {
        seq![]
    } else {
        replies_lines(thread, rs.drop_last()).push(reply_line(thread, rs.last()))
    }
}

/// The line of a thread, then those of its replies.
pub open spec fn thread_lines(team: Seq<char>, channel: Seq<char>, h: ThreadView) -> Seq<Seq<char>> {
    seq![thread_line(team, channel, h)] + replies_lines(h.uuid, h.replies)
}

pub open spec fn threads_lines(team: Seq<char>, channel: Seq<char>, hs: Seq<ThreadView>) -> Seq<
    Seq<char>,
>
    decreases hs.len(),
{
    if hs.len() == 0 {
        seq![]
    } else {
        threads_lines(team, channel, hs.drop_last()) + thread_lines(team, channel, hs.last())
    }
}

/// The line of a channel, then those of its threads.
pub open spec fn channel_lines(team: Seq<char>, c: ChannelView) -> Seq<Seq<char>> {
    seq![channel_line(team, c)] + threads_lines(team, c.uuid, c.threads)
}

pub open spec fn channels_lines(team: Seq<char>, cs: Seq<ChannelView>) -> Seq<Seq<char>>
    decreases cs.len(),
{
    if cs.len() == 0 {
        seq![]
    } else {
        channels_lines(team, cs.drop_last()) + channel_lines(team, cs.last())
    }
}

/// The line of a team, then those of its subscriptions, then those of its channels.
pub open spec fn team_lines(t: TeamView) -> Seq<Seq<char>> {
    seq![team_line(t)] + subs_lines(t.uuid, t.subscribers) + channels_lines(t.uuid, t.channels)
}

pub open spec fn teams_lines(ts: Seq<TeamView>) -> Seq<Seq<char>>
    decreases ts.len(),
{
    if ts.len() == 0 {
        seq![]
    } else {
        teams_lines(ts.drop_last()) + team_lines(ts.last())
    }
}

/// The lines of the data file for `db`: users, then private messages, then teams.
pub open spec fn data_lines(db: DatabaseView) -> Seq<Seq<char>> {
    users_lines(db.users) + pms_lines(db.private_messages) + teams_lines(db.teams)
}

/// A number field: its value, or 0 when it does not parse.
pub open spec fn number_field(s: Seq<char>) -> u64 {
    match parse_u64_spec(s) {
        Some(n) => n,
        None => 0,
    }
}

pub open spec fn has_thread(h: Seq<char>) -> spec_fn(ChannelView) -> bool {
    |c: ChannelView| first_index(c.threads, thread_has_uuid(h)) is Some
}

pub open spec fn team_has_thread(h: Seq<char>) -> spec_fn(TeamView) -> bool {
    |t: TeamView| first_index(t.channels, has_thread(h)) is Some
}

/// `db` with `r` appended to the replies of the first thread stored under
/// `h`, searching teams and then channels in order.
pub open spec fn add_reply(db: DatabaseView, h: Seq<char>, r: MessageView) -> DatabaseView {
    match first_index(db.teams, team_has_thread(h)) {
        None => db,
        Some(ti) => {
            let team = db.teams[ti];
            let ci = first_index(team.channels, has_thread(h))->0;
            let c = team.channels[ci];
            let hi = first_index(c.threads, thread_has_uuid(h))->0;
            let th = c.threads[hi];
            let th2 = ThreadView { replies: th.replies.push(r), ..th };
            let c2 = ChannelView { threads: c.threads.update(hi, th2), ..c };
            let team2 = TeamView { channels: team.channels.update(ci, c2), ..team };
            DatabaseView { teams: db.teams.update(ti, team2), ..db }
        },
    }
}

/// What loading the line `line` does to `db`, and the logging call it makes.
pub open spec fn load_line_spec(db: DatabaseView, line: Seq<char>) -> (
    DatabaseView,
    Option<LogCall<Seq<u8>>>,
) {
    let p = split_spec(line, '|');
    let kind = p[0];
    if kind == "USER"@ && p.len() == 4 {
        let u = UserView { uuid: p[1], name: unescape_newlines(p[2]), is_connected: false };
        (
            DatabaseView { users: put(db.users, user_has_uuid(p[1]), u), ..db },
            Some(LogCall::ServerEventUserLoaded { user_uuid: cstr(u.uuid), user_name: cstr(u.name) }),
        )
    } else if kind == "PM"@ && p.len() == 5 {
        let m = MessageView {
            sender_uuid: p[1],
            receiver_uuid: p[2],
            body: unescape_newlines(p[4]),
            timestamp: number_field(p[3]),
        };
        (DatabaseView { private_messages: db.private_messages.push(m), ..db }, None)
    } else if kind == "TEAM"@ && p.len() == 4 {
        let t = TeamView {
            uuid: p[1],
            name: unescape_newlines(p[2]),
            description: unescape_newlines(p[3]),
            subscribers: seq![],
            channels: seq![],
        };
        (DatabaseView { teams: put(db.teams, team_has_uuid(p[1]), t), ..db }, None)
    } else if kind == "SUB"@ && p.len() == 3 {
        match first_index(db.teams, team_has_uuid(p[1])) {
            Some(i) => {
                let t = db.teams[i];
                (
                    DatabaseView {
                        teams: db.teams.update(
                            i,
                            TeamView { subscribers: t.subscribers.push(p[2]), ..t },
                        ),
                        ..db
                    },
                    None,
                )
            },
            None => (db, None),
        }
    } else if kind == "CHAN"@ && p.len() == 5 {
        match first_index(db.teams, team_has_uuid(p[1])) {
            Some(i) => {
                let t = db.teams[i];
                let c = ChannelView {
                    uuid: p[2],
                    name: unescape_newlines(p[3]),
                    description: unescape_newlines(p[4]),
                    threads: seq![],
                };
                (
                    DatabaseView {
                        teams: db.teams.update(
                            i,
                            TeamView { channels: put(t.channels, channel_has_uuid(p[2]), c), ..t },
                        ),
                        ..db
                    },
                    None,
                )
            },
            None => (db, None),
        }
    } else if kind == "THRE"@ && p.len() == 8 {
        match first_index(db.teams, team_has_uuid(p[7])) {
            Some(i) => {
                let t = db.teams[i];
                match first_index(t.channels, channel_has_uuid(p[1])) {
                    Some(ci) => {
                        let c = t.channels[ci];
                        let h = ThreadView {
                            uuid: p[2],
                            author_uuid: p[3],
                            timestamp: number_field(p[4]),
                            title: unescape_newlines(p[5]),
                            message: unescape_newlines(p[6]),
                            replies: seq![],
                        };
                        let c2 = ChannelView {
                            threads: put(c.threads, thread_has_uuid(p[2]), h),
                            ..c
                        };
                        (
                            DatabaseView {
                                teams: db.teams.update(
                                    i,
                                    TeamView { channels: t.channels.update(ci, c2), ..t },
                                ),
                                ..db
                            },
                            None,
                        )
                    },
                    None => (db, None),
                }
            },
            None => (db, None),
        }
    } else if kind == "REPL"@ && p.len() == 5 {
        let r = MessageView {
            sender_uuid: p[2],
            receiver_uuid: p[1],
            timestamp: number_field(p[3]),
            body: unescape_newlines(p[4]),
        };
        (add_reply(db, p[1], r), None)
    } else {
        (db, None)
    }
}

/// `db` after loading each of `lines` in turn.
pub open spec fn load_lines(db: DatabaseView, lines: Seq<Seq<char>>) -> DatabaseView
    decreases lines.len(),
{
    if lines.len() == 0 {
        db
    } else {
        load_line_spec(load_lines(db, lines.drop_last()), lines.last()).0
    }
}

fn bool_str(b: bool) -> (r: &'static str)
    ensures
        r@ == bool_text(b),
{
    if b {
        "true"
    } else {
        "false"
    }
}

fn field(r: &mut String, s: &str)
    ensures
        final(r)@ == old(r)@ + "|"@ + s@,
{
    append_str(r, "|");
    append_str(r, s);
}

fn escaped_field(r: &mut String, s: &str)
    ensures
        final(r)@ == old(r)@ + "|"@ + escape_newlines(s@),
{
    append_str(r, "|");
    let e = escape_newlines_of(s);
    append_str(r, e.as_str());
}

fn number(r: &mut String, n: u64)
    ensures
        final(r)@ == old(r)@ + "|"@ + dec(n as nat),
{
    append_str(r, "|");
    let e = u64_to_string(n);
    append_str(r, e.as_str());
}

fn push_line(lines: &mut Vec<String>, l: String)
    ensures
        strings_view(final(lines)@) == strings_view(old(lines)@).push(l@),
{
    let ghost lv = l@;
    lines.push(l);
    assert(strings_view(lines@) =~= strings_view(old(lines)@).push(lv));
}

fn push_reply_lines(lines: &mut Vec<String>, thread: &str, rs: &Vec<Message>)
    ensures
        strings_view(final(lines)@) == strings_view(old(lines)@) + replies_lines(
            thread@,
            messages_view(rs@),
        ),
{
    let ghost v = messages_view(rs@);
    let mut i: usize = 0;
    while i < rs.len()
        invariant
            i <= rs@.len(),
            v == messages_view(rs@),
            strings_view(lines@) == strings_view(old(lines)@) + replies_lines(
                thread@,
                v.take(i as int),
            ),
        decreases rs@.len() - i,
    {
        let m = &rs[i];
        let mut l = owned("REPL");
        field(&mut l, thread);
        field(&mut l, m.sender_uuid.as_str());
        number(&mut l, m.timestamp);
        escaped_field(&mut l, m.body.as_str());
        push_line(lines, l);
        assert(v.take(i + 1).drop_last() =~= v.take(i as int));
        assert(strings_view(lines@) =~= strings_view(old(lines)@) + replies_lines(
            thread@,
            v.take(i + 1),
        ));
        i += 1;
    }
    assert(v.take(i as int) =~= v);
}

fn push_thread_lines(lines: &mut Vec<String>, team: &str, channel: &str, hs: &Vec<Thread>)
    ensures
        strings_view(final(lines)@) == strings_view(old(lines)@) + threads_lines(
            team@,
            channel@,
            threads_view(hs@),
        ),
{
    let ghost v = threads_view(hs@);
    let mut i: usize = 0;
    while i < hs.len()
        invariant
            i <= hs@.len(),
            v == threads_view(hs@),
            strings_view(lines@) == strings_view(old(lines)@) + threads_lines(
                team@,
                channel@,
                v.take(i as int),
            ),
        decreases hs@.len() - i,
    {
        let h = &hs[i];
        let ghost before = strings_view(lines@);
        let mut l = owned("THRE");
        field(&mut l, channel);
        field(&mut l, h.uuid.as_str());
        field(&mut l, h.author_uuid.as_str());
        number(&mut l, h.timestamp);
        escaped_field(&mut l, h.title.as_str());
        escaped_field(&mut l, h.message.as_str());
        field(&mut l, team);
        push_line(lines, l);
        push_reply_lines(lines, h.uuid.as_str(), &h.replies);
        assert(v.take(i + 1).drop_last() =~= v.take(i as int));
        assert(strings_view(lines@) =~= strings_view(old(lines)@) + threads_lines(
            team@,
            channel@,
            v.take(i + 1),
        ));
        i += 1;
    }
    assert(v.take(i as int) =~= v);
}

fn push_channel_lines(lines: &mut Vec<String>, team: &str, cs: &Vec<Channel>)
    ensures
        strings_view(final(lines)@) == strings_view(old(lines)@) + channels_lines(
            team@,
            channels_view(cs@),
        ),
{
    let ghost v = channels_view(cs@);
    let mut i: usize = 0;
    while i < cs.len()
        invariant
            i <= cs@.len(),
            v == channels_view(cs@),
            strings_view(lines@) == strings_view(old(lines)@) + channels_lines(
                team@,
                v.take(i as int),
            ),
        decreases cs@.len() - i,
    {
        let c = &cs[i];
        let mut l = owned("CHAN");
        field(&mut l, team);
        field(&mut l, c.uuid.as_str());
        escaped_field(&mut l, c.name.as_str());
        escaped_field(&mut l, c.description.as_str());
        push_line(lines, l);
        push_thread_lines(lines, team, c.uuid.as_str(), &c.threads);
        assert(v.take(i + 1).drop_last() =~= v.take(i as int));
        assert(strings_view(lines@) =~= strings_view(old(lines)@) + channels_lines(
            team@,
            v.take(i + 1),
        ));
        i += 1;
    }
    assert(v.take(i as int) =~= v);
}

fn push_sub_lines(lines: &mut Vec<String>, team: &str, subs: &Vec<String>)
    ensures
        strings_view(final(lines)@) == strings_view(old(lines)@) + subs_lines(
            team@,
            ids_view(subs@),
        ),
{
    let ghost v = ids_view(subs@);
    let mut i: usize = 0;
    while i < subs.len()
        invariant
            i <= subs@.len(),
            v == ids_view(subs@),
            strings_view(lines@) == strings_view(old(lines)@) + subs_lines(
                team@,
                v.take(i as int),
            ),
        decreases subs@.len() - i,
    {
        let mut l = owned("SUB");
        field(&mut l, team);
        field(&mut l, subs[i].as_str());
        push_line(lines, l);
        assert(v.take(i + 1).drop_last() =~= v.take(i as int));
        assert(strings_view(lines@) =~= strings_view(old(lines)@) + subs_lines(
            team@,
            v.take(i + 1),
        ));
        i += 1;
    }
    assert(v.take(i as int) =~= v);
}

impl Database {
    /// The lines of the data file for this database (see [`data_lines`]),
    /// without their newlines.
    pub fn data_lines(&self) -> (lines: Vec<String>)
        ensures
            strings_view(lines@) == data_lines(self@),
    {
        let mut lines: Vec<String> = Vec::new();
        assert(strings_view(lines@) =~= Seq::<Seq<char>>::empty());
        let ghost us = users_view(self.users@);
        let mut i: usize = 0;
        while i < self.users.len()
            invariant
                i <= self.users@.len(),
                us == users_view(self.users@),
                strings_view(lines@) == users_lines(us.take(i as int)),
            decreases self.users@.len() - i,
        {
            let u = &self.users[i];
            let mut l = owned("USER");
            field(&mut l, u.uuid.as_str());
            escaped_field(&mut l, u.name.as_str());
            field(&mut l, bool_str(u.is_connected));
            push_line(&mut lines, l);
            assert(us.take(i + 1).drop_last() =~= us.take(i as int));
            i += 1;
        }
        assert(us.take(i as int) =~= us);
        let ghost ms = messages_view(self.private_messages@);
        let mut i: usize = 0;
        while i < self.private_messages.len()
            invariant
                i <= self.private_messages@.len(),
                ms == messages_view(self.private_messages@),
                strings_view(lines@) == users_lines(us) + pms_lines(ms.take(i as int)),
            decreases self.private_messages@.len() - i,
        {
            let m = &self.private_messages[i];
            let mut l = owned("PM");
            field(&mut l, m.sender_uuid.as_str());
            field(&mut l, m.receiver_uuid.as_str());
            number(&mut l, m.timestamp);
            escaped_field(&mut l, m.body.as_str());
            push_line(&mut lines, l);
            assert(ms.take(i + 1).drop_last() =~= ms.take(i as int));
            assert(strings_view(lines@) =~= users_lines(us) + pms_lines(ms.take(i + 1)));
            i += 1;
        }
        assert(ms.take(i as int) =~= ms);
        let ghost ts = teams_view(self.teams@);
        let mut i: usize = 0;
        assert(strings_view(lines@) =~= users_lines(us) + pms_lines(ms) + teams_lines(
            ts.take(0),
        ));
        while i < self.teams.len()
            invariant
                i <= self.teams@.len(),
                ts == teams_view(self.teams@),
                strings_view(lines@) == users_lines(us) + pms_lines(ms) + teams_lines(
                    ts.take(i as int),
                ),
            decreases self.teams@.len() - i,
        {
            let t = &self.teams[i];
            let ghost before = strings_view(lines@);
            let mut l = owned("TEAM");
            field(&mut l, t.uuid.as_str());
            escaped_field(&mut l, t.name.as_str());
            escaped_field(&mut l, t.description.as_str());
            push_line(&mut lines, l);
            push_sub_lines(&mut lines, t.uuid.as_str(), &t.subscribers);
            push_channel_lines(&mut lines, t.uuid.as_str(), &t.channels);
            assert(ts.take(i + 1).drop_last() =~= ts.take(i as int));
            assert(strings_view(lines@) =~= users_lines(us) + pms_lines(ms) + teams_lines(
                ts.take(i + 1),
            ));
            i += 1;
        }
        assert(ts.take(i as int) =~= ts);
        lines
    }
}


fn find_channel_with_thread(cs: &Vec<Channel>, h: &str) -> (r: Option<usize>)
    ensures
        match r {
            Some(i) => first_index(channels_view(cs@), has_thread(h@)) == Some(i as int),
            None => first_index(channels_view(cs@), has_thread(h@)) is None,
        },
{
    let ghost s = channels_view(cs@);
    let ghost p = has_thread(h@);
    let mut i: usize = 0;
    while i < cs.len()
        invariant
            i <= cs@.len(),
            s == channels_view(cs@),
            p == has_thread(h@),
            forall|j: int| 0 <= j < i ==> !p(s[j]),
        decreases cs@.len() - i,
    {
        if find_thread(&cs[i].threads, h).is_some() {
            proof {
                crate::models::lemma_first_index_at(s, p, i as int);
            }
            return Some(i);
        }
        i += 1;
    }
    proof {
        crate::models::lemma_first_index_none(s, p);
    }
    None
}

fn find_team_with_thread(ts: &Vec<Team>, h: &str) -> (r: Option<usize>)
    ensures
        match r {
            Some(i) => first_index(teams_view(ts@), team_has_thread(h@)) == Some(i as int),
            None => first_index(teams_view(ts@), team_has_thread(h@)) is None,
        },
{
    let ghost s = teams_view(ts@);
    let ghost p = team_has_thread(h@);
    let mut i: usize = 0;
    while i < ts.len()
        invariant
            i <= ts@.len(),
            s == teams_view(ts@),
            p == team_has_thread(h@),
            forall|j: int| 0 <= j < i ==> !p(s[j]),
        decreases ts@.len() - i,
    {
        if find_channel_with_thread(&ts[i].channels, h).is_some() {
            proof {
                crate::models::lemma_first_index_at(s, p, i as int);
            }
            return Some(i);
        }
        i += 1;
    }
    proof {
        crate::models::lemma_first_index_none(s, p);
    }
    None
}

fn number_of(s: &str) -> (n: u64)
    ensures
        n == number_field(s@),
{
    match parse_u64(s) {
        Some(n) => n,
        None => 0,
    }
}

impl Database {
    /// Applies one line of the data file (see [`load_line_spec`]); a user
    /// line also yields the logging call that reports the loaded user.
    pub fn load_line(&mut self, line: &str) -> (call: Option<LogCall<Vec<u8>>>)
        ensures
            final(self)@ == load_line_spec(old(self)@, line@).0,
            match call {
                Some(c) => load_line_spec(old(self)@, line@).1 == Some(c@),
                None => load_line_spec(old(self)@, line@).1 is None,
            },
    {
        let parts = split_on(line, '|');
        let ghost p = strings_view(parts@);
        proof {
            assert(p.len() >= 1);
        }
        let n = parts.len();
        let kind = parts[0].as_str();
        assert(p[0] == kind@);
        if crate::text::str_eq(kind, "USER") && n == 4 {
            let name = unescape_newlines_of(parts[2].as_str());
            let call = crate::ffi::call_user_loaded(parts[1].as_str(), name.as_str());
            let user = User { uuid: parts[1].clone(), name, is_connected: false };
            assert(user@.uuid == p[1]);
            put_user(&mut self.users, user);
            Some(call)
        } else if crate::text::str_eq(kind, "PM") && n == 5 {
            let m = Message {
                sender_uuid: parts[1].clone(),
                receiver_uuid: parts[2].clone(),
                body: unescape_newlines_of(parts[4].as_str()),
                timestamp: number_of(parts[3].as_str()),
            };
            let ghost mv = m@;
            self.private_messages.push(m);
            assert(self@.private_messages =~= old(self)@.private_messages.push(mv));
            None
        } else if crate::text::str_eq(kind, "TEAM") && n == 4 {
            let t = Team {
                uuid: parts[1].clone(),
                name: unescape_newlines_of(parts[2].as_str()),
                description: unescape_newlines_of(parts[3].as_str()),
                subscribers: Vec::new(),
                channels: Vec::new(),
            };
            assert(t@.subscribers =~= Seq::<Seq<char>>::empty());
            assert(t@.channels =~= Seq::<ChannelView>::empty());
            put_team(&mut self.teams, t);
            None
        } else if crate::text::str_eq(kind, "SUB") && n == 3 {
            match find_team(&self.teams, parts[1].as_str()) {
                Some(i) => {
                    proof {
                        lemma_first_index(old(self)@.teams, team_has_uuid(p[1]));
                    }
                    let sub = parts[2].clone();
                    self.teams[i].subscribers.push(sub);
                    assert(ids_view(self.teams@[i as int].subscribers@) =~= ids_view(
                        old(self).teams@[i as int].subscribers@,
                    ).push(p[2]));
                    assert(self@.teams =~= load_line_spec(old(self)@, line@).0.teams);
                },
                None => {},
            }
            None
        } else if crate::text::str_eq(kind, "CHAN") && n == 5 {
            match find_team(&self.teams, parts[1].as_str()) {
                Some(i) => {
                    proof {
                        lemma_first_index(old(self)@.teams, team_has_uuid(p[1]));
                    }
                    let c = Channel {
                        uuid: parts[2].clone(),
                        name: unescape_newlines_of(parts[3].as_str()),
                        description: unescape_newlines_of(parts[4].as_str()),
                        threads: Vec::new(),
                    };
                    assert(c@.threads =~= Seq::<ThreadView>::empty());
                    put_channel(&mut self.teams[i].channels, c);
                    assert(self@.teams[i as int] == self.teams@[i as int]@);
                    assert(self@.teams =~= load_line_spec(old(self)@, line@).0.teams);
                },
                None => {},
            }
            None
        } else if crate::text::str_eq(kind, "THRE") && n == 8 {
            match find_team(&self.teams, parts[7].as_str()) {
                Some(i) => {
                    proof {
                        lemma_first_index(old(self)@.teams, team_has_uuid(p[7]));
                    }
                    match find_channel(&self.teams[i].channels, parts[1].as_str()) {
                        Some(ci) => {
                            proof {
                                lemma_first_index(
                                    old(self)@.teams[i as int].channels,
                                    channel_has_uuid(p[1]),
                                );
                            }
                            let h = Thread {
                                uuid: parts[2].clone(),
                                author_uuid: parts[3].clone(),
                                timestamp: number_of(parts[4].as_str()),
                                title: unescape_newlines_of(parts[5].as_str()),
                                message: unescape_newlines_of(parts[6].as_str()),
                                replies: Vec::new(),
                            };
                            assert(h@.replies =~= Seq::<MessageView>::empty());
                            put_thread(&mut self.teams[i].channels[ci].threads, h);
                            assert(self.teams@[i as int]@.channels[ci as int]
                                == self.teams@[i as int].channels@[ci as int]@);
                            assert(self.teams@[i as int]@.channels =~= load_line_spec(
                                old(self)@,
                                line@,
                            ).0.teams[i as int].channels);
                            assert(self@.teams[i as int] == self.teams@[i as int]@);
                            assert(self@.teams =~= load_line_spec(old(self)@, line@).0.teams);
                        },
                        None => {},
                    }
                },
                None => {},
            }
            None
        } else if crate::text::str_eq(kind, "REPL") && n == 5 {
            let h = parts[1].as_str();
            match find_team_with_thread(&self.teams, h) {
                Some(ti) => {
                    proof {
                        lemma_first_index(old(self)@.teams, team_has_thread(p[1]));
                    }
                    let ci = find_channel_with_thread(&self.teams[ti].channels, h).unwrap();
                    proof {
                        lemma_first_index(old(self)@.teams[ti as int].channels, has_thread(p[1]));
                    }
                    let hi = find_thread(&self.teams[ti].channels[ci].threads, h).unwrap();
                    proof {
                        lemma_first_index(
                            old(self)@.teams[ti as int].channels[ci as int].threads,
                            thread_has_uuid(p[1]),
                        );
                    }
                    let m = Message {
                        sender_uuid: parts[2].clone(),
                        receiver_uuid: parts[1].clone(),
                        timestamp: number_of(parts[3].as_str()),
                        body: unescape_newlines_of(parts[4].as_str()),
                    };
                    let ghost mv = m@;
                    self.teams[ti].channels[ci].threads[hi].replies.push(m);
                    let ghost want = load_line_spec(old(self)@, line@).0.teams[ti as int];
                    assert(self.teams@[ti as int].channels@[ci as int].threads@[hi as int]@.replies
                        =~= want.channels[ci as int].threads[hi as int].replies);
                    assert(self.teams@[ti as int].channels@[ci as int]@.threads =~= want.channels[ci as int].threads);
                    assert(self.teams@[ti as int]@.channels =~= want.channels);
                    assert(self@.teams =~= load_line_spec(old(self)@, line@).0.teams);
                },
                None => {},
            }
            None
        } else {
            None
        }
    }
}

} // verus!
