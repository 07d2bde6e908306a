//! The server's data: users, private messages, and teams holding channels,
//! threads and replies. Each collection keeps its entries in insertion order
//! and is looked up by identifier; storing an entry under an identifier that
//! is already there replaces that entry in place.
use vstd::prelude::*;
use crate::text::{hex, u128_to_hex};

verus! {

broadcast use vstd::string::group_string_axioms;

/// Index of the first element of `s` that satisfies `p`.
pub open spec fn first_index<T>(s: Seq<T>, p: spec_fn(T) -> bool) -> Option<int>
    decreases s.len(),
{
    if s.len() == 0 {
        None
    } else if p(s[0]) {
        Some(0)
    } else {
        match first_index(s.drop_first(), p) {
            Some(i) => Some(i + 1),
            None => None,
        }
    }
}

pub proof fn lemma_first_index<T>(s: Seq<T>, p: spec_fn(T) -> bool)
    ensures
        match first_index(s, p) {
            Some(i) => 0 <= i < s.len() && p(s[i]) && forall|j: int| 0 <= j < i ==> !p(s[j]),
            None => forall|j: int| 0 <= j < s.len() ==> !p(s[j]),
        },
    decreases s.len(),
{
    if s.len() > 0 && !p(s[0]) {
        lemma_first_index(s.drop_first(), p);
        assert forall|j: int| 0 < j < s.len() implies s[j] == s.drop_first()[j - 1] by {}
    }
}

/// `first_index` is the index `i` exactly when `s[i]` is the first match.
pub proof fn lemma_first_index_at<T>(s: Seq<T>, p: spec_fn(T) -> bool, i: int)
    requires
        0 <= i < s.len(),
        p(s[i]),
        forall|j: int| 0 <= j < i ==> !p(s[j]),
    ensures
        first_index(s, p) == Some(i),
{
    lemma_first_index(s, p);
    match first_index(s, p) {
        Some(k) => {
            if k < i {
                assert(!p(s[k]));
            } else if k > i {
                assert(!p(s[i]));
            }
        },
        None => {
            assert(!p(s[i]));
        },
    }
}

pub proof fn lemma_first_index_none<T>(s: Seq<T>, p: spec_fn(T) -> bool)
    requires
        forall|j: int| 0 <= j < s.len() ==> !p(s[j]),
    ensures
        first_index(s, p) is None,
{
    lemma_first_index(s, p);
    if let Some(k) = first_index(s, p) {
        assert(!p(s[k]));
    }
}

/// `s` with `v` stored under the key that `p` recognises: the first entry
/// with that key is replaced, or `v` is appended when there is none.
pub open spec fn put<T>(s: Seq<T>, p: spec_fn(T) -> bool, v: T) -> Seq<T> {
    match first_index(s, p) {
        Some(i) => s.update(i, v),
        None => s.push(v),
    }
}

/// A registered user.
pub struct User {
    pub uuid: String,
    pub name: String,
    pub is_connected: bool,
}

/// A private message, or a reply in a thread (then `receiver_uuid` is the thread's).
pub struct Message {
    pub sender_uuid: String,
    pub receiver_uuid: String,
    pub body: String,
    pub timestamp: u64,
}

/// A thread of a channel, with its replies in the order they were posted.
pub struct Thread {
    pub uuid: String,
    pub title: String,
    pub message: String,
    pub author_uuid: String,
    pub replies: Vec<Message>,
    pub timestamp: u64,
}

/// A channel of a team.
pub struct Channel {
    pub uuid: String,
    pub name: String,
    pub description: String,
    pub threads: Vec<Thread>,
}

/// A team, its subscribers (user identifiers) and its channels.
pub struct Team {
    pub uuid: String,
    pub name: String,
    pub description: String,
    pub subscribers: Vec<String>,
    pub channels: Vec<Channel>,
}

/// Everything the server stores.
pub struct Database {
    pub users: Vec<User>,
    pub teams: Vec<Team>,
    pub private_messages: Vec<Message>,
}

pub struct UserView {
    pub uuid: Seq<char>,
    pub name: Seq<char>,
    pub is_connected: bool,
}

pub struct MessageView {
    pub sender_uuid: Seq<char>,
    pub receiver_uuid: Seq<char>,
    pub body: Seq<char>,
    pub timestamp: u64,
}

pub struct ThreadView {
    pub uuid: Seq<char>,
    pub title: Seq<char>,
    pub message: Seq<char>,
    pub author_uuid: Seq<char>,
    pub replies: Seq<MessageView>,
    pub timestamp: u64,
}

pub struct ChannelView {
    pub uuid: Seq<char>,
    pub name: Seq<char>,
    pub description: Seq<char>,
    pub threads: Seq<ThreadView>,
}

pub struct TeamView {
    pub uuid: Seq<char>,
    pub name: Seq<char>,
    pub description: Seq<char>,
    pub subscribers: Seq<Seq<char>>,
    pub channels: Seq<ChannelView>,
}

pub struct DatabaseView {
    pub users: Seq<UserView>,
    pub teams: Seq<TeamView>,
    pub private_messages: Seq<MessageView>,
}

impl View for User {
    type V = UserView;

    open spec fn view(&self) -> UserView {
        UserView { uuid: self.uuid@, name: self.name@, is_connected: self.is_connected }
    }
}

impl View for Message {
    type V = MessageView;

    open spec fn view(&self) -> MessageView {
        MessageView {
            sender_uuid: self.sender_uuid@,
            receiver_uuid: self.receiver_uuid@,
            body: self.body@,
            timestamp: self.timestamp,
        }
    }
}

pub open spec fn messages_view(v: Seq<Message>) -> Seq<MessageView> {
    v.map_values(|m: Message| m@)
}

impl View for Thread {
    type V = ThreadView;

    open spec fn view(&self) -> ThreadView {
        ThreadView {
            uuid: self.uuid@,
            title: self.title@,
            message: self.message@,
            author_uuid: self.author_uuid@,
            replies: messages_view(self.replies@),
            timestamp: self.timestamp,
        }
    }
}

pub open spec fn threads_view(v: Seq<Thread>) -> Seq<ThreadView> {
    v.map_values(|t: Thread| t@)
}

impl View for Channel {
    type V = ChannelView;

    open spec fn view(&self) -> ChannelView {
        ChannelView {
            uuid: self.uuid@,
            name: self.name@,
            description: self.description@,
            threads: threads_view(self.threads@),
        }
    }
}

pub open spec fn channels_view(v: Seq<Channel>) -> Seq<ChannelView> {
    v.map_values(|c: Channel| c@)
}

pub open spec fn ids_view(v: Seq<String>) -> Seq<Seq<char>> {
    v.map_values(|s: String| s@)
}

impl View for Team {
    type V = TeamView;

    open spec fn view(&self) -> TeamView {
        TeamView {
            uuid: self.uuid@,
            name: self.name@,
            description: self.description@,
            subscribers: ids_view(self.subscribers@),
            channels: channels_view(self.channels@),
        }
    }
}

pub open spec fn users_view(v: Seq<User>) -> Seq<UserView> {
    v.map_values(|u: User| u@)
}

pub open spec fn teams_view(v: Seq<Team>) -> Seq<TeamView> {
    v.map_values(|t: Team| t@)
}

impl View for Database {
    type V = DatabaseView;

    open spec fn view(&self) -> DatabaseView {
        DatabaseView {
            users: users_view(self.users@),
            teams: teams_view(self.teams@),
            private_messages: messages_view(self.private_messages@),
        }
    }
}

pub open spec fn user_has_uuid(k: Seq<char>) -> spec_fn(UserView) -> bool {
    |u: UserView| u.uuid == k
}

pub open spec fn user_has_name(k: Seq<char>) -> spec_fn(UserView) -> bool {
    |u: UserView| u.name == k
}

pub open spec fn team_has_uuid(k: Seq<char>) -> spec_fn(TeamView) -> bool {
    |t: TeamView| t.uuid == k
}

pub open spec fn team_has_name(k: Seq<char>) -> spec_fn(TeamView) -> bool {
    |t: TeamView| t.name == k
}

pub open spec fn channel_has_uuid(k: Seq<char>) -> spec_fn(ChannelView) -> bool {
    |c: ChannelView| c.uuid == k
}

pub open spec fn channel_has_name(k: Seq<char>) -> spec_fn(ChannelView) -> bool {
    |c: ChannelView| c.name == k
}

pub open spec fn thread_has_uuid(k: Seq<char>) -> spec_fn(ThreadView) -> bool {
    |t: ThreadView| t.uuid == k
}

pub open spec fn is_id(k: Seq<char>) -> spec_fn(Seq<char>) -> bool {
    |s: Seq<char>| s == k
}

/// The user stored under `uuid`.
pub open spec fn user_of(db: DatabaseView, uuid: Seq<char>) -> Option<UserView> {
    match first_index(db.users, user_has_uuid(uuid)) {
        Some(i) => Some(db.users[i]),
        None => None,
    }
}

/// The team stored under `uuid`.
pub open spec fn team_of(db: DatabaseView, uuid: Seq<char>) -> Option<TeamView> {
    match first_index(db.teams, team_has_uuid(uuid)) {
        Some(i) => Some(db.teams[i]),
        None => None,
    }
}

/// The channel stored under `uuid` in `team`.
pub open spec fn channel_of(team: TeamView, uuid: Seq<char>) -> Option<ChannelView> {
    match first_index(team.channels, channel_has_uuid(uuid)) {
        Some(i) => Some(team.channels[i]),
        None => None,
    }
}

/// The thread stored under `uuid` in `channel`.
pub open spec fn thread_of(channel: ChannelView, uuid: Seq<char>) -> Option<ThreadView> {
    match first_index(channel.threads, thread_has_uuid(uuid)) {
        Some(i) => Some(channel.threads[i]),
        None => None,
    }
}

/// Whether `user` is among the subscribers of `team`.
pub open spec fn subscribed(team: TeamView, user: Seq<char>) -> bool {
    team.subscribers.contains(user)
}

/// Index of the user stored under `uuid`.
pub fn find_user(users: &Vec<User>, uuid: &str) -> (r: Option<usize>)
    ensures
        match r {
            Some(i) => first_index(users_view(users@), user_has_uuid(uuid@)) == Some(i as int),
            None => first_index(users_view(users@), user_has_uuid(uuid@)) is None,
        },
{
    let ghost s = users_view(users@);
    let ghost p = user_has_uuid(uuid@);
    let mut i: usize = 0;
    while i < users.len()
        invariant
            i <= users@.len(),
            s == users_view(users@),
            p == user_has_uuid(uuid@),
            forall|j: int| 0 <= j < i ==> !p(s[j]),
        decreases users@.len() - i,
    {
        if crate::text::str_eq(users[i].uuid.as_str(), uuid) {
            proof {
                lemma_first_index_at(s, p, i as int);
            }
            return Some(i);
        }
        i += 1;
    }
    proof {
        lemma_first_index_none(s, p);
    }
    None
}

/// Index of the first user named `name`.
pub fn find_user_by_name(users: &Vec<User>, name: &str) -> (r: Option<usize>)
    ensures
        match r {
            Some(i) => first_index(users_view(users@), user_has_name(name@)) == Some(i as int),
            None => first_index(users_view(users@), user_has_name(name@)) is None,
        },
{
    let ghost s = users_view(users@);
    let ghost p = user_has_name(name@);
    let mut i: usize = 0;
    while i < users.len()
        invariant
            i <= users@.len(),
            s == users_view(users@),
            p == user_has_name(name@),
            forall|j: int| 0 <= j < i ==> !p(s[j]),
        decreases users@.len() - i,
    {
        if crate::text::str_eq(users[i].name.as_str(), name) {
            proof {
                lemma_first_index_at(s, p, i as int);
            }
            return Some(i);
        }
        i += 1;
    }
    proof {
        lemma_first_index_none(s, p);
    }
    None
}

/// Index of the team stored under `uuid`.
pub fn find_team(teams: &Vec<Team>, uuid: &str) -> (r: Option<usize>)
    ensures
        match r {
            Some(i) => first_index(teams_view(teams@), team_has_uuid(uuid@)) == Some(i as int),
            None => first_index(teams_view(teams@), team_has_uuid(uuid@)) is None,
        },
{
    let ghost s = teams_view(teams@);
    let ghost p = team_has_uuid(uuid@);
    let mut i: usize = 0;
    while i < teams.len()
        invariant
            i <= teams@.len(),
            s == teams_view(teams@),
            p == team_has_uuid(uuid@),
            forall|j: int| 0 <= j < i ==> !p(s[j]),
        decreases teams@.len() - i,
    {
        if crate::text::str_eq(teams[i].uuid.as_str(), uuid) {
            proof {
                lemma_first_index_at(s, p, i as int);
            }
            return Some(i);
        }
        i += 1;
    }
    proof {
        lemma_first_index_none(s, p);
    }
    None
}

/// Index of the first team named `name`.
pub fn find_team_by_name(teams: &Vec<Team>, name: &str) -> (r: Option<usize>)
    ensures
        match r {
            Some(i) => first_index(teams_view(teams@), team_has_name(name@)) == Some(i as int),
            None => first_index(teams_view(teams@), team_has_name(name@)) is None,
        },
{
    let ghost s = teams_view(teams@);
    let ghost p = team_has_name(name@);
    let mut i: usize = 0;
    while i < teams.len()
        invariant
            i <= teams@.len(),
            s == teams_view(teams@),
            p == team_has_name(name@),
            forall|j: int| 0 <= j < i ==> !p(s[j]),
        decreases teams@.len() - i,
    {
        if crate::text::str_eq(teams[i].name.as_str(), name) {
            proof {
                lemma_first_index_at(s, p, i as int);
            }
            return Some(i);
        }
        i += 1;
    }
    proof {
        lemma_first_index_none(s, p);
    }
    None
}

/// Index of the channel stored under `uuid`.
pub fn find_channel(channels: &Vec<Channel>, uuid: &str) -> (r: Option<usize>)
    ensures
        match r {
            Some(i) => first_index(channels_view(channels@), channel_has_uuid(uuid@)) == Some(
                i as int,
            ),
            None => first_index(channels_view(channels@), channel_has_uuid(uuid@)) is None,
        },
{
    let ghost s = channels_view(channels@);
    let ghost p = channel_has_uuid(uuid@);
    let mut i: usize = 0;
    while i < channels.len()
        invariant
            i <= channels@.len(),
            s == channels_view(channels@),
            p == channel_has_uuid(uuid@),
            forall|j: int| 0 <= j < i ==> !p(s[j]),
        decreases channels@.len() - i,
    {
        if crate::text::str_eq(channels[i].uuid.as_str(), uuid) {
            proof {
                lemma_first_index_at(s, p, i as int);
            }
            return Some(i);
        }
        i += 1;
    }
    proof {
        lemma_first_index_none(s, p);
    }
    None
}

/// Index of the first channel named `name`.
pub fn find_channel_by_name(channels: &Vec<Channel>, name: &str) -> (r: Option<usize>)
    ensures
        match r {
            Some(i) => first_index(channels_view(channels@), channel_has_name(name@)) == Some(
                i as int,
            ),
            None => first_index(channels_view(channels@), channel_has_name(name@)) is None,
        },
{
    let ghost s = channels_view(channels@);
    let ghost p = channel_has_name(name@);
    let mut i: usize = 0;
    while i < channels.len()
        invariant
            i <= channels@.len(),
            s == channels_view(channels@),
            p == channel_has_name(name@),
            forall|j: int| 0 <= j < i ==> !p(s[j]),
        decreases channels@.len() - i,
    {
        if crate::text::str_eq(channels[i].name.as_str(), name) {
            proof {
                lemma_first_index_at(s, p, i as int);
            }
            return Some(i);
        }
        i += 1;
    }
    proof {
        lemma_first_index_none(s, p);
    }
    None
}

/// Index of the thread stored under `uuid`.
pub fn find_thread(threads: &Vec<Thread>, uuid: &str) -> (r: Option<usize>)
    ensures
        match r {
            Some(i) => first_index(threads_view(threads@), thread_has_uuid(uuid@)) == Some(
                i as int,
            ),
            None => first_index(threads_view(threads@), thread_has_uuid(uuid@)) is None,
        },
{
    let ghost s = threads_view(threads@);
    let ghost p = thread_has_uuid(uuid@);
    let mut i: usize = 0;
    while i < threads.len()
        invariant
            i <= threads@.len(),
            s == threads_view(threads@),
            p == thread_has_uuid(uuid@),
            forall|j: int| 0 <= j < i ==> !p(s[j]),
        decreases threads@.len() - i,
    {
        if crate::text::str_eq(threads[i].uuid.as_str(), uuid) {
            proof {
                lemma_first_index_at(s, p, i as int);
            }
            return Some(i);
        }
        i += 1;
    }
    proof {
        lemma_first_index_none(s, p);
    }
    None
}

/// Whether `id` is in `ids`.
pub fn contains_id(ids: &Vec<String>, id: &str) -> (r: bool)
    ensures
        r == ids_view(ids@).contains(id@),
{
    let ghost s = ids_view(ids@);
    let mut i: usize = 0;
    while i < ids.len()
        invariant
            i <= ids@.len(),
            s == ids_view(ids@),
            forall|j: int| 0 <= j < i ==> s[j] != id@,
        decreases ids@.len() - i,
    {
        if crate::text::str_eq(ids[i].as_str(), id) {
            assert(s[i as int] == id@);
            return true;
        }
        i += 1;
    }
    false
}

/// Stores `user` under its identifier.
pub fn put_user(users: &mut Vec<User>, user: User)
    ensures
        users_view(final(users)@) == put(
            users_view(old(users)@),
            user_has_uuid(user.uuid@),
            user@,
        ),
{
    match find_user(users, user.uuid.as_str()) {
        Some(i) => {
            proof {
                lemma_first_index(users_view(users@), user_has_uuid(user.uuid@));
            }
            let ghost u = user@;
            users.set(i, user);
            assert(users_view(users@) =~= users_view(old(users)@).update(i as int, u));
        },
        None => {
            let ghost u = user@;
            users.push(user);
            assert(users_view(users@) =~= users_view(old(users)@).push(u));
        },
    }
}

/// Stores `team` under its identifier.
pub fn put_team(teams: &mut Vec<Team>, team: Team)
    ensures
        teams_view(final(teams)@) == put(
            teams_view(old(teams)@),
            team_has_uuid(team.uuid@),
            team@,
        ),
{
    match find_team(teams, team.uuid.as_str()) {
        Some(i) => {
            proof {
                lemma_first_index(teams_view(teams@), team_has_uuid(team.uuid@));
            }
            let ghost t = team@;
            teams.set(i, team);
            assert(teams_view(teams@) =~= teams_view(old(teams)@).update(i as int, t));
        },
        None => {
            let ghost t = team@;
            teams.push(team);
            assert(teams_view(teams@) =~= teams_view(old(teams)@).push(t));
        },
    }
}

/// Stores `channel` under its identifier.
pub fn put_channel(channels: &mut Vec<Channel>, channel: Channel)
    ensures
        channels_view(final(channels)@) == put(
            channels_view(old(channels)@),
            channel_has_uuid(channel.uuid@),
            channel@,
        ),
{
    match find_channel(channels, channel.uuid.as_str()) {
        Some(i) => {
            proof {
                lemma_first_index(channels_view(channels@), channel_has_uuid(channel.uuid@));
            }
            let ghost c = channel@;
            channels.set(i, channel);
            assert(channels_view(channels@) =~= channels_view(old(channels)@).update(i as int, c));
        },
        None => {
            let ghost c = channel@;
            channels.push(channel);
            assert(channels_view(channels@) =~= channels_view(old(channels)@).push(c));
        },
    }
}

/// Stores `thread` under its identifier.
pub fn put_thread(threads: &mut Vec<Thread>, thread: Thread)
    ensures
        threads_view(final(threads)@) == put(
            threads_view(old(threads)@),
            thread_has_uuid(thread.uuid@),
            thread@,
        ),
{
    match find_thread(threads, thread.uuid.as_str()) {
        Some(i) => {
            proof {
                lemma_first_index(threads_view(threads@), thread_has_uuid(thread.uuid@));
            }
            let ghost t = thread@;
            threads.set(i, thread);
            assert(threads_view(threads@) =~= threads_view(old(threads)@).update(i as int, t));
        },
        None => {
            let ghost t = thread@;
            threads.push(thread);
            assert(threads_view(threads@) =~= threads_view(old(threads)@).push(t));
        },
    }
}

impl Database {
    /// An empty database.
    pub fn new() -> (db: Database)
        ensures
            db@ == (DatabaseView { users: seq![], teams: seq![], private_messages: seq![] }),
    {
        let db = Database { users: Vec::new(), teams: Vec::new(), private_messages: Vec::new() };
        assert(db@.users =~= Seq::<UserView>::empty());
        assert(db@.teams =~= Seq::<TeamView>::empty());
        assert(db@.private_messages =~= Seq::<MessageView>::empty());
        db
    }
}

#[verifier::external_type_specification]
#[verifier::external_body]
pub struct ExSystemTime(std::time::SystemTime);

/// The current time of the system clock (`SystemTime::now`).
#[verifier::external_body]
fn system_now() -> std::time::SystemTime {
    std::time::SystemTime::now()
}

/// The time elapsed from the Unix epoch to `t`, or `None` when `t` is earlier
/// (`SystemTime::duration_since(UNIX_EPOCH)`).
#[verifier::external_body]
fn since_unix_epoch(t: &std::time::SystemTime) -> Option<core::time::Duration> {
    match t.duration_since(std::time::UNIX_EPOCH) {
        Ok(d) => Some(d),
        Err(_) => None,
    }
}

/// The whole duration in nanoseconds (`Duration::as_nanos`).
#[verifier::external_body]
fn duration_nanos(d: &core::time::Duration) -> u128 {
    d.as_nanos()
}

/// The whole seconds of the duration (`Duration::as_secs`).
#[verifier::external_body]
fn duration_secs(d: &core::time::Duration) -> u64 {
    d.as_secs()
}

/// The clock's nanoseconds since the Unix epoch, `None` when it reads earlier.
fn now_nanos() -> Option<u128> {
    let t = system_now();
    match since_unix_epoch(&t) {
        Some(d) => Some(duration_nanos(&d)),
        None => None,
    }
}

/// Seconds since the Unix epoch, 0 when the clock is earlier.
pub(crate) fn now_secs() -> u64 {
    let t = system_now();
    match since_unix_epoch(&t) {
        Some(d) => duration_secs(&d),
        None => 0,
    }
}

/// The number of nanoseconds an identifier is made from: the clock's
/// reading, or 0 for a clock that reads earlier than the Unix epoch.
pub open spec fn reading_nanos(reading: Option<u128>) -> nat {
    match reading {
        Some(n) => n as nat,
        None => 0,
    }
}

/// The identifier for a clock reading of `reading` nanoseconds since the
/// Unix epoch (`None` before it): the reading, or 0, in lower-case
/// hexadecimal.
pub fn identifier_from_reading(reading: Option<u128>) -> (r: String)
    ensures
        r@ == hex(reading_nanos(reading)),
{
    match reading {
        Some(n) => u128_to_hex(n),
        None => u128_to_hex(0),
    }
}

/// A new identifier: the current time in nanoseconds since the Unix epoch,
/// in lower-case hexadecimal (see [`identifier_from_reading`]).
pub fn generate_uuid() -> (r: String)
    ensures
        exists|n: u128| r@ == hex(n as nat),
{
    let reading = now_nanos();
    let r = identifier_from_reading(reading);
    let ghost n: u128 = match reading {
        Some(m) => m,
        None => 0,
    };
    assert(r@ == hex(n as nat));
    r
}

/// Identifiers made from two clock readings compare as the readings do: a
/// later reading gives a different identifier of greater value, each reads
/// back as its number of nanoseconds, and a clock before the Unix epoch
/// gives `0`.
pub proof fn law_later_readings_give_greater_identifiers(n1: u128, n2: u128)
    requires
        n1 < n2,
    ensures
        hex(reading_nanos(Some(n1))) != hex(reading_nanos(Some(n2))),
        crate::text::hex_value(hex(reading_nanos(Some(n1)))) == n1,
        crate::text::hex_value(hex(reading_nanos(Some(n1)))) < crate::text::hex_value(
            hex(reading_nanos(Some(n2))),
        ),
        hex(reading_nanos(None)) == seq!['0'],
{
    crate::text::law_hex_is_injective_and_ordered(n1 as nat, n2 as nat);
    assert(hex(0) =~= seq![crate::text::digit_char(0)]);
    assert(crate::text::digit_char(0) == (48 + 0) as char);
}

} // verus!
