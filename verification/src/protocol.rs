//! The request line that the client sends to the server for a command.
use vstd::prelude::*;
use crate::command::{Command, CommandView, Context, ContextView};
use crate::text::{owned, append_str};

verus! {

broadcast use vstd::string::group_string_axioms;

pub open spec fn or_empty(o: Option<Seq<char>>) -> Seq<char> {
    match o {
        Some(s) => s,
        None => seq![],
    }
}

/// Whether a `/create` with `n` arguments can be encoded in context `ctx`:
/// two arguments for a team, channel or thread, one for a reply.
pub open spec fn create_args_suffice(n: nat, ctx: ContextView) -> bool {
    match (ctx.team_uuid, ctx.channel_uuid, ctx.thread_uuid) {
        (None, None, None) => n >= 2,
        (Some(_), None, None) => n >= 2,
        (Some(_), Some(_), None) => n >= 2,
        (Some(_), Some(_), Some(_)) => n >= 1,
        _ => true,
    }
}

/// Whether [`encode_command`] accepts `cmd` in context `ctx`.
pub open spec fn encodable(cmd: CommandView, ctx: ContextView) -> bool {
    match cmd {
        CommandView::Create { args } => create_args_suffice(args.len(), ctx),
        _ => true,
    }
}

/// The request line for `cmd` in context `ctx`.
pub open spec fn encode_spec(cmd: CommandView, ctx: ContextView) -> Seq<char> {
    let bar = "|"@;
    let nl = "\n"@;
    match cmd {
        CommandView::Help => "HELP\n"@,
        CommandView::Login { user_name } => "LOGIN"@ + bar + user_name + nl,
        CommandView::Logout => "LOGOUT\n"@,
        CommandView::Users => "USERS\n"@,
        CommandView::User { user_uuid } => "USER"@ + bar + user_uuid + nl,
        CommandView::Send { user_uuid, body } => "SEND"@ + bar + user_uuid + bar + body + nl,
        CommandView::Messages { user_uuid } => "MESSAGES"@ + bar + user_uuid + nl,
        CommandView::Subscribe { team_uuid } => "SUBSCRIBE"@ + bar + team_uuid + nl,
        CommandView::Subscribed { team_uuid } => match team_uuid {
            Some(id) => "SUBSCRIBED"@ + bar + id + nl,
            None => "SUBSCRIBED\n"@,
        },
        CommandView::Unsubscribe { team_uuid } => "UNSUBSCRIBE"@ + bar + team_uuid + nl,
        CommandView::Use { team_uuid, channel_uuid, thread_uuid } => "USE"@ + bar + or_empty(team_uuid)
            + bar + or_empty(channel_uuid) + bar + or_empty(thread_uuid) + nl,
        CommandView::Create { args } => match (
            ctx.team_uuid,
            ctx.channel_uuid,
            ctx.thread_uuid,
        ) {
            (None, None, None) => "CREATE_TEAM"@ + bar + args[0] + bar + args[1] + nl,
            (Some(team), None, None) => "CREATE_CHANNEL"@ + bar + team + bar + args[0] + bar + args[1]
                + nl,
            (Some(team), Some(channel), None) => "CREATE_THREAD"@ + bar + team + bar + channel + bar
                + args[0] + bar + args[1] + nl,
            (Some(team), Some(channel), Some(thread)) => "CREATE_REPLY"@ + bar + team + bar + channel
                + bar + thread + bar + args[0] + nl,
            _ => "ERROR|INVALID_CONTEXT\n"@,
        },
        CommandView::List => match (ctx.team_uuid, ctx.channel_uuid, ctx.thread_uuid) {
            (None, None, None) => "LIST_TEAMS\n"@,
            (Some(team), None, None) => "LIST_CHANNELS"@ + bar + team + nl,
            (Some(team), Some(channel), None) => "LIST_THREADS"@ + bar + team + bar + channel + nl,
            (Some(team), Some(channel), Some(thread)) => "LIST_REPLIES"@ + bar + team + bar + channel
                + bar + thread + nl,
            _ => "ERROR|INVALID_CONTEXT\n"@,
        },
        CommandView::Info => match (ctx.team_uuid, ctx.channel_uuid, ctx.thread_uuid) {
            (None, None, None) => "INFO_USER\n"@,
            (Some(team), None, None) => "INFO_TEAM"@ + bar + team + nl,
            (Some(team), Some(channel), None) => "INFO_CHANNEL"@ + bar + team + bar + channel + nl,
            (Some(team), Some(channel), Some(thread)) => "INFO_THREAD"@ + bar + team + bar + channel
                + bar + thread + nl,
            _ => "ERROR|INVALID_CONTEXT\n"@,
        },
    }
}

/// `head`, then each field preceded by `|`, then a newline.
fn line(head: &str, fields: &Vec<&str>) -> (r: String)
    ensures
        r@ == line_spec(head@, fields@.map_values(|f: &str| f@)),
{
    let mut r = owned(head);
    let mut i: usize = 0;
    while i < fields.len()
        invariant
            i <= fields@.len(),
            r@ == head@ + join_bar(fields@.map_values(|f: &str| f@).take(i as int)),
        decreases fields@.len() - i,
    {
        append_str(&mut r, "|");
        append_str(&mut r, fields[i]);
        let ghost fs = fields@.map_values(|f: &str| f@);
        assert(fs.take(i + 1).drop_last() =~= fs.take(i as int));
        assert(head@ + join_bar(fs.take(i + 1)) =~= head@ + join_bar(fs.take(i as int)) + "|"@
            + fs[i as int]);
        i += 1;
    }
    append_str(&mut r, "\n");
    assert(fields@.map_values(|f: &str| f@).take(fields@.len() as int) =~= fields@.map_values(
        |f: &str| f@,
    ));
    r
}

/// Each field preceded by `|`.
pub open spec fn join_bar(fs: Seq<Seq<char>>) -> Seq<char>
    decreases fs.len(),
{
    if fs.len() == 0 {
        seq![]
    } else {
        join_bar(fs.drop_last()) + "|"@ + fs.last()
    }
}

pub open spec fn line_spec(head: Seq<char>, fs: Seq<Seq<char>>) -> Seq<char> {
    head + join_bar(fs) + "\n"@
}

proof fn lemma_join_bar_1(a: Seq<char>)
    ensures
        join_bar(seq![a]) == "|"@ + a,
{
    assert(seq![a].drop_last() =~= Seq::<Seq<char>>::empty());
    assert(join_bar(Seq::<Seq<char>>::empty()) == Seq::<char>::empty());
    assert(seq![] + "|"@ + a =~= "|"@ + a);
}

proof fn lemma_join_bar_push(fs: Seq<Seq<char>>, a: Seq<char>)
    ensures
        join_bar(fs.push(a)) == join_bar(fs) + "|"@ + a,
{
    assert(fs.push(a).drop_last() =~= fs);
}

fn line1(head: &str, a: &str) -> (r: String)
    ensures
        r@ == head@ + "|"@ + a@ + "\n"@,
{
    let mut f: Vec<&str> = Vec::new();
    f.push(a);
    let r = line(head, &f);
    proof {
        assert(f@.map_values(|x: &str| x@) =~= seq![a@]);
        lemma_join_bar_1(a@);
        assert(head@ + ("|"@ + a@) + "\n"@ =~= head@ + "|"@ + a@ + "\n"@);
    }
    r
}

fn line2(head: &str, a: &str, b: &str) -> (r: String)
    ensures
        r@ == head@ + "|"@ + a@ + "|"@ + b@ + "\n"@,
{
    let mut f: Vec<&str> = Vec::new();
    f.push(a);
    f.push(b);
    let r = line(head, &f);
    proof {
        assert(f@.map_values(|x: &str| x@) =~= seq![a@].push(b@));
        lemma_join_bar_1(a@);
        lemma_join_bar_push(seq![a@], b@);
        assert(head@ + ("|"@ + a@ + "|"@ + b@) + "\n"@ =~= head@ + "|"@ + a@ + "|"@ + b@
            + "\n"@);
    }
    r
}

fn line3(head: &str, a: &str, b: &str, c: &str) -> (r: String)
    ensures
        r@ == head@ + "|"@ + a@ + "|"@ + b@ + "|"@ + c@ + "\n"@,
{
    let mut f: Vec<&str> = Vec::new();
    f.push(a);
    f.push(b);
    f.push(c);
    let r = line(head, &f);
    proof {
        assert(f@.map_values(|x: &str| x@) =~= seq![a@].push(b@).push(c@));
        lemma_join_bar_1(a@);
        lemma_join_bar_push(seq![a@], b@);
        lemma_join_bar_push(seq![a@].push(b@), c@);
        assert(head@ + ("|"@ + a@ + "|"@ + b@ + "|"@ + c@) + "\n"@ =~= head@ + "|"@ + a@ + "|"@
            + b@ + "|"@ + c@ + "\n"@);
    }
    r
}

fn line4(head: &str, a: &str, b: &str, c: &str, d: &str) -> (r: String)
    ensures
        r@ == head@ + "|"@ + a@ + "|"@ + b@ + "|"@ + c@ + "|"@ + d@ + "\n"@,
{
    let mut f: Vec<&str> = Vec::new();
    f.push(a);
    f.push(b);
    f.push(c);
    f.push(d);
    let r = line(head, &f);
    proof {
        assert(f@.map_values(|x: &str| x@) =~= seq![a@].push(b@).push(c@).push(d@));
        lemma_join_bar_1(a@);
        lemma_join_bar_push(seq![a@], b@);
        lemma_join_bar_push(seq![a@].push(b@), c@);
        lemma_join_bar_push(seq![a@].push(b@).push(c@), d@);
        assert(head@ + ("|"@ + a@ + "|"@ + b@ + "|"@ + c@ + "|"@ + d@) + "\n"@ =~= head@ + "|"@
            + a@ + "|"@ + b@ + "|"@ + c@ + "|"@ + d@ + "\n"@);
    }
    r
}

fn opt_str(o: &Option<String>) -> (r: &str)
    ensures
        r@ == or_empty(crate::command::opt_view(*o)),
{
    match o {
        Some(s) => s.as_str(),
        None => {
            let e = "";
            proof {
                reveal_strlit("");
            }
            assert(e@ =~= Seq::<char>::empty());
            e
        },
    }
}

/// The request line that the client sends for `cmd` in context `ctx`.
pub fn encode_command(cmd: &Command, ctx: &Context) -> (r: String)
    requires
        encodable(cmd@, ctx@),
    ensures
        r@ == encode_spec(cmd@, ctx@),
{
    proof {
        reveal_strlit("");
    }
    match cmd {
        Command::Help => owned("HELP\n"),
        Command::Login { user_name } => line1("LOGIN", user_name.as_str()),
        Command::Logout => owned("LOGOUT\n"),
        Command::Users => owned("USERS\n"),
        Command::User { user_uuid } => line1("USER", user_uuid.as_str()),
        Command::Send { user_uuid, body } => line2("SEND", user_uuid.as_str(), body.as_str()),
        Command::Messages { user_uuid } => line1("MESSAGES", user_uuid.as_str()),
        Command::Subscribe { team_uuid } => line1("SUBSCRIBE", team_uuid.as_str()),
        Command::Subscribed { team_uuid } => match team_uuid {
            Some(id) => line1("SUBSCRIBED", id.as_str()),
            None => owned("SUBSCRIBED\n"),
        },
        Command::Unsubscribe { team_uuid } => line1("UNSUBSCRIBE", team_uuid.as_str()),
        Command::Use { team_uuid, channel_uuid, thread_uuid } => line3(
            "USE",
            opt_str(team_uuid),
            opt_str(channel_uuid),
            opt_str(thread_uuid),
        ),
        Command::Create { args } => match (&ctx.team_uuid, &ctx.channel_uuid, &ctx.thread_uuid) {
            (None, None, None) => line2("CREATE_TEAM", args[0].as_str(), args[1].as_str()),
            (Some(team), None, None) => line3(
                "CREATE_CHANNEL",
                team.as_str(),
                args[0].as_str(),
                args[1].as_str(),
            ),
            (Some(team), Some(channel), None) => line4(
                "CREATE_THREAD",
                team.as_str(),
                channel.as_str(),
                args[0].as_str(),
                args[1].as_str(),
            ),
            (Some(team), Some(channel), Some(thread)) => line4(
                "CREATE_REPLY",
                team.as_str(),
                channel.as_str(),
                thread.as_str(),
                args[0].as_str(),
            ),
            _ => owned("ERROR|INVALID_CONTEXT\n"),
        },
        Command::List => match (&ctx.team_uuid, &ctx.channel_uuid, &ctx.thread_uuid) {
            (None, None, None) => owned("LIST_TEAMS\n"),
            (Some(team), None, None) => line1("LIST_CHANNELS", team.as_str()),
            (Some(team), Some(channel), None) => line2(
                "LIST_THREADS",
                team.as_str(),
                channel.as_str(),
            ),
            (Some(team), Some(channel), Some(thread)) => line3(
                "LIST_REPLIES",
                team.as_str(),
                channel.as_str(),
                thread.as_str(),
            ),
            _ => owned("ERROR|INVALID_CONTEXT\n"),
        },
        Command::Info => match (&ctx.team_uuid, &ctx.channel_uuid, &ctx.thread_uuid) {
            (None, None, None) => owned("INFO_USER\n"),
            (Some(team), None, None) => line1("INFO_TEAM", team.as_str()),
            (Some(team), Some(channel), None) => line2(
                "INFO_CHANNEL",
                team.as_str(),
                channel.as_str(),
            ),
            (Some(team), Some(channel), Some(thread)) => line3(
                "INFO_THREAD",
                team.as_str(),
                channel.as_str(),
                thread.as_str(),
            ),
            _ => owned("ERROR|INVALID_CONTEXT\n"),
        },
    }
}

/// Whether [`encode_command`] accepts `cmd` in context `ctx`: a `/create`
/// needs two arguments for a team, a channel or a thread, one for a reply.
pub fn is_encodable(cmd: &Command, ctx: &Context) -> (r: bool)
    ensures
        r == encodable(cmd@, ctx@),
{
    match cmd {
        Command::Create { args } => {
            let needed: usize = match (&ctx.team_uuid, &ctx.channel_uuid, &ctx.thread_uuid) {
                (None, None, None) => 2,
                (Some(_), None, None) => 2,
                (Some(_), Some(_), None) => 2,
                (Some(_), Some(_), Some(_)) => 1,
                _ => 0,
            };
            args.len() >= needed
        },
        _ => true,
    }
}

} // verus!
