//! The commands a user types in the client, and the context that `/use` sets.
use vstd::prelude::*;

verus! {

/// A command typed by the user, with its arguments.
#[derive(Debug, PartialEq, Eq, Clone)]
pub enum Command {
    Help,
    Login { user_name: String },
    Logout,
    Users,
    User { user_uuid: String },
    Send { user_uuid: String, body: String },
    Messages { user_uuid: String },
    Subscribe { team_uuid: String },
    Subscribed { team_uuid: Option<String> },
    Unsubscribe { team_uuid: String },
    Use { team_uuid: Option<String>, channel_uuid: Option<String>, thread_uuid: Option<String> },
    Create { args: Vec<String> },
    List,
    Info,
}

/// A command with its arguments taken as character sequences.
pub enum CommandView {
    Help,
    Login { user_name: Seq<char> },
    Logout,
    Users,
    User { user_uuid: Seq<char> },
    Send { user_uuid: Seq<char>, body: Seq<char> },
    Messages { user_uuid: Seq<char> },
    Subscribe { team_uuid: Seq<char> },
    Subscribed { team_uuid: Option<Seq<char>> },
    Unsubscribe { team_uuid: Seq<char> },
    Use {
        team_uuid: Option<Seq<char>>,
        channel_uuid: Option<Seq<char>>,
        thread_uuid: Option<Seq<char>>,
    },
    Create { args: Seq<Seq<char>> },
    List,
    Info,
}

pub open spec fn opt_view(o: Option<String>) -> Option<Seq<char>> {
    match o {
        Some(s) => Some(s@),
        None => None,
    }
}

pub open spec fn strings_view(v: Seq<String>) -> Seq<Seq<char>> {
    v.map_values(|s: String| s@)
}

impl View for Command {
    type V = CommandView;

    open spec fn view(&self) -> CommandView {
        match self {
            Command::Help => CommandView::Help,
            Command::Login { user_name } => CommandView::Login { user_name: user_name@ },
            Command::Logout => CommandView::Logout,
            Command::Users => CommandView::Users,
            Command::User { user_uuid } => CommandView::User { user_uuid: user_uuid@ },
            Command::Send { user_uuid, body } => CommandView::Send {
                user_uuid: user_uuid@,
                body: body@,
            },
            Command::Messages { user_uuid } => CommandView::Messages { user_uuid: user_uuid@ },
            Command::Subscribe { team_uuid } => CommandView::Subscribe { team_uuid: team_uuid@ },
            Command::Subscribed { team_uuid } => CommandView::Subscribed {
                team_uuid: opt_view(*team_uuid),
            },
            Command::Unsubscribe { team_uuid } => CommandView::Unsubscribe {
                team_uuid: team_uuid@,
            },
            Command::Use { team_uuid, channel_uuid, thread_uuid } => CommandView::Use {
                team_uuid: opt_view(*team_uuid),
                channel_uuid: opt_view(*channel_uuid),
                thread_uuid: opt_view(*thread_uuid),
            },
            Command::Create { args } => CommandView::Create { args: strings_view(args@) },
            Command::List => CommandView::List,
            Command::Info => CommandView::Info,
        }
    }
}

/// The team, channel and thread that the client's commands refer to.
#[derive(Debug)]
pub struct Context {
    pub team_uuid: Option<String>,
    pub channel_uuid: Option<String>,
    pub thread_uuid: Option<String>,
}

/// A context with its identifiers taken as character sequences.
pub struct ContextView {
    pub team_uuid: Option<Seq<char>>,
    pub channel_uuid: Option<Seq<char>>,
    pub thread_uuid: Option<Seq<char>>,
}

impl View for Context {
    type V = ContextView;

    open spec fn view(&self) -> ContextView {
        ContextView {
            team_uuid: opt_view(self.team_uuid),
            channel_uuid: opt_view(self.channel_uuid),
            thread_uuid: opt_view(self.thread_uuid),
        }
    }
}

impl Context {
    /// The global context: no team, channel or thread.
    pub fn new() -> (c: Context)
        ensures
            c@ == (ContextView { team_uuid: None, channel_uuid: None, thread_uuid: None }),
    {
        Context { team_uuid: None, channel_uuid: None, thread_uuid: None }
    }

    /// Replaces the three identifiers.
    pub fn set(
        &mut self,
        team_uuid: Option<String>,
        channel_uuid: Option<String>,
        thread_uuid: Option<String>,
    )
        ensures
            final(self)@ == (ContextView {
                team_uuid: opt_view(team_uuid),
                channel_uuid: opt_view(channel_uuid),
                thread_uuid: opt_view(thread_uuid),
            }),
    {
        self.team_uuid = team_uuid;
        self.channel_uuid = channel_uuid;
        self.thread_uuid = thread_uuid;
    }
}

} // verus!
