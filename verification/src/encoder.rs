//! One step of the offline command encoder: a typed line and the current
//! context give the next context and what to show.
use vstd::prelude::*;
use crate::command::{Command, CommandView, Context, ContextView};
use crate::parser::{parse_command, parse_command_spec};
use crate::protocol::{encode_command, encode_spec, encodable, is_encodable};

verus! {

broadcast use vstd::string::group_string_axioms;

/// What the encoder shows for a typed line.
pub enum EncoderAction {
    /// Nothing: the line holds no command.
    Nothing,
    /// The list of commands.
    Help,
    /// The context was set by `/use`.
    ContextUpdated,
    /// The request line the client would send.
    Encoded(String),
    /// The line does not parse, for this reason.
    ParseError(String),
    /// A `/create` without enough arguments for the context.
    CannotEncode,
}

pub enum EncoderActionView {
    Nothing,
    Help,
    ContextUpdated,
    Encoded(Seq<char>),
    ParseError(Seq<char>),
    CannotEncode,
}

impl View for EncoderAction {
    type V = EncoderActionView;

    open spec fn view(&self) -> EncoderActionView {
        match self {
            EncoderAction::Nothing => EncoderActionView::Nothing,
            EncoderAction::Help => EncoderActionView::Help,
            EncoderAction::ContextUpdated => EncoderActionView::ContextUpdated,
            EncoderAction::Encoded(s) => EncoderActionView::Encoded(s@),
            EncoderAction::ParseError(s) => EncoderActionView::ParseError(s@),
            EncoderAction::CannotEncode => EncoderActionView::CannotEncode,
        }
    }
}

/// The next context and the action for the typed line `line` in context `ctx`.
pub open spec fn encoder_step_spec(ctx: ContextView, line: Seq<char>) -> (ContextView, EncoderActionView) {
    match parse_command_spec(line) {
        Err(e) => if e == "Empty command"@ {
            (ctx, EncoderActionView::Nothing)
        } else {
            (ctx, EncoderActionView::ParseError(e))
        },
        Ok(cmd) => if !encodable(cmd, ctx) {
            (ctx, EncoderActionView::CannotEncode)
        } else {
            match cmd {
                CommandView::Help => (ctx, EncoderActionView::Help),
                CommandView::Use { team_uuid, channel_uuid, thread_uuid } => (
                    ContextView { team_uuid, channel_uuid, thread_uuid },
                    EncoderActionView::ContextUpdated,
                ),
                _ => (ctx, EncoderActionView::Encoded(encode_spec(cmd, ctx))),
            }
        },
    }
}

/// Handles one typed line (see [`encoder_step_spec`]).
pub fn encoder_step(ctx: &mut Context, line: &str) -> (a: EncoderAction)
    ensures
        (final(ctx)@, a@) == encoder_step_spec(old(ctx)@, line@),
{
    match parse_command(line) {
        Err(e) => {
            if crate::text::str_eq(e.as_str(), "Empty command") {
                EncoderAction::Nothing
            } else {
                EncoderAction::ParseError(e)
            }
        },
        Ok(cmd) => {
            if !is_encodable(&cmd, ctx) {
                return EncoderAction::CannotEncode;
            }
            match cmd {
                Command::Help => EncoderAction::Help,
                Command::Use { team_uuid, channel_uuid, thread_uuid } => {
                    ctx.set(team_uuid, channel_uuid, thread_uuid);
                    EncoderAction::ContextUpdated
                },
                other => {
                    let encoded = encode_command(&other, ctx);
                    EncoderAction::Encoded(encoded)
                },
            }
        },
    }
}

} // verus!
