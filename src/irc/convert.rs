//! Translation between wire messages and canonical messages.
use vstd::prelude::*;

use crate::error::ProtocolError;
use crate::irc::command::{same_text, JOIN, PRIVMSG};
use crate::irc::grammar::WireView;
use crate::irc::message::{strings_view, Message};
use crate::message::{Message as CommonMessage, MessageView};

verus! {

/// The wire form of a canonical message sent towards the origin: a chat
/// line becomes a post to its channel, a join request a join.
pub open spec fn outbound_view(m: MessageView) -> WireView {
    match m {
        MessageView::Chat { channel, content, .. } => WireView {
            prefix: None,
            command: PRIVMSG@,
            args: seq![channel, content],
        },
        MessageView::JoinChannel { channel } => WireView {
            prefix: None,
            command: JOIN@,
            args: seq![channel],
        },
        _ => WireView { prefix: None, command: Seq::empty(), args: Seq::empty() },
    }
}

/// The canonical meaning of a chat post or a join notice from the wire:
/// the sender is the prefix's raw text, the channel the first argument,
/// the content of a post its second.
pub open spec fn inbound_view(w: WireView) -> Result<MessageView, ProtocolError> {
    if w.command == PRIVMSG@ {
        if w.args.len() < 2 {
            Err(ProtocolError::WrongArity)
        } else {
            match w.prefix {
                Some(p) => Ok(
                    MessageView::Chat { sender: p.raw(), channel: w.args[0], content: w.args[1] },
                ),
                None => Err(ProtocolError::MissingPrefix),
            }
        }
    } else if w.command == JOIN@ {
        if w.args.len() < 1 {
            Err(ProtocolError::WrongArity)
        } else {
            match w.prefix {
                Some(p) => Ok(MessageView::JoinedChannel { sender: p.raw(), channel: w.args[0] }),
                None => Err(ProtocolError::MissingPrefix),
            }
        }
    } else {
        Err(ProtocolError::UnknownCommand)
    }
}

pub open spec fn common_result_view(r: Result<CommonMessage, ProtocolError>) -> Result<
    MessageView,
    ProtocolError,
> {
    match r {
        Ok(m) => Ok(m@),
        Err(e) => Err(e),
    }
}

impl Message {
    /// The wire message that carries a chat line or a join request to the
    /// origin. Other canonical messages never travel that way.
    pub fn from_message(message: CommonMessage) -> (r: Self)
        requires
            message is Chat || message is JoinChannel,
        ensures
            r@ == outbound_view(message@),
    {
        match message {
            CommonMessage::Chat { channel, content, .. } => {
                let args = vec![channel, content];
                assert(strings_view(args@) =~= seq![args@[0]@, args@[1]@]);
                Message { prefix: None, command: PRIVMSG.to_owned(), args }
            },
            CommonMessage::JoinChannel { channel } => {
                let args = vec![channel];
                assert(strings_view(args@) =~= seq![args@[0]@]);
                Message { prefix: None, command: JOIN.to_owned(), args }
            },
            _ => {
                assert(false);
                Message { prefix: None, command: String::new(), args: Vec::new() }
            },
        }
    }

    /// The canonical message a chat post or a join notice stands for.
    pub fn into_message(self) -> (r: Result<CommonMessage, ProtocolError>)
        ensures
            common_result_view(r) == inbound_view(self@),
    {
        self.to_common()
    }

    /// As `into_message`, leaving the wire message in place.
    pub fn to_common(&self) -> (r: Result<CommonMessage, ProtocolError>)
        ensures
            common_result_view(r) == inbound_view(self@),
    {
        let is_post = same_text(self.command.as_str(), PRIVMSG);
        let is_join = same_text(self.command.as_str(), JOIN);
        if !is_post && !is_join {
            return Err(ProtocolError::UnknownCommand);
        }
        let needed: usize = if is_post { 2 } else { 1 };
        if self.args.len() < needed {
            return Err(ProtocolError::WrongArity);
        }
        let sender = match &self.prefix {
            Some(p) => p.raw().to_owned(),
            None => {
                return Err(ProtocolError::MissingPrefix);
            },
        };
        let channel = self.args[0].clone();
        if is_post {
            let content = self.args[1].clone();
            Ok(CommonMessage::Chat { sender, channel, content })
        } else {
            Ok(CommonMessage::JoinedChannel { sender, channel })
        }
    }
}

} // verus!
