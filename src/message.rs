//! The canonical, protocol-agnostic messages exchanged between the upstream
//! session and the sinks.
use vstd::prelude::*;

verus! {

#[derive(Clone, Debug, PartialEq, Eq)]
pub enum Message {
    /// A chat line; travels both ways.
    Chat { sender: String, channel: String, content: String },
    /// Someone joined a channel (origin to sinks).
    JoinedChannel { sender: String, channel: String },
    /// The resolved membership of a channel (origin to sinks).
    UsersList { channel: String, users: Vec<String> },
    /// A request to join a channel (sinks to origin).
    JoinChannel { channel: String },
}

pub enum MessageView {
    Chat { sender: Seq<char>, channel: Seq<char>, content: Seq<char> },
    JoinedChannel { sender: Seq<char>, channel: Seq<char> },
    UsersList { channel: Seq<char>, users: Seq<Seq<char>> },
    JoinChannel { channel: Seq<char> },
}

impl View for Message {
    type V = MessageView;

    open spec fn view(&self) -> MessageView {
        match self {
            Message::Chat { sender, channel, content } => MessageView::Chat {
                sender: sender@,
                channel: channel@,
                content: content@,
            },
            Message::JoinedChannel { sender, channel } => MessageView::JoinedChannel {
                sender: sender@,
                channel: channel@,
            },
            Message::UsersList { channel, users } => MessageView::UsersList {
                channel: channel@,
                users: users@.map_values(|u: String| u@),
            },
            Message::JoinChannel { channel } => MessageView::JoinChannel { channel: channel@ },
        }
    }
}

} // verus!
