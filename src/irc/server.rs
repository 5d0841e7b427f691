//! The downstream listener's protocol logic: what it answers locally to a
//! connected client, what it forwards, and the wire lines a canonical
//! message is broadcast as.
use vstd::prelude::*;

use crate::error::{ProtocolError, RoutingError};
use crate::irc::client::{handled_result_view, pong_view, source_step, Handled, HandledView};
use crate::irc::command::{
    same_text, CAP, ERR_NOMOTD, JOIN, NICK, PING, PONG, PRIVMSG, RPL_ENDOFNAMES, RPL_NAMREPLY,
    USER,
};
use crate::irc::convert::inbound_view;
use crate::irc::grammar::{classify, PrefixView, WireView};
use crate::irc::message::{strings_view, Message, Prefix};
use crate::irc::registry::{delivery_plan, lemma_fan_out_contiguous, run};
use crate::message::{Message as CommonMessage, MessageView};

verus! {

/// The name the listener speaks as.
pub const SERVER_NAME: &'static str = "irc.proxy";

/// The nickname the listener's registration reply addresses.
pub const CLIENT_NICK: &'static str = "testtest";

pub const NO_MOTD_TEXT: &'static str = "MOTD File is missing";

pub const END_OF_NAMES_TEXT: &'static str = "End of /NAMES list.";

pub open spec fn server_prefix_view() -> PrefixView {
    PrefixView::Server(SERVER_NAME@)
}

/// How the listener treats one line from a client: registration chatter is
/// answered or absorbed locally, keepalives answered, chat posts and join
/// requests forwarded.
pub open spec fn sink_step(m: WireView) -> Result<HandledView, ProtocolError> {
    if m.command == USER@ {
        Ok(
            HandledView::Reply(
                WireView {
                    prefix: Some(server_prefix_view()),
                    command: ERR_NOMOTD@,
                    args: seq![CLIENT_NICK@, NO_MOTD_TEXT@],
                },
            ),
        )
    } else if m.command == CAP@ || m.command == NICK@ {
        Ok(HandledView::Absorbed)
    } else if m.command == PING@ {
        if m.args.len() < 1 {
            Err(ProtocolError::WrongArity)
        } else {
            Ok(HandledView::Reply(pong_view(Some(server_prefix_view()), m.args[0])))
        }
    } else if m.command == PRIVMSG@ {
        match inbound_view(m) {
            Ok(c) => Ok(HandledView::Forward(c)),
            Err(e) => Err(e),
        }
    } else if m.command == JOIN@ {
        if m.args.len() < 1 {
            Err(ProtocolError::WrongArity)
        } else {
            Ok(HandledView::Forward(MessageView::JoinChannel { channel: m.args[0] }))
        }
    } else {
        Ok(HandledView::Unhandled)
    }
}

/// The wire lines a canonical message is broadcast to clients as; `None`
/// for a join request, which only travels towards the origin.
pub open spec fn sink_batch(m: MessageView) -> Option<Seq<WireView>> {
    match m {
        MessageView::Chat { sender, channel, content } => Some(
            seq![
                WireView {
                    prefix: Some(classify(sender)),
                    command: PRIVMSG@,
                    args: seq![channel, content],
                },
            ],
        ),
        MessageView::JoinedChannel { sender, channel } => Some(
            seq![WireView { prefix: Some(classify(sender)), command: JOIN@, args: seq![channel] }],
        ),
        MessageView::UsersList { channel, users } => Some(
            seq![
                WireView {
                    prefix: Some(server_prefix_view()),
                    command: RPL_NAMREPLY@,
                    args: seq![channel] + users,
                },
                WireView {
                    prefix: Some(server_prefix_view()),
                    command: RPL_ENDOFNAMES@,
                    args: seq![channel, END_OF_NAMES_TEXT@],
                },
            ],
        ),
        MessageView::JoinChannel { .. } => None,
    }
}

pub open spec fn messages_view(v: Seq<Message>) -> Seq<WireView> {
    v.map_values(|m: Message| m@)
}

pub fn server_prefix() -> (r: Prefix)
    ensures
        r@ == server_prefix_view(),
{
    Prefix::Server(SERVER_NAME.to_owned())
}

/// Handles one line from a client (see `sink_step`).
pub fn handle_message(message: &Message) -> (r: Result<Handled, ProtocolError>)
    ensures
        handled_result_view(r) == sink_step(message@),
{
    let command = message.command.as_str();
    if same_text(command, USER) {
        let reply = Message::new(Some(server_prefix()), ERR_NOMOTD, vec![CLIENT_NICK, NO_MOTD_TEXT]);
        assert(reply@.args =~= seq![CLIENT_NICK@, NO_MOTD_TEXT@]);
        return Ok(Handled::Reply(reply));
    }
    if same_text(command, CAP) || same_text(command, NICK) {
        return Ok(Handled::Absorbed);
    }
    if same_text(command, PING) {
        if message.args.len() < 1 {
            return Err(ProtocolError::WrongArity);
        }
        let args = vec![message.args[0].clone()];
        assert(strings_view(args@) =~= seq![message@.args[0]]);
        return Ok(
            Handled::Reply(Message { prefix: Some(server_prefix()), command: PONG.to_owned(), args }),
        );
    }
    if same_text(command, PRIVMSG) {
        return match message.to_common() {
            Ok(c) => Ok(Handled::Forward(c)),
            Err(e) => Err(e),
        };
    }
    if same_text(command, JOIN) {
        if message.args.len() < 1 {
            return Err(ProtocolError::WrongArity);
        }
        return Ok(Handled::Forward(CommonMessage::JoinChannel { channel: message.args[0].clone() }));
    }
    Ok(Handled::Unhandled)
}

/// The wire lines that carry a canonical message to every client (see
/// `sink_batch`); a join request cannot be broadcast.
pub fn convert_message(message: &CommonMessage) -> (r: Result<Vec<Message>, RoutingError>)
    ensures
        match r {
            Ok(v) => sink_batch(message@) == Some(messages_view(v@)),
            Err(e) => sink_batch(message@) is None && e == RoutingError::Unroutable,
        },
{
    match message {
        CommonMessage::Chat { sender, channel, content } => {
            let args = vec![channel.clone(), content.clone()];
            assert(strings_view(args@) =~= seq![channel@, content@]);
            let post = Message {
                prefix: Some(Prefix::from_raw(sender.clone())),
                command: PRIVMSG.to_owned(),
                args,
            };
            let v = vec![post];
            assert(messages_view(v@) =~= seq![post@]);
            Ok(v)
        },
        CommonMessage::JoinedChannel { sender, channel } => {
            let args = vec![channel.clone()];
            assert(strings_view(args@) =~= seq![channel@]);
            let join = Message {
                prefix: Some(Prefix::from_raw(sender.clone())),
                command: JOIN.to_owned(),
                args,
            };
            let v = vec![join];
            assert(messages_view(v@) =~= seq![join@]);
            Ok(v)
        },
        CommonMessage::UsersList { channel, users } => {
            let mut listed: Vec<String> = vec![channel.clone()];
            let mut i: usize = 0;
            assert(strings_view(listed@) =~= seq![channel@] + strings_view(users@.take(0)));
            while i < users.len()
                invariant
                    i <= users@.len(),
                    strings_view(listed@) == seq![channel@] + strings_view(users@.take(i as int)),
                decreases users.len() - i,
            {
                let ghost before = strings_view(listed@);
                listed.push(users[i].clone());
                assert(strings_view(listed@) =~= before.push(users@[i as int]@));
                assert(strings_view(users@.take(i + 1)) =~= strings_view(users@.take(i as int)).push(
                    users@[i as int]@,
                ));
                i += 1;
            }
            assert(users@.take(i as int) =~= users@);
            assert(users@.map_values(|u: String| u@) == strings_view(users@));
            let names = Message {
                prefix: Some(server_prefix()),
                command: RPL_NAMREPLY.to_owned(),
                args: listed,
            };
            let end_args = vec![channel.clone(), END_OF_NAMES_TEXT.to_owned()];
            assert(strings_view(end_args@) =~= seq![channel@, END_OF_NAMES_TEXT@]);
            let end = Message {
                prefix: Some(server_prefix()),
                command: RPL_ENDOFNAMES.to_owned(),
                args: end_args,
            };
            let v = vec![names, end];
            assert(messages_view(v@) =~= seq![names@, end@]);
            Ok(v)
        },
        CommonMessage::JoinChannel { .. } => Err(RoutingError::Unroutable),
    }
}

/// Keepalives are answered where they arrive and never become canonical
/// messages: a ping from the origin gets a pong with the same token and
/// leaves the pending names as they were; a ping from a client gets the
/// listener's pong with the same token.
pub proof fn lemma_keepalive_answered(pending: Seq<(Seq<char>, Seq<char>)>, ping: WireView)
    requires
        ping.command == PING@,
        ping.args.len() >= 1,
    ensures
        source_step(pending, ping) == (
            pending,
            Ok::<HandledView, ProtocolError>(HandledView::Reply(pong_view(None, ping.args[0]))),
        ),
        sink_step(ping) == Ok::<HandledView, ProtocolError>(
            HandledView::Reply(pong_view(Some(server_prefix_view()), ping.args[0])),
        ),
{
    reveal_strlit("PING");
    reveal_strlit("USER");
    reveal_strlit("CAP");
    reveal_strlit("NICK");
    assert(PING@.len() != CAP@.len());
    assert(PING@[0] != USER@[0]);
    assert(PING@[0] != NICK@[0]);
}

/// A users list reaches each registered connection as one contiguous pair
/// of lines: the names reply, then at once the end-of-names reply.
pub proof fn lemma_users_list_fan_out(
    channel: Seq<char>,
    users: Seq<Seq<char>>,
    ids: Seq<u32>,
    id: u32,
)
    requires
        ids.contains(id),
    ensures
        ({
            let batch = sink_batch(MessageView::UsersList { channel, users })->0;
            let plan = delivery_plan(ids, 2);
            &&& batch.len() == 2
            &&& batch[0].command == RPL_NAMREPLY@
            &&& batch[1].command == RPL_ENDOFNAMES@
            &&& exists|s: int|
                0 <= s && s + 2 <= plan.len() && #[trigger] plan[s] == (id, 0nat) && plan[s + 1]
                    == (id, 1nat)
        }),
{
    let plan = delivery_plan(ids, 2);
    lemma_fan_out_contiguous(ids, 2, id);
    let s = choose|s: int|
        0 <= s && s + 2 <= plan.len() && #[trigger] plan.subrange(s, s + 2) == run(id, 2);
    assert(plan.subrange(s, s + 2)[0] == plan[s]);
    assert(plan.subrange(s, s + 2)[1] == plan[s + 1]);
    assert(plan[s] == (id, 0nat));
    assert(plan[s + 1] == (id, 1nat));
}

} // verus!
