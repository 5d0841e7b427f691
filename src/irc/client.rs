//! The upstream session's protocol logic: the handshake, answering
//! keepalives, aggregating names listings, and translating between the wire
//! and canonical messages. The connection itself is driven by the caller,
//! which sends every `Handled::Reply` back to the origin and hands every
//! `Handled::Forward` on to the sinks.
use vstd::prelude::*;
use vstd::string::StrSliceExecFns;

use crate::error::{ProtocolError, RoutingError};
use crate::irc::command::{
    same_text, ERR_NOMOTD, JOIN, NICK, PING, PONG, PRIVMSG, RPL_ENDOFMOTD, RPL_ENDOFNAMES,
    RPL_NAMREPLY, USER,
};
use crate::irc::convert::{common_result_view, inbound_view, outbound_view};
use crate::irc::grammar::{first_space, lemma_first_space_bounds, PrefixView, WireView};
use crate::irc::message::{chars_of, find_space, strings_view, Message};
use crate::message::{Message as CommonMessage, MessageView};

verus! {

/// What handling one incoming wire message calls for.
#[derive(Debug)]
pub enum Handled {
    /// Answer on the same connection with this message.
    Reply(Message),
    /// Hand this canonical message on.
    Forward(CommonMessage),
    /// Understood; nothing to send or forward.
    Absorbed,
    /// Not a command this side handles; dropped.
    Unhandled,
}

pub enum HandledView {
    Reply(WireView),
    Forward(MessageView),
    Absorbed,
    Unhandled,
}

impl View for Handled {
    type V = HandledView;

    open spec fn view(&self) -> HandledView {
        match self {
            Handled::Reply(m) => HandledView::Reply(m@),
            Handled::Forward(m) => HandledView::Forward(m@),
            Handled::Absorbed => HandledView::Absorbed,
            Handled::Unhandled => HandledView::Unhandled,
        }
    }
}

pub open spec fn handled_result_view(r: Result<Handled, ProtocolError>) -> Result<
    HandledView,
    ProtocolError,
> {
    match r {
        Ok(h) => Ok(h@),
        Err(e) => Err(e),
    }
}

/// The keepalive answer to a ping carrying `token`.
pub open spec fn pong_view(prefix: Option<PrefixView>, token: Seq<char>) -> WireView {
    WireView { prefix, command: PONG@, args: seq![token] }
}

/// The non-empty tokens of a space-separated list.
pub open spec fn name_tokens(s: Seq<char>) -> Seq<Seq<char>>
    decreases s.len(),
{
    let k = first_space(s);
    if 0 <= k < s.len() {
        (if k > 0 {
            seq![s.take(k)]
        } else {
            Seq::empty()
        }) + name_tokens(s.skip(k + 1))
    } else if s.len() > 0 {
        seq![s]
    } else {
        Seq::empty()
    }
}

/// The names pending for `channel`, in the order they arrived.
pub open spec fn names_for(pending: Seq<(Seq<char>, Seq<char>)>, channel: Seq<char>) -> Seq<
    Seq<char>,
>
    decreases pending.len(),
{
    if pending.len() == 0 {
        Seq::empty()
    } else {
        names_for(pending.drop_last(), channel) + if pending.last().0 == channel {
            seq![pending.last().1]
        } else {
            Seq::empty()
        }
    }
}

/// The pending entries of every channel but `channel`.
pub open spec fn without_channel(pending: Seq<(Seq<char>, Seq<char>)>, channel: Seq<char>) -> Seq<
    (Seq<char>, Seq<char>),
>
    decreases pending.len(),
{
    if pending.len() == 0 {
        Seq::empty()
    } else {
        without_channel(pending.drop_last(), channel) + if pending.last().0 == channel {
            Seq::empty()
        } else {
            seq![pending.last()]
        }
    }
}

/// Entries `(channel, name)` for each name of a listing.
pub open spec fn tag_names(channel: Seq<char>, names: Seq<Seq<char>>) -> Seq<
    (Seq<char>, Seq<char>),
> {
    names.map_values(|n: Seq<char>| (channel, n))
}

/// How the upstream session treats one message from the origin: the new
/// pending names and what to do.
pub open spec fn source_step(pending: Seq<(Seq<char>, Seq<char>)>, m: WireView) -> (
    Seq<(Seq<char>, Seq<char>)>,
    Result<HandledView, ProtocolError>,
) {
    if m.command == PING@ {
        if m.args.len() < 1 {
            (pending, Err(ProtocolError::WrongArity))
        } else {
            (pending, Ok(HandledView::Reply(pong_view(None, m.args[0]))))
        }
    } else if m.command == RPL_ENDOFMOTD@ || m.command == ERR_NOMOTD@ {
        (pending, Ok(HandledView::Absorbed))
    } else if m.command == PRIVMSG@ || m.command == JOIN@ {
        (
            pending,
            match inbound_view(m) {
                Ok(c) => Ok(HandledView::Forward(c)),
                Err(e) => Err(e),
            },
        )
    } else if m.command == RPL_NAMREPLY@ {
        if m.args.len() != 4 {
            (pending, Err(ProtocolError::WrongArity))
        } else {
            (pending + tag_names(m.args[2], name_tokens(m.args[3])), Ok(HandledView::Absorbed))
        }
    } else if m.command == RPL_ENDOFNAMES@ {
        if m.args.len() < 2 {
            (pending, Err(ProtocolError::WrongArity))
        } else {
            (
                without_channel(pending, m.args[1]),
                Ok(
                    HandledView::Forward(
                        MessageView::UsersList {
                            channel: m.args[1],
                            users: names_for(pending, m.args[1]),
                        },
                    ),
                ),
            )
        }
    } else {
        (pending, Ok(HandledView::Unhandled))
    }
}

/// The state of the one session with the origin: the names listings that
/// have arrived and whose end has not yet.
pub struct Session {
    pending: Vec<(String, String)>,
}

pub open spec fn pairs_view(v: Seq<(String, String)>) -> Seq<(Seq<char>, Seq<char>)> {
    v.map_values(|p: (String, String)| (p.0@, p.1@))
}

impl View for Session {
    type V = Seq<(Seq<char>, Seq<char>)>;

    closed spec fn view(&self) -> Seq<(Seq<char>, Seq<char>)> {
        pairs_view(self.pending@)
    }
}

/// The non-empty space-separated tokens of `s`.
pub fn split_names(s: &str) -> (r: Vec<String>)
    ensures
        strings_view(r@) == name_tokens(s@),
{
    let cs = chars_of(s);
    let n = cs.len();
    let mut out: Vec<String> = Vec::new();
    let mut p: usize = 0;
    assert(cs@.subrange(0, n as int) =~= s@);
    loop
        invariant_except_break
            p <= n,
            n == cs@.len(),
            cs@ == s@,
            strings_view(out@) + name_tokens(cs@.subrange(p as int, n as int)) == name_tokens(s@),
        ensures
            strings_view(out@) == name_tokens(s@),
        decreases n - p,
    {
        let ghost a = cs@.subrange(p as int, n as int);
        let ghost before = strings_view(out@);
        let q = find_space(&cs, p, n);
        proof {
            lemma_first_space_bounds(a);
        }
        if q > p {
            let t = s.substring_char(p, q).to_owned();
            assert(t@ =~= a.take(first_space(a)));
            out.push(t);
            assert(strings_view(out@) =~= before.push(t@));
        }
        if q < n {
            assert(a.skip(first_space(a) + 1) =~= cs@.subrange(q + 1, n as int));
            if q > p {
                assert(before + name_tokens(a) =~= strings_view(out@) + name_tokens(
                    cs@.subrange(q + 1, n as int),
                ));
            } else {
                assert(before + name_tokens(a) =~= strings_view(out@) + name_tokens(
                    cs@.subrange(q + 1, n as int),
                ));
            }
            p = q + 1;
        } else {
            assert(before + name_tokens(a) =~= strings_view(out@));
            break ;
        }
    }
    out
}

impl Session {
    pub fn new() -> (r: Self)
        ensures
            r@ == Seq::<(Seq<char>, Seq<char>)>::empty(),
    {
        let pending: Vec<(String, String)> = Vec::new();
        assert(pairs_view(pending@) =~= Seq::<(Seq<char>, Seq<char>)>::empty());
        Session { pending }
    }

    /// The two registration messages sent first on a new connection: the
    /// identity, then the nickname.
    pub fn handshake() -> (r: Vec<Message>)
        ensures
            r@.len() == 2,
            r@[0]@.prefix is None,
            r@[0]@.command == USER@,
            r@[0]@.args == seq!["test"@, "0"@, "*"@, "test"@],
            r@[1]@.prefix is None,
            r@[1]@.command == NICK@,
            r@[1]@.args == seq!["testtest"@],
    {
        let user = Message::new(None, USER, vec!["test", "0", "*", "test"]);
        let nick = Message::new(None, NICK, vec!["testtest"]);
        assert(user@.args =~= seq!["test"@, "0"@, "*"@, "test"@]);
        assert(nick@.args =~= seq!["testtest"@]);
        vec![user, nick]
    }

    /// Adds the names of one listing of `channel`.
    fn add_names(&mut self, channel: &String, names: Vec<String>)
        ensures
            final(self)@ == old(self)@ + tag_names(channel@, strings_view(names@)),
    {
        let mut i: usize = 0;
        let ghost start = self@;
        assert(tag_names(channel@, strings_view(names@.take(0))) =~= Seq::<
            (Seq<char>, Seq<char>),
        >::empty());
        assert(start + Seq::<(Seq<char>, Seq<char>)>::empty() =~= start);
        while i < names.len()
            invariant
                i <= names@.len(),
                self@ == start + tag_names(channel@, strings_view(names@.take(i as int))),
            decreases names.len() - i,
        {
            let ghost before = self@;
            self.pending.push((channel.clone(), names[i].clone()));
            assert(self@ =~= before.push((channel@, names@[i as int]@)));
            assert(tag_names(channel@, strings_view(names@.take(i + 1))) =~= tag_names(
                channel@,
                strings_view(names@.take(i as int)),
            ).push((channel@, names@[i as int]@)));
            i += 1;
        }
        assert(names@.take(i as int) =~= names@);
    }

    /// Takes out the names pending for `channel`, in arrival order.
    fn take_names(&mut self, channel: &String) -> (r: Vec<String>)
        ensures
            strings_view(r@) == names_for(old(self)@, channel@),
            final(self)@ == without_channel(old(self)@, channel@),
    {
        let ghost all = self@;
        let mut names: Vec<String> = Vec::new();
        let mut rest: Vec<(String, String)> = Vec::new();
        let mut i: usize = 0;
        assert(all.take(0) =~= Seq::<(Seq<char>, Seq<char>)>::empty());
        assert(strings_view(names@) =~= Seq::<Seq<char>>::empty());
        assert(pairs_view(rest@) =~= Seq::<(Seq<char>, Seq<char>)>::empty());
        while i < self.pending.len()
            invariant
                i <= self.pending@.len(),
                all == pairs_view(self.pending@),
                strings_view(names@) == names_for(all.take(i as int), channel@),
                pairs_view(rest@) == without_channel(all.take(i as int), channel@),
            decreases self.pending.len() - i,
        {
            let entry = &self.pending[i];
            assert(all.take(i + 1).drop_last() =~= all.take(i as int));
            assert(all.take(i + 1).last() == (entry.0@, entry.1@));
            if same_text(entry.0.as_str(), channel.as_str()) {
                let ghost before = strings_view(names@);
                names.push(entry.1.clone());
                assert(strings_view(names@) =~= before.push(entry.1@));
                assert(strings_view(names@) =~= before + seq![entry.1@]);
            } else {
                let ghost before = pairs_view(rest@);
                rest.push((entry.0.clone(), entry.1.clone()));
                assert(pairs_view(rest@) =~= before + seq![(entry.0@, entry.1@)]);
            }
            i += 1;
        }
        assert(all.take(i as int) =~= all);
        self.pending = rest;
        names
    }

    /// Handles one message from the origin (see `source_step`).
    pub fn handle_message(&mut self, message: &Message) -> (r: Result<Handled, ProtocolError>)
        ensures
            (final(self)@, handled_result_view(r)) == source_step(old(self)@, message@),
    {
        let command = message.command.as_str();
        if same_text(command, PING) {
            if message.args.len() < 1 {
                return Err(ProtocolError::WrongArity);
            }
            let args = vec![message.args[0].clone()];
            assert(strings_view(args@) =~= seq![message@.args[0]]);
            return Ok(Handled::Reply(Message { prefix: None, command: PONG.to_owned(), args }));
        }
        if same_text(command, RPL_ENDOFMOTD) || same_text(command, ERR_NOMOTD) {
            return Ok(Handled::Absorbed);
        }
        if same_text(command, PRIVMSG) || same_text(command, JOIN) {
            let r = message.to_common();
            assert(common_result_view(r) == inbound_view(message@));
            return match r {
                Ok(c) => Ok(Handled::Forward(c)),
                Err(e) => Err(e),
            };
        }
        if same_text(command, RPL_NAMREPLY) {
            if message.args.len() != 4 {
                return Err(ProtocolError::WrongArity);
            }
            let names = split_names(message.args[3].as_str());
            self.add_names(&message.args[2], names);
            return Ok(Handled::Absorbed);
        }
        if same_text(command, RPL_ENDOFNAMES) {
            if message.args.len() < 2 {
                return Err(ProtocolError::WrongArity);
            }
            let channel = message.args[1].clone();
            let users = self.take_names(&channel);
            assert(users@.map_values(|u: String| u@) == strings_view(users@));
            return Ok(Handled::Forward(CommonMessage::UsersList { channel, users }));
        }
        Ok(Handled::Unhandled)
    }

    /// The wire message that carries a canonical message to the origin. Only
    /// chat lines and join requests travel that way.
    pub fn convert_message(message: &CommonMessage) -> (r: Result<Message, RoutingError>)
        ensures
            match r {
                Ok(w) => (message is Chat || message is JoinChannel) && w@ == outbound_view(
                    message@,
                ),
                Err(e) => !(message is Chat || message is JoinChannel) && e
                    == RoutingError::Unroutable,
            },
    {
        match message {
            CommonMessage::Chat { sender, channel, content } => Ok(
                Message::from_message(
                    CommonMessage::Chat {
                        sender: sender.clone(),
                        channel: channel.clone(),
                        content: content.clone(),
                    },
                ),
            ),
            CommonMessage::JoinChannel { channel } => Ok(
                Message::from_message(CommonMessage::JoinChannel { channel: channel.clone() }),
            ),
            _ => Err(RoutingError::Unroutable),
        }
    }
}

proof fn lemma_names_for_append(p: Seq<(Seq<char>, Seq<char>)>, q: Seq<(Seq<char>, Seq<char>)>, c: Seq<char>)
    ensures
        names_for(p + q, c) == names_for(p, c) + names_for(q, c),
    decreases q.len(),
{
    if q.len() == 0 {
        assert(p + q =~= p);
        assert(names_for(p, c) + names_for(q, c) =~= names_for(p, c));
    } else {
        assert((p + q).drop_last() =~= p + q.drop_last());
        assert((p + q).last() == q.last());
        lemma_names_for_append(p, q.drop_last(), c);
        assert(names_for(p + q, c) =~= names_for(p, c) + names_for(q, c));
    }
}

proof fn lemma_names_for_tagged(t: Seq<char>, ns: Seq<Seq<char>>, c: Seq<char>)
    ensures
        names_for(tag_names(t, ns), c) == if t == c {
            ns
        } else {
            Seq::empty()
        },
    decreases ns.len(),
{
    if ns.len() > 0 {
        assert(tag_names(t, ns).drop_last() =~= tag_names(t, ns.drop_last()));
        lemma_names_for_tagged(t, ns.drop_last(), c);
        if t == c {
            assert(ns.drop_last() + seq![ns.last()] =~= ns);
        } else {
            assert(Seq::<Seq<char>>::empty() + Seq::<Seq<char>>::empty() =~= Seq::<Seq<char>>::empty());
        }
    } else {
        assert(tag_names(t, ns) =~= Seq::<(Seq<char>, Seq<char>)>::empty());
    }
}

proof fn lemma_names_for_without(p: Seq<(Seq<char>, Seq<char>)>, c: Seq<char>, d: Seq<char>)
    ensures
        names_for(without_channel(p, c), d) == if d == c {
            Seq::empty()
        } else {
            names_for(p, d)
        },
    decreases p.len(),
{
    if p.len() > 0 {
        let w = without_channel(p.drop_last(), c);
        lemma_names_for_without(p.drop_last(), c, d);
        if p.last().0 == c {
            assert(without_channel(p, c) =~= w);
            if d != c {
                assert(names_for(p, d) =~= names_for(p.drop_last(), d));
            }
        } else {
            assert(without_channel(p, c) =~= w + seq![p.last()]);
            lemma_names_for_append(w, seq![p.last()], d);
            assert(seq![p.last()].drop_last() =~= Seq::<(Seq<char>, Seq<char>)>::empty());
            assert(names_for(Seq::<(Seq<char>, Seq<char>)>::empty(), d) == Seq::<Seq<char>>::empty());
            let single = names_for(seq![p.last()], d);
            if p.last().0 == d {
                assert(single =~= seq![p.last().1]);
            } else {
                assert(single =~= Seq::<Seq<char>>::empty());
            }
            if d == c {
                assert(names_for(without_channel(p, c), d) =~= Seq::<Seq<char>>::empty());
            } else {
                assert(names_for(without_channel(p, c), d) =~= names_for(p, d));
            }
        }
    }
}

/// Names listings aggregate per channel: a listing for a channel appends its
/// non-empty tokens to that channel's pending names and touches no other
/// channel; the end of the listing emits one `UsersList` with exactly the
/// pending names, in arrival order, and leaves none pending for that channel
/// while other channels keep theirs.
pub proof fn lemma_names_aggregation(
    pending: Seq<(Seq<char>, Seq<char>)>,
    listing: WireView,
    end: WireView,
    other: Seq<char>,
)
    requires
        listing.command == RPL_NAMREPLY@,
        listing.args.len() == 4,
        end.command == RPL_ENDOFNAMES@,
        end.args.len() >= 2,
        end.args[1] == listing.args[2],
        other != listing.args[2],
    ensures
        ({
            let c = listing.args[2];
            let (after, r) = source_step(pending, listing);
            &&& r == Ok::<HandledView, ProtocolError>(HandledView::Absorbed)
            &&& names_for(after, c) == names_for(pending, c) + name_tokens(listing.args[3])
            &&& names_for(after, other) == names_for(pending, other)
            &&& source_step(after, end) == (
                without_channel(after, c),
                Ok::<HandledView, ProtocolError>(
                    HandledView::Forward(
                        MessageView::UsersList { channel: c, users: names_for(after, c) },
                    ),
                ),
            )
            &&& names_for(without_channel(after, c), c) == Seq::<Seq<char>>::empty()
            &&& names_for(without_channel(after, c), other) == names_for(pending, other)
        }),
{
    let c = listing.args[2];
    let ns = name_tokens(listing.args[3]);
    lemma_reply_codes_distinct();
    lemma_names_for_append(pending, tag_names(c, ns), c);
    lemma_names_for_append(pending, tag_names(c, ns), other);
    lemma_names_for_tagged(c, ns, c);
    lemma_names_for_tagged(c, ns, other);
    assert(names_for(pending, other) + Seq::<Seq<char>>::empty() =~= names_for(pending, other));
    let after = pending + tag_names(c, ns);
    lemma_names_for_without(after, c, c);
    lemma_names_for_without(after, c, other);
}

/// The command words the session dispatches on are distinct.
proof fn lemma_reply_codes_distinct()
    ensures
        RPL_NAMREPLY@ != PING@,
        RPL_NAMREPLY@ != RPL_ENDOFMOTD@,
        RPL_NAMREPLY@ != ERR_NOMOTD@,
        RPL_NAMREPLY@ != PRIVMSG@,
        RPL_NAMREPLY@ != JOIN@,
        RPL_ENDOFNAMES@ != PING@,
        RPL_ENDOFNAMES@ != RPL_ENDOFMOTD@,
        RPL_ENDOFNAMES@ != ERR_NOMOTD@,
        RPL_ENDOFNAMES@ != PRIVMSG@,
        RPL_ENDOFNAMES@ != JOIN@,
        RPL_ENDOFNAMES@ != RPL_NAMREPLY@,
{
    reveal_strlit("353");
    reveal_strlit("366");
    reveal_strlit("376");
    reveal_strlit("422");
    reveal_strlit("PING");
    reveal_strlit("PRIVMSG");
    reveal_strlit("JOIN");
    assert(RPL_NAMREPLY@[2] != RPL_ENDOFNAMES@[2]);
    assert(RPL_NAMREPLY@.len() != PRIVMSG@.len());
    assert(RPL_NAMREPLY@.len() != PING@.len());
    assert(RPL_NAMREPLY@.len() != JOIN@.len());
    assert(RPL_NAMREPLY@[1] != RPL_ENDOFMOTD@[1]);
    assert(RPL_NAMREPLY@[0] != ERR_NOMOTD@[0]);
    assert(RPL_ENDOFNAMES@[1] != RPL_ENDOFMOTD@[1]);
    assert(RPL_ENDOFNAMES@[0] != ERR_NOMOTD@[0]);
    assert(RPL_ENDOFNAMES@.len() != PRIVMSG@.len());
    assert(RPL_ENDOFNAMES@.len() != PING@.len());
    assert(RPL_ENDOFNAMES@.len() != JOIN@.len());
}

} // verus!
