use bouncer::error::{ProtocolError, RoutingError};
use bouncer::irc::client::{split_names, Handled, Session};
use bouncer::irc::message::{Message, Prefix};
use bouncer::irc::server::{convert_message, handle_message, server_prefix};
use bouncer::message::Message as CommonMessage;

fn line(s: &str) -> Message {
    Message::from_raw(s.to_string()).unwrap()
}

fn forwarded(r: Result<Handled, ProtocolError>) -> CommonMessage {
    match r {
        Ok(Handled::Forward(m)) => m,
        other => panic!("expected a forward, got {:?}", other),
    }
}

fn replied(r: Result<Handled, ProtocolError>) -> Message {
    match r {
        Ok(Handled::Reply(m)) => m,
        other => panic!("expected a reply, got {:?}", other),
    }
}

#[test]
fn names_listings_aggregate_into_one_users_list() {
    let mut s = Session::new();
    assert!(matches!(s.handle_message(&line(":srv 353 me = #c :a b c\r\n")), Ok(Handled::Absorbed)));
    assert!(matches!(s.handle_message(&line(":srv 353 me = #c :d\r\n")), Ok(Handled::Absorbed)));
    let out = forwarded(s.handle_message(&line(":srv 366 me #c :End of /NAMES list.\r\n")));
    assert_eq!(
        out,
        CommonMessage::UsersList {
            channel: "#c".to_string(),
            users: vec!["a".to_string(), "b".to_string(), "c".to_string(), "d".to_string()],
        }
    );
    // The next cycle starts empty.
    let again = forwarded(s.handle_message(&line(":srv 366 me #c :End of /NAMES list.\r\n")));
    assert_eq!(again, CommonMessage::UsersList { channel: "#c".to_string(), users: vec![] });
}

#[test]
fn names_listings_are_kept_per_channel() {
    let mut s = Session::new();
    s.handle_message(&line(":srv 353 me = #a :x y\r\n")).unwrap();
    s.handle_message(&line(":srv 353 me = #b :z\r\n")).unwrap();
    s.handle_message(&line(":srv 353 me = #a :w\r\n")).unwrap();
    let b = forwarded(s.handle_message(&line(":srv 366 me #b :End\r\n")));
    assert_eq!(b, CommonMessage::UsersList { channel: "#b".to_string(), users: vec!["z".to_string()] });
    let a = forwarded(s.handle_message(&line(":srv 366 me #a :End\r\n")));
    assert_eq!(
        a,
        CommonMessage::UsersList {
            channel: "#a".to_string(),
            users: vec!["x".to_string(), "y".to_string(), "w".to_string()],
        }
    );
}

#[test]
fn names_listing_with_wrong_arity_is_a_protocol_error() {
    let mut s = Session::new();
    assert_eq!(s.handle_message(&line(":srv 353 me #c :a\r\n")).unwrap_err(), ProtocolError::WrongArity);
    assert_eq!(s.handle_message(&line(":srv 366 me\r\n")).unwrap_err(), ProtocolError::WrongArity);
}

#[test]
fn split_names_skips_empty_tokens() {
    assert_eq!(split_names(" a  b "), vec!["a".to_string(), "b".to_string()]);
    assert_eq!(split_names(""), Vec::<String>::new());
    assert_eq!(split_names("@op +voice"), vec!["@op".to_string(), "+voice".to_string()]);
}

#[test]
fn source_ping_is_answered_not_forwarded() {
    let mut s = Session::new();
    let pong = replied(s.handle_message(&line("PING :12341234\r\n")));
    assert_eq!(pong.raw(), "PONG 12341234\r\n");
    assert_eq!(s.handle_message(&line("PING\r\n")).unwrap_err(), ProtocolError::WrongArity);
}

#[test]
fn source_translates_chat_and_join() {
    let mut s = Session::new();
    let chat = forwarded(s.handle_message(&line(":n!u@h PRIVMSG #c :hi there\r\n")));
    assert_eq!(
        chat,
        CommonMessage::Chat { sender: "n!u@h".to_string(), channel: "#c".to_string(), content: "hi there".to_string() }
    );
    let join = forwarded(s.handle_message(&line(":n!u@h JOIN #c\r\n")));
    assert_eq!(join, CommonMessage::JoinedChannel { sender: "n!u@h".to_string(), channel: "#c".to_string() });
    assert_eq!(s.handle_message(&line("PRIVMSG #c :x\r\n")).unwrap_err(), ProtocolError::MissingPrefix);
}

#[test]
fn source_absorbs_welcome_end_and_drops_others() {
    let mut s = Session::new();
    assert!(matches!(s.handle_message(&line(":srv 376 me :End of MOTD\r\n")), Ok(Handled::Absorbed)));
    assert!(matches!(s.handle_message(&line(":srv 422 me :No MOTD\r\n")), Ok(Handled::Absorbed)));
    assert!(matches!(s.handle_message(&line(":srv NOTICE me :hello\r\n")), Ok(Handled::Unhandled)));
}

#[test]
fn handshake_sends_identity_then_nickname() {
    let h = Session::handshake();
    assert_eq!(h.len(), 2);
    assert_eq!(h[0].raw(), "USER test 0 * test\r\n");
    assert_eq!(h[1].raw(), "NICK testtest\r\n");
}

#[test]
fn source_outbound_translation() {
    let chat = CommonMessage::Chat { sender: "x".to_string(), channel: "#c".to_string(), content: "hey you".to_string() };
    assert_eq!(Session::convert_message(&chat).unwrap().raw(), "PRIVMSG #c :hey you\r\n");
    let join = CommonMessage::JoinChannel { channel: "#c".to_string() };
    assert_eq!(Session::convert_message(&join).unwrap().raw(), "JOIN #c\r\n");
    let users = CommonMessage::UsersList { channel: "#c".to_string(), users: vec![] };
    assert_eq!(Session::convert_message(&users).unwrap_err(), RoutingError::Unroutable);
    let joined = CommonMessage::JoinedChannel { sender: "a".to_string(), channel: "#c".to_string() };
    assert_eq!(Session::convert_message(&joined).unwrap_err(), RoutingError::Unroutable);
}

#[test]
fn sink_ping_is_answered_not_forwarded() {
    let pong = replied(handle_message(&line("PING 777\r\n")));
    assert_eq!(pong.raw(), ":irc.proxy PONG 777\r\n");
    assert_eq!(handle_message(&line("PING\r\n")).unwrap_err(), ProtocolError::WrongArity);
}

#[test]
fn sink_answers_registration_locally() {
    let motd = replied(handle_message(&line("USER a 0 * :Real Name\r\n")));
    assert_eq!(motd.raw(), ":irc.proxy 422 testtest :MOTD File is missing\r\n");
    assert!(matches!(handle_message(&line("CAP LS 302\r\n")), Ok(Handled::Absorbed)));
    assert!(matches!(handle_message(&line("NICK someone\r\n")), Ok(Handled::Absorbed)));
    assert!(matches!(handle_message(&line("MODE #c\r\n")), Ok(Handled::Unhandled)));
}

#[test]
fn sink_forwards_chat_and_join_requests() {
    let chat = forwarded(handle_message(&line(":me PRIVMSG #c :hello world\r\n")));
    assert_eq!(
        chat,
        CommonMessage::Chat { sender: "me".to_string(), channel: "#c".to_string(), content: "hello world".to_string() }
    );
    let join = forwarded(handle_message(&line("JOIN #c\r\n")));
    assert_eq!(join, CommonMessage::JoinChannel { channel: "#c".to_string() });
    assert_eq!(handle_message(&line("JOIN\r\n")).unwrap_err(), ProtocolError::WrongArity);
}

#[test]
fn sink_outbound_translation() {
    let chat = CommonMessage::Chat { sender: "n!u@h".to_string(), channel: "#c".to_string(), content: "hi".to_string() };
    let lines: Vec<String> = convert_message(&chat).unwrap().iter().map(|m| m.raw()).collect();
    assert_eq!(lines, vec![":n!u@h PRIVMSG #c hi\r\n".to_string()]);

    let joined = CommonMessage::JoinedChannel { sender: "srv.example".to_string(), channel: "#c".to_string() };
    let batch = convert_message(&joined).unwrap();
    assert_eq!(batch[0].prefix, Some(Prefix::Server("srv.example".to_string())));
    assert_eq!(batch[0].raw(), ":srv.example JOIN #c\r\n");

    let users = CommonMessage::UsersList { channel: "#c".to_string(), users: vec!["a".to_string(), "b".to_string()] };
    let lines: Vec<String> = convert_message(&users).unwrap().iter().map(|m| m.raw()).collect();
    assert_eq!(
        lines,
        vec![":irc.proxy 353 #c a b\r\n".to_string(), ":irc.proxy 366 #c :End of /NAMES list.\r\n".to_string()]
    );

    let request = CommonMessage::JoinChannel { channel: "#c".to_string() };
    assert_eq!(convert_message(&request).unwrap_err(), RoutingError::Unroutable);
    assert_eq!(server_prefix(), Prefix::Server("irc.proxy".to_string()));
}
