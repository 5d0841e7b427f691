use bouncer::error::ProtocolError;
use bouncer::irc::command::same_text;
use bouncer::irc::message::{has_char, is_control, Message, Prefix};
use bouncer::message::Message as CommonMessage;

#[test]
fn parse_chat_post_splits_trailing_argument() {
    let m = Message::from_raw("PRIVMSG #test :test test\r\n".to_string()).unwrap();
    assert!(m.prefix.is_none());
    assert_eq!(m.command, "PRIVMSG");
    assert_eq!(m.args, vec!["#test".to_string(), "test test".to_string()]);
}

#[test]
fn parse_user_prefix() {
    let m = Message::from_raw(":test@test PRIVMSG #test :hi\r\n".to_string()).unwrap();
    assert_eq!(m.prefix, Some(Prefix::User("test@test".to_string())));
    assert_eq!(m.args, vec!["#test".to_string(), "hi".to_string()]);
}

#[test]
fn parse_server_prefix() {
    let m = Message::from_raw(":server1.com PRIVMSG #test :hi\r\n".to_string()).unwrap();
    assert_eq!(m.prefix, Some(Prefix::Server("server1.com".to_string())));
}

#[test]
fn parse_without_command_is_a_protocol_error() {
    for line in ["", "\r\n", "   \r\n", ":only.prefix\r\n", ": \r\n"] {
        let r = Message::from_raw(line.to_string());
        assert_eq!(r.unwrap_err(), ProtocolError::MissingCommand, "line {:?}", line);
    }
}

#[test]
fn parse_trims_control_characters_at_both_ends() {
    let m = Message::from_raw("\x01PING abc\x7f\r\n".to_string()).unwrap();
    assert_eq!(m.command, "PING");
    assert_eq!(m.args, vec!["abc".to_string()]);
}

#[test]
fn parse_keeps_empty_tokens_between_single_spaces() {
    let m = Message::from_raw("CMD a  b \r\n".to_string()).unwrap();
    assert_eq!(m.args, vec!["a".to_string(), "".to_string(), "b".to_string(), "".to_string()]);
}

#[test]
fn parse_trailing_absorbs_rest_of_line() {
    let m = Message::from_raw("CMD a :b :c  d\r\n".to_string()).unwrap();
    assert_eq!(m.args, vec!["a".to_string(), "b :c  d".to_string()]);
}

#[test]
fn parse_handles_non_ascii_text() {
    let m = Message::from_raw(":nick!u@h PRIVMSG #café :héllo wörld\r\n".to_string()).unwrap();
    assert_eq!(m.prefix, Some(Prefix::User("nick!u@h".to_string())));
    assert_eq!(m.args, vec!["#café".to_string(), "héllo wörld".to_string()]);
}

#[test]
fn serialize_without_arguments_has_no_trailing_space() {
    let m = Message::new(None, "PING", vec![]);
    assert_eq!(m.raw(), "PING\r\n");
}

#[test]
fn serialize_drops_arguments_after_a_spaced_one() {
    let m = Message::new(None, "CMD", vec!["a b", "c"]);
    assert_eq!(m.raw(), "CMD :a b\r\n");
}

#[test]
fn serialize_empty_last_argument_as_bare_token() {
    let m = Message::new(None, "CMD", vec!["a", ""]);
    assert_eq!(m.raw(), "CMD a \r\n");
    let back = Message::from_raw(m.raw()).unwrap();
    assert_eq!(back.args, vec!["a".to_string(), "".to_string()]);
}

#[test]
fn round_trip_keeps_the_message() {
    let cases = vec![
        Message::new(Some(Prefix::from_raw("nick!user@host".to_string())), "PRIVMSG", vec!["#c", "hello there"]),
        Message::new(Some(Prefix::from_raw("irc.example.org".to_string())), "353", vec!["me", "=", "#c", "a b c"]),
        Message::new(None, "JOIN", vec!["#c"]),
        Message::new(None, "PING", vec![]),
        Message::new(None, "CMD", vec!["", "x", ""]),
    ];
    for m in cases {
        let back = Message::from_raw(m.raw()).unwrap();
        assert_eq!(back.prefix, m.prefix);
        assert_eq!(back.command, m.command);
        assert_eq!(back.args, m.args);
    }
}

#[test]
fn round_trip_fails_for_a_bare_argument_opening_with_colon() {
    let m = Message::new(None, "CMD", vec![":x"]);
    let back = Message::from_raw(m.raw()).unwrap();
    assert_eq!(back.args, vec!["x".to_string()]);
}

#[test]
fn prefix_classification() {
    assert_eq!(Prefix::from_raw("server1.com".to_string()), Prefix::Server("server1.com".to_string()));
    assert_eq!(Prefix::from_raw("nick!user@host.com".to_string()), Prefix::User("nick!user@host.com".to_string()));
    assert_eq!(Prefix::from_raw("user@host.com".to_string()), Prefix::Server("user@host.com".to_string()));
    assert_eq!(Prefix::from_raw("nick".to_string()), Prefix::User("nick".to_string()));
    assert_eq!(Prefix::from_raw("test@test".to_string()).raw(), "test@test");
    assert_eq!(Prefix::Server("a.b".to_string()).raw(), "a.b");
}

#[test]
fn character_helpers() {
    assert!(is_control('\r'));
    assert!(is_control('\u{85}'));
    assert!(!is_control(' '));
    assert!(!is_control('\u{a0}'));
    assert!(has_char("a b", ' '));
    assert!(!has_char("ab", ' '));
    assert!(same_text("PING", "PING"));
    assert!(!same_text("PING", "PONG"));
    assert!(!same_text("PING", "PIN"));
}

#[test]
fn into_message_reads_chat_and_join() {
    let post = Message::from_raw(":a!b@c PRIVMSG #c :hi all\r\n".to_string()).unwrap();
    assert_eq!(
        post.into_message(),
        Ok(CommonMessage::Chat { sender: "a!b@c".to_string(), channel: "#c".to_string(), content: "hi all".to_string() })
    );
    let join = Message::from_raw(":a!b@c JOIN #c\r\n".to_string()).unwrap();
    assert_eq!(
        join.into_message(),
        Ok(CommonMessage::JoinedChannel { sender: "a!b@c".to_string(), channel: "#c".to_string() })
    );
}

#[test]
fn into_message_errors() {
    let no_prefix = Message::from_raw("PRIVMSG #c :hi\r\n".to_string()).unwrap();
    assert_eq!(no_prefix.into_message(), Err(ProtocolError::MissingPrefix));
    let short = Message::from_raw(":a PRIVMSG #c\r\n".to_string()).unwrap();
    assert_eq!(short.into_message(), Err(ProtocolError::WrongArity));
    let other = Message::from_raw(":a NOTICE #c :x\r\n".to_string()).unwrap();
    assert_eq!(other.into_message(), Err(ProtocolError::UnknownCommand));
}

#[test]
fn from_message_writes_chat_and_join() {
    let chat = CommonMessage::Chat { sender: "me".to_string(), channel: "#c".to_string(), content: "hi there".to_string() };
    assert_eq!(Message::from_message(chat).raw(), "PRIVMSG #c :hi there\r\n");
    let join = CommonMessage::JoinChannel { channel: "#c".to_string() };
    assert_eq!(Message::from_message(join).raw(), "JOIN #c\r\n");
}
