use bouncer::irc::message::{Message, Prefix};

#[test]
fn test_parse_simple() {
    let message = Message::from_raw("NICK test\r\n".into()).unwrap();

    assert_eq!(message.command, "NICK");
    assert_eq!(message.args.len(), 1);
    assert_eq!(message.args[0], "test");
}

#[test]
fn test_parse_trailing() {
    let message = Message::from_raw("PRIVMSG #test :test test\r\n".into()).unwrap();

    assert_eq!(message.command, "PRIVMSG");
    assert_eq!(message.args.len(), 2);
    assert_eq!(message.args[0], "#test");
    assert_eq!(message.args[1], "test test");
}

#[test]
fn test_parse_prefix() {
    let message = Message::from_raw(":test@test PRIVMSG #test :test test\r\n".into()).unwrap();

    assert!(message.prefix == Some(Prefix::User("test@test".into())));
    assert_eq!(message.command, "PRIVMSG");
    assert_eq!(message.args.len(), 2);
    assert_eq!(message.args[0], "#test");
    assert_eq!(message.args[1], "test test");
}

#[test]
fn test_parse_prefix_server() {
    let message = Message::from_raw(":server1.com PRIVMSG #test :test test\r\n".into()).unwrap();

    assert!(message.prefix == Some(Prefix::Server("server1.com".into())));
    assert_eq!(message.command, "PRIVMSG");
    assert_eq!(message.args.len(), 2);
    assert_eq!(message.args[0], "#test");
    assert_eq!(message.args[1], "test test");
}

#[test]
fn test_raw_simple() {
    let message = Message::new(None, "PING", vec!["12341234"]);

    assert_eq!(message.raw(), "PING 12341234\r\n");
}

#[test]
fn test_raw_trailing() {
    let message = Message::new(Some(Prefix::from_raw("test@test".into())), "PRIVMSG", vec!["#test", "test test"]);

    assert_eq!(message.raw(), ":test@test PRIVMSG #test :test test\r\n");
}

#[test]
fn test_raw_prefix() {
    let message = Message::new(Some(Prefix::from_raw("test@test".into())), "PING", vec!["12341234"]);

    assert_eq!(message.raw(), ":test@test PING 12341234\r\n");
}

#[test]
fn message_test_parse_simple() {
    let message = Message::from_raw("NICK test\r\n".into()).unwrap();

    assert_eq!(message.command, "NICK");
    assert_eq!(message.args.len(), 1);
    assert_eq!(message.args[0], "test");
}

#[test]
fn message_test_parse_trailing() {
    let message = Message::from_raw("PRIVMSG #test :test test\r\n".into()).unwrap();

    assert_eq!(message.command, "PRIVMSG");
    assert_eq!(message.args.len(), 2);
    assert_eq!(message.args[0], "#test");
    assert_eq!(message.args[1], "test test");
}

#[test]
fn message_test_parse_prefix() {
    let message = Message::from_raw(":test@test PRIVMSG #test :test test\r\n".into()).unwrap();

    assert!(message.prefix == Some(Prefix::User("test@test".into())));
    assert_eq!(message.command, "PRIVMSG");
    assert_eq!(message.args.len(), 2);
    assert_eq!(message.args[0], "#test");
    assert_eq!(message.args[1], "test test");
}

#[test]
fn message_test_parse_prefix_server() {
    let message = Message::from_raw(":server1.com PRIVMSG #test :test test\r\n".into()).unwrap();

    assert!(message.prefix == Some(Prefix::Server("server1.com".into())));
    assert_eq!(message.command, "PRIVMSG");
    assert_eq!(message.args.len(), 2);
    assert_eq!(message.args[0], "#test");
    assert_eq!(message.args[1], "test test");
}

#[test]
fn message_test_raw_simple() {
    let message = Message::new(None, "PING", vec!["12341234"]);

    assert_eq!(message.raw(), "PING 12341234\r\n");
}

#[test]
fn message_test_raw_trailing() {
    let message = Message::new(Some(Prefix::from_raw("test@test".into())), "PRIVMSG", vec!["#test", "test test"]);

    assert_eq!(message.raw(), ":test@test PRIVMSG #test :test test\r\n");
}

#[test]
fn message_test_raw_prefix() {
    let message = Message::new(Some(Prefix::from_raw("test@test".into())), "PING", vec!["12341234"]);

    assert_eq!(message.raw(), ":test@test PING 12341234\r\n");
}
