use bouncer::auth::check_auth;
use bouncer::bouncer::{Action, BouncerCore, Event};
use bouncer::error::{AuthError, SessionError};
use bouncer::history::History;
use bouncer::message::Message as CommonMessage;

fn chat() -> CommonMessage {
    CommonMessage::Chat { sender: "a".to_string(), channel: "#c".to_string(), content: "hi".to_string() }
}

#[test]
fn source_messages_are_broadcast_and_sink_messages_forwarded() {
    let mut core = BouncerCore::new();
    assert!(matches!(core.step(Event::FromSource(chat())), Action::Broadcast(m) if m == chat()));
    assert!(matches!(core.step(Event::Broadcasted { all_delivered: true }), Action::Continue));
    let join = CommonMessage::JoinChannel { channel: "#c".to_string() };
    assert!(matches!(core.step(Event::FromSink(join.clone())), Action::Forward(m) if m == join));
    assert!(matches!(core.step(Event::Forwarded { delivered: true }), Action::Continue));
    assert_eq!(core.ended(), None);
}

#[test]
fn losing_the_source_is_fatal() {
    let mut core = BouncerCore::new();
    assert!(matches!(core.step(Event::SourceEnded), Action::Halt(SessionError::SourceClosed)));
    assert_eq!(core.ended(), Some(SessionError::SourceClosed));
    assert!(matches!(core.step(Event::FromSink(chat())), Action::Halt(SessionError::SourceClosed)));
    assert!(matches!(core.step(Event::FromSource(chat())), Action::Halt(SessionError::SourceClosed)));
}

#[test]
fn failed_broadcast_or_forward_ends_the_session() {
    let mut core = BouncerCore::new();
    core.step(Event::FromSource(chat()));
    assert!(matches!(core.step(Event::Broadcasted { all_delivered: false }), Action::Halt(SessionError::BroadcastFailed)));
    let mut core = BouncerCore::new();
    core.step(Event::FromSink(chat()));
    assert!(matches!(core.step(Event::Forwarded { delivered: false }), Action::Halt(SessionError::ForwardFailed)));
    assert!(matches!(core.step(Event::SourceEnded), Action::Halt(SessionError::ForwardFailed)));
}

#[test]
fn history_accepts_everything_and_produces_nothing() {
    let h = History::new();
    assert_eq!(h.broadcast(&chat()), Ok(()));
    assert!(h.stream().is_empty());
}

#[test]
fn auth_requires_the_exact_bearer_token() {
    assert_eq!(check_auth(Some("Bearer some-secret-token")), Ok(()));
    assert_eq!(check_auth(Some("Bearer other")), Err(AuthError::Unauthenticated));
    assert_eq!(check_auth(Some("Bearer some-secret-token ")), Err(AuthError::Unauthenticated));
    assert_eq!(check_auth(None), Err(AuthError::Unauthenticated));
}
