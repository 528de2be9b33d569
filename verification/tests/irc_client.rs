use irc_bot::irc_client::{
    is_ping, pong_from_ping, session_start_lines, EventContextId, MessageContext, SessionId,
};

#[test]
fn event_tokens_round_trip() {
    assert_eq!(EventContextId::MpscQueue.to_token_number(), 0);
    assert_eq!(EventContextId::Session(SessionId { index: 0 }).to_token_number(), 1);
    assert_eq!(EventContextId::from_token_number(0), EventContextId::MpscQueue);
    assert_eq!(EventContextId::from_token_number(8), EventContextId::Session(SessionId { index: 7 }));
    for n in 0..50usize {
        assert_eq!(EventContextId::from_token_number(n).to_token_number(), n);
    }
}

#[test]
fn pings_and_pongs() {
    assert!(is_ping(b"PING"));
    assert!(!is_ping(b"PONG"));
    assert!(!is_ping(b"PINGS"));
    assert_eq!(pong_from_ping(b"PING :irc.example.net"), b"PONG :irc.example.net".to_vec());
}

#[test]
fn session_opening_lines() {
    let (nick, user) = session_start_lines("bot", None, None);
    assert_eq!(nick, "NICK bot");
    assert_eq!(user, "USER bot 8 * :Connected with <https://github.com/8573/irc-bot.rs> v0.2.1");
    let (_, user) = session_start_lines("bot", Some("u".to_owned()), Some("Real Name".to_owned()));
    assert_eq!(user, "USER u 8 * :Real Name");
    let ctx = MessageContext { session_id: SessionId { index: 3 } };
    assert_eq!(ctx.session_id(), SessionId { index: 3 });
}
