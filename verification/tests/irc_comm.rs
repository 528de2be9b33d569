use irc_bot::framework::bot_cmd::BotCmdResult;
use irc_bot::framework::irc_comm::{
    bot_command_reaction, compose_msg, compose_msgs, handle_reaction, mk_quit, privmsg_content_max_len,
    send_msg_prefix_update_request, split_cmd_line, wrap_msg, OutMsg,
};
use irc_bot::framework::irc_msgs::{is_msg_to_nick, parse_msg_to_nick, parse_prefix, MsgPrefix};
use irc_bot::framework::reaction::{flatten_reaction, LibReaction, Reaction};

fn privmsgs(r: Option<LibReaction<OutMsg>>) -> Vec<(String, String)> {
    match r {
        None => Vec::new(),
        Some(r) => flatten_reaction(r)
            .into_iter()
            .map(|m| match m {
                OutMsg::Privmsg { target, text } => (target, text),
                other => panic!("unexpected {:?}", other),
            })
            .collect(),
    }
}

#[test]
fn content_limits() {
    assert_eq!(privmsg_content_max_len(0, "#c"), 496);
    assert_eq!(privmsg_content_max_len(20, "#chan"), 473);
}

#[test]
fn short_messages_are_not_wrapped() {
    assert_eq!(wrap_msg(20, "#c", "hello world"), vec!["hello world".to_owned()]);
}

#[test]
fn long_messages_are_wrapped_at_words() {
    let word = "abcdefghi";
    let msg = vec![word; 100].join(" ");
    let limit = privmsg_content_max_len(0, "#c");
    let lines = wrap_msg(0, "#c", &msg);
    assert!(lines.len() >= 2);
    for l in &lines {
        assert!(l.len() < limit);
        assert!(!l.starts_with(' ') && !l.ends_with(' '));
        assert!(l.split(' ').all(|w| w == word));
    }
    assert_eq!(lines.join(" "), msg);
}

#[test]
fn overlong_words_are_cut_at_the_limit() {
    let msg = format!("{} tail", "x".repeat(1000));
    let limit = privmsg_content_max_len(0, "#c");
    let lines = wrap_msg(0, "#c", &msg);
    assert_eq!(lines[0], "x".repeat(limit));
    assert_eq!(lines[1], "x".repeat(limit));
    assert_eq!(lines[2], format!("{} tail", "x".repeat(1000 - 2 * limit)));
    assert_eq!(lines.len(), 3);
}

#[test]
fn wrapped_lines_keep_the_text() {
    let msg = format!("  {}  {}  ", "one two three ".repeat(60), "x".repeat(600));
    let limit = privmsg_content_max_len(0, "#c");
    let lines = wrap_msg(0, "#c", &msg);
    assert!(lines.len() >= 2);
    for l in &lines[..lines.len() - 1] {
        assert!(l.len() <= limit);
    }
    let kept: String = lines.concat().split_whitespace().collect();
    let all: String = msg.split_whitespace().collect();
    assert_eq!(kept, all);
}

#[test]
fn a_trailing_run_without_whitespace_stays_whole() {
    let msg = format!("a b {}", "y".repeat(1000));
    let limit = privmsg_content_max_len(0, "#c");
    let lines = wrap_msg(0, "#c", &msg);
    assert_eq!(lines, vec![msg.clone()]);
    assert!(lines[0].len() > limit);
}

#[test]
fn composed_replies_are_addressed_and_split_by_line() {
    let r = compose_msg(20, ": ", "#c", "alice", "one\ntwo");
    assert_eq!(
        privmsgs(r),
        vec![("#c".to_owned(), "alice: one".to_owned()), ("#c".to_owned(), "two".to_owned())]
    );
    let r = compose_msg(20, ": ", "#c", "", "plain");
    assert_eq!(privmsgs(r), vec![("#c".to_owned(), "plain".to_owned())]);
    let r = compose_msgs(20, ": ", "#c", "", &vec!["a".to_owned(), "".to_owned(), "b".to_owned()]);
    assert_eq!(
        privmsgs(r),
        vec![("#c".to_owned(), "a".to_owned()), ("#c".to_owned(), "b".to_owned())]
    );
}

#[test]
fn quitting() {
    match mk_quit(Some("bye".to_owned())) {
        LibReaction::RawMsg(OutMsg::Quit(Some(m))) => assert_eq!(m, "bye"),
        other => panic!("unexpected {:?}", other),
    }
    match mk_quit(None) {
        LibReaction::RawMsg(OutMsg::Quit(Some(m))) => assert_eq!(m, "Built with <https://github.com/8573/irc-bot.rs> v0.2.1"),
        other => panic!("unexpected {:?}", other),
    }
}

#[test]
fn prefix_update_request() {
    let r = send_msg_prefix_update_request("bot");
    assert_eq!(privmsgs(Some(r)), vec![("bot".to_owned(), "!!! UPDATE MESSAGE PREFIX !!!".to_owned())]);
}

fn reaction_text(r: Reaction) -> String {
    match r {
        Reaction::Msg(s) => s,
        other => panic!("unexpected {:?}", other),
    }
}

#[test]
fn command_result_replies() {
    assert_eq!(
        reaction_text(bot_command_reaction("join", BotCmdResult::Unauthorized)),
        "My apologies, but you do not appear to have sufficient authority to use my \"join\" command."
    );
    assert_eq!(
        reaction_text(bot_command_reaction("join", BotCmdResult::SyntaxErr)),
        "Syntax error. Try my `help` command."
    );
    assert_eq!(
        reaction_text(bot_command_reaction("part", BotCmdResult::ArgMissing("channel".to_owned()))),
        "Syntax error: For command \"part\", the argument \"channel\" is required, but it was not given."
    );
    assert_eq!(
        reaction_text(bot_command_reaction("part", BotCmdResult::ArgMissing1To1("channel".to_owned()))),
        "Syntax error: When command \"part\" is used outside of a channel, the argument \"channel\" is required, but it was not given."
    );
    assert_eq!(
        reaction_text(bot_command_reaction("x", BotCmdResult::UserErrMsg("oops".to_owned()))),
        "User error: oops"
    );
    assert_eq!(
        reaction_text(bot_command_reaction("x", BotCmdResult::BotErrMsg("oops".to_owned()))),
        "Internal error: oops"
    );
    assert!(matches!(
        bot_command_reaction("ping", BotCmdResult::Done(Reaction::Reply("pong".to_owned()))),
        Reaction::Reply(ref s) if s == "pong"
    ));
}

#[test]
fn reactions_to_channel_and_private_messages() {
    let r = handle_reaction(20, ": ", "bot", Some("alice"), "#c", Reaction::Reply("hi".to_owned()));
    assert_eq!(privmsgs(r), vec![("#c".to_owned(), "alice: hi".to_owned())]);
    let r = handle_reaction(20, ": ", "bot", Some("alice"), "bot", Reaction::Reply("hi".to_owned()));
    assert_eq!(privmsgs(r), vec![("alice".to_owned(), "hi".to_owned())]);
    let r = handle_reaction(20, ": ", "bot", Some("alice"), "#c", Reaction::Msg("hi".to_owned()));
    assert_eq!(privmsgs(r), vec![("#c".to_owned(), "hi".to_owned())]);
    assert!(handle_reaction(20, ": ", "bot", Some("alice"), "#c", Reaction::Nothing).is_none());
    match handle_reaction(20, ": ", "bot", Some("alice"), "#c", Reaction::RawMsg("JOIN #x".to_owned())) {
        Some(LibReaction::RawMsg(OutMsg::Raw(m))) => assert_eq!(m, "JOIN #x"),
        other => panic!("unexpected {:?}", other),
    }
}

#[test]
fn command_lines() {
    assert_eq!(split_cmd_line("quote s: rabbit "), ("quote".to_owned(), "s: rabbit".to_owned()));
    assert_eq!(split_cmd_line("ping"), ("ping".to_owned(), "".to_owned()));
    assert_eq!(split_cmd_line(""), ("".to_owned(), "".to_owned()));
}

#[test]
fn message_prefixes() {
    let p = parse_prefix(&Some("nick!user@host.example".to_owned()));
    assert_eq!(
        p,
        MsgPrefix { nick: Some("nick".to_owned()), user: Some("user".to_owned()), host: Some("host.example".to_owned()) }
    );
    let p = parse_prefix(&Some("irc.example.net".to_owned()));
    assert_eq!(p.host, Some("irc.example.net".to_owned()));
    assert_eq!(p.nick, Some("".to_owned()));
    assert_eq!(p.user, None);
    let p = parse_prefix(&None);
    assert_eq!(p, MsgPrefix { nick: None, user: None, host: None });
}

#[test]
fn messages_to_the_bot() {
    let chars = [':', ','];
    assert!(is_msg_to_nick(&chars, "bot", "anything", "bot"));
    assert!(is_msg_to_nick(&chars, "#c", "bot", "bot"));
    assert!(is_msg_to_nick(&chars, "#c", "bot: hi", "bot"));
    assert!(is_msg_to_nick(&chars, "#c", "bot, hi", "bot"));
    assert!(!is_msg_to_nick(&chars, "#c", "botany is fun", "bot"));
    assert!(!is_msg_to_nick(&chars, "#c", "hi bot", "bot"));
    assert_eq!(parse_msg_to_nick(&chars, "#c", "bot:: quote  ", "bot"), Some("quote".to_owned()));
    assert_eq!(parse_msg_to_nick(&chars, "#c", "hello", "bot"), None);
    assert_eq!(parse_msg_to_nick(&chars, "bot", "help", "bot"), Some("help".to_owned()));
}
