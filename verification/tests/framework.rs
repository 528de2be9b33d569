use irc_bot::framework::bot_cmd::{
    dispatch_command, line_action, screen_command_result, BotCmdAuthLvl, BotCmdResult, CommandDispatch, LineAction,
};
use irc_bot::framework::config::Admin;
use irc_bot::framework::err::FrameworkError;
use irc_bot::framework::irc_comm::{
    can_handle_reaction, error_reaction_msg, is_composable, privmsg_action, OutMsg, PrivmsgAction,
};
use irc_bot::framework::irc_msgs::MsgPrefix;
use irc_bot::framework::modl_data::{ModuleDataDir, ModuleDataProvider, NullModuleDataProvider};
use irc_bot::framework::modl_sys::{ModuleLoadMode, Registry};
use irc_bot::framework::null_sink::NullSink;
use irc_bot::framework::reaction::{flatten_reaction, ErrorReaction, LibReaction, Reaction};
use irc_bot::framework::sandbox::{activate, SandboxOperation};
use irc_bot::framework::state::{check_admin_cred, have_admin, have_owner, initial_msg_prefix, socket_addr_string};
use irc_bot::util::yaml::YamlNode;

fn prefix(nick: Option<&str>, user: Option<&str>, host: Option<&str>) -> MsgPrefix {
    MsgPrefix {
        nick: nick.map(str::to_owned),
        user: user.map(str::to_owned),
        host: host.map(str::to_owned),
    }
}

fn registry_with_default() -> Registry {
    let mut reg = Registry::new();
    reg.load_module(&irc_bot::modules::default::mk(), ModuleLoadMode::Add).unwrap();
    reg
}

fn admin(nick: &str) -> Admin {
    Admin { nick: Some(nick.to_owned()), user: None, host: None }
}

#[test]
fn dispatch_unknown_command_is_not_found() {
    let reg = registry_with_default();
    let r = dispatch_command(&reg, &[], "nope", "", &prefix(Some("a"), None, None));
    assert!(matches!(r, CommandDispatch::NotFound));
}

#[test]
fn dispatch_public_command_runs_with_empty_mapping() {
    let reg = registry_with_default();
    match dispatch_command(&reg, &[], "ping", "", &prefix(Some("a"), None, None)) {
        CommandDispatch::Run(YamlNode::Hash(entries)) => assert!(entries.is_empty()),
        other => panic!("unexpected {:?}", other),
    }
}

#[test]
fn dispatch_admin_command_refuses_strangers() {
    let reg = registry_with_default();
    let admins = vec![admin("boss")];
    let r = dispatch_command(&reg, &admins, "join", "'#c'", &prefix(Some("a"), None, None));
    assert!(matches!(r, CommandDispatch::Respond(BotCmdResult::Unauthorized)));
}

#[test]
fn dispatch_admin_command_runs_for_admins() {
    let reg = registry_with_default();
    let admins = vec![admin("boss")];
    match dispatch_command(&reg, &admins, "join", "'#c'", &prefix(Some("boss"), Some("u"), Some("h"))) {
        CommandDispatch::Run(YamlNode::String(s)) => assert_eq!(s, "#c"),
        other => panic!("unexpected {:?}", other),
    }
}

#[test]
fn dispatch_bad_yaml_is_a_syntax_error() {
    let reg = registry_with_default();
    let r = dispatch_command(&reg, &[], "help", "{", &prefix(Some("a"), None, None));
    assert!(matches!(r, CommandDispatch::Respond(BotCmdResult::SyntaxErr)));
}

#[test]
fn dispatch_wrong_argument_type_is_a_library_error() {
    let reg = registry_with_default();
    let r = dispatch_command(&reg, &[], "help", "cmd: [x]", &prefix(Some("a"), None, None));
    assert!(matches!(r, CommandDispatch::Respond(BotCmdResult::LibErr(FrameworkError::YamlUtil(_)))));
}

#[test]
fn screen_refuses_quit_from_public_command() {
    let r = screen_command_result("foo", "m", BotCmdAuthLvl::Public, BotCmdResult::Done(Reaction::Quit(Some("bye".to_owned()))));
    match r {
        BotCmdResult::BotErrMsg(s) => assert_eq!(
            s,
            "Only commands at authorization level Admin may tell the bot to quit, but the command \"foo\" from module \
             \"m\", at authorization level Public, has told the bot to quit with quit message Some(\"bye\")."
        ),
        other => panic!("unexpected {:?}", other),
    }
    let r = screen_command_result("foo", "m", BotCmdAuthLvl::Public, BotCmdResult::Done(Reaction::Quit(None)));
    match r {
        BotCmdResult::BotErrMsg(s) => assert!(s.ends_with("with quit message None.")),
        other => panic!("unexpected {:?}", other),
    }
}

#[test]
fn screen_passes_admin_quit_and_other_results() {
    let r = screen_command_result("quit", "default", BotCmdAuthLvl::Admin, BotCmdResult::Done(Reaction::Quit(None)));
    assert!(matches!(r, BotCmdResult::Done(Reaction::Quit(None))));
    let r = screen_command_result("ping", "default", BotCmdAuthLvl::Public, BotCmdResult::Done(Reaction::Reply("pong".to_owned())));
    assert!(matches!(r, BotCmdResult::Done(Reaction::Reply(ref s)) if s == "pong"));
}

#[test]
fn flatten_keeps_the_order_given() {
    let r: LibReaction<u32> = LibReaction::Multi(vec![
        LibReaction::RawMsg(1),
        LibReaction::Multi(vec![LibReaction::RawMsg(2), LibReaction::Nothing, LibReaction::RawMsg(3)]),
        LibReaction::Nothing,
        LibReaction::RawMsg(4),
    ]);
    assert_eq!(flatten_reaction(r), vec![1, 2, 3, 4]);
    assert_eq!(flatten_reaction::<u32>(LibReaction::Nothing), Vec::<u32>::new());
}

#[test]
fn error_reactions_become_quits_or_nothing() {
    assert!(error_reaction_msg(ErrorReaction::Proceed).is_none());
    match error_reaction_msg(ErrorReaction::Quit(Some("x".to_owned()))) {
        Some(LibReaction::RawMsg(OutMsg::Quit(Some(m)))) => assert_eq!(m, "x"),
        other => panic!("unexpected {:?}", other),
    }
    match error_reaction_msg(ErrorReaction::Quit(None)) {
        Some(LibReaction::RawMsg(OutMsg::Quit(Some(m)))) => {
            assert_eq!(m, "Built with <https://github.com/8573/irc-bot.rs> v0.2.1")
        }
        other => panic!("unexpected {:?}", other),
    }
}

#[test]
fn admin_credentials() {
    assert!(check_admin_cred(Some("a"), &None));
    assert!(check_admin_cred(None, &None));
    assert!(check_admin_cred(Some("a"), &Some("a".to_owned())));
    assert!(!check_admin_cred(Some("a"), &Some("b".to_owned())));
    assert!(!check_admin_cred(None, &Some("b".to_owned())));
    let admins = vec![Admin { nick: Some("n".to_owned()), user: Some("u".to_owned()), host: None }];
    assert!(have_admin(&admins, &prefix(Some("n"), Some("u"), Some("anywhere"))));
    assert!(!have_admin(&admins, &prefix(Some("n"), Some("v"), Some("anywhere"))));
    assert!(!have_admin(&admins, &prefix(Some("n"), None, None)));
    assert!(!have_admin(&[], &prefix(Some("n"), Some("u"), None)));
    let everyone = vec![Admin { nick: None, user: None, host: None }];
    assert!(have_admin(&everyone, &prefix(None, None, None)));
}

#[test]
fn owner_policies() {
    let owners = Some(vec!["alice".to_owned()]);
    assert_eq!(have_owner(None, &owners, &prefix(Some("alice"), Some("x"), None)).unwrap(), true);
    assert_eq!(have_owner(Some("nick-only"), &owners, &prefix(Some("bob"), Some("alice"), None)).unwrap(), false);
    assert_eq!(have_owner(Some("user-only"), &owners, &prefix(Some("bob"), Some("alice"), None)).unwrap(), true);
    assert_eq!(have_owner(Some("nick+user"), &owners, &prefix(Some("alice"), Some("x"), None)).unwrap(), false);
    assert_eq!(have_owner(Some("nick+user"), &owners, &prefix(Some("alice"), Some("alice"), None)).unwrap(), true);
    assert_eq!(have_owner(None, &None, &prefix(Some("alice"), None, None)).unwrap(), false);
    match have_owner(Some("bad"), &owners, &prefix(Some("alice"), None, None)) {
        Err(FrameworkError::Config(k, p)) => {
            assert_eq!(k, "owner-auth-check-policy");
            assert_eq!(p, "is not `nick+user`, `nick-only`, or `user-only`");
        }
        other => panic!("unexpected {:?}", other),
    }
}

#[test]
fn server_addresses_and_prefixes() {
    assert_eq!(socket_addr_string(Some("irc.example.net"), Some(6667)), "irc.example.net:6667");
    assert_eq!(socket_addr_string(Some("h"), None), "h:<unknown port>");
    assert_eq!(socket_addr_string(None, Some(0)), "<unknown hostname>:0");
    assert_eq!(socket_addr_string(None, None), "<unknown hostname>:<unknown port>");
    assert_eq!(initial_msg_prefix("bot", "user"), "bot!user@");
}

#[test]
fn sandbox_profiles() {
    match activate(Some("/data".to_owned()), true) {
        Ok(ops) => assert_eq!(ops, vec![SandboxOperation::NetworkOutbound, SandboxOperation::FileReadAll("/data".to_owned())]),
        Err(e) => panic!("unexpected {:?}", e),
    }
    match activate(None, true) {
        Ok(ops) => assert_eq!(ops, vec![SandboxOperation::NetworkOutbound]),
        Err(e) => panic!("unexpected {:?}", e),
    }
    let e = activate(Some("/data".to_owned()), false).unwrap_err();
    assert!(matches!(e, FrameworkError::SandboxUnsupported));
    assert_eq!(e.message(), "Sandboxing is not supported on this platform.");
}

#[test]
fn module_data_providers() {
    let null = NullModuleDataProvider;
    assert!(matches!(null.read_str("x"), Err(FrameworkError::NotFound)));
    assert!(matches!(null.read_bytes("x"), Err(FrameworkError::NotFound)));
    assert!(null.fs_path().is_none());
    let dir = ModuleDataDir::new("data/dir".to_owned());
    assert_eq!(dir.fs_path(), "data/dir");
    let mut sink = NullSink;
    assert!(sink.start_send(OutMsg::Raw("PING :x".to_owned())).is_ok());
    assert!(sink.poll_complete().is_ok());
}

#[test]
fn error_messages() {
    let e = FrameworkError::Config("nickname".to_owned(), "is empty".to_owned());
    assert_eq!(e.message(), "Configuration error: Key \"nickname\" is empty.");
    assert_eq!(FrameworkError::NotFound.message(), "entity not found");
    assert_eq!(FrameworkError::SandboxFailed.message(), "Failed to activate the sandbox.");
    assert_eq!(
        FrameworkError::LockPoisoned("the regex".to_owned()).message(),
        "A thread panicked, poisoning a lock around the regex."
    );
}

#[test]
fn privmsg_actions() {
    let chars = [':', ','];
    let other = prefix(Some("alice"), Some("a"), Some("h"));
    assert_eq!(privmsg_action(&chars, &other, "#c", "hello", "bot"), PrivmsgAction::Ignore);
    assert_eq!(privmsg_action(&chars, &other, "#c", "bot: hi", "bot"), PrivmsgAction::Handle);
    assert_eq!(privmsg_action(&chars, &other, "bot", "hi", "bot"), PrivmsgAction::Handle);
    let me = prefix(Some("bot"), Some("b"), Some("host"));
    assert_eq!(privmsg_action(&chars, &me, "bot", " !!! UPDATE MESSAGE PREFIX !!! ", "bot"), PrivmsgAction::UpdatePrefix);
    assert_eq!(privmsg_action(&chars, &other, "bot", "!!! UPDATE MESSAGE PREFIX !!!", "bot"), PrivmsgAction::Handle);
}

#[test]
fn composability() {
    assert!(is_composable(20, ": ", "#c", "alice", "hello there"));
    let long_ascii = format!("{} x", "a".repeat(600));
    assert!(is_composable(0, ": ", "t", "", &long_ascii));
    let long_wide = format!("{} x", "\u{e9}".repeat(300));
    assert!(!is_composable(0, ": ", "t", "", &long_wide));
    let r = Reaction::Reply("hi".to_owned());
    assert!(can_handle_reaction(20, ": ", "bot", Some("alice"), "#c", &r));
    assert!(can_handle_reaction(20, ": ", "bot", Some("alice"), "bot", &r));
    assert!(!can_handle_reaction(20, ": ", "bot", None, "bot", &r));
    assert!(!can_handle_reaction(600, ": ", "bot", Some("alice"), "#c", &r));
    let wide = Reaction::Msgs(vec!["ok".to_owned(), long_wide]);
    assert!(!can_handle_reaction(0, ": ", "bot", Some("alice"), "t", &wide));
}

#[test]
fn lines_go_to_commands_then_triggers() {
    let reg = registry_with_default();
    let who = prefix(Some("a"), None, None);
    match line_action(&reg, &[], "ping", &who) {
        LineAction::Command(name, CommandDispatch::Run(YamlNode::Hash(entries))) => {
            assert_eq!(name, "ping");
            assert!(entries.is_empty());
        }
        other => panic!("unexpected {:?}", other),
    }
    match line_action(&reg, &[], "join '#c'", &who) {
        LineAction::Command(name, CommandDispatch::Respond(BotCmdResult::Unauthorized)) => assert_eq!(name, "join"),
        other => panic!("unexpected {:?}", other),
    }
    match line_action(&reg, &[], "", &who) {
        LineAction::Trigger(i) => assert_eq!(reg.triggers()[i].name, "yes?"),
        other => panic!("unexpected {:?}", other),
    }
    assert!(matches!(line_action(&reg, &[], "hello there", &who), LineAction::Nothing));
}
