use irc_bot::framework::bot_cmd::BotCmdResult;
use irc_bot::framework::err::FrameworkError;
use irc_bot::framework::modl_sys::{mk_module, ModuleFeature, ModuleLoadMode, Registry};
use irc_bot::framework::bot_cmd::BotCmdAuthLvl;
use irc_bot::framework::pkg_info::{brief_credits_string, choose_displayable, framework_crate_name, framework_homepage_url_str, framework_version_str};
use irc_bot::framework::reaction::Reaction;
use irc_bot::framework::trigger::{find_matching_trigger, TriggerPriority};
use irc_bot::modules::all;
use irc_bot::util::yaml::{mk_map, mk_str, parse_node, YamlNode};

fn arg(text: &str) -> YamlNode {
    parse_node(text).unwrap().unwrap_or(mk_map(Vec::new()))
}

fn reply(r: BotCmdResult) -> String {
    match r {
        BotCmdResult::Done(Reaction::Reply(s)) => s,
        BotCmdResult::Done(Reaction::Msg(s)) => s,
        other => panic!("unexpected {:?}", other),
    }
}

fn loaded() -> Registry {
    let mut reg = Registry::new();
    reg.load_modules(&all(), ModuleLoadMode::Add).unwrap();
    reg
}

#[test]
fn default_module_commands() {
    match irc_bot::modules::default::join(&mk_str("#rust")) {
        BotCmdResult::Done(Reaction::RawMsg(m)) => assert_eq!(m, "JOIN #rust"),
        other => panic!("unexpected {:?}", other),
    }
    match irc_bot::modules::default::part(&arg("{msg: bye}"), "#rust", Some("bot")) {
        BotCmdResult::Done(Reaction::RawMsg(m)) => assert_eq!(m, "PART #rust :bye"),
        other => panic!("unexpected {:?}", other),
    }
    match irc_bot::modules::default::part(&arg("chan: '#other'"), "#rust", Some("bot")) {
        BotCmdResult::Done(Reaction::RawMsg(m)) => assert_eq!(m, "PART #other"),
        other => panic!("unexpected {:?}", other),
    }
    match irc_bot::modules::default::part(&arg(""), "bot", Some("bot")) {
        BotCmdResult::ArgMissing1To1(a) => assert_eq!(a, "channel"),
        other => panic!("unexpected {:?}", other),
    }
    assert!(matches!(irc_bot::modules::default::quit(&arg("")), BotCmdResult::Done(Reaction::Quit(None))));
    match irc_bot::modules::default::quit(&arg("msg: see you")) {
        BotCmdResult::Done(Reaction::Quit(Some(m))) => assert_eq!(m, "see you"),
        other => panic!("unexpected {:?}", other),
    }
    assert_eq!(reply(irc_bot::modules::default::ping()), "pong");
    assert_eq!(
        reply(irc_bot::modules::default::bot_fw_info()),
        "This bot was built with `irc-bot.rs`, version 0.2.1; see <https://github.com/8573/irc-bot.rs>."
    );
    assert!(matches!(irc_bot::modules::default::empty_msg_trigger(), Reaction::Msg(ref m) if m == "Yes?"));
}

#[test]
fn help_answers() {
    let reg = loaded();
    assert_eq!(
        reply(irc_bot::modules::default::help(&arg("list: commands"), &reg)),
        "Available commands: [\"framework-info\", \"help\", \"join\", \"part\", \"ping\", \"quit\", \"test-line-wrap\", \"test-panic-catching\"]"
    );
    assert_eq!(reply(irc_bot::modules::default::help(&arg("list: lists"), &reg)), "Available lists: [\"commands\", \"lists\"]");
    assert_eq!(
        reply(irc_bot::modules::default::help(&arg("list: nope"), &reg)),
        "List \"nope\" not found. Available lists: [\"commands\", \"lists\"]"
    );
    assert_eq!(reply(irc_bot::modules::default::help(&arg("cmd: nope"), &reg)), "Command \"nope\" not found.");
    assert_eq!(
        reply(irc_bot::modules::default::help(&arg("{cmd: ping, list: lists}"), &reg)),
        "Please ask for help with one thing at a time."
    );
    match irc_bot::modules::default::help(&arg("cmd: ping"), &reg) {
        BotCmdResult::Done(Reaction::Msgs(v)) => assert_eq!(
            v,
            vec![
                "= Help for command \"ping\":".to_owned(),
                "- [module \"default\", auth level Public]".to_owned(),
                "- Syntax: ping ".to_owned(),
                "Request a short message from the bot, typically for testing purposes.".to_owned(),
            ]
        ),
        other => panic!("unexpected {:?}", other),
    }
    match irc_bot::modules::default::help(&arg(""), &reg) {
        BotCmdResult::Done(Reaction::Msgs(v)) => {
            assert_eq!(v.len(), 3);
            assert_eq!(v[0], "For help with a command named 'foo', try `help cmd: foo`.");
            assert!(v[2].ends_with("<https://github.com/8573/irc-bot.rs>"));
        }
        other => panic!("unexpected {:?}", other),
    }
}

#[test]
fn test_module() {
    let m = irc_bot::modules::test::mk();
    assert_eq!(m.name(), "test");
    assert_eq!(m.features().len(), 2);
    match irc_bot::modules::test::test_line_wrap() {
        BotCmdResult::Done(Reaction::Reply(s)) => {
            assert!(s.starts_with("Lorem ipsum dolor sit amet"));
            assert!(s.len() > 600);
        }
        other => panic!("unexpected {:?}", other),
    }
}

#[test]
fn registry_loading_and_clashes() {
    let mut reg = loaded();
    assert_eq!(reg.command_names().len(), 8);
    assert_eq!(reg.triggers().len(), 1);
    assert_eq!(reg.triggers()[0].name, "yes?");
    assert_eq!(reg.triggers()[0].priority, TriggerPriority::Minimum);
    match reg.load_module(&irc_bot::modules::default::mk(), ModuleLoadMode::Add) {
        Err(errs) => {
            assert_eq!(errs.len(), 1);
            assert!(matches!(errs[0], FrameworkError::ModuleRegistryClash(_, _)));
            assert_eq!(
                errs[0].message(),
                "Failed to load a new module because it would have overwritten an old module. Old: ModuleInfo { name: \"default\" }; new: ModuleInfo { name: \"default\" }."
            );
        }
        Ok(()) => panic!("a module was loaded twice"),
    }
    let other = mk_module("other").command("ping", "", "Another ping.", BotCmdAuthLvl::Public).end();
    match reg.load_module(&other, ModuleLoadMode::Replace) {
        Err(errs) => {
            assert_eq!(errs.len(), 1);
            assert_eq!(
                errs[0].message(),
                "Failed to load a new module feature because it would have overwritten an old module feature. Old: ModuleFeatureInfo { name: \"ping\", kind: Command }; new: ModuleFeatureInfo { name: \"ping\", kind: Command }."
            );
        }
        Ok(()) => panic!("a clashing command was loaded"),
    }
    let other2 = mk_module("other2").command("ping", "", "Another ping.", BotCmdAuthLvl::Public).end();
    assert!(reg.load_module(&other2, ModuleLoadMode::Force).is_ok());
    assert_eq!(reg.command("ping").unwrap().provider, "other2");
    assert_eq!(reg.command_names().len(), 8);
}

#[test]
fn bad_trigger_patterns_are_refused() {
    let mut reg = Registry::new();
    let m = mk_module("t")
        .trigger("broken", "(", "A broken pattern.", TriggerPriority::Low)
        .trigger("fine", "x+", "A fine pattern.", TriggerPriority::High)
        .end();
    match reg.load_module(&m, ModuleLoadMode::Force) {
        Err(errs) => {
            assert_eq!(errs.len(), 1);
            assert!(matches!(errs[0], FrameworkError::Regex(_)));
        }
        Ok(()) => panic!("a broken pattern was loaded"),
    }
    assert_eq!(reg.triggers().len(), 1);
    assert_eq!(reg.triggers()[0].name, "fine");
}

#[test]
fn triggers_of_higher_priority_win() {
    let mut reg = Registry::new();
    let m = mk_module("t")
        .trigger("low", "hello", "", TriggerPriority::Low)
        .trigger("high", "hel+o", "", TriggerPriority::High)
        .trigger("max", "goodbye", "", TriggerPriority::Maximum)
        .trigger("empty", "^$", "", TriggerPriority::Minimum)
        .end();
    reg.load_module(&m, ModuleLoadMode::Add).unwrap();
    let ts = reg.triggers();
    assert_eq!(find_matching_trigger(ts, "well hello there").map(|i| ts[i].name.as_str()), Some("high"));
    assert_eq!(find_matching_trigger(ts, "goodbye, hello").map(|i| ts[i].name.as_str()), Some("max"));
    assert_eq!(find_matching_trigger(ts, "").map(|i| ts[i].name.as_str()), Some("empty"));
    assert_eq!(find_matching_trigger(ts, "nothing here"), None);
    let features = m.features();
    assert!(matches!(features[0], ModuleFeature::Trigger { .. }));
}

#[test]
fn package_information() {
    assert_eq!(framework_crate_name(), "irc-bot");
    assert_eq!(framework_version_str(), "0.2.1");
    assert_eq!(framework_homepage_url_str(), "https://github.com/8573/irc-bot.rs");
    assert_eq!(brief_credits_string(), "Built with <https://github.com/8573/irc-bot.rs> 0.2.1");
    assert_eq!(choose_displayable(&["", "a\u{7}b", "ok", "later"]), "ok");
    assert_eq!(choose_displayable(&["", "\n"]), "<unknown>");
    assert_eq!(choose_displayable(&[]), "<unknown>");
}
