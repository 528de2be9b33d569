//! The default module: joining and parting channels, quitting, and help.

use vstd::prelude::*;
use crate::framework::bot_cmd::{auth_lvl_debug, BotCmdAuthLvl, BotCmdResult};
use crate::framework::err::FrameworkError;
use crate::framework::modl_sys::{
    command_names_view, find_command, mk_module, CommandView, Module, ModuleFeature, Registry,
};
use crate::framework::pkg_info::{framework_crate_name, framework_homepage_url_str, framework_version_str};
use crate::framework::reaction::Reaction;
use crate::framework::trigger::TriggerPriority;
use crate::util::text::{
    debug_quoted, debug_str, join_strings_with, join_with, push_str_chars, sorted_texts, string_from_chars,
    string_views,
};
use crate::util::yaml::{entries_view, hash_get, lookup, mk_str, problem_of, scalar_text, scalar_to_str, YamlNode, YamlView};

verus! {

/// Whether `f` declares the bot command with these name, syntax, help message and
/// authorization level.
pub open spec fn declares_command(f: ModuleFeature, name: Seq<char>, usage: Seq<char>, help: Seq<char>, auth: BotCmdAuthLvl) -> bool {
    f matches ModuleFeature::Command { name: n, usage: u, help_msg: h, auth_lvl: a } && n@ == name && u@ == usage && h@ == help && a == auth
}

/// The help text of the `join` command.
pub open spec fn join_help() -> Seq<char> {
    "Have the bot join the given channel. Note that a channel name containing the character '#' will need to be enclosed in quotation marks, like '#channel' or \"#channel\"."@
}

/// The default module: the commands `join`, `part`, `quit`, `ping`, `framework-info` and
/// `help`, and a trigger that answers otherwise empty messages.
pub fn mk() -> (r: Module)
    ensures
        r.name_view() == "default"@,
        r.features_view().len() == 7,
        declares_command(r.features_view()[0], "join"@, "<channel>"@, join_help(), BotCmdAuthLvl::Admin),
        declares_command(r.features_view()[1], "part"@, "{chan: '[channel]', msg: '[message]'}"@,
            "Have the bot part from the given channel (defaults to the current channel), with an optional part message."@, BotCmdAuthLvl::Admin),
        declares_command(r.features_view()[2], "quit"@, "{msg: '[message]'}"@, "Have the bot quit."@, BotCmdAuthLvl::Admin),
        declares_command(r.features_view()[3], "ping"@, ""@,
            "Request a short message from the bot, typically for testing purposes."@, BotCmdAuthLvl::Public),
        declares_command(r.features_view()[4], "framework-info"@, ""@,
            "Request information about the framework with which the bot was built, such as the URL of a Web page about it."@, BotCmdAuthLvl::Public),
        declares_command(r.features_view()[5], "help"@, "{cmd: '[command]', list: '[list name]'}"@,
            "Request help with the bot's features, such as commands."@, BotCmdAuthLvl::Public),
        r.features_view()[6] matches ModuleFeature::Trigger { name, regex, help_msg, priority } && name@ == "yes?"@ && regex@ == "^$"@
            && help_msg@ == "Say \"Yes?\" in response to otherwise empty messages addressed to the bot."@
            && priority == TriggerPriority::Minimum,
{
    proof {
        reveal_strlit("join");
        reveal_strlit("part");
        reveal_strlit("quit");
        reveal_strlit("ping");
        reveal_strlit("framework-info");
        reveal_strlit("help");
    }
    let b = mk_module("default");
    let b = b.command("join", "<channel>",
        "Have the bot join the given channel. Note that a channel name containing the character '#' will need to be enclosed in quotation marks, like '#channel' or \"#channel\".",
        BotCmdAuthLvl::Admin);
    let b = b.command("part", "{chan: '[channel]', msg: '[message]'}",
        "Have the bot part from the given channel (defaults to the current channel), with an optional part message.",
        BotCmdAuthLvl::Admin);
    let b = b.command("quit", "{msg: '[message]'}", "Have the bot quit.", BotCmdAuthLvl::Admin);
    let b = b.command("ping", "", "Request a short message from the bot, typically for testing purposes.", BotCmdAuthLvl::Public);
    let b = b.command("framework-info", "",
        "Request information about the framework with which the bot was built, such as the URL of a Web page about it.",
        BotCmdAuthLvl::Public);
    let b = b.command("help", "{cmd: '[command]', list: '[list name]'}", "Request help with the bot's features, such as commands.",
        BotCmdAuthLvl::Public);
    let b = b.trigger("yes?", "^$", "Say \"Yes?\" in response to otherwise empty messages addressed to the bot.", TriggerPriority::Minimum);
    let m = b.end();
    proof {
        let fs = m.features_view();
        assert(fs.drop_last().drop_last().drop_last().drop_last().drop_last().drop_last().len() == 1);
        assert(fs[0] == fs.drop_last().drop_last().drop_last().drop_last().drop_last().drop_last().last());
        assert(fs[1] == fs.drop_last().drop_last().drop_last().drop_last().drop_last().last());
        assert(fs[2] == fs.drop_last().drop_last().drop_last().drop_last().last());
        assert(fs[3] == fs.drop_last().drop_last().drop_last().last());
        assert(fs[4] == fs.drop_last().drop_last().last());
        assert(fs[5] == fs.drop_last().last());
    }
    m
}

/// The reaction to `join`: the raw message `JOIN` with the channel given.
pub fn join(arg: &YamlNode) -> (r: BotCmdResult)
    ensures
        match scalar_text(arg@, "the argument to the command `join`"@) {
            Ok(t) => r matches BotCmdResult::Done(Reaction::RawMsg(m)) && m@ == "JOIN "@ + t,
            Err(p) => r matches BotCmdResult::LibErr(FrameworkError::YamlUtil(e)) && problem_of(e) == p,
        },
{
    match scalar_to_str(arg, "the argument to the command `join`") {
        Ok(chan) => {
            let mut acc: Vec<char> = Vec::new();
            push_str_chars(&mut acc, "JOIN ");
            push_str_chars(&mut acc, chan.as_str());
            BotCmdResult::Done(Reaction::RawMsg(string_from_chars(acc.as_slice())))
        },
        Err(e) => BotCmdResult::LibErr(FrameworkError::YamlUtil(e)),
    }
}

/// The text of an optional scalar argument.
pub open spec fn optional_scalar(arg: Option<YamlView>, label: Seq<char>) -> Result<Option<Seq<char>>, crate::util::yaml::Problem> {
    match arg {
        None => Ok(None),
        Some(v) => match scalar_text(v, label) {
            Ok(t) => Ok(Some(t)),
            Err(p) => Err(p),
        },
    }
}

fn optional_scalar_arg(entries: &Vec<(YamlNode, YamlNode)>, key: &str, label: &str) -> (r: Result<Option<String>, BotCmdResult>)
    ensures
        match optional_scalar(lookup(entries_view(entries@), YamlView::String(key@)), label@) {
            Ok(None) => r matches Ok(None),
            Ok(Some(t)) => r matches Ok(Some(s)) && s@ == t,
            Err(p) => r matches Err(BotCmdResult::LibErr(FrameworkError::YamlUtil(e))) && problem_of(e) == p,
        },
{
    let k = mk_str(key);
    match hash_get(entries, &k) {
        None => Ok(None),
        Some(v) => match scalar_to_str(v, label) {
            Ok(t) => Ok(Some(t)),
            Err(e) => Err(BotCmdResult::LibErr(FrameworkError::YamlUtil(e))),
        },
    }
}

/// The reaction to `part` in the channel (or from the user) `target`, where the bot's nickname
/// is `nick` (if known): the raw message `PART` with the channel given (or else `target`) and,
/// where one is given, ` :` and the part message. Used in one-to-one messaging (where `target`
/// is the bot's own nickname) without a channel, it reports the channel missing.
pub fn part(arg: &YamlNode, target: &str, nick: Option<&str>) -> (r: BotCmdResult)
    requires
        arg matches YamlNode::Hash(_),
    ensures
        ({
            let entries = arg@->Hash_0;
            let own_nick = match nick {
                Some(n) => n@,
                None => ""@,
            };
            match optional_scalar(lookup(entries, YamlView::String("chan"@)), "the value of the parameter `chan`"@) {
                Err(p) => r matches BotCmdResult::LibErr(FrameworkError::YamlUtil(e)) && problem_of(e) == p,
                Ok(chan) => if chan is None && target@ == own_nick {
                    r matches BotCmdResult::ArgMissing1To1(a) && a@ == "channel"@
                } else {
                    let c = match chan {
                        Some(c) => c,
                        None => target@,
                    };
                    match optional_scalar(lookup(entries, YamlView::String("msg"@)), "the value of the parameter `msg`"@) {
                        Err(p) => r matches BotCmdResult::LibErr(FrameworkError::YamlUtil(e)) && problem_of(e) == p,
                        Ok(None) => r matches BotCmdResult::Done(Reaction::RawMsg(m)) && m@ == "PART "@ + c,
                        Ok(Some(msg)) => r matches BotCmdResult::Done(Reaction::RawMsg(m)) && m@ == "PART "@ + c + " :"@ + msg,
                    }
                }
            }
        }),
{
    let entries = match arg {
        YamlNode::Hash(v) => v,
        _ => {
            proof {
                assert(false);
            }
            return BotCmdResult::SyntaxErr;
        },
    };
    proof {
        crate::util::yaml::lemma_view_unfold(*arg);
    }
    proof {
        reveal_strlit("chan");
        reveal_strlit("msg");
    }
    let chan = match optional_scalar_arg(entries, "chan", "the value of the parameter `chan`") {
        Ok(c) => c,
        Err(e) => {
            return e;
        },
    };
    let own_nick = match nick {
        Some(n) => n,
        None => "",
    };
    let chan = match chan {
        Some(c) => c,
        None => {
            if crate::util::text::str_eq(target, own_nick) {
                return BotCmdResult::ArgMissing1To1("channel".to_owned());
            }
            target.to_owned()
        },
    };
    let comment = match optional_scalar_arg(entries, "msg", "the value of the parameter `msg`") {
        Ok(c) => c,
        Err(e) => {
            return e;
        },
    };
    let mut acc: Vec<char> = Vec::new();
    push_str_chars(&mut acc, "PART ");
    push_str_chars(&mut acc, chan.as_str());
    match comment {
        Some(m) => {
            push_str_chars(&mut acc, " :");
            push_str_chars(&mut acc, m.as_str());
        },
        None => {},
    }
    BotCmdResult::Done(Reaction::RawMsg(string_from_chars(acc.as_slice())))
}

/// The reaction to `quit`: quit, with the quit message given, if any.
pub fn quit(arg: &YamlNode) -> (r: BotCmdResult)
    requires
        arg matches YamlNode::Hash(_),
    ensures
        match optional_scalar(lookup(arg@->Hash_0, YamlView::String("msg"@)), "the value of the parameter `msg`"@) {
            Err(p) => r matches BotCmdResult::LibErr(FrameworkError::YamlUtil(e)) && problem_of(e) == p,
            Ok(None) => r matches BotCmdResult::Done(Reaction::Quit(None)),
            Ok(Some(t)) => r matches BotCmdResult::Done(Reaction::Quit(Some(m))) && m@ == t,
        },
{
    let entries = match arg {
        YamlNode::Hash(v) => v,
        _ => {
            proof {
                assert(false);
            }
            return BotCmdResult::SyntaxErr;
        },
    };
    proof {
        crate::util::yaml::lemma_view_unfold(*arg);
        reveal_strlit("msg");
    }
    match optional_scalar_arg(entries, "msg", "the value of the parameter `msg`") {
        Ok(c) => BotCmdResult::Done(Reaction::Quit(c)),
        Err(e) => e,
    }
}

/// The reaction to `ping`: the reply `pong`.
pub fn ping() -> (r: BotCmdResult)
    ensures
        r matches BotCmdResult::Done(Reaction::Reply(m)) && m@ == "pong"@,
{
    BotCmdResult::Done(Reaction::Reply("pong".to_owned()))
}

/// The reply to `framework-info`: the framework's name, version and home page.
pub fn bot_fw_info() -> (r: BotCmdResult)
    ensures
        r matches BotCmdResult::Done(Reaction::Reply(m)) && exists|name: &str, ver: &str, url: &str| {
            &&& name@ == crate::framework::pkg_info::displayable_or_unknown(seq![crate::framework::pkg_info::CRATE_NAME@])
            &&& ver@ == crate::framework::pkg_info::displayable_or_unknown(seq![crate::framework::pkg_info::GIT_VERSION@, crate::framework::pkg_info::CRATE_VERSION@])
            &&& url@ == crate::framework::pkg_info::displayable_or_unknown(seq![crate::framework::pkg_info::CRATE_HOMEPAGE@])
            &&& m@ == "This bot was built with `"@ + name@ + ".rs`, version "@ + ver@ + "; see <"@ + url@ + ">."@
        },
{
    let name = framework_crate_name();
    let ver = framework_version_str();
    let url = framework_homepage_url_str();
    let mut acc: Vec<char> = Vec::new();
    push_str_chars(&mut acc, "This bot was built with `");
    push_str_chars(&mut acc, name);
    push_str_chars(&mut acc, ".rs`, version ");
    push_str_chars(&mut acc, ver);
    push_str_chars(&mut acc, "; see <");
    push_str_chars(&mut acc, url);
    push_str_chars(&mut acc, ">.");
    let m = string_from_chars(acc.as_slice());
    assert(m@ == "This bot was built with `"@ + name@ + ".rs`, version "@ + ver@ + "; see <"@ + url@ + ">."@);
    BotCmdResult::Done(Reaction::Reply(m))
}

/// The reaction to an otherwise empty message addressed to the bot: `Yes?`.
pub fn empty_msg_trigger() -> (r: Reaction)
    ensures
        r matches Reaction::Msg(m) && m@ == "Yes?"@,
{
    Reaction::Msg("Yes?".to_owned())
}

/// The `Debug` rendering of a list of strings, as `{:?}` writes a slice: each string's
/// rendering, between square brackets, separated by `, `.
pub open spec fn debug_list(items: Seq<Seq<char>>) -> Seq<char> {
    seq!['['] + join_with(debug_quoted_all(items), ", "@) + seq![']']
}

/// The `Debug` rendering of each of a list of strings.
pub open spec fn debug_quoted_all(items: Seq<Seq<char>>) -> Seq<Seq<char>> {
    Seq::new(items.len(), |i: int| debug_quoted(items[i]))
}

/// The `Debug` rendering of the names of the help lists.
pub open spec fn lists_debug() -> Seq<char> {
    "[\"commands\", \"lists\"]"@
}

/// The general help, given where nothing in particular is asked about.
pub open spec fn general_help(homepage: Seq<char>) -> Seq<Seq<char>> {
    seq![
        "For help with a command named 'foo', try `help cmd: foo`."@,
        "To see a list of all available commands, try `help list: commands`."@,
        "For this bot software's documentation, including an introduction to the command syntax, see <"@ + homepage + seq!['>'],
    ]
}

/// The help for a command.
pub open spec fn command_help(c: CommandView) -> Seq<Seq<char>> {
    seq![
        "= Help for command "@ + debug_quoted(c.name) + seq![':'],
        "- [module "@ + debug_quoted(c.provider) + ", auth level "@ + auth_lvl_debug(c.auth_lvl) + seq![']'],
        "- Syntax: "@ + c.name + seq![' '] + c.usage,
        c.help_msg,
    ]
}

/// The value of `key` in a node, where the node is a mapping.
pub open spec fn arg_value(arg: YamlView, key: Seq<char>) -> Option<YamlView> {
    match arg {
        YamlView::Hash(entries) => lookup(entries, YamlView::String(key)),
        _ => None,
    }
}

fn arg_get<'a>(arg: &'a YamlNode, key: &str) -> (r: Option<&'a YamlNode>)
    ensures
        match arg_value(arg@, key@) {
            Some(v) => r matches Some(x) && x@ == v,
            None => r is None,
        },
{
    proof {
        crate::util::yaml::lemma_view_unfold(*arg);
    }
    match arg {
        YamlNode::Hash(entries) => hash_get(entries, &mk_str(key)),
        _ => None,
    }
}

fn debug_quoted_string(s: &str) -> (r: Vec<char>)
    ensures
        r@ == debug_quoted(s@),
{
    let d = debug_str(s);
    crate::util::text::chars_of(d.as_str())
}

/// The reaction to `help`: help with one command (`cmd`), one list (`list`: the commands or the
/// lists), or, where neither is given as a string, general help; asking about both at once is
/// refused.
pub fn help(arg: &YamlNode, registry: &Registry) -> (r: BotCmdResult)
    requires
        registry.wf(),
    ensures
        ({
            let cmd = arg_value(arg@, "cmd"@);
            let list = arg_value(arg@, "list"@);
            if cmd is Some && list is Some {
                r matches BotCmdResult::Done(Reaction::Msg(m)) && m@ == "Please ask for help with one thing at a time."@
            } else {
                match cmd {
                    Some(YamlView::String(name)) => match find_command(registry.commands(), name) {
                        Some(i) => r matches BotCmdResult::Done(Reaction::Msgs(v)) && string_views(v@) == command_help(registry.commands()[i]),
                        None => r matches BotCmdResult::Done(Reaction::Msg(m)) && m@ == "Command "@ + debug_quoted(name) + " not found."@,
                    },
                    _ => match list {
                        Some(YamlView::String(l)) => if l == "commands"@ {
                            r matches BotCmdResult::Done(Reaction::Msg(m)) && exists|ns: Seq<Seq<char>>| {
                                &&& sorted_texts(ns)
                                &&& ns.to_multiset() == command_names_view(registry.commands()).to_multiset()
                                &&& m@ == "Available commands: "@ + #[trigger] debug_list(ns)
                            }
                        } else if l == "lists"@ {
                            r matches BotCmdResult::Done(Reaction::Msg(m)) && m@ == "Available lists: "@ + lists_debug()
                        } else {
                            r matches BotCmdResult::Done(Reaction::Msg(m)) && m@ == "List "@ + debug_quoted(l) + " not found. Available lists: "@ + lists_debug()
                        },
                        _ => r matches BotCmdResult::Done(Reaction::Msgs(v)) && string_views(v@) == general_help(
                            crate::framework::pkg_info::displayable_or_unknown(seq![crate::framework::pkg_info::CRATE_HOMEPAGE@])),
                    },
                }
            }
        }),
{
    let cmd = arg_get(arg, "cmd");
    let list = arg_get(arg, "list");
    if cmd.is_some() && list.is_some() {
        return BotCmdResult::Done(Reaction::Msg("Please ask for help with one thing at a time.".to_owned()));
    }
    match cmd {
        Some(YamlNode::String(cmd_name)) => {
            return match registry.command(cmd_name.as_str()) {
                Some(c) => {
                    let mut l1: Vec<char> = Vec::new();
                    push_str_chars(&mut l1, "= Help for command ");
                    let dq = debug_quoted_string(c.name.as_str());
                    let dqs = string_from_chars(dq.as_slice());
                    push_str_chars(&mut l1, dqs.as_str());
                    l1.push(':');
                    let mut l2: Vec<char> = Vec::new();
                    push_str_chars(&mut l2, "- [module ");
                    let dp = debug_quoted_string(c.provider.as_str());
                    let dps = string_from_chars(dp.as_slice());
                    push_str_chars(&mut l2, dps.as_str());
                    push_str_chars(&mut l2, ", auth level ");
                    match c.auth_lvl {
                        BotCmdAuthLvl::Public => push_str_chars(&mut l2, "Public"),
                        BotCmdAuthLvl::Admin => push_str_chars(&mut l2, "Admin"),
                    }
                    l2.push(']');
                    let mut l3: Vec<char> = Vec::new();
                    push_str_chars(&mut l3, "- Syntax: ");
                    push_str_chars(&mut l3, c.name.as_str());
                    l3.push(' ');
                    push_str_chars(&mut l3, c.usage_str.as_str());
                    let v = vec![
                        string_from_chars(l1.as_slice()),
                        string_from_chars(l2.as_slice()),
                        string_from_chars(l3.as_slice()),
                        c.help_msg.clone(),
                    ];
                    assert(l1@ =~= command_help(c@)[0]);
                    assert(l2@ =~= command_help(c@)[1]);
                    assert(l3@ =~= command_help(c@)[2]);
                    assert(v@[3]@ == command_help(c@)[3]);
                    assert(string_views(v@) =~= command_help(c@));
                    BotCmdResult::Done(Reaction::Msgs(v))
                },
                None => {
                    let mut acc: Vec<char> = Vec::new();
                    push_str_chars(&mut acc, "Command ");
                    let dq = debug_quoted_string(cmd_name.as_str());
                    let dqs = string_from_chars(dq.as_slice());
                    push_str_chars(&mut acc, dqs.as_str());
                    push_str_chars(&mut acc, " not found.");
                    BotCmdResult::Done(Reaction::Msg(string_from_chars(acc.as_slice())))
                },
            };
        },
        _ => {},
    }
    match list {
        Some(YamlNode::String(list_name)) => {
            proof {
                reveal_strlit("commands");
                reveal_strlit("lists");
            }
            if crate::util::text::str_eq(list_name.as_str(), "commands") {
                let names = registry.command_names();
                let mut quoted: Vec<String> = Vec::new();
                let mut k: usize = 0;
                while k < names.len()
                    invariant
                        k <= names@.len(),
                        string_views(quoted@) == debug_quoted_all(string_views(names@)).take(k as int),
                    decreases names@.len() - k,
                {
                    let dq = debug_str(names[k].as_str());
                    let ghost before = string_views(quoted@);
                    assert(dq@ == debug_quoted_all(string_views(names@))[k as int]);
                    quoted.push(dq);
                    assert(string_views(quoted@) =~= before.push(dq@));
                    assert(debug_quoted_all(string_views(names@)).take(k + 1) =~= debug_quoted_all(string_views(names@)).take(k as int).push(dq@));
                    k += 1;
                }
                let joined = join_strings_with(&quoted, ", ");
                let mut acc: Vec<char> = Vec::new();
                push_str_chars(&mut acc, "Available commands: ");
                acc.push('[');
                let js = string_from_chars(joined.as_slice());
                push_str_chars(&mut acc, js.as_str());
                acc.push(']');
                let m = string_from_chars(acc.as_slice());
                proof {
                    let ns = string_views(names@);
                    assert(debug_quoted_all(ns).take(k as int) =~= debug_quoted_all(ns));
                    assert(m@ =~= "Available commands: "@ + debug_list(ns));
                }
                BotCmdResult::Done(Reaction::Msg(m))
            } else if crate::util::text::str_eq(list_name.as_str(), "lists") {
                proof {
                    reveal_strlit("Available lists: [\"commands\", \"lists\"]");
                    reveal_strlit("Available lists: ");
                    reveal_strlit("[\"commands\", \"lists\"]");
                    assert("Available lists: [\"commands\", \"lists\"]"@ =~= "Available lists: "@ + lists_debug());
                }
                BotCmdResult::Done(Reaction::Msg("Available lists: [\"commands\", \"lists\"]".to_owned()))
            } else {
                let mut acc: Vec<char> = Vec::new();
                push_str_chars(&mut acc, "List ");
                let dq = debug_quoted_string(list_name.as_str());
                let dqs = string_from_chars(dq.as_slice());
                push_str_chars(&mut acc, dqs.as_str());
                push_str_chars(&mut acc, " not found. Available lists: [\"commands\", \"lists\"]");
                proof {
                    reveal_strlit(" not found. Available lists: [\"commands\", \"lists\"]");
                    reveal_strlit(" not found. Available lists: ");
                    reveal_strlit("[\"commands\", \"lists\"]");
                    assert(" not found. Available lists: [\"commands\", \"lists\"]"@ =~= " not found. Available lists: "@ + lists_debug());
                    assert(acc@ =~= "List "@ + debug_quoted(list_name@) + " not found. Available lists: "@ + lists_debug());
                }
                BotCmdResult::Done(Reaction::Msg(string_from_chars(acc.as_slice())))
            }
        },
        _ => {
            let homepage = framework_homepage_url_str();
            let mut acc: Vec<char> = Vec::new();
            push_str_chars(&mut acc, "For this bot software's documentation, including an introduction to the command syntax, see <");
            push_str_chars(&mut acc, homepage);
            acc.push('>');
            let v = vec![
                "For help with a command named 'foo', try `help cmd: foo`.".to_owned(),
                "To see a list of all available commands, try `help list: commands`.".to_owned(),
                string_from_chars(acc.as_slice()),
            ];
            assert(acc@ =~= general_help(crate::framework::pkg_info::displayable_or_unknown(seq![crate::framework::pkg_info::CRATE_HOMEPAGE@]))[2]);
            assert(string_views(v@) =~= general_help(crate::framework::pkg_info::displayable_or_unknown(seq![crate::framework::pkg_info::CRATE_HOMEPAGE@])));
            BotCmdResult::Done(Reaction::Msgs(v))
        },
    }
}

} // verus!
