//! Bot commands: their authorization levels, results, and the parsing of their arguments.

use vstd::prelude::*;
use super::err::FrameworkError;
use super::config::Admin;
use super::irc_msgs::MsgPrefix;
use super::irc_comm::{split_cmd_line, split_command_line};
use super::modl_sys::{find_command, trigger_views, CommandView, Registry};
use super::trigger::{find_matching_trigger, trigger_pick};
use super::reaction::Reaction;
use super::state::{have_admin, is_this_admin};
use crate::util::text::{debug_quoted, debug_str, push_str_chars, string_from_chars};
use crate::util::yaml::{
    check_node, entries_view, hash_from_pairs, mk_map, parse_and_check_node, parse_node, parsed_node, problem_of,
    Problem, YamlError, YamlNode, YamlView,
};

verus! {

/// Who may use a bot command.
#[derive(Clone, Copy, Debug, PartialEq, Eq, Structural)]
pub enum BotCmdAuthLvl {
    /// Anyone.
    Public,
    /// Only the bot's administrators.
    Admin,
}

/// The result of running a bot command.
#[derive(Debug)]
pub enum BotCmdResult {
    /// The command was processed successfully; pass on the `Reaction`.
    Done(Reaction),
    /// A user invoked the command without sufficient authorization.
    Unauthorized,
    /// A user used the named parameter of the command without sufficient authorization.
    ParamUnauthorized(String),
    /// A user invoked the command with incorrect syntax.
    SyntaxErr,
    /// A user invoked the command without the named required argument.
    ArgMissing(String),
    /// A user invoked the command in one-to-one communication without the named argument that
    /// is required there.
    ArgMissing1To1(String),
    /// Pass through an instance of the framework's `FrameworkError` type.
    LibErr(FrameworkError),
    /// A user made some miscellaneous error; the string is included in the reply.
    UserErrMsg(String),
    /// A miscellaneous error that is not the user's fault; the string is included in the reply.
    BotErrMsg(String),
}

/// What parsing a command argument against the command's syntax gives: the argument, or the
/// problem found.
pub open spec fn parse_arg_outcome(syntax: YamlView, arg_str: Seq<char>) -> Result<YamlView, Problem> {
    match parsed_node(arg_str) {
        Err(p) => Err(p),
        Ok(opt) => {
            let n = match opt {
                Some(x) => x,
                None => YamlView::Hash(seq![]),
            };
            match check_node(syntax, n, seq![], "<argument>"@) {
                None => Ok(n),
                Some(p) => Err(p),
            }
        },
    }
}

/// Parses the argument text of a bot command as YAML (an empty argument being an empty
/// mapping) and checks it against the command's syntax. Text that is not YAML gives
/// `SyntaxErr`; any other problem gives `LibErr` with the YAML error.
pub fn parse_arg(syntax: &YamlNode, arg_str: &str) -> (r: Result<YamlNode, BotCmdResult>)
    ensures
        match parse_arg_outcome(syntax@, arg_str@) {
            Ok(n) => r matches Ok(v) && v@ == n,
            Err(Problem::Scan) => r matches Err(BotCmdResult::SyntaxErr),
            Err(p) => r matches Err(BotCmdResult::LibErr(FrameworkError::YamlUtil(e))) && problem_of(e) == p,
        },
{
    let no_entries: Vec<(YamlNode, YamlNode)> = Vec::new();
    let default = mk_map(no_entries);
    assert(hash_from_pairs(entries_view(no_entries@)) =~= seq![]);
    match parse_and_check_node(arg_str, syntax, "<argument>", default) {
        Ok(arg) => Ok(arg),
        Err(YamlError::YamlScan(_)) => Err(BotCmdResult::SyntaxErr),
        Err(err) => Err(BotCmdResult::LibErr(FrameworkError::YamlUtil(err))),
    }
}

/// The `Debug` rendering of an authorization level.
pub open spec fn auth_lvl_debug(a: BotCmdAuthLvl) -> Seq<char> {
    match a {
        BotCmdAuthLvl::Public => "Public"@,
        BotCmdAuthLvl::Admin => "Admin"@,
    }
}

/// The argument syntax of a command: its usage text parsed as YAML, an empty document standing
/// for an empty mapping.
pub open spec fn usage_syntax(usage: Seq<char>) -> Result<YamlView, Problem> {
    match parsed_node(usage) {
        Ok(Some(n)) => Ok(n),
        Ok(None) => Ok(YamlView::Hash(seq![])),
        Err(p) => Err(p),
    }
}

/// Whether the sender `prefix` may use a command of authorization level `lvl`, given the bot's
/// administrators `admins`.
pub open spec fn sender_authorized(lvl: BotCmdAuthLvl, admins: Seq<Admin>, prefix: MsgPrefix) -> bool {
    lvl == BotCmdAuthLvl::Public || exists|i: int| 0 <= i < admins.len() && is_this_admin(prefix, #[trigger] admins[i])
}

/// What to do with a bot command line.
#[derive(Debug)]
pub enum CommandDispatch {
    /// No command of that name is loaded.
    NotFound,
    /// Answer at once with this result, without running the command's handler.
    Respond(BotCmdResult),
    /// Run the command's handler on this argument.
    Run(YamlNode),
}

/// Whether `r` is what dispatching the command line `name args` from `prefix` gives, where the
/// loaded commands are `cmds` and the bot's administrators `admins` (see [`dispatch_command`]).
pub open spec fn dispatched(
    cmds: Seq<CommandView>,
    admins: Seq<Admin>,
    name: Seq<char>,
    args: Seq<char>,
    prefix: MsgPrefix,
    r: CommandDispatch,
) -> bool {
    match find_command(cmds, name) {
        None => r is NotFound,
        Some(i) => {
            let c = cmds[i];
            match usage_syntax(c.usage) {
                Err(p) => r matches CommandDispatch::Respond(BotCmdResult::LibErr(FrameworkError::YamlUtil(e)))
                    && problem_of(e) == p,
                Ok(syntax) => match parse_arg_outcome(syntax, args) {
                    Err(Problem::Scan) => r matches CommandDispatch::Respond(BotCmdResult::SyntaxErr),
                    Err(p) => r matches CommandDispatch::Respond(BotCmdResult::LibErr(FrameworkError::YamlUtil(e)))
                        && problem_of(e) == p,
                    Ok(n) => if sender_authorized(c.auth_lvl, admins, prefix) {
                        r matches CommandDispatch::Run(v) && v@ == n
                    } else {
                        r matches CommandDispatch::Respond(BotCmdResult::Unauthorized)
                    },
                },
            }
        },
    }
}

/// Decides what to do with the command line `cmd_name cmd_args` sent by `prefix`: an unknown
/// command is not found; an argument that does not parse against the command's syntax is
/// answered with what `parse_arg` gives; a sender who may not use the command is answered with
/// `Unauthorized`; otherwise the command's handler is to run on the parsed argument.
pub fn dispatch_command(
    registry: &Registry,
    admins: &[Admin],
    cmd_name: &str,
    cmd_args: &str,
    prefix: &MsgPrefix,
) -> (r: CommandDispatch)
    requires
        registry.wf(),
    ensures
        dispatched(registry.commands(), admins@, cmd_name@, cmd_args@, *prefix, r),
{
    let cmd = match registry.command(cmd_name) {
        Some(c) => c,
        None => {
            return CommandDispatch::NotFound;
        },
    };
    let syntax = match parse_node(cmd.usage_str.as_str()) {
        Ok(Some(n)) => n,
        Ok(None) => {
            let no_entries: Vec<(YamlNode, YamlNode)> = Vec::new();
            assert(hash_from_pairs(entries_view(no_entries@)) =~= seq![]);
            mk_map(no_entries)
        },
        Err(e) => {
            return CommandDispatch::Respond(BotCmdResult::LibErr(FrameworkError::YamlUtil(e)));
        },
    };
    let arg = match parse_arg(&syntax, cmd_args) {
        Ok(a) => a,
        Err(res) => {
            return CommandDispatch::Respond(res);
        },
    };
    let authorized = match cmd.auth_lvl {
        BotCmdAuthLvl::Public => true,
        BotCmdAuthLvl::Admin => have_admin(admins, prefix),
    };
    if authorized {
        CommandDispatch::Run(arg)
    } else {
        CommandDispatch::Respond(BotCmdResult::Unauthorized)
    }
}

/// What to do with a line addressed to the bot.
#[derive(Debug)]
pub enum LineAction {
    /// The line names a loaded command: its name, and what dispatching the line gives.
    Command(String, CommandDispatch),
    /// The line names no command, and the loaded trigger at this index answers it.
    Trigger(usize),
    /// Nothing answers the line.
    Nothing,
}

/// Decides what answers a line addressed to the bot by `prefix`: where its first word names a
/// loaded command, that command (see [`dispatch_command`]); otherwise a trigger that answers the
/// whole line, of the highest priority among those that do (see [`find_matching_trigger`]); and
/// otherwise nothing.
pub fn line_action(registry: &Registry, admins: &[Admin], line: &str, prefix: &MsgPrefix) -> (r: LineAction)
    requires
        registry.wf(),
    ensures
        ({
            let (name, args) = split_command_line(line@);
            match r {
                LineAction::Command(n, d) => n@ == name && find_command(registry.commands(), name) is Some
                    && dispatched(registry.commands(), admins@, name, args, *prefix, d),
                LineAction::Trigger(i) => find_command(registry.commands(), name) is None
                    && trigger_pick(registry.triggers_view(), line@, Some(i)),
                LineAction::Nothing => find_command(registry.commands(), name) is None
                    && trigger_pick(registry.triggers_view(), line@, None),
            }
        }),
{
    let (name, args) = split_cmd_line(line);
    let d = dispatch_command(registry, admins, name.as_str(), args.as_str(), prefix);
    match d {
        CommandDispatch::NotFound => {
            let ts = registry.triggers();
            let ghost tv = registry.triggers_view();
            assert(trigger_views(ts@) == tv);
            assert forall|j: int| 0 <= j < ts@.len() implies #[trigger] tv[j] == ts@[j]@ by {
            }
            match find_matching_trigger(ts, line) {
                Some(i) => LineAction::Trigger(i),
                None => LineAction::Nothing,
            }
        },
        _ => LineAction::Command(name, d),
    }
}

/// The `Debug` rendering of an optional string.
pub open spec fn opt_debug(m: Option<Seq<char>>) -> Seq<char> {
    match m {
        None => "None"@,
        Some(t) => "Some("@ + debug_quoted(t) + seq![')'],
    }
}

/// The complaint made when a command below the administrators' level tells the bot to quit.
pub open spec fn quit_refusal_text(
    cmd_name: Seq<char>,
    provider: Seq<char>,
    lvl: BotCmdAuthLvl,
    quit_msg: Option<Seq<char>>,
) -> Seq<char> {
    "Only commands at authorization level Admin may tell the bot to quit, but the command "@
        + debug_quoted(cmd_name) + " from module "@ + debug_quoted(provider)
        + ", at authorization level "@ + auth_lvl_debug(lvl)
        + ", has told the bot to quit with quit message "@ + opt_debug(quit_msg) + seq!['.']
}

/// Whether a command result tells the bot to quit.
pub open spec fn is_quit(r: BotCmdResult) -> bool {
    r matches BotCmdResult::Done(Reaction::Quit(_))
}

/// Checks what a command's handler returned: a command below the administrators' level may not
/// make the bot quit, and its telling it to is turned into a `BotErrMsg` that says so; any other
/// result passes unchanged.
pub fn screen_command_result(
    cmd_name: &str,
    provider: &str,
    auth_lvl: BotCmdAuthLvl,
    result: BotCmdResult,
) -> (r: BotCmdResult)
    ensures
        match result {
            BotCmdResult::Done(Reaction::Quit(m)) if auth_lvl != BotCmdAuthLvl::Admin =>
                r matches BotCmdResult::BotErrMsg(s) && s@ == quit_refusal_text(
                    cmd_name@, provider@, auth_lvl,
                    match m { Some(t) => Some(t@), None => None },
                ),
            _ => r == result,
        },
        is_quit(r) ==> auth_lvl == BotCmdAuthLvl::Admin,
{
    match result {
        BotCmdResult::Done(Reaction::Quit(m)) if auth_lvl != BotCmdAuthLvl::Admin => {
            let mut text: Vec<char> = Vec::new();
            push_str_chars(&mut text, "Only commands at authorization level Admin may tell the bot to quit, but the command ");
            push_str_chars(&mut text, debug_str(cmd_name).as_str());
            push_str_chars(&mut text, " from module ");
            push_str_chars(&mut text, debug_str(provider).as_str());
            push_str_chars(&mut text, ", at authorization level ");
            match auth_lvl {
                BotCmdAuthLvl::Public => push_str_chars(&mut text, "Public"),
                BotCmdAuthLvl::Admin => push_str_chars(&mut text, "Admin"),
            }
            push_str_chars(&mut text, ", has told the bot to quit with quit message ");
            match &m {
                None => push_str_chars(&mut text, "None"),
                Some(t) => {
                    push_str_chars(&mut text, "Some(");
                    push_str_chars(&mut text, debug_str(t.as_str()).as_str());
                    text.push(')');
                },
            }
            text.push('.');
            BotCmdResult::BotErrMsg(string_from_chars(text.as_slice()))
        },
        other => other,
    }
}

} // verus!
