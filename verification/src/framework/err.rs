//! The framework's error type.

use vstd::prelude::*;
use crate::util::text::{debug_quoted, debug_str, push_str_chars, string_from_chars};
use crate::util::yaml::{problem_message, problem_of, YamlError};

verus! {

/// Information about a module, for error messages.
#[derive(Clone, Debug, PartialEq, Eq)]
pub struct ModuleInfo {
    /// The module's name.
    pub name: String,
}

/// The kind of a module feature.
#[derive(Clone, Copy, Debug, PartialEq, Eq, Structural)]
pub enum ModuleFeatureKind {
    /// A bot command.
    Command,
    /// A trigger.
    Trigger,
}

/// Information about a module feature, for error messages.
#[derive(Clone, Debug, PartialEq, Eq)]
pub struct ModuleFeatureInfo {
    /// The feature's name.
    pub name: String,
    /// The feature's kind.
    pub kind: ModuleFeatureKind,
}

/// Errors of the bot framework.
#[derive(Debug)]
pub enum FrameworkError {
    /// An error in handling YAML.
    YamlUtil(YamlError),
    /// A regex failed to compile.
    Regex(regex::Error),
    /// A configuration error: the key, and what is wrong with its value.
    Config(String, String),
    /// Loading a module would have overwritten an old module (old, new).
    ModuleRegistryClash(ModuleInfo, ModuleInfo),
    /// Loading a module feature would have overwritten an old one (old, new).
    ModuleFeatureRegistryClash(ModuleFeatureInfo, ModuleFeatureInfo),
    /// The bot does not know its own nickname.
    NicknameUnknown,
    /// A received message had a malformed prefix.
    ReceivedMsgHasBadPrefix,
    /// A lock around the described data was poisoned.
    LockPoisoned(String),
    /// A count would have overflowed; the message says which.
    IntegerOverflow(String),
    /// A requested file was not found.
    NotFound,
    /// The handler of a module feature panicked: the feature's kind, its name, and the panic's
    /// message.
    HandlerPanic(String, String, String),
    /// This platform offers no sandbox.
    SandboxUnsupported,
    /// The sandbox could not be activated.
    SandboxFailed,
    /// An error with no information.
    Unit,
}

/// The `Debug` rendering of information about a module.
pub open spec fn module_info_debug(name: Seq<char>) -> Seq<char> {
    "ModuleInfo { name: "@ + debug_quoted(name) + " }"@
}

/// The `Debug` rendering of information about a module feature.
pub open spec fn feature_info_debug(name: Seq<char>, kind: ModuleFeatureKind) -> Seq<char> {
    "ModuleFeatureInfo { name: "@ + debug_quoted(name) + ", kind: "@ + (match kind {
        ModuleFeatureKind::Command => "Command"@,
        ModuleFeatureKind::Trigger => "Trigger"@,
    }) + " }"@
}

/// The message of an error, where it is this library's own (not the message of an error of
/// another crate).
pub open spec fn error_message(e: FrameworkError) -> Option<Seq<char>> {
    match e {
        FrameworkError::YamlUtil(y) => problem_message(problem_of(y)),
        FrameworkError::Regex(_) => None,
        FrameworkError::Config(k, p) => Some("Configuration error: Key "@ + debug_quoted(k@) + " "@ + p@ + "."@),
        FrameworkError::ModuleRegistryClash(old, new) => Some(
            "Failed to load a new module because it would have overwritten an old module. Old: "@
                + module_info_debug(old.name@) + "; new: "@ + module_info_debug(new.name@) + "."@,
        ),
        FrameworkError::ModuleFeatureRegistryClash(old, new) => Some(
            "Failed to load a new module feature because it would have overwritten an old module feature. Old: "@
                + feature_info_debug(old.name@, old.kind) + "; new: "@ + feature_info_debug(new.name@, new.kind) + "."@,
        ),
        FrameworkError::NicknameUnknown => Some("Puzzlingly, the bot seems to have forgotten its own nickname."@),
        FrameworkError::ReceivedMsgHasBadPrefix => Some(
            "An operation failed because a message was received that had a malformed prefix (the part that identifies the sender)."@,
        ),
        FrameworkError::LockPoisoned(d) => Some("A thread panicked, poisoning a lock around "@ + d@ + "."@),
        FrameworkError::IntegerOverflow(m) => Some(m@),
        FrameworkError::NotFound => Some("entity not found"@),
        FrameworkError::HandlerPanic(kind, name, msg) => Some(
            "The handler function for "@ + kind@ + " "@ + debug_quoted(name@) + " panicked with the following message: "@ + msg@,
        ),
        FrameworkError::SandboxUnsupported => Some("Sandboxing is not supported on this platform."@),
        FrameworkError::SandboxFailed => Some("Failed to activate the sandbox."@),
        FrameworkError::Unit => Some(
            "An error seems to have occurred, but unfortunately the error type provided was the unit type, containing no information about the error."@,
        ),
    }
}

/// The message of a `regex` error, as its `Display` writes it. The contract says nothing of the
/// text.
#[verifier::external_body]
fn regex_error_text(e: &regex::Error) -> String {
    format!("{}", e)
}

fn push_module_info_debug(acc: &mut Vec<char>, name: &str)
    ensures
        final(acc)@ == old(acc)@ + module_info_debug(name@),
{
    push_str_chars(acc, "ModuleInfo { name: ");
    push_str_chars(acc, debug_str(name).as_str());
    push_str_chars(acc, " }");
    assert(final(acc)@ =~= old(acc)@ + module_info_debug(name@));
}

fn push_feature_info_debug(acc: &mut Vec<char>, name: &str, kind: ModuleFeatureKind)
    ensures
        final(acc)@ == old(acc)@ + feature_info_debug(name@, kind),
{
    push_str_chars(acc, "ModuleFeatureInfo { name: ");
    push_str_chars(acc, debug_str(name).as_str());
    push_str_chars(acc, ", kind: ");
    match kind {
        ModuleFeatureKind::Command => push_str_chars(acc, "Command"),
        ModuleFeatureKind::Trigger => push_str_chars(acc, "Trigger"),
    }
    push_str_chars(acc, " }");
    assert(final(acc)@ =~= old(acc)@ + feature_info_debug(name@, kind));
}

impl FrameworkError {
    /// The error's message, as its `Display` writes it.
    pub fn message(&self) -> (r: String)
        ensures
            error_message(*self) matches Some(m) ==> r@ == m,
    {
        let mut acc: Vec<char> = Vec::new();
        match self {
            FrameworkError::YamlUtil(y) => {
                return y.message();
            },
            FrameworkError::Regex(e) => {
                return regex_error_text(e);
            },
            FrameworkError::Config(k, p) => {
                push_str_chars(&mut acc, "Configuration error: Key ");
                push_str_chars(&mut acc, debug_str(k.as_str()).as_str());
                push_str_chars(&mut acc, " ");
                push_str_chars(&mut acc, p.as_str());
                push_str_chars(&mut acc, ".");
            },
            FrameworkError::ModuleRegistryClash(old, new) => {
                push_str_chars(&mut acc, "Failed to load a new module because it would have overwritten an old module. Old: ");
                push_module_info_debug(&mut acc, old.name.as_str());
                push_str_chars(&mut acc, "; new: ");
                push_module_info_debug(&mut acc, new.name.as_str());
                push_str_chars(&mut acc, ".");
            },
            FrameworkError::ModuleFeatureRegistryClash(old, new) => {
                push_str_chars(&mut acc, "Failed to load a new module feature because it would have overwritten an old module feature. Old: ");
                push_feature_info_debug(&mut acc, old.name.as_str(), old.kind);
                push_str_chars(&mut acc, "; new: ");
                push_feature_info_debug(&mut acc, new.name.as_str(), new.kind);
                push_str_chars(&mut acc, ".");
            },
            FrameworkError::NicknameUnknown => {
                push_str_chars(&mut acc, "Puzzlingly, the bot seems to have forgotten its own nickname.");
            },
            FrameworkError::ReceivedMsgHasBadPrefix => {
                push_str_chars(&mut acc, "An operation failed because a message was received that had a malformed prefix (the part that identifies the sender).");
            },
            FrameworkError::LockPoisoned(d) => {
                push_str_chars(&mut acc, "A thread panicked, poisoning a lock around ");
                push_str_chars(&mut acc, d.as_str());
                push_str_chars(&mut acc, ".");
            },
            FrameworkError::IntegerOverflow(m) => {
                push_str_chars(&mut acc, m.as_str());
            },
            FrameworkError::NotFound => {
                push_str_chars(&mut acc, "entity not found");
            },
            FrameworkError::HandlerPanic(kind, name, msg) => {
                push_str_chars(&mut acc, "The handler function for ");
                push_str_chars(&mut acc, kind.as_str());
                push_str_chars(&mut acc, " ");
                push_str_chars(&mut acc, debug_str(name.as_str()).as_str());
                push_str_chars(&mut acc, " panicked with the following message: ");
                push_str_chars(&mut acc, msg.as_str());
            },
            FrameworkError::SandboxUnsupported => {
                push_str_chars(&mut acc, "Sandboxing is not supported on this platform.");
            },
            FrameworkError::SandboxFailed => {
                push_str_chars(&mut acc, "Failed to activate the sandbox.");
            },
            FrameworkError::Unit => {
                push_str_chars(&mut acc, "An error seems to have occurred, but unfortunately the error type provided was the unit type, containing no information about the error.");
            },
        }
        assert(error_message(*self) matches Some(m) ==> acc@ =~= m);
        string_from_chars(acc.as_slice())
    }
}

} // verus!
