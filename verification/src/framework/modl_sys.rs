//! Modules, their features, and the registry of loaded modules and bot commands.

use vstd::prelude::*;
use super::bot_cmd::BotCmdAuthLvl;
use super::err::{FrameworkError, ModuleFeatureInfo, ModuleFeatureKind, ModuleInfo};
use super::trigger::{Trigger, TriggerPriority, TriggerView};
use crate::util::regex::{regex_builds, standard_settings, CompiledRegex, RegexSettings};
use crate::util::text::{chars_of, is_whitespace, is_whitespace_exec, sort_strings, sorted_texts, string_views};

verus! {

/// A feature that a module provides.
#[derive(Debug)]
pub enum ModuleFeature {
    /// A bot command.
    Command {
        /// The command's name, which holds no whitespace.
        name: String,
        /// The command's argument syntax, as YAML text.
        usage: String,
        /// The command's help message.
        help_msg: String,
        /// Who may use the command.
        auth_lvl: BotCmdAuthLvl,
    },
    /// A trigger.
    Trigger {
        /// The trigger's name.
        name: String,
        /// The pattern of the messages that the trigger answers.
        regex: String,
        /// The trigger's help message.
        help_msg: String,
        /// The trigger's priority.
        priority: TriggerPriority,
    },
}

/// A module: a named set of features.
#[derive(Debug)]
pub struct Module {
    name: String,
    uuid: u128,
    features: Vec<ModuleFeature>,
}

/// A random version-4 UUID, as a number, from `uuid::Uuid::new_v4`. Nothing is promised of
/// its value, which rests on chance.
#[verifier::external_body]
fn new_module_uuid() -> u128 {
    uuid::Uuid::new_v4().as_u128()
}

impl Module {
    /// The module's identity, fixed when the module was built.
    pub closed spec fn id(&self) -> u128 {
        self.uuid
    }

    /// The module's name.
    pub closed spec fn name_view(&self) -> Seq<char> {
        self.name@
    }

    /// The module's features, in the order they were declared.
    pub closed spec fn features_view(&self) -> Seq<ModuleFeature> {
        self.features@
    }

    /// The module's name.
    pub fn name(&self) -> (r: &str)
        ensures
            r@ == self.name_view(),
    {
        self.name.as_str()
    }

    /// The module's features, in the order they were declared.
    pub fn features(&self) -> (r: &Vec<ModuleFeature>)
        ensures
            r@ == self.features_view(),
    {
        &self.features
    }

    /// Debugging information about the module: its name.
    pub fn dbg_info(&self) -> (r: ModuleInfo)
        ensures
            r.name@ == self.name_view(),
    {
        ModuleInfo { name: self.name.clone() }
    }
}

impl PartialEq for Module {
    fn eq(&self, other: &Self) -> (r: bool) {
        self.uuid == other.uuid
    }
}

impl vstd::std_specs::cmp::PartialEqSpecImpl for Module {
    open spec fn obeys_eq_spec() -> bool {
        true
    }

    open spec fn eq_spec(&self, other: &Self) -> bool {
        self.id() == other.id()
    }
}

/// Builds a module feature by feature.
#[derive(Debug)]
pub struct ModuleBuilder {
    name: String,
    features: Vec<ModuleFeature>,
}

/// Starts building a module with the given name.
pub fn mk_module(name: &str) -> (r: ModuleBuilder)
    ensures
        r.name() == name@,
        r.features().len() == 0,
{
    ModuleBuilder { name: name.to_owned(), features: Vec::new() }
}

impl ModuleBuilder {
    /// The name of the module being built.
    pub closed spec fn name(&self) -> Seq<char> {
        self.name@
    }

    /// The features declared so far.
    pub closed spec fn features(&self) -> Seq<ModuleFeature> {
        self.features@
    }

    /// Declares a bot command, whose name must hold no whitespace.
    pub fn command(self, name: &str, syntax: &str, help_msg: &str, auth_lvl: BotCmdAuthLvl) -> (r: ModuleBuilder)
        requires
            forall|i: int| 0 <= i < name@.len() ==> !is_whitespace(#[trigger] name@[i]),
        ensures
            r.name() == self.name(),
            r.features().len() == self.features().len() + 1,
            r.features().drop_last() == self.features(),
            r.features().last() matches ModuleFeature::Command { name: n, usage: u, help_msg: h, auth_lvl: a }
                && n@ == name@ && u@ == syntax@ && h@ == help_msg@ && a == auth_lvl,
    {
        let mut b = self;
        let ghost before = b.features@;
        b.features.push(
            ModuleFeature::Command {
                name: name.to_owned(),
                usage: syntax.to_owned(),
                help_msg: help_msg.to_owned(),
                auth_lvl,
            },
        );
        assert(b.features@.drop_last() =~= before);
        b
    }

    /// Declares a trigger.
    pub fn trigger(self, name: &str, regex: &str, help_msg: &str, priority: TriggerPriority) -> (r: ModuleBuilder)
        ensures
            r.name() == self.name(),
            r.features().len() == self.features().len() + 1,
            r.features().drop_last() == self.features(),
            r.features().last() matches ModuleFeature::Trigger { name: n, regex: x, help_msg: h, priority: p }
                && n@ == name@ && x@ == regex@ && h@ == help_msg@ && p == priority,
    {
        let mut b = self;
        let ghost before = b.features@;
        b.features.push(
            ModuleFeature::Trigger {
                name: name.to_owned(),
                regex: regex.to_owned(),
                help_msg: help_msg.to_owned(),
                priority,
            },
        );
        assert(b.features@.drop_last() =~= before);
        b
    }

    /// Finishes the module, giving it a fresh identity.
    pub fn end(self) -> (r: Module)
        ensures
            r.name_view() == self.name(),
            r.features_view() == self.features(),
    {
        Module { name: self.name, uuid: new_module_uuid(), features: self.features }
    }
}

/// Whether the name of a bot command holds no whitespace.
pub fn name_has_no_whitespace(name: &str) -> (r: bool)
    ensures
        r == forall|i: int| 0 <= i < name@.len() ==> !is_whitespace(#[trigger] name@[i]),
{
    let cs = chars_of(name);
    let mut i: usize = 0;
    while i < cs.len()
        invariant
            cs@ == name@,
            i <= cs@.len(),
            forall|k: int| 0 <= k < i ==> !is_whitespace(#[trigger] name@[k]),
        decreases cs@.len() - i,
    {
        if is_whitespace_exec(cs[i]) {
            return false;
        }
        i += 1;
    }
    true
}

/// How loading a module treats features that are already loaded.
#[derive(Clone, Copy, Debug, PartialEq, Eq, Structural)]
pub enum ModuleLoadMode {
    /// Emit an error if any of the new module's features conflict with already present
    /// modules' features.
    Add,
    /// Overwrite any already loaded features that conflict with the new module's features, if
    /// the old features were provided by a module with the same name as the new module.
    Replace,
    /// Overwrite old modules' features unconditionally.
    Force,
}

/// A loaded bot command.
#[derive(Debug)]
pub struct BotCommand {
    /// The command's name.
    pub name: String,
    /// The name of the module that provides the command.
    pub provider: String,
    /// Who may use the command.
    pub auth_lvl: BotCmdAuthLvl,
    /// The command's argument syntax, as YAML text.
    pub usage_str: String,
    /// The command's help message.
    pub help_msg: String,
}

/// A loaded bot command as a mathematical value.
pub ghost struct CommandView {
    pub name: Seq<char>,
    pub provider: Seq<char>,
    pub auth_lvl: BotCmdAuthLvl,
    pub usage: Seq<char>,
    pub help_msg: Seq<char>,
}

impl View for BotCommand {
    type V = CommandView;

    open spec fn view(&self) -> CommandView {
        CommandView {
            name: self.name@,
            provider: self.provider@,
            auth_lvl: self.auth_lvl,
            usage: self.usage_str@,
            help_msg: self.help_msg@,
        }
    }
}

impl BotCommand {
    /// Debugging information about the command.
    pub fn dbg_info(&self) -> (r: ModuleFeatureInfo)
        ensures
            r.name@ == self.name@,
            r.kind == ModuleFeatureKind::Command,
    {
        ModuleFeatureInfo { name: self.name.clone(), kind: ModuleFeatureKind::Command }
    }
}

/// The views of a list of triggers.
pub open spec fn trigger_views(v: Seq<Trigger>) -> Seq<TriggerView> {
    Seq::new(v.len(), |i: int| v[i]@)
}

/// The views of a list of commands.
pub open spec fn command_views(v: Seq<BotCommand>) -> Seq<CommandView> {
    Seq::new(v.len(), |i: int| v[i]@)
}

/// The names of a list of commands.
pub open spec fn command_names_view(cmds: Seq<CommandView>) -> Seq<Seq<char>> {
    Seq::new(cmds.len(), |i: int| cmds[i].name)
}

/// The index of the command named `name`, if any.
pub open spec fn find_command(cmds: Seq<CommandView>, name: Seq<char>) -> Option<int> {
    if exists|i: int| 0 <= i < cmds.len() && (#[trigger] cmds[i]).name == name {
        Some(choose|i: int| 0 <= i < cmds.len() && (#[trigger] cmds[i]).name == name)
    } else {
        None
    }
}

/// Whether no two commands share a name.
pub open spec fn unique_names(cmds: Seq<CommandView>) -> bool {
    forall|i: int, j: int| 0 <= i < j < cmds.len() ==> (#[trigger] cmds[i]).name != (#[trigger] cmds[j]).name
}

/// Whether no two module names are the same.
pub open spec fn unique_texts(v: Seq<Seq<char>>) -> bool {
    forall|i: int, j: int| 0 <= i < j < v.len() ==> #[trigger] v[i] != #[trigger] v[j]
}

/// The loaded command that a new command from the module `provider` clashes with under
/// `mode`, if any: under `Add` any command of the same name, under `Replace` one of the same
/// name from another module, under `Force` none.
pub open spec fn clash_with(cmds: Seq<CommandView>, provider: Seq<char>, name: Seq<char>, mode: ModuleLoadMode) -> Option<int> {
    match find_command(cmds, name) {
        None => None,
        Some(i) => match mode {
            ModuleLoadMode::Force => None,
            ModuleLoadMode::Replace => if cmds[i].provider == provider {
                None
            } else {
                Some(i)
            },
            ModuleLoadMode::Add => Some(i),
        },
    }
}

/// The commands after loading `c`: it takes the place of the command of the same name, or
/// is added at the end.
pub open spec fn with_command(cmds: Seq<CommandView>, c: CommandView) -> Seq<CommandView> {
    match find_command(cmds, c.name) {
        Some(i) => cmds.update(i, c),
        None => cmds.push(c),
    }
}

/// The view of a command feature loaded from the module `provider`.
pub open spec fn command_of(provider: Seq<char>, f: ModuleFeature) -> CommandView {
    match f {
        ModuleFeature::Command { name, usage, help_msg, auth_lvl } => CommandView {
            name: name@,
            provider,
            auth_lvl,
            usage: usage@,
            help_msg: help_msg@,
        },
        ModuleFeature::Trigger { name, .. } => CommandView {
            name: name@,
            provider,
            auth_lvl: BotCmdAuthLvl::Public,
            usage: seq![],
            help_msg: seq![],
        },
    }
}

/// Whether a feature is a bot command.
pub open spec fn is_command(f: ModuleFeature) -> bool {
    f is Command
}

/// The view of a trigger feature loaded from the module `provider`: its regex is built from
/// its pattern with the standard settings.
pub open spec fn trigger_of(provider: Seq<char>, f: ModuleFeature) -> TriggerView {
    match f {
        ModuleFeature::Trigger { name, regex, help_msg, priority } => TriggerView {
            name: name@,
            provider,
            settings: standard_settings(regex@),
            priority,
            help_msg: help_msg@,
        },
        ModuleFeature::Command { name, help_msg, .. } => TriggerView {
            name: name@,
            provider,
            settings: standard_settings(seq![]),
            priority: TriggerPriority::Minimum,
            help_msg: help_msg@,
        },
    }
}

/// Loading the features `fs` of the module `provider` one by one under `mode`: the commands
/// and the triggers afterwards, and the errors of the features refused. A command is refused
/// where it clashes with a loaded one (see [`clash_with`]); a trigger is refused where its
/// pattern does not compile, and is otherwise added after the loaded triggers.
pub open spec fn load_features(
    cmds: Seq<CommandView>,
    trigs: Seq<TriggerView>,
    provider: Seq<char>,
    fs: Seq<ModuleFeature>,
    mode: ModuleLoadMode,
) -> (Seq<CommandView>, Seq<TriggerView>, Seq<RegistryErrorView>)
    decreases fs.len(),
{
    if fs.len() == 0 {
        (cmds, trigs, seq![])
    } else {
        let (c0, t0, errs) = load_features(cmds, trigs, provider, fs.drop_last(), mode);
        let f = fs.last();
        if is_command(f) {
            let c = command_of(provider, f);
            match clash_with(c0, provider, c.name, mode) {
                Some(i) => (c0, t0, errs.push(RegistryErrorView::FeatureClash(c0[i].name, c.name))),
                None => (with_command(c0, c), t0, errs),
            }
        } else {
            let t = trigger_of(provider, f);
            if regex_builds(t.settings.pattern, t.settings.case_insensitive, t.settings.size_limit) {
                (c0, t0.push(t), errs)
            } else {
                (c0, t0, errs.push(RegistryErrorView::BadTriggerRegex))
            }
        }
    }
}

/// The registry of loaded modules, bot commands and triggers.
#[derive(Debug)]
pub struct Registry {
    modules: Vec<String>,
    commands: Vec<BotCommand>,
    triggers: Vec<Trigger>,
}

impl Registry {
    /// The names of the loaded modules.
    pub closed spec fn module_names(&self) -> Seq<Seq<char>> {
        string_views(self.modules@)
    }

    /// The loaded commands.
    pub closed spec fn commands(&self) -> Seq<CommandView> {
        command_views(self.commands@)
    }

    /// The loaded triggers, in the order loaded.
    pub closed spec fn triggers_view(&self) -> Seq<TriggerView> {
        trigger_views(self.triggers@)
    }

    /// The loaded triggers, in the order loaded.
    pub fn triggers(&self) -> (r: &[Trigger])
        ensures
            trigger_views(r@) == self.triggers_view(),
    {
        self.triggers.as_slice()
    }

    /// Whether no two modules and no two commands share a name.
    pub open spec fn wf(&self) -> bool {
        unique_texts(self.module_names()) && unique_names(self.commands())
    }

    /// An empty registry.
    pub fn new() -> (r: Registry)
        ensures
            r.wf(),
            r.module_names().len() == 0,
            r.commands().len() == 0,
            r.triggers_view().len() == 0,
    {
        let r = Registry { modules: Vec::new(), commands: Vec::new(), triggers: Vec::new() };
        assert(r.module_names() =~= Seq::<Seq<char>>::empty());
        assert(r.commands() =~= Seq::<CommandView>::empty());
        assert(r.triggers_view() =~= Seq::<TriggerView>::empty());
        r
    }

    /// The loaded command with the given name, if any.
    pub fn command(&self, name: &str) -> (r: Option<&BotCommand>)
        requires
            self.wf(),
        ensures
            match find_command(self.commands(), name@) {
                Some(i) => r matches Some(c) && c@ == self.commands()[i],
                None => r is None,
            },
    {
        let mut i: usize = 0;
        while i < self.commands.len()
            invariant
                self.wf(),
                i <= self.commands@.len(),
                forall|k: int| 0 <= k < i ==> (#[trigger] self.commands()[k]).name != name@,
            decreases self.commands@.len() - i,
        {
            assert(self.commands()[i as int] == self.commands@[i as int]@);
            if crate::util::text::str_eq(self.commands[i].name.as_str(), name) {
                assert(self.commands()[i as int].name == name@);
                let ghost j = find_command(self.commands(), name@)->Some_0;
                assert(j == i as int);
                return Some(&self.commands[i]);
            }
            i += 1;
        }
        None
    }

    /// The names of the loaded commands, in ascending order.
    pub fn command_names(&self) -> (r: Vec<String>)
        ensures
            sorted_texts(string_views(r@)),
            string_views(r@).to_multiset() == command_names_view(self.commands()).to_multiset(),
    {
        let ghost all = command_names_view(self.commands());
        let mut names: Vec<String> = Vec::new();
        let mut i: usize = 0;
        assert(all.take(0) =~= string_views(names@));
        while i < self.commands.len()
            invariant
                all == command_names_view(self.commands()),
                i <= self.commands@.len(),
                string_views(names@) == all.take(i as int),
            decreases self.commands@.len() - i,
        {
            let ghost before = string_views(names@);
            let n = self.commands[i].name.clone();
            assert(n@ == all[i as int]);
            names.push(n);
            assert(string_views(names@) =~= before.push(n@));
            assert(all.take(i + 1) =~= all.take(i as int).push(all[i as int]));
            i += 1;
        }
        assert(all.take(i as int) =~= all);
        sort_strings(&names)
    }
}

/// A registry error as a mathematical value.
pub ghost enum RegistryErrorView {
    /// A module of this name is already loaded.
    ModuleClash(Seq<char>),
    /// A command (old name, new name) is already loaded.
    FeatureClash(Seq<char>, Seq<char>),
    /// A trigger's pattern does not compile.
    BadTriggerRegex,
}

/// The registry error that `e` reports, if it is one.
pub open spec fn registry_error_view(e: FrameworkError) -> Option<RegistryErrorView> {
    match e {
        FrameworkError::ModuleRegistryClash(old, _) => Some(RegistryErrorView::ModuleClash(old.name@)),
        FrameworkError::ModuleFeatureRegistryClash(old, new) => if old.kind == ModuleFeatureKind::Command
            && new.kind == ModuleFeatureKind::Command {
            Some(RegistryErrorView::FeatureClash(old.name@, new.name@))
        } else {
            None
        },
        FrameworkError::Regex(_) => Some(RegistryErrorView::BadTriggerRegex),
        _ => None,
    }
}

/// What loading a module named `name` with features `fs` under `mode` does to the module
/// names, commands and triggers, and the errors it reports: under `Add`, a module of the same
/// name is refused whole; otherwise the name is recorded and the features are loaded one by
/// one (see [`load_features`]).
pub open spec fn module_step(
    names: Seq<Seq<char>>,
    cmds: Seq<CommandView>,
    trigs: Seq<TriggerView>,
    name: Seq<char>,
    fs: Seq<ModuleFeature>,
    mode: ModuleLoadMode,
) -> (Seq<Seq<char>>, Seq<CommandView>, Seq<TriggerView>, Seq<RegistryErrorView>) {
    if mode == ModuleLoadMode::Add && names.contains(name) {
        (names, cmds, trigs, seq![RegistryErrorView::ModuleClash(name)])
    } else {
        let names2 = if names.contains(name) {
            names
        } else {
            names.push(name)
        };
        let (cmds2, trigs2, errs) = load_features(cmds, trigs, name, fs, mode);
        (names2, cmds2, trigs2, errs)
    }
}

/// What loading `modules` one by one under `mode` does to the module names, commands and
/// triggers, and all the errors reported, in order.
pub open spec fn modules_step(
    names: Seq<Seq<char>>,
    cmds: Seq<CommandView>,
    trigs: Seq<TriggerView>,
    modules: Seq<Module>,
    mode: ModuleLoadMode,
) -> (Seq<Seq<char>>, Seq<CommandView>, Seq<TriggerView>, Seq<RegistryErrorView>)
    decreases modules.len(),
{
    if modules.len() == 0 {
        (names, cmds, trigs, seq![])
    } else {
        let (n1, c1, t1, e1) = modules_step(names, cmds, trigs, modules.drop_last(), mode);
        let m = modules.last();
        let (n2, c2, t2, e2) = module_step(n1, c1, t1, m.name_view(), m.features_view(), mode);
        (n2, c2, t2, e1 + e2)
    }
}

/// The views of a list of errors, where each is a registry error.
pub open spec fn errors_view(es: Seq<FrameworkError>) -> Seq<Option<RegistryErrorView>> {
    Seq::new(es.len(), |k: int| registry_error_view(es[k]))
}

/// The views of a list of registry errors, each wrapped as present.
pub open spec fn some_views(es: Seq<RegistryErrorView>) -> Seq<Option<RegistryErrorView>> {
    Seq::new(es.len(), |k: int| Some(es[k]))
}

proof fn lemma_find_command_facts(cmds: Seq<CommandView>, name: Seq<char>)
    requires
        unique_names(cmds),
    ensures
        find_command(cmds, name) matches Some(i) ==> 0 <= i < cmds.len() && cmds[i].name == name,
        find_command(cmds, name) is None ==> forall|k: int| 0 <= k < cmds.len() ==> (#[trigger] cmds[k]).name != name,
        forall|k: int| 0 <= k < cmds.len() && (#[trigger] cmds[k]).name == name ==> find_command(cmds, name) == Some(k),
{
}

/// Loading a command keeps names unique, and leaves the command with its name.
pub proof fn lemma_with_command(cmds: Seq<CommandView>, c: CommandView)
    requires
        unique_names(cmds),
    ensures
        unique_names(with_command(cmds, c)),
        find_command(with_command(cmds, c), c.name) matches Some(i) && with_command(cmds, c)[i] == c,
        forall|n: Seq<char>| n != c.name ==> #[trigger] find_command(with_command(cmds, c), n) == find_command(cmds, n)
            && (find_command(cmds, n) matches Some(i) ==> with_command(cmds, c)[i] == cmds[i]),
{
    lemma_find_command_facts(cmds, c.name);
    let w = with_command(cmds, c);
    match find_command(cmds, c.name) {
        Some(i) => {
            assert forall|a: int, b: int| 0 <= a < b < w.len() implies (#[trigger] w[a]).name != (#[trigger] w[b]).name by {
                if a == i {
                    assert(cmds[b].name != cmds[i].name);
                } else if b == i {
                    assert(cmds[a].name != cmds[i].name);
                }
            }
            lemma_find_command_facts(w, c.name);
            assert(w[i] == c);
        },
        None => {
            assert forall|a: int, b: int| 0 <= a < b < w.len() implies (#[trigger] w[a]).name != (#[trigger] w[b]).name by {
                if b == cmds.len() {
                    assert(w[a] == cmds[a]);
                }
            }
            lemma_find_command_facts(w, c.name);
            assert(w[cmds.len() as int] == c);
        },
    }
    assert forall|n: Seq<char>| n != c.name implies #[trigger] find_command(w, n) == find_command(cmds, n)
        && (find_command(cmds, n) matches Some(i) ==> w[i] == cmds[i]) by {
        lemma_find_command_facts(cmds, n);
        lemma_find_command_facts(w, n);
        match find_command(cmds, n) {
            Some(j) => {
                assert(w[j] == cmds[j]);
            },
            None => {
                if find_command(w, n) is Some {
                    let j = find_command(w, n)->Some_0;
                    if j < cmds.len() {
                        assert(w[j] == cmds[j]);
                    }
                }
            },
        }
    }
}

/// Loading features keeps command names unique.
pub proof fn lemma_load_features_unique(
    cmds: Seq<CommandView>,
    trigs: Seq<TriggerView>,
    provider: Seq<char>,
    fs: Seq<ModuleFeature>,
    mode: ModuleLoadMode,
)
    requires
        unique_names(cmds),
    ensures
        unique_names(load_features(cmds, trigs, provider, fs, mode).0),
    decreases fs.len(),
{
    if fs.len() > 0 {
        lemma_load_features_unique(cmds, trigs, provider, fs.drop_last(), mode);
        let before = load_features(cmds, trigs, provider, fs.drop_last(), mode).0;
        lemma_with_command(before, command_of(provider, fs.last()));
    }
}

/// Under `Force`, no command is ever refused: the only errors are triggers whose patterns do
/// not compile.
pub proof fn lemma_force_never_refuses(
    cmds: Seq<CommandView>,
    trigs: Seq<TriggerView>,
    provider: Seq<char>,
    fs: Seq<ModuleFeature>,
)
    ensures
        forall|k: int| 0 <= k < load_features(cmds, trigs, provider, fs, ModuleLoadMode::Force).2.len()
            ==> #[trigger] load_features(cmds, trigs, provider, fs, ModuleLoadMode::Force).2[k] == RegistryErrorView::BadTriggerRegex,
    decreases fs.len(),
{
    if fs.len() > 0 {
        lemma_force_never_refuses(cmds, trigs, provider, fs.drop_last());
    }
}

/// Where no feature of a module is refused, each of its commands is loaded afterwards, provided
/// by the module.
pub proof fn lemma_loaded_commands_registered(
    cmds: Seq<CommandView>,
    trigs: Seq<TriggerView>,
    provider: Seq<char>,
    fs: Seq<ModuleFeature>,
    mode: ModuleLoadMode,
)
    requires
        unique_names(cmds),
        load_features(cmds, trigs, provider, fs, mode).2.len() == 0,
    ensures
        forall|k: int| 0 <= k < fs.len() && is_command(fs[k]) ==> {
            let after = load_features(cmds, trigs, provider, fs, mode).0;
            let n = (#[trigger] command_of(provider, fs[k])).name;
            find_command(after, n) matches Some(i) && after[i].provider == provider
        },
    decreases fs.len(),
{
    if fs.len() > 0 {
        let init = fs.drop_last();
        let (before, t0, errs) = load_features(cmds, trigs, provider, init, mode);
        let f = fs.last();
        let c = command_of(provider, f);
        if is_command(f) {
            if clash_with(before, provider, c.name, mode) is Some {
                assert(load_features(cmds, trigs, provider, fs, mode).2.len() == errs.len() + 1);
            }
        } else {
            let t = trigger_of(provider, f);
            if !regex_builds(t.settings.pattern, t.settings.case_insensitive, t.settings.size_limit) {
                assert(load_features(cmds, trigs, provider, fs, mode).2.len() == errs.len() + 1);
            }
        }
        assert(errs.len() == 0);
        lemma_loaded_commands_registered(cmds, trigs, provider, init, mode);
        lemma_load_features_unique(cmds, trigs, provider, init, mode);
        lemma_with_command(before, c);
        let after = load_features(cmds, trigs, provider, fs, mode).0;
        assert forall|k: int| 0 <= k < fs.len() && is_command(fs[k]) implies {
            let n = (#[trigger] command_of(provider, fs[k])).name;
            find_command(after, n) matches Some(i) && after[i].provider == provider
        } by {
            let n = command_of(provider, fs[k]).name;
            if k < fs.len() - 1 {
                assert(fs[k] == init[k]);
                assert(command_of(provider, init[k]).name == n);
                if is_command(f) && n != c.name {
                    assert(find_command(after, n) == find_command(before, n));
                }
            }
        }
    }
}

impl Registry {
    /// Loads a command feature of the module `provider`, taking the place of any command of the
    /// same name.
    fn force_load_module_feature(&mut self, provider: &Module, feature: &ModuleFeature)
        requires
            old(self).wf(),
            is_command(*feature),
        ensures
            final(self).wf(),
            final(self).module_names() == old(self).module_names(),
            final(self).triggers_view() == old(self).triggers_view(),
            final(self).commands() == with_command(old(self).commands(), command_of(provider.name_view(), *feature)),
    {
        let ghost c = command_of(provider.name_view(), *feature);
        proof {
            lemma_with_command(self.commands(), c);
            lemma_find_command_facts(self.commands(), c.name);
        }
        match feature {
            ModuleFeature::Command { name, usage, help_msg, auth_lvl } => {
                let cmd = BotCommand {
                    name: name.clone(),
                    provider: provider.name().to_owned(),
                    auth_lvl: *auth_lvl,
                    usage_str: usage.clone(),
                    help_msg: help_msg.clone(),
                };
                assert(cmd@ == c);
                let ghost before = self.commands();
                let mut i: usize = 0;
                while i < self.commands.len()
                    invariant
                        before == command_views(self.commands@),
                        before == old(self).commands(),
                        self.module_names() == old(self).module_names(),
                        self.triggers_view() == old(self).triggers_view(),
                        unique_texts(self.module_names()),
                        unique_names(before),
                        i <= self.commands@.len(),
                        cmd@ == c,
                        c.name == name@,
                        c == command_of(provider.name_view(), *feature),
                        forall|k: int| 0 <= k < i ==> (#[trigger] before[k]).name != c.name,
                    decreases self.commands@.len() - i,
                {
                    assert(before[i as int] == self.commands@[i as int]@);
                    if crate::util::text::str_eq(self.commands[i].name.as_str(), name.as_str()) {
                        proof {
                            lemma_find_command_facts(before, c.name);
                        }
                        assert(before[i as int].name == c.name);
                        assert(find_command(before, c.name) == Some(i as int));
                        self.commands.set(i, cmd);
                        assert(command_views(self.commands@) =~= before.update(i as int, c));
                        assert(self.commands() == with_command(before, c));
                        return;
                    }
                    i += 1;
                }
                proof {
                    lemma_find_command_facts(before, c.name);
                }
                assert(find_command(before, c.name) is None);
                self.commands.push(cmd);
                assert(command_views(self.commands@) =~= before.push(c));
                assert(self.commands() == with_command(before, c));
            },
            ModuleFeature::Trigger { .. } => {
                proof {
                    assert(false);
                }
            },
        }
    }

    /// Loads a command feature of the module `provider` under `mode`, unless it clashes with a
    /// loaded command (see [`clash_with`]), in which case the error names both and nothing
    /// changes.
    pub fn load_module_feature(&mut self, provider: &Module, feature: &ModuleFeature, mode: ModuleLoadMode) -> (r: Result<(), FrameworkError>)
        requires
            old(self).wf(),
            is_command(*feature),
        ensures
            final(self).wf(),
            final(self).module_names() == old(self).module_names(),
            final(self).triggers_view() == old(self).triggers_view(),
            ({
                let c = command_of(provider.name_view(), *feature);
                match clash_with(old(self).commands(), provider.name_view(), c.name, mode) {
                    Some(i) => r matches Err(e) && registry_error_view(e) == Some(RegistryErrorView::FeatureClash(old(self).commands()[i].name, c.name))
                        && final(self).commands() == old(self).commands(),
                    None => r is Ok && final(self).commands() == with_command(old(self).commands(), c),
                }
            }),
    {
        let ghost c = command_of(provider.name_view(), *feature);
        let name = match feature {
            ModuleFeature::Command { name, .. } => name,
            ModuleFeature::Trigger { name, .. } => {
                proof {
                    assert(false);
                }
                name
            },
        };
        assert(name@ == c.name);
        proof {
            lemma_find_command_facts(self.commands(), c.name);
        }
        match self.command(name.as_str()) {
            Some(old_cmd) => {
                let clash = match mode {
                    ModuleLoadMode::Force => false,
                    ModuleLoadMode::Replace => !crate::util::text::str_eq(old_cmd.provider.as_str(), provider.name()),
                    ModuleLoadMode::Add => true,
                };
                if clash {
                    let old_info = old_cmd.dbg_info();
                    let new_info = ModuleFeatureInfo { name: name.clone(), kind: ModuleFeatureKind::Command };
                    return Err(FrameworkError::ModuleFeatureRegistryClash(old_info, new_info));
                }
            },
            None => {},
        }
        self.force_load_module_feature(provider, feature);
        Ok(())
    }

    /// Loads a trigger feature of the module `provider`: its pattern is compiled with the
    /// standard settings, and the trigger is added after the loaded ones; where the pattern does
    /// not compile, the `regex` error is returned and nothing changes.
    fn load_trigger_feature(&mut self, provider: &Module, feature: &ModuleFeature) -> (r: Result<(), FrameworkError>)
        requires
            old(self).wf(),
            !is_command(*feature),
        ensures
            final(self).wf(),
            final(self).module_names() == old(self).module_names(),
            final(self).commands() == old(self).commands(),
            ({
                let t = trigger_of(provider.name_view(), *feature);
                if regex_builds(t.settings.pattern, t.settings.case_insensitive, t.settings.size_limit) {
                    r is Ok && final(self).triggers_view() == old(self).triggers_view().push(t)
                } else {
                    r matches Err(e) && registry_error_view(e) == Some(RegistryErrorView::BadTriggerRegex)
                        && final(self).triggers_view() == old(self).triggers_view()
                }
            }),
    {
        match feature {
            ModuleFeature::Trigger { name, regex, help_msg, priority } => {
                let settings = RegexSettings { pattern: regex.clone(), case_insensitive: false, size_limit: None };
                match CompiledRegex::build(settings) {
                    Ok(rx) => {
                        let t = Trigger {
                            name: name.clone(),
                            provider: provider.name().to_owned(),
                            regex: rx,
                            priority: *priority,
                            help_msg: help_msg.clone(),
                        };
                        let ghost before = self.triggers_view();
                        self.triggers.push(t);
                        assert(self.triggers_view() =~= before.push(trigger_of(provider.name_view(), *feature)));
                        Ok(())
                    },
                    Err(e) => Err(FrameworkError::Regex(e)),
                }
            },
            ModuleFeature::Command { .. } => {
                proof {
                    assert(false);
                }
                Ok(())
            },
        }
    }

    /// Loads a module under `mode`: under `Add`, a module whose name is already loaded is
    /// refused whole, with nothing changed; otherwise its name is recorded and its features are
    /// loaded one by one (see [`load_features`]), and the errors of those refused are returned
    /// in order.
    pub fn load_module(&mut self, module: &Module, mode: ModuleLoadMode) -> (r: Result<(), Vec<FrameworkError>>)
        requires
            old(self).wf(),
        ensures
            final(self).wf(),
            ({
                let (names, cmds, trigs, errs) = module_step(
                    old(self).module_names(), old(self).commands(), old(self).triggers_view(),
                    module.name_view(), module.features_view(), mode,
                );
                &&& final(self).module_names() == names
                &&& final(self).commands() == cmds
                &&& final(self).triggers_view() == trigs
                &&& (r is Ok <==> errs.len() == 0)
                &&& (r matches Err(v) ==> errors_view(v@) == some_views(errs))
            }),
    {
        let ghost old_names = self.module_names();
        let ghost old_cmds = self.commands();
        let ghost old_trigs = self.triggers_view();
        let mut present = false;
        let mut i: usize = 0;
        while i < self.modules.len()
            invariant
                old_names == string_views(self.modules@),
                i <= self.modules@.len(),
                present ==> old_names.contains(module.name_view()),
                !present ==> forall|k: int| 0 <= k < i ==> old_names[k] != module.name_view(),
            decreases self.modules@.len() - i,
        {
            assert(old_names[i as int] == self.modules@[i as int]@);
            if crate::util::text::str_eq(self.modules[i].as_str(), module.name()) {
                present = true;
            }
            i += 1;
        }
        if present && mode == ModuleLoadMode::Add {
            let info = module.dbg_info();
            let v = vec![FrameworkError::ModuleRegistryClash(info, module.dbg_info())];
            assert(errors_view(v@) =~= some_views(seq![RegistryErrorView::ModuleClash(module.name_view())]));
            return Err(v);
        }
        if !present {
            self.modules.push(module.name().to_owned());
            assert(string_views(self.modules@) =~= old_names.push(module.name_view()));
            assert forall|a: int, b: int| 0 <= a < b < self.module_names().len() implies #[trigger] self.module_names()[a] != #[trigger] self.module_names()[b] by {
                if b == old_names.len() {
                    assert(old_names[a] != module.name_view());
                }
            }
        }
        let features = module.features();
        let ghost fs = module.features_view();
        let ghost name = module.name_view();
        let mut errs: Vec<FrameworkError> = Vec::new();
        let mut k: usize = 0;
        assert(fs.take(0) =~= Seq::<ModuleFeature>::empty());
        assert(errors_view(errs@) =~= some_views(seq![]));
        while k < features.len()
            invariant
                features@ == fs,
                fs == module.features_view(),
                name == module.name_view(),
                k <= fs.len(),
                self.wf(),
                unique_names(old_cmds),
                self.module_names() == (if old_names.contains(name) { old_names } else { old_names.push(name) }),
                self.commands() == load_features(old_cmds, old_trigs, name, fs.take(k as int), mode).0,
                self.triggers_view() == load_features(old_cmds, old_trigs, name, fs.take(k as int), mode).1,
                errors_view(errs@) == some_views(load_features(old_cmds, old_trigs, name, fs.take(k as int), mode).2),
            decreases fs.len() - k,
        {
            assert(fs.take(k + 1).drop_last() =~= fs.take(k as int));
            assert(fs.take(k + 1).last() == fs[k as int]);
            let ghost before_errs = errors_view(errs@);
            let ghost prev = load_features(old_cmds, old_trigs, name, fs.take(k as int), mode);
            let ghost next = load_features(old_cmds, old_trigs, name, fs.take(k + 1), mode);
            let outcome = match &features[k] {
                ModuleFeature::Command { .. } => self.load_module_feature(module, &features[k], mode),
                ModuleFeature::Trigger { .. } => self.load_trigger_feature(module, &features[k]),
            };
            match outcome {
                Ok(()) => {
                    assert(some_views(next.2) =~= some_views(prev.2));
                },
                Err(e) => {
                    errs.push(e);
                    assert(errors_view(errs@) =~= before_errs.push(registry_error_view(e)));
                    assert(some_views(next.2) =~= some_views(prev.2).push(Some(next.2.last())));
                },
            }
            k += 1;
        }
        assert(fs.take(k as int) =~= fs);
        if errs.len() == 0 {
            Ok(())
        } else {
            Err(errs)
        }
    }

    /// Loads modules one by one under `mode` (see [`Registry::load_module`]), and returns all
    /// the errors reported, in order.
    pub fn load_modules(&mut self, modules: &[Module], mode: ModuleLoadMode) -> (r: Result<(), Vec<FrameworkError>>)
        requires
            old(self).wf(),
        ensures
            final(self).wf(),
            ({
                let (names, cmds, trigs, errs) = modules_step(
                    old(self).module_names(), old(self).commands(), old(self).triggers_view(), modules@, mode,
                );
                &&& final(self).module_names() == names
                &&& final(self).commands() == cmds
                &&& final(self).triggers_view() == trigs
                &&& (r is Ok <==> errs.len() == 0)
                &&& (r matches Err(v) ==> errors_view(v@) == some_views(errs))
            }),
    {
        let ghost n0 = self.module_names();
        let ghost c0 = self.commands();
        let ghost t0 = self.triggers_view();
        let mut errs: Vec<FrameworkError> = Vec::new();
        let mut k: usize = 0;
        assert(modules@.take(0) =~= Seq::<Module>::empty());
        assert(errors_view(errs@) =~= some_views(seq![]));
        while k < modules.len()
            invariant
                k <= modules@.len(),
                self.wf(),
                self.module_names() == modules_step(n0, c0, t0, modules@.take(k as int), mode).0,
                self.commands() == modules_step(n0, c0, t0, modules@.take(k as int), mode).1,
                self.triggers_view() == modules_step(n0, c0, t0, modules@.take(k as int), mode).2,
                errors_view(errs@) == some_views(modules_step(n0, c0, t0, modules@.take(k as int), mode).3),
            decreases modules@.len() - k,
        {
            assert(modules@.take(k + 1).drop_last() =~= modules@.take(k as int));
            assert(modules@.take(k + 1).last() == modules@[k as int]);
            let ghost before = errors_view(errs@);
            let ghost step = module_step(
                self.module_names(), self.commands(), self.triggers_view(),
                modules@[k as int].name_view(), modules@[k as int].features_view(), mode,
            );
            match self.load_module(&modules[k], mode) {
                Ok(()) => {
                    assert(some_views(modules_step(n0, c0, t0, modules@.take(k + 1), mode).3) =~= before);
                },
                Err(mut v) => {
                    let ghost vv = errors_view(v@);
                    errs.append(&mut v);
                    assert(errors_view(errs@) =~= before + vv);
                    assert(some_views(modules_step(n0, c0, t0, modules@.take(k + 1), mode).3) =~= before + some_views(step.3));
                },
            }
            k += 1;
        }
        assert(modules@.take(k as int) =~= modules@);
        if errs.len() == 0 {
            Ok(())
        } else {
            Err(errs)
        }
    }
}

} // verus!
