//! The bot's configuration: its nickname, usernames, administrators and servers, checked and
//! completed with defaults.

use vstd::prelude::*;
use super::err::FrameworkError;
use super::pkg_info::{brief_credits, brief_credits_string};
use crate::util::irc::ChannelName;
use crate::util::lock::RoLock;
use crate::util::regex::{Anchored, ConfiguredRegex, Standard};
use crate::util::text::string_views;

verus! {

/// An administrator of the bot, identified by whichever of nickname, username and host are set.
#[derive(Clone, Debug)]
pub struct Admin {
    /// The administrator's nickname, if it is checked.
    pub nick: Option<String>,
    /// The administrator's username, if it is checked.
    pub user: Option<String>,
    /// The administrator's host, if it is checked.
    pub host: Option<String>,
}

/// Per-channel settings.
#[derive(Debug)]
pub struct Channel {
    /// The channel's name.
    pub name: ChannelName,
    /// The anchored regex of the identifiers of the channels that this channel can see.
    pub can_see: Option<RoLock<ConfiguredRegex<Anchored<Standard>>>>,
    /// The anchored regex of the identifiers of the channels that can see this channel.
    pub seen_by: Option<RoLock<ConfiguredRegex<Anchored<Standard>>>>,
}

/// Per-server settings.
#[derive(Debug)]
pub struct Server {
    /// A name identifying the server.
    pub name: String,
    /// The server's host name.
    pub host: String,
    /// The TCP port at which the server serves IRC.
    pub port: u16,
    /// A password proving the bot's right to its nickname.
    pub nick_password: Option<String>,
    /// A password for connecting to the server.
    pub server_password: Option<String>,
    /// Whether to connect with TLS.
    pub tls: bool,
    /// The channels on the server.
    pub channels: Vec<Channel>,
}

/// The default of the `TLS` setting: `true`.
pub fn mk_true() -> (r: bool)
    ensures
        r,
{
    true
}

/// A configuration as it is read, before it is checked and completed.
#[derive(Debug)]
pub struct ConfigDraft {
    /// The bot's nickname.
    pub nickname: String,
    /// The bot's username (empty for the default).
    pub username: String,
    /// The bot's "realname" (empty for the default).
    pub realname: String,
    /// The bot's administrators.
    pub admins: Vec<Admin>,
    /// The servers to connect to.
    pub servers: Vec<Server>,
}

impl ConfigDraft {
    /// An empty draft.
    pub fn empty() -> (r: ConfigDraft)
        ensures
            r.nickname@.len() == 0,
            r.username@.len() == 0,
            r.realname@.len() == 0,
            r.admins@.len() == 0,
            r.servers@.len() == 0,
    {
        ConfigDraft {
            nickname: String::new(),
            username: String::new(),
            realname: String::new(),
            admins: Vec::new(),
            servers: Vec::new(),
        }
    }
}

/// The settings of the connection to one server, as the IRC client takes them.
#[derive(Debug)]
pub struct ConnectionSettings {
    /// The nickname to use.
    pub nickname: String,
    /// The password proving the bot's right to its nickname.
    pub nick_password: Option<String>,
    /// The password for connecting to the server.
    pub password: Option<String>,
    /// The username to use.
    pub username: String,
    /// The "realname" to use.
    pub realname: String,
    /// The server's host name.
    pub server: String,
    /// The server's port.
    pub port: u16,
    /// Whether to connect with TLS.
    pub use_ssl: bool,
    /// The channels to join.
    pub channels: Vec<String>,
}

/// A checked and completed configuration.
#[derive(Debug)]
pub struct Config {
    /// The bot's nickname.
    pub nickname: String,
    /// The bot's username.
    pub username: String,
    /// The bot's "realname".
    pub realname: String,
    /// The bot's administrators.
    pub admins: Vec<Admin>,
    /// The servers to connect to.
    pub servers: Vec<Server>,
    /// The connection settings in use: those of the first server, the only one the bot
    /// connects to.
    pub aatxe_configs: Vec<ConnectionSettings>,
}

/// The first problem that makes a draft unusable, as the key and the complaint: an empty
/// nickname, or no servers. Several servers are no problem: only the first is used.
pub open spec fn config_problem(nickname: Seq<char>, server_count: nat) -> Option<(Seq<char>, Seq<char>)> {
    if nickname.len() == 0 {
        Some(("nickname"@, "is empty"@))
    } else if server_count == 0 {
        Some(("servers"@, "is empty"@))
    } else {
        None
    }
}

/// Checks that a draft is usable (see [`config_problem`]).
pub fn validate_config(cfg: &ConfigDraft) -> (r: Result<(), FrameworkError>)
    ensures
        match config_problem(cfg.nickname@, cfg.servers@.len()) {
            None => r is Ok,
            Some((k, p)) => r matches Err(FrameworkError::Config(a, b)) && a@ == k && b@ == p,
        },
{
    if cfg.nickname.as_str().is_empty() {
        return Err(FrameworkError::Config("nickname".to_owned(), "is empty".to_owned()));
    }
    if cfg.servers.len() == 0 {
        return Err(FrameworkError::Config("servers".to_owned(), "is empty".to_owned()));
    }
    Ok(())
}

/// The username in force: the one given, or else the nickname.
pub open spec fn username_or_default(username: Seq<char>, nickname: Seq<char>) -> Seq<char> {
    if username.len() == 0 {
        nickname
    } else {
        username
    }
}

/// The "realname" in force: the one given, or else the framework's credit line.
pub open spec fn realname_or_default(realname: Seq<char>) -> Seq<char> {
    if realname.len() == 0 {
        brief_credits()
    } else {
        realname
    }
}

/// Fills in the defaults of a draft: the username defaults to the nickname, and the
/// "realname" to the framework's credit line.
pub fn fill_in_config_defaults(cfg: &mut ConfigDraft) -> (r: Result<(), FrameworkError>)
    ensures
        r is Ok,
        final(cfg).nickname == old(cfg).nickname,
        final(cfg).username@ == username_or_default(old(cfg).username@, old(cfg).nickname@),
        final(cfg).realname@ == realname_or_default(old(cfg).realname@),
        final(cfg).admins == old(cfg).admins,
        final(cfg).servers == old(cfg).servers,
{
    if cfg.username.as_str().is_empty() {
        cfg.username = cfg.nickname.clone();
    }
    if cfg.realname.as_str().is_empty() {
        cfg.realname = brief_credits_string();
    }
    Ok(())
}

/// Whether `s` holds the connection settings for `server`, with the bot's names as given and
/// the names of the server's channels to join.
pub open spec fn settings_for(s: ConnectionSettings, server: Server, nickname: Seq<char>, username: Seq<char>, realname: Seq<char>) -> bool {
    &&& s.nickname@ == nickname
    &&& s.nick_password == server.nick_password
    &&& s.password == server.server_password
    &&& s.username@ == username
    &&& s.realname@ == realname
    &&& s.server@ == server.host@
    &&& s.port == server.port
    &&& s.use_ssl == server.tls
    &&& string_views(s.channels@) == channel_names(server)
}

/// The names of a server's channels, in order.
pub open spec fn channel_names(server: Server) -> Seq<Seq<char>> {
    Seq::new(server.channels@.len(), |i: int| server.channels@[i].name.text())
}

fn clone_opt(s: &Option<String>) -> (r: Option<String>)
    ensures
        r == *s,
{
    match s {
        Some(x) => Some(x.clone()),
        None => None,
    }
}

fn connection_settings(server: &Server, nickname: &String, username: &String, realname: &String) -> (r: ConnectionSettings)
    ensures
        settings_for(r, *server, nickname@, username@, realname@),
{
    let mut channels: Vec<String> = Vec::new();
    let mut i: usize = 0;
    while i < server.channels.len()
        invariant
            i <= server.channels@.len(),
            string_views(channels@) == channel_names(*server).take(i as int),
        decreases server.channels@.len() - i,
    {
        let ghost before = string_views(channels@);
        let n = server.channels[i].name.as_str().to_owned();
        channels.push(n);
        assert(string_views(channels@) =~= before.push(n@));
        assert(channel_names(*server).take(i + 1) =~= channel_names(*server).take(i as int).push(n@));
        i += 1;
    }
    let r = ConnectionSettings {
        nickname: nickname.clone(),
        nick_password: clone_opt(&server.nick_password),
        password: clone_opt(&server.server_password),
        username: username.clone(),
        realname: realname.clone(),
        server: server.host.clone(),
        port: server.port,
        use_ssl: server.tls,
        channels,
    };
    assert(channel_names(*server).take(i as int) =~= channel_names(*server));
    r
}

/// Whether `r` is what checking and completing the draft `cfg` gives: the error of its first
/// problem, or the configuration with its defaults filled in and the connection settings of
/// its first server, the one the bot connects to.
pub open spec fn cooked(cfg: ConfigDraft, r: Result<Config, FrameworkError>) -> bool {
    match config_problem(cfg.nickname@, cfg.servers@.len()) {
        Some((k, p)) => r matches Err(FrameworkError::Config(a, b)) && a@ == k && b@ == p,
        None => r matches Ok(c) && {
            let user = username_or_default(cfg.username@, cfg.nickname@);
            let rn = realname_or_default(cfg.realname@);
            &&& c.nickname@ == cfg.nickname@
            &&& c.username@ == user
            &&& c.realname@ == rn
            &&& c.admins == cfg.admins
            &&& c.servers == cfg.servers
            &&& c.aatxe_configs@.len() == 1
            &&& settings_for(c.aatxe_configs@[0], cfg.servers@[0], cfg.nickname@, user, rn)
        },
    }
}

/// Checks a draft (see [`validate_config`]), fills in its defaults (see
/// [`fill_in_config_defaults`]), and derives the connection settings of the first server.
pub fn cook_config(cfg: ConfigDraft) -> (r: Result<Config, FrameworkError>)
    ensures
        cooked(cfg, r),
{
    let mut cfg = cfg;
    match validate_config(&cfg) {
        Ok(()) => {},
        Err(e) => {
            return Err(e);
        },
    }
    let ghost before = cfg;
    let _ = fill_in_config_defaults(&mut cfg);
    let first = connection_settings(&cfg.servers[0], &cfg.nickname, &cfg.username, &cfg.realname);
    let mut settings: Vec<ConnectionSettings> = Vec::new();
    settings.push(first);
    let ConfigDraft { nickname, username, realname, admins, servers } = cfg;
    Ok(Config { nickname, username, realname, admins, servers, aatxe_configs: settings })
}

/// Builds a configuration step by step; the first error met is kept.
#[derive(Debug)]
pub struct ConfigBuilder(pub Result<ConfigDraft, FrameworkError>);

impl Config {
    /// Starts building a configuration from an empty draft.
    pub fn build() -> (r: ConfigBuilder)
        ensures
            r.0 matches Ok(d) && d.nickname@.len() == 0 && d.username@.len() == 0 && d.realname@.len() == 0
                && d.admins@.len() == 0 && d.servers@.len() == 0,
    {
        ConfigBuilder(Ok(ConfigDraft::empty()))
    }
}

impl ConfigBuilder {
    /// Sets the nickname; an empty nickname is an error.
    pub fn nickname(self, nickname: &str) -> (r: ConfigBuilder)
        ensures
            nickname@.len() == 0 ==> (r.0 matches Err(FrameworkError::Config(k, p)) && k@ == "nickname"@ && p@ == "is empty"@),
            nickname@.len() > 0 ==> match self.0 {
                Ok(d) => r.0 matches Ok(e) && e.nickname@ == nickname@ && e.username == d.username && e.realname == d.realname
                    && e.admins == d.admins && e.servers == d.servers,
                Err(x) => r.0 == Err::<ConfigDraft, FrameworkError>(x),
            },
    {
        if nickname.is_empty() {
            return ConfigBuilder(Err(FrameworkError::Config("nickname".to_owned(), "is empty".to_owned())));
        }
        match self.0 {
            Ok(d) => ConfigBuilder(Ok(ConfigDraft { nickname: nickname.to_owned(), ..d })),
            Err(e) => ConfigBuilder(Err(e)),
        }
    }

    /// Sets the username.
    pub fn username(self, username: &str) -> (r: ConfigBuilder)
        ensures
            match self.0 {
                Ok(d) => r.0 matches Ok(e) && e.username@ == username@ && e.nickname == d.nickname && e.realname == d.realname
                    && e.admins == d.admins && e.servers == d.servers,
                Err(x) => r.0 == Err::<ConfigDraft, FrameworkError>(x),
            },
    {
        match self.0 {
            Ok(d) => ConfigBuilder(Ok(ConfigDraft { username: username.to_owned(), ..d })),
            Err(e) => ConfigBuilder(Err(e)),
        }
    }

    /// Sets the "realname".
    pub fn realname(self, realname: &str) -> (r: ConfigBuilder)
        ensures
            match self.0 {
                Ok(d) => r.0 matches Ok(e) && e.realname@ == realname@ && e.nickname == d.nickname && e.username == d.username
                    && e.admins == d.admins && e.servers == d.servers,
                Err(x) => r.0 == Err::<ConfigDraft, FrameworkError>(x),
            },
    {
        match self.0 {
            Ok(d) => ConfigBuilder(Ok(ConfigDraft { realname: realname.to_owned(), ..d })),
            Err(e) => ConfigBuilder(Err(e)),
        }
    }

    /// The configuration built: the first error met, or the draft checked and completed (see
    /// [`cook_config`]).
    pub fn into_config(self) -> (r: Result<Config, FrameworkError>)
        ensures
            match self.0 {
                Err(x) => r == Err::<Config, FrameworkError>(x),
                Ok(d) => cooked(d, r),
            },
    {
        match self.0 {
            Ok(d) => cook_config(d),
            Err(e) => Err(e),
        }
    }
}

/// Implemented by what a configuration can be made from: a configuration itself, the result
/// of making one, and a builder.
pub trait IntoConfig: Sized {
    /// Whether `r` is what making a configuration from this value gives.
    spec fn makes(self, r: Result<Config, FrameworkError>) -> bool;

    /// Makes the configuration.
    fn into_config(self) -> (r: Result<Config, FrameworkError>)
        ensures
            self.makes(r),
    ;
}

impl IntoConfig for Config {
    /// A configuration makes itself.
    open spec fn makes(self, r: Result<Config, FrameworkError>) -> bool {
        r == Ok::<Config, FrameworkError>(self)
    }

    fn into_config(self) -> (r: Result<Config, FrameworkError>) {
        Ok(self)
    }
}

impl IntoConfig for Result<Config, FrameworkError> {
    /// The result of making a configuration is what it makes.
    open spec fn makes(self, r: Result<Config, FrameworkError>) -> bool {
        r == self
    }

    fn into_config(self) -> (r: Result<Config, FrameworkError>) {
        self
    }
}

impl IntoConfig for ConfigBuilder {
    /// A builder makes its first error, or its draft checked and completed (see
    /// [`cook_config`]).
    open spec fn makes(self, r: Result<Config, FrameworkError>) -> bool {
        match self.0 {
            Err(x) => r == Err::<Config, FrameworkError>(x),
            Ok(d) => cooked(d, r),
        }
    }

    fn into_config(self) -> (r: Result<Config, FrameworkError>) {
        ConfigBuilder::into_config(self)
    }
}

impl Config {
    /// Makes a configuration from anything that can be made into one: what the input's
    /// [`IntoConfig::into_config`] makes.
    pub fn try_from<T: IntoConfig>(input: T) -> (r: Result<Config, FrameworkError>)
        ensures
            input.makes(r),
    {
        input.into_config()
    }
}

} // verus!
