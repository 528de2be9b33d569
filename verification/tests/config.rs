use irc_bot::framework::config::{
    cook_config, fill_in_config_defaults, mk_true, validate_config, Admin, Channel, Config, ConfigDraft, Server,
};
use irc_bot::framework::err::FrameworkError;
use irc_bot::util::irc::ChannelName;

fn server(name: &str) -> Server {
    Server {
        name: name.to_owned(),
        host: "irc.example.net".to_owned(),
        port: 6697,
        nick_password: None,
        server_password: Some("pw".to_owned()),
        tls: true,
        channels: vec![
            Channel { name: ChannelName::new("#one").unwrap(), can_see: None, seen_by: None },
            Channel { name: ChannelName::new("#two").unwrap(), can_see: None, seen_by: None },
        ],
    }
}

fn draft(nick: &str, servers: Vec<Server>) -> ConfigDraft {
    let mut d = ConfigDraft::empty();
    d.nickname = nick.to_owned();
    d.servers = servers;
    d
}

fn config_error(r: Result<Config, FrameworkError>) -> (String, String) {
    match r {
        Err(FrameworkError::Config(k, p)) => (k, p),
        other => panic!("unexpected {:?}", other),
    }
}

#[test]
fn validation_errors() {
    assert_eq!(
        config_error(cook_config(draft("", vec![server("a")]))),
        ("nickname".to_owned(), "is empty".to_owned())
    );
    assert_eq!(
        config_error(cook_config(draft("bot", vec![]))),
        ("servers".to_owned(), "is empty".to_owned())
    );
    assert!(validate_config(&draft("bot", vec![server("a")])).is_ok());
    assert!(validate_config(&draft("bot", vec![server("a"), server("b")])).is_ok());
}

#[test]
fn only_the_first_server_is_used() {
    let mut second = server("b");
    second.host = "irc.other.net".to_owned();
    second.port = 6667;
    let c = cook_config(draft("bot", vec![server("a"), second])).unwrap();
    assert_eq!(c.servers.len(), 2);
    assert_eq!(c.aatxe_configs.len(), 1);
    assert_eq!(c.aatxe_configs[0].server, "irc.example.net");
    assert_eq!(c.aatxe_configs[0].port, 6697);
}

#[test]
fn defaults_are_filled_in() {
    let mut d = draft("bot", vec![server("a")]);
    fill_in_config_defaults(&mut d).unwrap();
    assert_eq!(d.username, "bot");
    assert_eq!(d.realname, "Built with <https://github.com/8573/irc-bot.rs> 0.2.1");
    let mut d = draft("bot", vec![server("a")]);
    d.username = "u".to_owned();
    d.realname = "R".to_owned();
    fill_in_config_defaults(&mut d).unwrap();
    assert_eq!(d.username, "u");
    assert_eq!(d.realname, "R");
    assert!(mk_true());
}

#[test]
fn cooked_configuration() {
    let mut d = draft("bot", vec![server("a")]);
    d.admins.push(Admin { nick: Some("boss".to_owned()), user: None, host: None });
    let c = cook_config(d).unwrap();
    assert_eq!(c.nickname, "bot");
    assert_eq!(c.username, "bot");
    assert_eq!(c.admins.len(), 1);
    assert_eq!(c.aatxe_configs.len(), 1);
    let s = &c.aatxe_configs[0];
    assert_eq!(s.nickname, "bot");
    assert_eq!(s.server, "irc.example.net");
    assert_eq!(s.port, 6697);
    assert!(s.use_ssl);
    assert_eq!(s.password, Some("pw".to_owned()));
    assert_eq!(s.channels, vec!["#one".to_owned(), "#two".to_owned()]);
}

#[test]
fn built_configuration() {
    let c = Config::build().nickname("bot").username("user").realname("Real").into_config();
    assert_eq!(config_error(c), ("servers".to_owned(), "is empty".to_owned()));
    let c = Config::build().nickname("").username("user").into_config();
    assert_eq!(config_error(c), ("nickname".to_owned(), "is empty".to_owned()));
    let mut b = Config::build().nickname("bot");
    if let Ok(d) = &mut b.0 {
        d.servers.push(server("a"));
    }
    let c = Config::try_from(b).unwrap();
    assert_eq!(c.realname, "Built with <https://github.com/8573/irc-bot.rs> 0.2.1");
}
