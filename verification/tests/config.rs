use soymilk_curry::config::{default_listen, ChannelConfig, Config, Loaded, TunerConfig};
use soymilk_curry::vars::CommandVars;

fn tuner(name: &str, types: &[&str], command: &str) -> TunerConfig {
    TunerConfig {
        name: name.into(),
        types: types.iter().map(|t| (*t).into()).collect(),
        command: command.into(),
    }
}

fn channel(name: &str, channel_type: &str, number: &str, service_id: Option<u16>) -> ChannelConfig {
    ChannelConfig {
        name: name.into(),
        channel_type: channel_type.into(),
        channel: number.into(),
        service_id,
        command_vars: CommandVars::new(),
    }
}

fn config(tuners: Vec<TunerConfig>, channels: Vec<ChannelConfig>) -> Config {
    Config {
        listen: default_listen(),
        tuners,
        channels,
    }
}

#[test]
fn rejects_channels_without_a_matching_tuner() {
    let config = Config {
        listen: default_listen(),
        tuners: vec![TunerConfig {
            name: "terrestrial".into(),
            types: vec!["GR".into()],
            command: "record <channel>".into(),
        }],
        channels: vec![ChannelConfig {
            name: "satellite".into(),
            channel_type: "BS".into(),
            channel: "BS01_0".into(),
            service_id: None,
            command_vars: CommandVars::new(),
        }],
    };
    assert_eq!(
        config.validate().unwrap_err(),
        "no tuner supports channel type BS"
    );
}

#[test]
fn accepts_arbitrary_channel_types() {
    let config = Config {
        listen: default_listen(),
        tuners: vec![TunerConfig {
            name: "custom".into(),
            types: vec!["CUSTOM".into()],
            command: "record <channel>".into(),
        }],
        channels: vec![ChannelConfig {
            name: "custom".into(),
            channel_type: "CUSTOM".into(),
            channel: "1".into(),
            service_id: None,
            command_vars: CommandVars::new(),
        }],
    };

    assert!(config.validate().is_ok());
}

#[test]
fn listens_on_all_addresses_by_default() {
    assert_eq!(default_listen(), "0.0.0.0:40772");
}

#[test]
fn requires_tuners_and_channels() {
    let none = config(vec![], vec![]);
    assert_eq!(none.validate().unwrap_err(), "at least one tuner is required");
    let no_channels = config(vec![tuner("t", &["GR"], "c")], vec![]);
    assert_eq!(
        no_channels.validate().unwrap_err(),
        "at least one channel is required"
    );
}

#[test]
fn requires_complete_tuners() {
    for incomplete in [
        tuner("", &["GR"], "c"),
        tuner("t", &["GR"], ""),
        tuner("t", &[], "c"),
    ] {
        let config = config(vec![incomplete], vec![channel("n", "GR", "27", None)]);
        assert_eq!(
            config.validate().unwrap_err(),
            "each tuner requires name, command, and at least one type"
        );
    }
}

#[test]
fn rejects_empty_tuner_types() {
    let config = config(
        vec![tuner("t", &["GR", ""], "c")],
        vec![channel("n", "GR", "27", None)],
    );
    assert_eq!(
        config.validate().unwrap_err(),
        "tuner types must not be empty"
    );
}

#[test]
fn requires_complete_channels() {
    for incomplete in [
        channel("", "GR", "27", None),
        channel("n", "", "27", None),
        channel("n", "GR", "", None),
    ] {
        let config = config(vec![tuner("t", &["GR"], "c")], vec![incomplete]);
        assert_eq!(
            config.validate().unwrap_err(),
            "each channel requires name, type, and channel"
        );
    }
}

#[test]
fn rejects_duplicate_services() {
    let tuners = || vec![tuner("t", &["GR"], "c")];
    let with_id = config(
        tuners(),
        vec![
            channel("a", "GR", "27", Some(1024)),
            channel("b", "GR", "27", Some(1024)),
        ],
    );
    assert_eq!(
        with_id.validate().unwrap_err(),
        "duplicate channel: GR/27 (serviceId Some(1024))"
    );
    let without_id = config(
        tuners(),
        vec![
            channel("a", "GR", "27", None),
            channel("b", "GR", "27", None),
        ],
    );
    assert_eq!(
        without_id.validate().unwrap_err(),
        "duplicate channel: GR/27 (serviceId None)"
    );
    let different = config(
        tuners(),
        vec![
            channel("a", "GR", "27", None),
            channel("b", "GR", "27", Some(1)),
            channel("c", "GR", "27", Some(2)),
            channel("d", "GR", "26", Some(1)),
        ],
    );
    assert!(different.validate().is_ok());
}

#[test]
fn reports_the_first_fault() {
    let config = config(
        vec![tuner("t", &["GR"], "c"), tuner("u", &[""], "c")],
        vec![channel("", "GR", "27", None), channel("n", "BS", "1", None)],
    );
    assert_eq!(
        config.validate().unwrap_err(),
        "tuner types must not be empty"
    );
}

#[test]
fn loads_a_configuration_that_meets_the_rules() {
    let parsed = config(
        vec![tuner("t", &["GR"], "c")],
        vec![channel("n", "GR", "27", None)],
    );
    match Config::load("config.yml", Loaded::Parsed(parsed)) {
        Ok(config) => assert_eq!(config.channels[0].channel, "27"),
        Err(message) => panic!("{message}"),
    }
}

#[test]
fn says_why_a_configuration_was_not_loaded() {
    let unreadable = Loaded::Unreadable("No such file or directory (os error 2)".into());
    assert_eq!(
        Config::load("config.yml", unreadable).err().unwrap(),
        "failed to read config.yml: No such file or directory (os error 2)"
    );
    let unparsable = Loaded::Unparsable("missing field `tuners`".into());
    assert_eq!(
        Config::load("config.yml", unparsable).err().unwrap(),
        "failed to parse config.yml: missing field `tuners`"
    );
    let invalid = Loaded::Parsed(config(vec![], vec![]));
    assert_eq!(
        Config::load("config.yml", invalid).err().unwrap(),
        "at least one tuner is required"
    );
}
