use soymilk_curry::command::render_command;
use soymilk_curry::config::ChannelConfig;
use soymilk_curry::vars::CommandVars;

fn channel(
    channel_type: &str,
    number: &str,
    service_id: Option<u16>,
    vars: &[(&str, &str)],
) -> ChannelConfig {
    let mut command_vars = CommandVars::new();
    for (key, value) in vars {
        command_vars.insert((*key).into(), (*value).into());
    }
    ChannelConfig {
        name: "test".into(),
        channel_type: channel_type.into(),
        channel: number.into(),
        service_id,
        command_vars,
    }
}

#[test]
fn command_variables_are_shell_quoted() {
    let mut command_vars = CommandVars::new();
    command_vars.insert("device".into(), "/dev/dvb 0".into());
    let channel = ChannelConfig {
        name: "test".into(),
        channel_type: "GR".into(),
        channel: "27'; touch /tmp/nope; echo '".into(),
        service_id: Some(1024),
        command_vars,
    };
    assert_eq!(
        render_command("record <type> <channel> <serviceId> <device>", &channel),
        "record 'GR' '27'\"'\"'; touch /tmp/nope; echo '\"'\"'' 1024 '/dev/dvb 0'"
    );
}

#[test]
fn names_without_a_value_stay() {
    let channel = channel("GR", "27", None, &[]);
    assert_eq!(
        render_command("record <channel> <serviceId> <device>", &channel),
        "record '27' <serviceId> <device>"
    );
}

#[test]
fn a_variable_can_stand_in_for_a_missing_service_number() {
    let without = channel("GR", "27", None, &[("serviceId", "x y")]);
    assert_eq!(render_command("<serviceId>", &without), "'x y'");
    let with = channel("GR", "27", Some(7), &[("serviceId", "x y")]);
    assert_eq!(render_command("<serviceId>", &with), "7");
}

#[test]
fn every_occurrence_is_filled_in() {
    let channel = channel("GR", "27", Some(1), &[]);
    assert_eq!(
        render_command("<channel><channel>-<type>", &channel),
        "'27''27'-'GR'"
    );
}

#[test]
fn a_redirection_in_the_template_stays() {
    let channel = channel("GR", "27", None, &[("device", "d")]);
    assert_eq!(
        render_command("cat < /dev/null > out; record <channel> <device>", &channel),
        "cat < /dev/null > out; record '27' 'd'"
    );
}

#[test]
fn values_are_searched_for_names_that_come_later() {
    let channel = channel("<channel>", "27", None, &[]);
    assert_eq!(render_command("<type>", &channel), "''27''");
}

#[test]
fn a_template_without_placeholders_is_the_command() {
    let channel = channel("GR", "27", Some(3), &[("device", "d")]);
    assert_eq!(render_command("printf test-ts", &channel), "printf test-ts");
}
