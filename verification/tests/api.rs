use soymilk_curry::api::{
    api_error, channel, channel_stream, channel_stream_at, channel_stream_head,
    channel_stream_started, channels, internal_error, not_found, open_refused, status, status_at,
    ts_response, tuners, unavailable, version, ApiChannel, ProcessInfo, StreamStep, TsResponse,
};
use soymilk_curry::config::{default_listen, ChannelConfig, Config, TunerConfig};
use soymilk_curry::tuner::{AppState, OpenError};
use soymilk_curry::users::{user_id_text, UserNumbers};
use soymilk_curry::vars::CommandVars;

fn entry(name: &str, channel_type: &str, number: &str, service_id: Option<u16>) -> ChannelConfig {
    ChannelConfig {
        name: name.into(),
        channel_type: channel_type.into(),
        channel: number.into(),
        service_id,
        command_vars: CommandVars::new(),
    }
}

fn test_state() -> AppState {
    AppState::new(Config {
        listen: default_listen(),
        tuners: vec![TunerConfig {
            name: "test".into(),
            types: vec!["GR".into(), "BS".into()],
            command: "record <channel>".into(),
        }],
        channels: vec![
            entry("one", "GR", "27", Some(1)),
            entry("two", "GR", "27", Some(2)),
            entry("three", "BS", "27", None),
            entry("four", "GR", "26", None),
            entry("five", "BS", "27", Some(5)),
        ],
    })
}

fn process() -> ProcessInfo {
    ProcessInfo {
        arch: "x86_64".into(),
        platform: "linux".into(),
        pid: 42,
    }
}

fn headers(response: &TsResponse) -> Vec<(&str, &str)> {
    response
        .headers
        .iter()
        .map(|header| (header.name, header.value.as_str()))
        .collect()
}

#[test]
fn lists_every_channel_once() {
    let listed: Vec<(String, String, String)> = channels(&test_state())
        .into_iter()
        .map(|item| (item.channel_type, item.channel, item.name))
        .collect();
    assert_eq!(
        listed,
        vec![
            ("GR".into(), "27".into(), "one".into()),
            ("BS".into(), "27".into(), "three".into()),
            ("GR".into(), "26".into(), "four".into()),
        ]
    );
}

#[test]
fn reports_a_channel_with_its_first_entry() {
    let state = test_state();
    for item in channels(&state) {
        match channel(&state, &item.channel_type, &item.channel) {
            Ok(found) => assert_eq!(found.name, item.name),
            Err(error) => panic!("{}", error.reason),
        }
    }
    let error = channel(&state, "GR", "99").err().unwrap();
    assert_eq!((error.code, error.reason), (404, "channel not found"));
}

#[test]
fn channel_reports_hold_type_number_and_name() {
    let report = ApiChannel::from(&entry("one", "GR", "27", Some(1)));
    assert_eq!(report.channel_type, "GR");
    assert_eq!(report.channel, "27");
    assert_eq!(report.name, "one");
}

#[test]
fn reports_tuners() {
    let mut state = test_state();
    let free = &tuners(&state)[0];
    assert_eq!(free.index, 0);
    assert_eq!(free.name, "test");
    assert_eq!(free.types, vec!["GR", "BS"]);
    assert_eq!(free.command, "record <channel>");
    assert_eq!(free.pid, -1);
    assert_eq!(free.users.len(), 0);
    assert!(free.is_available && !free.is_remote && !free.is_fault);
    assert!(free.is_free && !free.is_using);

    let pending = match channel_stream_at(&mut state, &mut UserNumbers::new(), "BS", "27", 7) {
        Ok(StreamStep::Start(pending)) => pending,
        _ => panic!("no process is to be started"),
    };
    let starting = &tuners(&state)[0];
    assert_eq!(starting.pid, -1);
    assert!(!starting.is_free && starting.is_using);

    assert!(channel_stream_started(&mut state, pending, Some(4_000_000_000)).is_ok());
    let used = &tuners(&state)[0];
    assert_eq!(used.pid, 4_000_000_000);
    assert_eq!(used.users[0].id, "soymilk-curry-7-1");
    assert_eq!(used.users[0].priority, 0);
    assert!(!used.is_free && used.is_using);
}

#[test]
fn reports_the_version() {
    let info = version("1.2.3");
    assert_eq!(info.current, "1.2.3");
    assert_eq!(info.latest, "");
    assert_eq!(info.server, "SoymilkCurry");
}

#[test]
fn reports_the_status() {
    let mut state = test_state();
    let idle = status_at(&state, "1.2.3", process(), 77);
    assert_eq!(idle.time, 77);
    assert_eq!(idle.version, "1.2.3");
    assert_eq!(idle.process.arch, "x86_64");
    assert_eq!(idle.process.platform, "linux");
    assert_eq!(idle.process.pid, 42);
    assert_eq!(idle.stream_count.tuner_device, 0);
    assert_eq!(idle.stream_count.ts_filter, 0);
    assert_eq!(idle.stream_count.decoder, 0);

    assert!(channel_stream(&mut state, &mut UserNumbers::new(), "GR", "27").is_ok());
    let busy = status(&state, "1.2.3", process());
    assert!(busy.time > 1_600_000_000_000);
    assert_eq!(busy.stream_count.tuner_device, 1);
}

#[test]
fn tells_whether_a_stream_can_be_had() {
    let mut state = test_state();
    match channel_stream_head(&state, "GR", "27") {
        Ok(response) => assert_eq!(
            headers(&response),
            vec![("content-type", "video/MP2T"), ("cache-control", "no-store")]
        ),
        Err(error) => panic!("{}", error.reason),
    }
    assert_eq!(
        channel_stream_head(&state, "GR", "99").err().unwrap().code,
        404
    );

    let pending = match channel_stream_at(&mut state, &mut UserNumbers::new(), "GR", "27", 7) {
        Ok(StreamStep::Start(pending)) => pending,
        _ => panic!("no process is to be started"),
    };
    assert!(channel_stream_started(&mut state, pending, Some(1)).is_ok());
    assert!(channel_stream_head(&state, "GR", "27").is_ok());
    let error = channel_stream_head(&state, "GR", "26").err().unwrap();
    assert_eq!(
        (error.code, error.reason),
        (503, "tuner resource unavailable")
    );
}

#[test]
fn stream_answers_tell_the_client_who_it_is() {
    let id = user_id_text(1_700_000_000_123, 9);
    assert_eq!(id, "soymilk-curry-1700000000123-9");
    assert_eq!(
        headers(&ts_response(Some(&id))),
        vec![
            ("content-type", "video/MP2T"),
            ("cache-control", "no-store"),
            ("x-mirakurun-tuner-user-id", "soymilk-curry-1700000000123-9"),
        ]
    );
}

#[test]
fn identifiers_that_no_header_can_hold_are_left_out() {
    for text in ["a\nb", "\u{7f}", "\u{0}", "\r"] {
        assert_eq!(ts_response(Some(text)).headers.len(), 2);
    }
    for text in ["", "a\tb", " ~", "\u{e9}\u{65e5}"] {
        assert_eq!(ts_response(Some(text)).headers.len(), 3);
    }
}

#[test]
fn identifiers_differ_by_time_or_number() {
    let ids = [
        user_id_text(1, 11),
        user_id_text(11, 1),
        user_id_text(111, 0),
        user_id_text(1, 1),
    ];
    for (i, a) in ids.iter().enumerate() {
        for b in &ids[i + 1..] {
            assert_ne!(a, b);
        }
    }
}

#[test]
fn refusals_have_their_codes() {
    assert_eq!(not_found().code, 404);
    assert_eq!(unavailable().code, 503);
    assert_eq!(internal_error().code, 500);
    assert_eq!(open_refused(OpenError::NotFound).reason, "channel not found");
    assert_eq!(
        open_refused(OpenError::Unavailable).reason,
        "tuner resource unavailable"
    );
    assert_eq!(
        open_refused(OpenError::Spawn).reason,
        "failed to start tuner command"
    );
    let other = api_error(418, "teapot");
    assert_eq!((other.code, other.reason), (418, "teapot"));
}
