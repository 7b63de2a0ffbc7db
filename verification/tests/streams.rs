use bytes::Bytes;
use soymilk_curry::api::{
    channel_stream_at, channel_stream_started, tuners, ApiError, StreamResponse, StreamStep,
};
use soymilk_curry::config::{default_listen, ChannelConfig, Config, TunerConfig};
use soymilk_curry::pump::{pump_step, PumpAction, PumpEvent};
use soymilk_curry::tuner::{AppState, OpenError, OpenStep};
use soymilk_curry::users::UserNumbers;
use soymilk_curry::vars::CommandVars;

fn tuner(name: &str, types: &[&str], command: &str) -> TunerConfig {
    TunerConfig {
        name: name.into(),
        types: types.iter().map(|t| (*t).into()).collect(),
        command: command.into(),
    }
}

fn state_with(tuners: Vec<TunerConfig>, channels: &[(&str, &str)]) -> AppState {
    AppState::new(Config {
        listen: default_listen(),
        tuners,
        channels: channels
            .iter()
            .map(|(channel_type, channel)| ChannelConfig {
                name: format!("channel {channel}"),
                channel_type: (*channel_type).into(),
                channel: (*channel).into(),
                service_id: None,
                command_vars: CommandVars::new(),
            })
            .collect(),
    })
}

fn test_state(command: &str, channels: &[&str]) -> AppState {
    let channels: Vec<(&str, &str)> = channels.iter().map(|channel| ("GR", *channel)).collect();
    state_with(vec![tuner("test", &["GR"], command)], &channels)
}

/// Opens a stream; where a process has to be started, it is given the number `pid`.
fn open(
    state: &mut AppState,
    numbers: &mut UserNumbers,
    channel: &str,
    pid: u32,
) -> Result<StreamResponse, ApiError> {
    match channel_stream_at(state, numbers, "GR", channel, 1000)? {
        StreamStep::Respond(response) => Ok(response),
        StreamStep::Start(pending) => channel_stream_started(state, pending, Some(pid)),
    }
}

fn opened(
    state: &mut AppState,
    numbers: &mut UserNumbers,
    channel: &str,
    pid: u32,
) -> StreamResponse {
    match open(state, numbers, channel, pid) {
        Ok(response) => response,
        Err(error) => panic!("{}", error.reason),
    }
}

#[test]
fn streams_command_stdout() {
    let mut state = test_state("printf test-ts", &["27"]);
    let mut numbers = UserNumbers::new();
    let pending = match channel_stream_at(&mut state, &mut numbers, "GR", "27", 1000) {
        Ok(StreamStep::Start(pending)) => pending,
        _ => panic!("no process is to be started"),
    };
    assert_eq!(pending.command(), "printf test-ts");
    let response = match channel_stream_started(&mut state, pending, Some(4711)) {
        Ok(response) => response,
        Err(error) => panic!("{}", error.reason),
    };
    assert_eq!(response.response.headers[0].name, "content-type");
    assert_eq!(response.response.headers[0].value, "video/MP2T");
    match pump_step(PumpEvent::Read(7), &b"test-ts".to_vec()) {
        PumpAction::Send(chunk) => assert_eq!(chunk, Bytes::from("test-ts")),
        _ => panic!("nothing was sent"),
    }
}

#[test]
fn shares_a_command_for_the_same_channel() {
    let mut state = test_state("sleep 0.1; printf shared-ts", &["27"]);
    let mut numbers = UserNumbers::new();
    let first = opened(&mut state, &mut numbers, "27", 4711);
    let second = match channel_stream_at(&mut state, &mut numbers, "GR", "27", 1000) {
        Ok(StreamStep::Respond(response)) => response,
        _ => panic!("the stream is not shared"),
    };
    assert_eq!(first.opened.tuner, second.opened.tuner);
    assert_ne!(first.opened.user_id, second.opened.user_id);

    let tuner_status = tuners(&state);
    assert_eq!(tuner_status[0].users.len(), 2);
    assert_eq!(tuner_status[0].pid, 4711);
    assert_eq!(state.stream_count(), 1);
}

#[test]
fn stops_the_command_after_the_last_client_disconnects() {
    let mut state = test_state("sleep 10", &["27"]);
    let mut numbers = UserNumbers::new();
    let client = opened(&mut state, &mut numbers, "27", 4711);
    assert_eq!(state.stream_count(), 1);
    assert!(!state.tuner_is_free(0));

    assert!(state.client_left(0, &client.opened.user_id));
    assert!(matches!(
        pump_step(
            PumpEvent::OrderChanged {
                abandoned: false,
                cancelled: true
            },
            &vec![]
        ),
        PumpAction::Stop
    ));
    state.stream_stopped(0, 4711);
    assert!(state.is_reserved(0));
    assert_eq!(state.stream_count(), 1);
    state.release_tuner(0);

    assert_eq!(state.stream_count(), 0);
    assert!(state.tuner_is_free(0));
}

#[test]
fn rejects_a_different_channel_while_tuner_is_in_use() {
    let mut state = test_state("sleep 10", &["26", "27"]);
    let mut numbers = UserNumbers::new();
    let first = open(&mut state, &mut numbers, "26", 4711);
    let second = open(&mut state, &mut numbers, "27", 4712);

    assert!(first.is_ok());
    let error = second.err().unwrap();
    assert_eq!(error.code, 503);
    assert_eq!(error.reason, "tuner resource unavailable");
}

#[test]
fn refuses_unknown_channels() {
    let mut state = test_state("sleep 10", &["27"]);
    let mut numbers = UserNumbers::new();
    let error = open(&mut state, &mut numbers, "99", 1).err().unwrap();
    assert_eq!(error.code, 404);
    assert_eq!(error.reason, "channel not found");
    let first = opened(&mut state, &mut numbers, "27", 4711);
    assert_eq!(first.opened.user_id, "soymilk-curry-1000-1");
}

#[test]
fn gives_the_tuner_back_when_no_process_was_started() {
    let mut state = test_state("sleep 10", &["27"]);
    let mut numbers = UserNumbers::new();
    let pending = match state.open_stream_at(&mut numbers, "GR", "27", 5) {
        OpenStep::Start(pending) => pending,
        _ => panic!("no process is to be started"),
    };
    assert!(state.is_reserved(0));
    assert!(!state.tuner_is_free(0));
    assert!(matches!(
        state.start_stream(pending, None),
        Err(OpenError::Spawn)
    ));
    assert!(state.tuner_is_free(0));
    assert_eq!(state.stream_count(), 0);
    let next = opened(&mut state, &mut numbers, "27", 4711);
    assert_eq!(next.opened.user_id, "soymilk-curry-1000-2");
}

#[test]
fn answers_that_no_process_was_started() {
    let mut state = test_state("sleep 10", &["27"]);
    let mut numbers = UserNumbers::new();
    let pending = match channel_stream_at(&mut state, &mut numbers, "GR", "27", 5) {
        Ok(StreamStep::Start(pending)) => pending,
        _ => panic!("no process is to be started"),
    };
    let error = channel_stream_started(&mut state, pending, None)
        .err()
        .unwrap();
    assert_eq!(error.code, 500);
    assert_eq!(error.reason, "failed to start tuner command");
}

#[test]
fn requests_wait_for_a_tuner_to_be_given_back() {
    let mut state = test_state("sleep 10", &["27"]);
    let mut numbers = UserNumbers::new();
    opened(&mut state, &mut numbers, "27", 4711);
    state.stream_stopped(0, 4711);
    assert!(state.stream_available("GR", "27"));
    assert!(matches!(
        state.open_stream_at(&mut numbers, "GR", "27", 5),
        OpenStep::Unavailable
    ));
    state.release_tuner(0);
    assert!(matches!(
        state.open_stream_at(&mut numbers, "GR", "27", 5),
        OpenStep::Start(_)
    ));
}

#[test]
fn the_first_tuner_that_takes_the_client_serves_it() {
    let mut state = state_with(
        vec![
            tuner("satellite", &["BS"], "sat <channel>"),
            tuner("first", &["GR", "BS"], "first <channel>"),
            tuner("second", &["GR"], "second <channel>"),
        ],
        &[("GR", "26"), ("GR", "27"), ("BS", "1")],
    );
    let mut numbers = UserNumbers::new();
    assert_eq!(opened(&mut state, &mut numbers, "26", 1).opened.tuner, 1);
    assert_eq!(opened(&mut state, &mut numbers, "27", 2).opened.tuner, 2);
    assert_eq!(opened(&mut state, &mut numbers, "26", 3).opened.tuner, 1);
    assert_eq!(opened(&mut state, &mut numbers, "27", 4).opened.tuner, 2);
    match state.open_stream_at(&mut numbers, "BS", "1", 5) {
        OpenStep::Start(pending) => {
            assert_eq!(pending.tuner(), 0);
            assert_eq!(pending.command(), "sat '1'");
        }
        _ => panic!("no process is to be started"),
    }
    assert_eq!(state.stream_count(), 3);
}

#[test]
fn an_idle_tuner_comes_before_a_shared_stream_on_a_later_one() {
    let mut state = state_with(
        vec![tuner("a", &["GR"], "a"), tuner("b", &["GR"], "b")],
        &[("GR", "26"), ("GR", "27")],
    );
    let mut numbers = UserNumbers::new();
    opened(&mut state, &mut numbers, "26", 1);
    assert_eq!(opened(&mut state, &mut numbers, "27", 2).opened.tuner, 1);
    state.stream_stopped(0, 1);
    state.release_tuner(0);
    assert_eq!(opened(&mut state, &mut numbers, "27", 3).opened.tuner, 0);
}

#[test]
fn other_clients_keep_the_stream() {
    let mut state = test_state("sleep 10", &["27"]);
    let mut numbers = UserNumbers::new();
    let first = opened(&mut state, &mut numbers, "27", 4711);
    let second = opened(&mut state, &mut numbers, "27", 4712);
    assert!(!state.client_left(0, &first.opened.user_id));
    assert_eq!(tuners(&state)[0].users.len(), 1);
    assert_eq!(tuners(&state)[0].users[0].id, second.opened.user_id);
    assert!(state.client_left(0, &second.opened.user_id));
}

#[test]
fn a_client_of_an_earlier_stream_disturbs_nothing() {
    let mut state = test_state("sleep 10", &["26", "27"]);
    let mut numbers = UserNumbers::new();
    let early = opened(&mut state, &mut numbers, "26", 1);
    state.stream_stopped(0, 1);
    assert!(!state.client_left(0, &early.opened.user_id));
    state.release_tuner(0);
    let late = opened(&mut state, &mut numbers, "27", 2);
    assert!(!state.client_left(0, &early.opened.user_id));
    state.stream_stopped(0, 1);
    let report = tuners(&state);
    assert_eq!(report[0].pid, 2);
    assert_eq!(report[0].users[0].id, late.opened.user_id);
}

#[test]
fn an_open_request_takes_the_time_from_the_clock() {
    let mut state = test_state("sleep 10", &["27"]);
    let mut numbers = UserNumbers::new();
    match state.open_stream(&mut numbers, "GR", "27") {
        OpenStep::Start(pending) => {
            let parts: Vec<&str> = pending.user_id().rsplitn(3, '-').collect();
            assert_eq!(parts[0], "1");
            assert!(parts[1].parse::<u64>().unwrap() > 1_600_000_000_000);
            assert_eq!(parts[2], "soymilk-curry");
        }
        _ => panic!("no process is to be started"),
    }
}

#[test]
fn one_count_numbers_the_clients_of_all_states() {
    let mut numbers = UserNumbers::new();
    let mut one = test_state("sleep 10", &["27"]);
    let mut other = test_state("sleep 10", &["27"]);
    let ids = [
        opened(&mut one, &mut numbers, "27", 1).opened.user_id,
        opened(&mut other, &mut numbers, "27", 2).opened.user_id,
        opened(&mut one, &mut numbers, "27", 3).opened.user_id,
    ];
    assert_eq!(
        ids,
        [
            "soymilk-curry-1000-1",
            "soymilk-curry-1000-2",
            "soymilk-curry-1000-3"
        ]
    );
}

#[test]
fn every_request_for_a_known_channel_takes_a_number() {
    let mut numbers = UserNumbers::new();
    let mut state = test_state("sleep 10", &["26", "27"]);
    assert!(open(&mut state, &mut numbers, "99", 1).is_err());
    assert_eq!(numbers.take(), 1);
    assert!(open(&mut state, &mut numbers, "26", 1).is_ok());
    assert_eq!(numbers.take(), 3);
    assert!(open(&mut state, &mut numbers, "27", 2).is_err());
    assert_eq!(numbers.take(), 5);
}
