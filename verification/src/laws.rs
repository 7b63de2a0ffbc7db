//! What holds of requests, clients and processes taken together.

use crate::state::{
    busy_count, client_gone, joining_client_is_new, joins_as_new, opens, started, stops_process,
    stream_gone, PendingModel, StateModel, StepModel, StreamModel, TunerState,
};
use crate::users::{issued_within, number_of, numbers_differ, user_id, user_ids_differ};
use vstd::prelude::*;

verus! {

/// The same request in the same state at the same time, after as many numbers were given, comes to
/// the same step and state.
pub proof fn requests_are_decided(
    before: StateModel,
    issued: nat,
    channel_type: Seq<char>,
    channel: Seq<char>,
    now_ms: u64,
    step_a: StepModel,
    after_a: StateModel,
    issued_a: nat,
    step_b: StepModel,
    after_b: StateModel,
    issued_b: nat,
)
    requires
        opens(before, issued, channel_type, channel, now_ms, step_a, after_a, issued_a),
        opens(before, issued, channel_type, channel, now_ms, step_b, after_b, issued_b),
    ensures
        step_a == step_b,
        after_a == after_b,
        issued_a == issued_b,
{
    lemma_one_taker(before, channel_type, channel);
    lemma_one_entry(before, channel_type, channel);
}

proof fn lemma_one_taker(state: StateModel, channel_type: Seq<char>, channel: Seq<char>)
    ensures
        forall|a: int, b: int| #[trigger]
            state.first_taker(a, channel_type, channel) && #[trigger] state.first_taker(
                b,
                channel_type,
                channel,
            ) ==> a == b,
{
    assert forall|a: int, b: int| #[trigger]
        state.first_taker(a, channel_type, channel) && #[trigger] state.first_taker(
            b,
            channel_type,
            channel,
        ) implies a == b by {
        assert(state.takes(a, channel_type, channel));
        assert(state.takes(b, channel_type, channel));
    }
}

proof fn lemma_one_entry(state: StateModel, channel_type: Seq<char>, channel: Seq<char>)
    ensures
        forall|a: int, b: int| #[trigger]
            state.first_entry(a, channel_type, channel) && #[trigger] state.first_entry(
                b,
                channel_type,
                channel,
            ) ==> a == b,
{
}

/// The state when the first client of a request is served: at once where it shares a stream, and
/// with the process `pid` where one has to be started.
pub open spec fn served(step: StepModel, after: StateModel, pid: u32) -> StateModel {
    match step {
        StepModel::Start(pending) => started(after, pending, Some(pid)),
        _ => after,
    }
}

/// Whether the step admits a client.
pub open spec fn admits(step: StepModel) -> bool {
    step is Shared || step is Start
}

/// The tuner that a step gives to the client.
pub open spec fn step_tuner(step: StepModel) -> int {
    match step {
        StepModel::Shared { tuner, .. } => tuner,
        StepModel::Start(pending) => pending.tuner,
        _ => -1,
    }
}

/// The client that a step admits.
pub open spec fn step_user(step: StepModel) -> Seq<char> {
    match step {
        StepModel::Shared { user, .. } => user,
        StepModel::Start(pending) => pending.user,
        _ => Seq::empty(),
    }
}

/// When a client of a channel was served, the next client of the channel shares its stream: no
/// second process is started, and the stream has both clients.
pub proof fn next_client_shares(
    before: StateModel,
    issued: nat,
    channel_type: Seq<char>,
    channel: Seq<char>,
    now_first: u64,
    first: StepModel,
    after_first: StateModel,
    issued_first: nat,
    pid: u32,
    issued_next: nat,
    now_second: u64,
    second: StepModel,
    after_second: StateModel,
    issued_second: nat,
)
    requires
        before.valid(),
        opens(
            before,
            issued,
            channel_type,
            channel,
            now_first,
            first,
            after_first,
            issued_first,
        ),
        admits(first),
        opens(
            served(first, after_first, pid),
            issued_next,
            channel_type,
            channel,
            now_second,
            second,
            after_second,
            issued_second,
        ),
    ensures
        second is Shared,
        step_tuner(second) == step_tuner(first),
        after_second.tuners[step_tuner(first)].active matches Some(stream)
            && stream.users.contains(step_user(first)) && stream.users.contains(step_user(second)),
{
    let t = step_tuner(first);
    let mid = served(first, after_first, pid);
    assert(before.takes(t, channel_type, channel));
    assert(mid.tuners[t].carries(channel_type, channel));
    assert(mid.takes(t, channel_type, channel));
    assert forall|j: int| 0 <= j < t implies !#[trigger] mid.takes(j, channel_type, channel) by {
        assert(!before.takes(j, channel_type, channel));
        assert(mid.tuners[j] == before.tuners[j]);
    }
    assert(mid.first_taker(t, channel_type, channel));
    assert(mid.config == before.config);
    assert(mid.knows(channel_type, channel)) by {
        if first is Start {
            let i = choose|i: int| before.first_entry(i, channel_type, channel);
            assert(before.config.channels[i].denotes(channel_type, channel));
        }
    }
    lemma_one_taker(mid, channel_type, channel);
}

/// A client of a channel that a tuner carries shares its stream, unless an earlier tuner takes the
/// client.
pub proof fn carried_channel_is_shared(
    before: StateModel,
    issued: nat,
    channel_type: Seq<char>,
    channel: Seq<char>,
    now_ms: u64,
    step: StepModel,
    after: StateModel,
    issued_after: nat,
    t: int,
)
    requires
        opens(before, issued, channel_type, channel, now_ms, step, after, issued_after),
        before.knows(channel_type, channel),
        0 <= t < before.tuners.len(),
        before.serves(t, channel_type),
        before.tuners[t].carries(channel_type, channel),
        forall|j: int| 0 <= j < t ==> !#[trigger] before.takes(j, channel_type, channel),
    ensures
        step is Shared,
        step_tuner(step) == t,
        busy_count(after.tuners) == busy_count(before.tuners),
{
    assert(before.takes(t, channel_type, channel));
    assert(before.first_taker(t, channel_type, channel));
    lemma_one_taker(before, channel_type, channel);
    lemma_busy_count_updated(before.tuners, t, after.tuners[t]);
    assert(after.tuners =~= before.tuners.update(t, after.tuners[t]));
}

/// Whether every tuner that is taken carries its stream: none is being started or stopped.
pub open spec fn settled(state: StateModel) -> bool {
    forall|t: int|
        0 <= t < state.tuners.len() ==> (#[trigger] state.tuners[t]) != TunerState::reserved()
}

/// A stream that is not on offer cannot be opened.
pub proof fn withheld_is_refused(
    before: StateModel,
    issued: nat,
    channel_type: Seq<char>,
    channel: Seq<char>,
    now_ms: u64,
    step: StepModel,
    after: StateModel,
    issued_after: nat,
)
    requires
        opens(before, issued, channel_type, channel, now_ms, step, after, issued_after),
        before.knows(channel_type, channel),
        !before.available(channel_type, channel),
    ensures
        step == StepModel::Unavailable,
{
    assert forall|t: int| 0 <= t < before.tuners.len() implies !#[trigger] before.takes(
        t,
        channel_type,
        channel,
    ) by {
        if before.takes(t, channel_type, channel) {
            assert(before.serves(t, channel_type));
        }
    }
}

/// A stream that is on offer can be opened, unless a tuner is just being started or stopped.
pub proof fn offered_is_opened(
    before: StateModel,
    issued: nat,
    channel_type: Seq<char>,
    channel: Seq<char>,
    now_ms: u64,
    step: StepModel,
    after: StateModel,
    issued_after: nat,
)
    requires
        before.valid(),
        settled(before),
        opens(before, issued, channel_type, channel, now_ms, step, after, issued_after),
        before.knows(channel_type, channel),
        before.available(channel_type, channel),
    ensures
        admits(step),
{
    let t = choose|t: int|
        0 <= t < before.tuners.len() && #[trigger] before.serves(t, channel_type) && (
        before.tuners[t].active is None || before.tuners[t].carries(channel_type, channel));
    assert(before.tuners[t] != TunerState::reserved());
    assert(before.takes(t, channel_type, channel));
}

/// While every tuner that could receive the channel carries another one, the channel is refused.
pub proof fn other_channels_are_refused(
    before: StateModel,
    issued: nat,
    channel_type: Seq<char>,
    channel: Seq<char>,
    now_ms: u64,
    step: StepModel,
    after: StateModel,
    issued_after: nat,
)
    requires
        opens(before, issued, channel_type, channel, now_ms, step, after, issued_after),
        before.knows(channel_type, channel),
        forall|t: int|
            0 <= t < before.tuners.len() && #[trigger] before.serves(t, channel_type) ==> (
            before.tuners[t].active matches Some(stream) && !stream.carries(channel_type, channel)),
    ensures
        step == StepModel::Unavailable,
        after.tuners == before.tuners,
{
    withheld_is_refused(
        before,
        issued,
        channel_type,
        channel,
        now_ms,
        step,
        after,
        issued_after,
    );
}

/// A request touches no tuner but the one it is given, and none where it is refused.
pub proof fn requests_touch_one_tuner(
    before: StateModel,
    issued: nat,
    channel_type: Seq<char>,
    channel: Seq<char>,
    now_ms: u64,
    step: StepModel,
    after: StateModel,
    issued_after: nat,
    t: int,
)
    requires
        opens(before, issued, channel_type, channel, now_ms, step, after, issued_after),
        0 <= t < before.tuners.len(),
        t != step_tuner(step),
    ensures
        after.tuners.len() == before.tuners.len(),
        after.tuners[t] == before.tuners[t],
        after.config == before.config,
{
}

/// When no process could be started, the tuners are as they were before the request.
pub proof fn failed_start_gives_back(
    before: StateModel,
    issued: nat,
    channel_type: Seq<char>,
    channel: Seq<char>,
    now_ms: u64,
    pending: PendingModel,
    after: StateModel,
    issued_after: nat,
)
    requires
        before.valid(),
        opens(
            before,
            issued,
            channel_type,
            channel,
            now_ms,
            StepModel::Start(pending),
            after,
            issued_after,
        ),
    ensures
        started(after, pending, None) == before,
{
    assert(before.takes(pending.tuner, channel_type, channel));
    assert(started(after, pending, None).tuners =~= before.tuners);
}

/// When the only client of a stream leaves, its process is told to stop; when the process has
/// ended and the tuner is given back, the tuners are as they were before the stream.
pub proof fn last_client_ends_stream(
    before: StateModel,
    issued: nat,
    channel_type: Seq<char>,
    channel: Seq<char>,
    now_ms: u64,
    pending: PendingModel,
    after: StateModel,
    issued_after: nat,
    pid: u32,
)
    requires
        before.valid(),
        opens(
            before,
            issued,
            channel_type,
            channel,
            now_ms,
            StepModel::Start(pending),
            after,
            issued_after,
        ),
    ensures
        ({
            let t = pending.tuner;
            let running = started(after, pending, Some(pid));
            let alone = client_gone(running, t, pending.user);
            let ended = stream_gone(alone, t, pid);
            &&& stops_process(running, t, pending.user)
            &&& alone.tuners[t].active matches Some(stream) && stream.cancelled
            &&& ended.tuners[t] == TunerState::reserved()
            &&& ended.with_tuner(t, TunerState::idle()) == before
        }),
{
    let t = pending.tuner;
    let running = started(after, pending, Some(pid));
    let alone = client_gone(running, t, pending.user);
    let ended = stream_gone(alone, t, pid);
    assert(before.takes(t, channel_type, channel));
    assert(set![pending.user].remove(pending.user) =~= Set::<Seq<char>>::empty());
    assert(ended.with_tuner(t, TunerState::idle()).tuners =~= before.tuners);
}

/// A client that joins a stream and leaves again leaves the tuners as they were, where it is new
/// to the stream and the stream has other clients.
pub proof fn joining_client_leaves_no_trace(
    before: StateModel,
    issued: nat,
    channel_type: Seq<char>,
    channel: Seq<char>,
    now_ms: u64,
    t: int,
    user: Seq<char>,
    after: StateModel,
    issued_after: nat,
)
    requires
        opens(
            before,
            issued,
            channel_type,
            channel,
            now_ms,
            StepModel::Shared { tuner: t, user },
            after,
            issued_after,
        ),
        before.tuners[t].active matches Some(stream) && !stream.users.contains(user)
            && stream.users != Set::<Seq<char>>::empty(),
    ensures
        !stops_process(after, t, user),
        client_gone(after, t, user) == before,
{
    let stream = before.tuners[t].active->0;
    assert(before.takes(t, channel_type, channel));
    assert(stream.users.insert(user).remove(user) =~= stream.users);
    assert(client_gone(after, t, user).tuners =~= before.tuners);
}

/// While other clients are left, a client that leaves does not stop the process, and the others
/// stay.
pub proof fn other_clients_stay(
    before: StateModel,
    t: int,
    user: Seq<char>,
    other: Seq<char>,
)
    requires
        0 <= t < before.tuners.len(),
        before.tuners[t].active matches Some(stream) && stream.users.contains(other),
        other != user,
    ensures
        !stops_process(before, t, user),
        client_gone(before, t, user).tuners[t].active matches Some(stream)
            && stream.users.contains(other) && stream.cancelled
            == before.tuners[t].active->0.cancelled,
{
    let stream = before.tuners[t].active->0;
    assert(stream.users.remove(user).contains(other));
}

/// A client of an earlier stream of the tuner does not disturb the present one.
pub proof fn stranger_changes_nothing(before: StateModel, t: int, user: Seq<char>)
    requires
        before.valid(),
        0 <= t < before.tuners.len(),
        before.tuners[t].active matches Some(stream) && !stream.users.contains(user)
            && !stream.cancelled,
    ensures
        !stops_process(before, t, user),
        client_gone(before, t, user) == before,
{
    let stream = before.tuners[t].active->0;
    assert(before.tuners[t].valid());
    assert(stream.users.remove(user) =~= stream.users);
    assert(client_gone(before, t, user).tuners =~= before.tuners);
}

/// The end of one process does not take away the stream of another.
pub proof fn other_process_changes_nothing(before: StateModel, t: int, pid: u32)
    requires
        before.tuners[t].active matches Some(stream) ==> stream.pid != pid,
    ensures
        stream_gone(before, t, pid) == before,
{
}

/// A process that was told to stop is not told otherwise, whoever joins or leaves.
pub proof fn stopping_is_final(stream: StreamModel, user: Seq<char>)
    requires
        stream.cancelled,
    ensures
        stream.joined(user).cancelled,
        stream.left(user).cancelled,
{
}

proof fn lemma_busy_count_updated(tuners: Seq<TunerState>, t: int, tuner: TunerState)
    requires
        0 <= t < tuners.len(),
    ensures
        busy_count(tuners.update(t, tuner)) == busy_count(tuners) - (if tuners[t].busy {
            1int
        } else {
            0
        }) + (if tuner.busy {
            1int
        } else {
            0
        }),
    decreases tuners.len(),
{
    let after = tuners.update(t, tuner);
    if t == tuners.len() - 1 {
        assert(after.drop_last() =~= tuners.drop_last());
    } else {
        assert(after.drop_last() =~= tuners.drop_last().update(t, tuner));
        lemma_busy_count_updated(tuners.drop_last(), t, tuner);
    }
}

/// A request takes one more tuner where a process is started, and none otherwise.
pub proof fn starting_takes_one_tuner(
    before: StateModel,
    issued: nat,
    channel_type: Seq<char>,
    channel: Seq<char>,
    now_ms: u64,
    step: StepModel,
    after: StateModel,
    issued_after: nat,
)
    requires
        before.valid(),
        opens(before, issued, channel_type, channel, now_ms, step, after, issued_after),
    ensures
        busy_count(after.tuners) == busy_count(before.tuners) + if step is Start {
            1nat
        } else {
            0
        },
{
    let t = step_tuner(step);
    if step is Shared || step is Start {
        assert(before.takes(t, channel_type, channel));
        lemma_busy_count_updated(before.tuners, t, after.tuners[t]);
        assert(after.tuners =~= before.tuners.update(t, after.tuners[t]));
    }
}

/// No tuner is taken before the first request.
pub proof fn no_tuner_is_taken_at_first(config: crate::config::ConfigModel)
    ensures
        StateModel::initial(config).valid(),
        busy_count(StateModel::initial(config).tuners) == 0,
{
    lemma_idle_count(StateModel::initial(config).tuners);
}

proof fn lemma_idle_count(tuners: Seq<TunerState>)
    requires
        forall|t: int| 0 <= t < tuners.len() ==> (#[trigger] tuners[t]) == TunerState::idle(),
    ensures
        busy_count(tuners) == 0,
    decreases tuners.len(),
{
    if tuners.len() > 0 {
        lemma_idle_count(tuners.drop_last());
    }
}

/// Of any two requests that admit a client, on whatever tuners, fewer than 2^64 numbers apart, the
/// clients have different identifiers.
pub proof fn clients_differ(
    before_a: StateModel,
    issued_a: nat,
    type_a: Seq<char>,
    channel_a: Seq<char>,
    now_a: u64,
    step_a: StepModel,
    after_a: StateModel,
    issued_after_a: nat,
    before_b: StateModel,
    issued_b: nat,
    type_b: Seq<char>,
    channel_b: Seq<char>,
    now_b: u64,
    step_b: StepModel,
    after_b: StateModel,
    issued_after_b: nat,
)
    requires
        opens(before_a, issued_a, type_a, channel_a, now_a, step_a, after_a, issued_after_a),
        opens(before_b, issued_b, type_b, channel_b, now_b, step_b, after_b, issued_after_b),
        admits(step_a),
        admits(step_b),
        issued_after_a <= issued_b < issued_a + 0x1_0000_0000_0000_0000,
    ensures
        step_user(step_a) != step_user(step_b),
{
    numbers_differ(issued_a, issued_b);
    user_ids_differ(now_a, number_of(issued_a), now_b, number_of(issued_b));
}

/// A configuration that meets the rules serves all its channels: while no tuner is taken, a request
/// for any of them starts a stream.
pub proof fn idle_tuners_serve_every_channel(
    before: StateModel,
    issued: nat,
    channel_type: Seq<char>,
    channel: Seq<char>,
    now_ms: u64,
    step: StepModel,
    after: StateModel,
    issued_after: nat,
)
    requires
        before.valid(),
        before.config.valid(),
        forall|t: int|
            0 <= t < before.tuners.len() ==> (#[trigger] before.tuners[t]) == TunerState::idle(),
        before.knows(channel_type, channel),
        opens(before, issued, channel_type, channel, now_ms, step, after, issued_after),
    ensures
        step is Start,
{
    let i = choose|i: int|
        0 <= i < before.config.channels.len() && (#[trigger] before.config.channels[i]).denotes(
            channel_type,
            channel,
        );
    assert(before.config.supports(before.config.channels[i].channel_type));
    let t = choose|t: int|
        0 <= t < before.config.tuners.len() && (#[trigger] before.config.tuners[t]).serves(
            channel_type,
        );
    assert(before.tuners[t] == TunerState::idle());
    assert(before.takes(t, channel_type, channel));
}

/// What can happen to the tuners and the numbers of requests.
pub enum Event {
    /// A client asks for a channel.
    Open { channel_type: Seq<char>, channel: Seq<char>, now_ms: u64, step: StepModel },
    /// The process of a pending stream was started, or could not be.
    Started { pending: PendingModel, process: Option<u32> },
    /// A client leaves a tuner.
    ClientLeft { tuner: int, user: Seq<char> },
    /// A process has ended.
    Stopped { tuner: int, pid: u32 },
    /// A tuner is given back.
    Released { tuner: int },
    /// A request for other tuners takes a number.
    Elsewhere,
}

/// Whether the event leads from one state to the other, and from one count of numbers given to
/// the other.
pub open spec fn leads(
    before: StateModel,
    issued: nat,
    event: Event,
    after: StateModel,
    issued_after: nat,
) -> bool {
    match event {
        Event::Open { channel_type, channel, now_ms, step } => opens(
            before,
            issued,
            channel_type,
            channel,
            now_ms,
            step,
            after,
            issued_after,
        ),
        Event::Started { pending, process } => {
            &&& 0 <= pending.tuner < before.tuners.len()
            &&& before.tuners[pending.tuner] == TunerState::reserved()
            &&& after == started(before, pending, process)
            &&& issued_after == issued
        },
        Event::ClientLeft { tuner, user } => {
            &&& 0 <= tuner < before.tuners.len()
            &&& after == client_gone(before, tuner, user)
            &&& issued_after == issued
        },
        Event::Stopped { tuner, pid } => {
            &&& 0 <= tuner < before.tuners.len()
            &&& after == stream_gone(before, tuner, pid)
            &&& issued_after == issued
        },
        Event::Released { tuner } => {
            &&& 0 <= tuner < before.tuners.len()
            &&& before.tuners[tuner] == TunerState::reserved()
            &&& after == before.with_tuner(tuner, TunerState::idle())
            &&& issued_after == issued
        },
        Event::Elsewhere => after == before && issued_after == issued + 1,
    }
}

/// Whether the event is an open request that came to the pending stream.
pub open spec fn comes_to(event: Event, pending: PendingModel) -> bool {
    event matches Event::Open { step: StepModel::Start(start), .. } && start == pending
}

/// Whether the events lead through the states and the counts of numbers given, one after the
/// other, from tuners that nobody has used yet, and only streams are started that an earlier
/// request came to.
pub open spec fn is_run(states: Seq<StateModel>, issued: Seq<nat>, events: Seq<Event>) -> bool {
    &&& states.len() == events.len() + 1
    &&& issued.len() == events.len() + 1
    &&& states[0] == StateModel::initial(states[0].config)
    &&& forall|i: int|
        0 <= i < events.len() ==> leads(
            states[i],
            issued[i],
            #[trigger] events[i],
            states[i + 1],
            issued[i + 1],
        )
    &&& forall|i: int|
        0 <= i < events.len() ==> (#[trigger] events[i] matches Event::Started { pending, .. }
            ==> exists|j: int| 0 <= j < i && comes_to(#[trigger] events[j], pending))
}

/// Whatever happens, valid states stay valid.
pub proof fn events_keep_states_valid(
    before: StateModel,
    issued: nat,
    event: Event,
    after: StateModel,
    issued_after: nat,
)
    requires
        before.valid(),
        leads(before, issued, event, after, issued_after),
    ensures
        after.valid(),
        after.config == before.config,
        issued <= issued_after,
{
    match event {
        Event::Open { step, .. } => {
            if let StepModel::Shared { tuner, user } = step {
                let stream = before.tuners[tuner].active->0;
                assert(before.tuners[tuner].valid());
                assert(stream.joined(user).users.contains(user));
            }
        },
        Event::Started { pending, .. } => {
            assert(set![pending.user].contains(pending.user));
        },
        Event::ClientLeft { tuner, user } => {
            assert(before.tuners[tuner].valid());
        },
        _ => {},
    }
}

/// The tuner at `t` carries the stream of the process `pid` for the channel.
pub open spec fn runs(
    state: StateModel,
    t: int,
    pid: u32,
    channel_type: Seq<char>,
    channel: Seq<char>,
) -> bool {
    &&& 0 <= t < state.tuners.len()
    &&& state.tuners[t].active matches Some(stream) && stream.pid == pid && stream.carries(
        channel_type,
        channel,
    )
}

/// A stream keeps its tuner, process and channel until its process has ended: no request, no
/// client and no other process takes them away.
pub proof fn streams_outlast_events(
    before: StateModel,
    issued: nat,
    event: Event,
    after: StateModel,
    issued_after: nat,
    t: int,
    pid: u32,
    channel_type: Seq<char>,
    channel: Seq<char>,
)
    requires
        before.valid(),
        leads(before, issued, event, after, issued_after),
        runs(before, t, pid, channel_type, channel),
        event != (Event::Stopped { tuner: t, pid }),
    ensures
        runs(after, t, pid, channel_type, channel),
{
    assert(before.tuners[t].valid());
}

/// Every state of a run is valid: a tuner that carries a stream is taken, and a stream without
/// clients was told to stop.
pub proof fn runs_are_valid(
    states: Seq<StateModel>,
    issued: Seq<nat>,
    events: Seq<Event>,
    at: int,
)
    requires
        is_run(states, issued, events),
        0 <= at < states.len(),
    ensures
        states[at].valid(),
        states[at].config == states[0].config,
    decreases at,
{
    if at > 0 {
        let i = at - 1;
        runs_are_valid(states, issued, events, i);
        assert(leads(states[i], issued[i], events[i], states[i + 1], issued[i + 1]));
        events_keep_states_valid(states[i], issued[i], events[i], states[at], issued[at]);
    }
}

/// In every run, a stream that runs at one moment still runs at a later one, on the same tuner and
/// for the same channel, unless the end of its process lies between them. So when its process
/// ends, the tuner is left without a stream, ready to be given back.
pub proof fn streams_run_until_stopped(
    states: Seq<StateModel>,
    issued: Seq<nat>,
    events: Seq<Event>,
    from: int,
    to: int,
    t: int,
    pid: u32,
    channel_type: Seq<char>,
    channel: Seq<char>,
)
    requires
        is_run(states, issued, events),
        0 <= from <= to < states.len(),
        runs(states[from], t, pid, channel_type, channel),
        forall|i: int|
            from <= i < to ==> #[trigger] events[i] != (Event::Stopped { tuner: t, pid }),
    ensures
        runs(states[to], t, pid, channel_type, channel),
        stream_gone(states[to], t, pid).tuners[t] == TunerState::reserved(),
    decreases to - from,
{
    runs_are_valid(states, issued, events, to);
    if from < to {
        let i = to - 1;
        runs_are_valid(states, issued, events, i);
        streams_run_until_stopped(
            states,
            issued,
            events,
            from,
            i,
            t,
            pid,
            channel_type,
            channel,
        );
        assert(leads(states[i], issued[i], events[i], states[i + 1], issued[i + 1]));
        streams_outlast_events(
            states[i],
            issued[i],
            events[i],
            states[to],
            issued[to],
            t,
            pid,
            channel_type,
            channel,
        );
    }
    assert(states[to].tuners[t].valid());
}

/// In a run the count of numbers given never falls.
proof fn lemma_counts_grow(
    states: Seq<StateModel>,
    issued: Seq<nat>,
    events: Seq<Event>,
    from: int,
    to: int,
)
    requires
        is_run(states, issued, events),
        0 <= from <= to < issued.len(),
    ensures
        issued[from] <= issued[to],
    decreases to - from,
{
    if from < to {
        let i = to - 1;
        lemma_counts_grow(states, issued, events, from, i);
        assert(leads(states[i], issued[i], events[i], states[i + 1], issued[i + 1]));
    }
}

/// Whatever happens, the clients that are listed have identifiers that were issued, where those
/// that were listed before have, and the client for whom a stream is started.
pub proof fn events_list_issued(
    before: StateModel,
    issued: nat,
    event: Event,
    after: StateModel,
    issued_after: nat,
    from: nat,
)
    requires
        leads(before, issued, event, after, issued_after),
        from <= issued,
        before.lists_issued(from, issued),
        event matches Event::Started { pending, .. } ==> issued_within(pending.user, from, issued),
    ensures
        after.lists_issued(from, issued_after),
{
    match event {
        Event::Open { channel_type, channel, now_ms, step } => {
            joining_client_is_new(
                before,
                issued,
                channel_type,
                channel,
                now_ms,
                step,
                after,
                issued_after,
                from,
            );
        },
        Event::Started { pending, .. } => {
            lemma_still_issued(before, after, from, issued, issued_after, pending.user);
        },
        _ => {
            lemma_still_issued(before, after, from, issued, issued_after, Seq::empty());
        },
    }
}

/// In every run, the clients that are listed have identifiers that were issued in the run.
pub proof fn listed_clients_were_admitted(
    states: Seq<StateModel>,
    issued: Seq<nat>,
    events: Seq<Event>,
    at: int,
)
    requires
        is_run(states, issued, events),
        0 <= at < states.len(),
    ensures
        states[at].lists_issued(issued[0], issued[at]),
    decreases at,
{
    if at > 0 {
        let i = at - 1;
        listed_clients_were_admitted(states, issued, events, i);
        lemma_counts_grow(states, issued, events, 0, i);
        assert(leads(states[i], issued[i], events[i], states[i + 1], issued[i + 1]));
        if let Event::Started { pending, .. } = events[i] {
            let j = choose|j: int| 0 <= j < i && comes_to(#[trigger] events[j], pending);
            assert(comes_to(events[j], pending));
            lemma_counts_grow(states, issued, events, 0, j);
            lemma_counts_grow(states, issued, events, j + 1, i);
            assert(leads(states[j], issued[j], events[j], states[j + 1], issued[j + 1]));
            assert(pending.user == user_id(events[j]->now_ms, number_of(issued[j])));
        }
        events_list_issued(
            states[i],
            issued[i],
            events[i],
            states[at],
            issued[at],
            issued[0],
        );
    }
}

/// Where no client is listed that was not listed before, but for one whose identifier was issued,
/// the identifiers of all clients were.
proof fn lemma_still_issued(
    before: StateModel,
    after: StateModel,
    from: nat,
    issued: nat,
    issued_after: nat,
    new: Seq<char>,
)
    requires
        before.lists_issued(from, issued),
        issued <= issued_after,
        after.tuners.len() == before.tuners.len(),
        forall|t: int, user: Seq<char>|
            0 <= t < after.tuners.len() && #[trigger] after.lists(t, user) ==> before.lists(t, user)
                || (user == new && issued_within(new, from, issued)),
    ensures
        after.lists_issued(from, issued_after),
{
    assert forall|t: int, user: Seq<char>|
        0 <= t < after.tuners.len() && #[trigger] after.lists(t, user) implies issued_within(
        user,
        from,
        issued_after,
    ) by {
        if before.lists(t, user) {
            assert(issued_within(user, from, issued));
        }
        let (now, k) = choose|now: u64, k: nat|
            from <= k < issued && user == #[trigger] user_id(now, number_of(k));
        assert(user == user_id(now, number_of(k)));
    }
}

/// In every run, two requests that admit a client fewer than 2^64 numbers apart admit clients with
/// different identifiers, whatever happens between them.
pub proof fn clients_of_a_run_differ(
    states: Seq<StateModel>,
    issued: Seq<nat>,
    events: Seq<Event>,
    a: int,
    b: int,
)
    requires
        is_run(states, issued, events),
        0 <= a < b < events.len(),
        events[a] matches Event::Open { step, .. } && admits(step),
        events[b] matches Event::Open { step, .. } && admits(step),
        issued[b] < issued[a] + 0x1_0000_0000_0000_0000,
    ensures
        step_user(events[a]->step) != step_user(events[b]->step),
{
    lemma_counts_grow(states, issued, events, a + 1, b);
    assert(leads(states[a], issued[a], events[a], states[a + 1], issued[a + 1]));
    assert(leads(states[b], issued[b], events[b], states[b + 1], issued[b + 1]));
    numbers_differ(issued[a], issued[b]);
    user_ids_differ(
        events[a]->now_ms,
        number_of(issued[a]),
        events[b]->now_ms,
        number_of(issued[b]),
    );
}

/// In every run, while fewer than 2^64 numbers were given since it began, a client that joins a
/// stream was not listed on it before.
pub proof fn joining_clients_of_a_run_are_new(
    states: Seq<StateModel>,
    issued: Seq<nat>,
    events: Seq<Event>,
    at: int,
)
    requires
        is_run(states, issued, events),
        0 <= at < events.len(),
        events[at] is Open,
        issued[at] < issued[0] + 0x1_0000_0000_0000_0000,
    ensures
        joins_as_new(states[at], events[at]->step),
{
    listed_clients_were_admitted(states, issued, events, at);
    lemma_counts_grow(states, issued, events, 0, at);
    assert(leads(states[at], issued[at], events[at], states[at + 1], issued[at + 1]));
    joining_client_is_new(
        states[at],
        issued[at],
        events[at]->channel_type,
        events[at]->channel,
        events[at]->now_ms,
        events[at]->step,
        states[at + 1],
        issued[at + 1],
        issued[0],
    );
}

/// A request takes no client off any stream.
pub proof fn requests_keep_clients(
    before: StateModel,
    issued: nat,
    channel_type: Seq<char>,
    channel: Seq<char>,
    now_ms: u64,
    step: StepModel,
    after: StateModel,
    issued_after: nat,
    t: int,
    user: Seq<char>,
)
    requires
        opens(before, issued, channel_type, channel, now_ms, step, after, issued_after),
        0 <= t < before.tuners.len(),
        before.tuners[t].active matches Some(stream) && stream.users.contains(user),
    ensures
        after.tuners[t].active matches Some(stream) && stream.users.contains(user),
{
}

} // verus!
