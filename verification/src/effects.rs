//! What requests, clients and processes do to the tuners, told tuner by tuner and client by client.

use crate::command::lacks;
use crate::config::ConfigModel;
use crate::state::{
    busy_count, client_gone, opens, started, stops_process, stream_gone, PendingModel,
    StateModel, StepModel, TunerState,
};
use vstd::prelude::*;

verus! {

/// Whether the entry at `i` of the configuration has this type and number.
pub open spec fn is_entry(
    config: ConfigModel,
    i: int,
    channel_type: Seq<char>,
    channel: Seq<char>,
) -> bool {
    &&& 0 <= i < config.channels.len()
    &&& config.channels[i].channel_type == channel_type
    &&& config.channels[i].channel == channel
}

/// Whether the tuner at `t` lists the type among its own and carries this very channel, or
/// carries no stream and is not taken.
pub open spec fn can_take(
    state: StateModel,
    t: int,
    channel_type: Seq<char>,
    channel: Seq<char>,
) -> bool {
    &&& 0 <= t < state.tuners.len()
    &&& state.config.tuners[t].types.contains(channel_type)
    &&& match state.tuners[t].active {
        Some(stream) => stream.channel_type == channel_type && stream.channel == channel,
        None => !state.tuners[t].busy,
    }
}

/// Whether two states have the same configuration and as many tuners, and differ in the tuner at
/// `t` at most.
pub open spec fn differ_at_most_at(before: StateModel, after: StateModel, t: int) -> bool {
    &&& after.config == before.config
    &&& after.tuners.len() == before.tuners.len()
    &&& forall|j: int|
        0 <= j < before.tuners.len() && j != t ==> #[trigger] after.tuners[j] == before.tuners[j]
}

/// A request fails for want of a channel exactly where no entry has its type and number, and for
/// want of a tuner exactly where one has and no tuner can take the client; then nothing changes.
pub proof fn requests_fail_only_for_want(
    before: StateModel,
    issued: nat,
    channel_type: Seq<char>,
    channel: Seq<char>,
    now_ms: u64,
    step: StepModel,
    after: StateModel,
    issued_after: nat,
)
    requires
        opens(before, issued, channel_type, channel, now_ms, step, after, issued_after),
    ensures
        step is NotFound <==> forall|i: int| !is_entry(before.config, i, channel_type, channel),
        step is Unavailable <==> (exists|i: int| is_entry(before.config, i, channel_type, channel))
            && (forall|t: int| !can_take(before, t, channel_type, channel)),
        step is NotFound || step is Unavailable ==> after == before,
        issued_after == if step is NotFound {
            issued
        } else {
            issued + 1
        },
{
    if step is NotFound {
        assert forall|i: int| !is_entry(before.config, i, channel_type, channel) by {
            if 0 <= i < before.config.channels.len() {
                assert(!before.config.channels[i].denotes(channel_type, channel));
            }
        }
    } else {
        if let StepModel::Start(_) = step {
            let i = choose|i: int| #[trigger] before.first_entry(i, channel_type, channel);
            assert(is_entry(before.config, i, channel_type, channel));
        } else {
            let i = choose|i: int|
                0 <= i < before.config.channels.len() && (
                #[trigger] before.config.channels[i]).denotes(channel_type, channel);
            assert(is_entry(before.config, i, channel_type, channel));
        }
        assert forall|t: int| can_take(before, t, channel_type, channel) implies before.takes(
            t,
            channel_type,
            channel,
        ) by {}
        match step {
            StepModel::Shared { tuner, user } => {
                assert(can_take(before, tuner, channel_type, channel));
            },
            StepModel::Start(pending) => {
                assert(can_take(before, pending.tuner, channel_type, channel));
            },
            _ => {},
        }
    }
}

/// A client that joins a stream joins that of the first tuner that can take it. The stream then
/// has that client and those it had, and all else is as it was.
pub proof fn joining_adds_one_client(
    before: StateModel,
    issued: nat,
    channel_type: Seq<char>,
    channel: Seq<char>,
    now_ms: u64,
    t: int,
    user: Seq<char>,
    after: StateModel,
    issued_after: nat,
    other: Seq<char>,
)
    requires
        opens(
            before,
            issued,
            channel_type,
            channel,
            now_ms,
            StepModel::Shared { tuner: t, user },
            after,
            issued_after,
        ),
    ensures
        can_take(before, t, channel_type, channel),
        forall|j: int| 0 <= j < t ==> !can_take(before, j, channel_type, channel),
        user == crate::users::user_id(now_ms, crate::users::number_of(issued)),
        differ_at_most_at(before, after, t),
        after.tuners[t].busy == before.tuners[t].busy,
        before.tuners[t].active matches Some(was) && after.tuners[t].active matches Some(is) && {
            &&& is.pid == was.pid
            &&& is.channel_type == channel_type && is.channel == channel
            &&& is.cancelled == was.cancelled
            &&& is.users.contains(other) <==> was.users.contains(other) || other == user
        },
{
    assert forall|j: int| 0 <= j < t implies !can_take(before, j, channel_type, channel) by {
        assert(!before.takes(j, channel_type, channel));
    }
}

/// A stream is started on the first tuner that can take the client. That tuner, which was idle, is
/// then taken and carries no stream yet, and all else is as it was.
pub proof fn starting_takes_the_first_idle_tuner(
    before: StateModel,
    issued: nat,
    channel_type: Seq<char>,
    channel: Seq<char>,
    now_ms: u64,
    pending: PendingModel,
    after: StateModel,
    issued_after: nat,
)
    requires
        opens(
            before,
            issued,
            channel_type,
            channel,
            now_ms,
            StepModel::Start(pending),
            after,
            issued_after,
        ),
    ensures
        can_take(before, pending.tuner, channel_type, channel),
        forall|j: int| 0 <= j < pending.tuner ==> !can_take(before, j, channel_type, channel),
        !before.tuners[pending.tuner].busy,
        before.tuners[pending.tuner].active is None,
        after.tuners[pending.tuner].busy,
        after.tuners[pending.tuner].active is None,
        differ_at_most_at(before, after, pending.tuner),
        pending.channel_type == channel_type,
        pending.channel == channel,
        pending.user == crate::users::user_id(now_ms, crate::users::number_of(issued)),
{
    assert forall|j: int| 0 <= j < pending.tuner implies !can_take(
        before,
        j,
        channel_type,
        channel,
    ) by {
        assert(!before.takes(j, channel_type, channel));
    }
}

/// The process that is started on a tuner runs that tuner's own command, filled in for the first
/// entry that has the type and number; a command in which no bracket opens runs as configured.
pub proof fn tuners_run_their_own_commands(
    before: StateModel,
    issued: nat,
    channel_type: Seq<char>,
    channel: Seq<char>,
    now_ms: u64,
    pending: PendingModel,
    after: StateModel,
    issued_after: nat,
    i: int,
)
    requires
        opens(
            before,
            issued,
            channel_type,
            channel,
            now_ms,
            StepModel::Start(pending),
            after,
            issued_after,
        ),
        is_entry(before.config, i, channel_type, channel),
        forall|j: int| 0 <= j < i ==> !is_entry(before.config, j, channel_type, channel),
    ensures
        lacks(before.config.tuners[pending.tuner].command, '<') ==> pending.command
            == before.config.tuners[pending.tuner].command,
        pending.command == crate::command::rendered(
            before.config.tuners[pending.tuner].command,
            before.config.channels[i],
        ),
{
    let k = choose|k: int| #[trigger]
        before.first_entry(k, channel_type, channel) && pending.command
            == crate::command::rendered(
            before.config.tuners[pending.tuner].command,
            before.config.channels[k],
        );
    assert(is_entry(before.config, k, channel_type, channel));
    if i < k {
        assert(!before.config.channels[i].denotes(channel_type, channel));
    }
    assert(k == i);
    if lacks(before.config.tuners[pending.tuner].command, '<') {
        crate::command::rendered_without_placeholders(
            before.config.tuners[pending.tuner].command,
            before.config.channels[i],
        );
    }
}

/// A tuner whose command opens no bracket runs that command as it is configured, for every channel.
pub proof fn plain_commands_run_as_configured(
    before: StateModel,
    issued: nat,
    channel_type: Seq<char>,
    channel: Seq<char>,
    now_ms: u64,
    pending: PendingModel,
    after: StateModel,
    issued_after: nat,
)
    requires
        opens(
            before,
            issued,
            channel_type,
            channel,
            now_ms,
            StepModel::Start(pending),
            after,
            issued_after,
        ),
        lacks(before.config.tuners[pending.tuner].command, '<'),
    ensures
        pending.command == before.config.tuners[pending.tuner].command,
{
    let i = choose|i: int| #[trigger]
        before.first_entry(i, channel_type, channel) && pending.command
            == crate::command::rendered(
            before.config.tuners[pending.tuner].command,
            before.config.channels[i],
        );
    crate::command::rendered_without_placeholders(
        before.config.tuners[pending.tuner].command,
        before.config.channels[i],
    );
}

/// Commands and names do not decide who is served: in two states with the same channels, whose
/// tuners have the same types and do the same, a request that starts a stream in one starts it in
/// the other, on the same tuner.
pub proof fn commands_do_not_decide(
    one: StateModel,
    issued_one: nat,
    now_one: u64,
    pending: PendingModel,
    after_one: StateModel,
    counted_one: nat,
    two: StateModel,
    issued_two: nat,
    now_two: u64,
    step: StepModel,
    after_two: StateModel,
    counted_two: nat,
    channel_type: Seq<char>,
    channel: Seq<char>,
)
    requires
        opens(
            one,
            issued_one,
            channel_type,
            channel,
            now_one,
            StepModel::Start(pending),
            after_one,
            counted_one,
        ),
        opens(
            two,
            issued_two,
            channel_type,
            channel,
            now_two,
            step,
            after_two,
            counted_two,
        ),
        one.config.channels == two.config.channels,
        one.tuners == two.tuners,
        forall|t: int|
            0 <= t < one.tuners.len() ==> (#[trigger] one.config.tuners[t]).types
                == two.config.tuners[t].types,
    ensures
        step matches StepModel::Start(other) && other.tuner == pending.tuner,
{
    let t = pending.tuner;
    requests_fail_only_for_want(
        one,
        issued_one,
        channel_type,
        channel,
        now_one,
        StepModel::Start(pending),
        after_one,
        counted_one,
    );
    requests_fail_only_for_want(
        two,
        issued_two,
        channel_type,
        channel,
        now_two,
        step,
        after_two,
        counted_two,
    );
    starting_takes_the_first_idle_tuner(
        one,
        issued_one,
        channel_type,
        channel,
        now_one,
        pending,
        after_one,
        counted_one,
    );
    assert forall|j: int|
        can_take(one, j, channel_type, channel) == can_take(two, j, channel_type, channel) by {
        if 0 <= j < one.tuners.len() {
            assert(one.config.tuners[j].types == two.config.tuners[j].types);
        }
    }
    assert forall|j: int|
        is_entry(one.config, j, channel_type, channel) == is_entry(
            two.config,
            j,
            channel_type,
            channel,
        ) by {}
    assert(can_take(two, t, channel_type, channel));
    match step {
        StepModel::Shared { tuner, user } => {
            joining_adds_one_client(
                two,
                issued_two,
                channel_type,
                channel,
                now_two,
                tuner,
                user,
                after_two,
                counted_two,
                user,
            );
            assert(can_take(one, tuner, channel_type, channel));
            assert(tuner == t);
        },
        StepModel::Start(other) => {
            starting_takes_the_first_idle_tuner(
                two,
                issued_two,
                channel_type,
                channel,
                now_two,
                other,
                after_two,
                counted_two,
            );
            assert(can_take(one, other.tuner, channel_type, channel));
        },
        _ => {},
    }
}

/// What is run on a tuner depends on its own command and on the configured channels alone: two
/// requests for a channel that come to the same tuner start the same command, whatever the other
/// tuners are configured to run, whoever asks, and whenever.
pub proof fn other_commands_make_no_difference(
    one: StateModel,
    issued_one: nat,
    now_one: u64,
    first: PendingModel,
    after_one: StateModel,
    counted_one: nat,
    two: StateModel,
    issued_two: nat,
    now_two: u64,
    second: PendingModel,
    after_two: StateModel,
    counted_two: nat,
    channel_type: Seq<char>,
    channel: Seq<char>,
)
    requires
        opens(
            one,
            issued_one,
            channel_type,
            channel,
            now_one,
            StepModel::Start(first),
            after_one,
            counted_one,
        ),
        opens(
            two,
            issued_two,
            channel_type,
            channel,
            now_two,
            StepModel::Start(second),
            after_two,
            counted_two,
        ),
        first.tuner == second.tuner,
        one.config.channels == two.config.channels,
        one.config.tuners[first.tuner].command == two.config.tuners[first.tuner].command,
    ensures
        first.command == second.command,
{
    let a = choose|i: int| #[trigger]
        one.first_entry(i, channel_type, channel) && first.command == crate::command::rendered(
            one.config.tuners[first.tuner].command,
            one.config.channels[i],
        );
    let b = choose|i: int| #[trigger]
        two.first_entry(i, channel_type, channel) && second.command == crate::command::rendered(
            two.config.tuners[second.tuner].command,
            two.config.channels[i],
        );
    if a < b {
        assert(!two.config.channels[a].denotes(channel_type, channel));
    } else if b < a {
        assert(!one.config.channels[b].denotes(channel_type, channel));
    }
}

/// Once its process runs, the tuner carries the stream of that process and of the channel that was
/// asked for, with the client that asked as the only one, and it was not told to stop. Where no
/// process could be started the tuner is idle. All else is as it was.
pub proof fn starting_gives_the_stream_to_its_client(
    before: StateModel,
    pending: PendingModel,
    pid: Option<u32>,
    client: Seq<char>,
)
    requires
        0 <= pending.tuner < before.tuners.len(),
    ensures
        differ_at_most_at(before, started(before, pending, pid), pending.tuner),
        pid matches Some(process) ==> {
            let tuner = started(before, pending, pid).tuners[pending.tuner];
            &&& tuner.busy == before.tuners[pending.tuner].busy
            &&& tuner.active matches Some(stream) && {
                &&& stream.pid == process
                &&& stream.channel_type == pending.channel_type
                &&& stream.channel == pending.channel
                &&& !stream.cancelled
                &&& stream.users.contains(client) <==> client == pending.user
            }
        },
        pid is None ==> {
            let tuner = started(before, pending, pid).tuners[pending.tuner];
            !tuner.busy && tuner.active is None
        },
{
}

/// A client that leaves a tuner is no longer listed there, and every other client is listed as it
/// was, whatever the other tuners do. The process is told to stop, and the stream is marked so,
/// exactly where no other client was listed. All else is as it was.
pub proof fn leaving_takes_one_client_off(
    before: StateModel,
    t: int,
    user: Seq<char>,
    other: Seq<char>,
)
    requires
        0 <= t < before.tuners.len(),
        before.tuners[t].active is Some,
    ensures
        differ_at_most_at(before, client_gone(before, t, user), t),
        client_gone(before, t, user).tuners[t].busy == before.tuners[t].busy,
        stops_process(before, t, user) <==> forall|client: Seq<char>|
            before.tuners[t].active->0.users.contains(client) ==> client == user,
        before.tuners[t].active matches Some(was) && client_gone(
            before,
            t,
            user,
        ).tuners[t].active matches Some(is) && {
            &&& is.pid == was.pid
            &&& is.channel_type == was.channel_type && is.channel == was.channel
            &&& is.users.contains(other) <==> was.users.contains(other) && other != user
            &&& is.cancelled <==> was.cancelled || forall|client: Seq<char>|
                was.users.contains(client) ==> client == user
        },
{
    let was = before.tuners[t].active->0;
    let none = Set::<Seq<char>>::empty();
    if was.users.remove(user) == none {
        assert forall|client: Seq<char>| was.users.contains(client) implies client == user by {
            if client != user {
                assert(was.users.remove(user).contains(client));
                assert(!none.contains(client));
            }
        }
    }
    if forall|client: Seq<char>| was.users.contains(client) ==> client == user {
        assert(was.users.remove(user) =~= none);
    }
}

/// Where a tuner carries no stream, a client that leaves it changes nothing, and no process is
/// told to stop.
pub proof fn leaving_an_empty_tuner_changes_nothing(before: StateModel, t: int, user: Seq<char>)
    requires
        0 <= t < before.tuners.len(),
        before.tuners[t].active is None,
    ensures
        client_gone(before, t, user) == before,
        !stops_process(before, t, user),
{
}

/// When a process has ended, the tuner that carried its stream carries none, and stays taken; a
/// tuner that carries none, or that of another process, stays as it is. All else is as it was.
pub proof fn ending_takes_the_stream_off(before: StateModel, t: int, pid: u32)
    requires
        0 <= t < before.tuners.len(),
    ensures
        differ_at_most_at(before, stream_gone(before, t, pid), t),
        stream_gone(before, t, pid).tuners[t].busy == before.tuners[t].busy,
        before.tuners[t].active matches Some(stream) ==> if stream.pid == pid {
            stream_gone(before, t, pid).tuners[t].active is None
        } else {
            stream_gone(before, t, pid).tuners[t].active == Some(stream)
        },
        before.tuners[t].active is None ==> stream_gone(before, t, pid).tuners[t].active is None,
{
}

/// A tuner that is given back is not taken and carries no stream, and all else is as it was; one
/// that is taken for a stream to come carries none.
pub proof fn releasing_frees_one_tuner(before: StateModel, t: int)
    requires
        0 <= t < before.tuners.len(),
    ensures
        differ_at_most_at(before, before.with_tuner(t, TunerState::idle()), t),
        !before.with_tuner(t, TunerState::idle()).tuners[t].busy,
        before.with_tuner(t, TunerState::idle()).tuners[t].active is None,
        TunerState::reserved().busy,
        TunerState::reserved().active is None,
{
}

/// A stream of a channel is on offer exactly where some tuner that lists the type carries no stream
/// or carries this very channel.
pub proof fn offers_need_one_tuner(state: StateModel, channel_type: Seq<char>, channel: Seq<char>)
    ensures
        state.available(channel_type, channel) <==> exists|t: int|
            0 <= t < state.tuners.len() && (
            #[trigger] state.config.tuners[t]).types.contains(channel_type) && match
                state.tuners[t].active {
                Some(stream) => stream.channel_type == channel_type && stream.channel == channel,
                None => true,
            },
{
    if state.available(channel_type, channel) {
        let t = choose|t: int|
            0 <= t < state.tuners.len() && #[trigger] state.serves(t, channel_type) && (
            state.tuners[t].active is None || state.tuners[t].carries(channel_type, channel));
        assert(state.config.tuners[t].types.contains(channel_type));
    }
    if exists|t: int|
        0 <= t < state.tuners.len() && (
        #[trigger] state.config.tuners[t]).types.contains(channel_type) && match
            state.tuners[t].active {
            Some(stream) => stream.channel_type == channel_type && stream.channel == channel,
            None => true,
        } {
        let t = choose|t: int|
            0 <= t < state.tuners.len() && (
            #[trigger] state.config.tuners[t]).types.contains(channel_type) && match
                state.tuners[t].active {
                Some(stream) => stream.channel_type == channel_type && stream.channel == channel,
                None => true,
            };
        assert(state.serves(t, channel_type));
    }
}

/// A channel is known exactly where an entry has its type and number, and its first entry is the
/// one before which there is no other.
pub proof fn channels_are_found_by_type_and_number(
    state: StateModel,
    i: int,
    channel_type: Seq<char>,
    channel: Seq<char>,
)
    ensures
        state.knows(channel_type, channel) <==> exists|j: int|
            is_entry(state.config, j, channel_type, channel),
        state.first_entry(i, channel_type, channel) <==> is_entry(
            state.config,
            i,
            channel_type,
            channel,
        ) && forall|j: int| 0 <= j < i ==> !is_entry(state.config, j, channel_type, channel),
{
    if state.knows(channel_type, channel) {
        let j = choose|j: int|
            0 <= j < state.config.channels.len() && (#[trigger] state.config.channels[j]).denotes(
                channel_type,
                channel,
            );
        assert(is_entry(state.config, j, channel_type, channel));
    }
    if exists|j: int| is_entry(state.config, j, channel_type, channel) {
        let j = choose|j: int| is_entry(state.config, j, channel_type, channel);
        assert(state.config.channels[j].denotes(channel_type, channel));
    }
    if state.first_entry(i, channel_type, channel) {
        assert forall|j: int| 0 <= j < i implies !is_entry(
            state.config,
            j,
            channel_type,
            channel,
        ) by {
            assert(!state.config.channels[j].denotes(channel_type, channel));
        }
    }
    if is_entry(state.config, i, channel_type, channel) && forall|j: int|
        0 <= j < i ==> !is_entry(state.config, j, channel_type, channel) {
        assert forall|j: int| 0 <= j < i implies !(#[trigger] state.config.channels[j]).denotes(
            channel_type,
            channel,
        ) by {
            assert(!is_entry(state.config, j, channel_type, channel));
        }
    }
}

/// Before any request there is a tuner for each that is configured, none is taken, and none
/// carries a stream.
pub proof fn tuners_are_idle_at_first(config: ConfigModel, t: int)
    ensures
        StateModel::initial(config).config == config,
        StateModel::initial(config).tuners.len() == config.tuners.len(),
        0 <= t < config.tuners.len() ==> !StateModel::initial(config).tuners[t].busy
            && StateModel::initial(config).tuners[t].active is None,
{
}

/// In a valid state there is a tuner for each that is configured, one that carries a stream is
/// taken, and a stream that was not told to stop has a client.
pub proof fn streams_have_clients_or_stop(state: StateModel, t: int)
    requires
        state.valid(),
        0 <= t < state.tuners.len(),
    ensures
        state.tuners.len() == state.config.tuners.len(),
        state.tuners[t].active matches Some(stream) ==> {
            &&& state.tuners[t].busy
            &&& !stream.cancelled ==> exists|client: Seq<char>| stream.users.contains(client)
        },
{
    assert(state.tuners[t].valid());
    if let Some(stream) = state.tuners[t].active {
        if !stream.cancelled && !exists|client: Seq<char>| stream.users.contains(client) {
            assert(stream.users =~= Set::<Seq<char>>::empty());
        }
    }
}

/// The tuners in use are counted one by one.
pub proof fn tuners_in_use_are_counted(tuners: Seq<TunerState>)
    ensures
        busy_count(tuners) == tuners.filter(|tuner: TunerState| tuner.busy).len(),
    decreases tuners.len(),
{
    reveal(Seq::filter);
    if tuners.len() > 0 {
        tuners_in_use_are_counted(tuners.drop_last());
    }
}

} // verus!
