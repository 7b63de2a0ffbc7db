//! The mathematical model of the tuners, and what requests do to it.

use crate::config::ConfigModel;
use vstd::prelude::*;

verus! {

/// A stream that a tuner carries: the process that feeds it, its channel, its clients, and
/// whether the process was told to stop.
pub struct StreamModel {
    pub pid: u32,
    pub channel_type: Seq<char>,
    pub channel: Seq<char>,
    pub users: Set<Seq<char>>,
    pub cancelled: bool,
}

/// A tuner at work: whether it is taken, and the stream it carries, if any. A tuner is taken
/// before its stream starts and until after it has ended.
pub struct TunerState {
    pub busy: bool,
    pub active: Option<StreamModel>,
}

/// The configuration, and the tuners in its order.
pub struct StateModel {
    pub config: ConfigModel,
    pub tuners: Seq<TunerState>,
}

impl StreamModel {
    /// Whether the stream is that of the channel.
    pub open spec fn carries(self, channel_type: Seq<char>, channel: Seq<char>) -> bool {
        self.channel_type == channel_type && self.channel == channel
    }

    /// The stream with one more client.
    pub open spec fn joined(self, user: Seq<char>) -> StreamModel {
        StreamModel { users: self.users.insert(user), ..self }
    }

    /// The stream without a client; it is told to stop when it has none.
    pub open spec fn left(self, user: Seq<char>) -> StreamModel {
        StreamModel {
            users: self.users.remove(user),
            cancelled: self.cancelled || self.users.remove(user) == Set::<Seq<char>>::empty(),
            ..self
        }
    }
}

impl TunerState {
    /// A tuner that nobody uses.
    pub open spec fn idle() -> TunerState {
        TunerState { busy: false, active: None }
    }

    /// A tuner that is taken and carries no stream: one that is being started or stopped.
    pub open spec fn reserved() -> TunerState {
        TunerState { busy: true, active: None }
    }

    /// Whether the tuner carries the stream of the channel.
    pub open spec fn carries(self, channel_type: Seq<char>, channel: Seq<char>) -> bool {
        self.active matches Some(stream) && stream.carries(channel_type, channel)
    }

    /// A tuner that carries a stream is taken, and a stream without clients was told to stop.
    pub open spec fn valid(self) -> bool {
        self.active matches Some(stream) ==> {
            &&& self.busy
            &&& stream.users.finite()
            &&& stream.users == Set::<Seq<char>>::empty() ==> stream.cancelled
        }
    }
}

impl StateModel {
    /// The tuners are those of the configuration, and each is in a valid state.
    pub open spec fn valid(self) -> bool {
        &&& self.tuners.len() == self.config.tuners.len()
        &&& forall|t: int| 0 <= t < self.tuners.len() ==> (#[trigger] self.tuners[t]).valid()
    }

    /// The state before any request.
    pub open spec fn initial(config: ConfigModel) -> StateModel {
        StateModel {
            config,
            tuners: Seq::new(config.tuners.len(), |t: int| TunerState::idle()),
        }
    }

    /// Whether the entry at `i` is the first one for the channel.
    pub open spec fn first_entry(self, i: int, channel_type: Seq<char>, channel: Seq<char>) -> bool {
        &&& 0 <= i < self.config.channels.len()
        &&& self.config.channels[i].denotes(channel_type, channel)
        &&& forall|j: int|
            0 <= j < i ==> !(#[trigger] self.config.channels[j]).denotes(channel_type, channel)
    }

    /// Whether the configuration has the channel.
    pub open spec fn knows(self, channel_type: Seq<char>, channel: Seq<char>) -> bool {
        exists|i: int|
            0 <= i < self.config.channels.len() && (#[trigger] self.config.channels[i]).denotes(
                channel_type,
                channel,
            )
    }

    /// Whether the tuner at `t` can receive channels of this type.
    pub open spec fn serves(self, t: int, channel_type: Seq<char>) -> bool {
        self.config.tuners[t].serves(channel_type)
    }

    /// Whether the tuner at `t` takes a new client of the channel: it carries the channel
    /// already, or it is idle and can receive it.
    pub open spec fn takes(self, t: int, channel_type: Seq<char>, channel: Seq<char>) -> bool {
        self.serves(t, channel_type) && (self.tuners[t].carries(channel_type, channel)
            || self.tuners[t] == TunerState::idle())
    }

    /// Whether the tuner at `t` is the first one that takes a new client of the channel.
    pub open spec fn first_taker(self, t: int, channel_type: Seq<char>, channel: Seq<char>) -> bool {
        &&& 0 <= t < self.tuners.len()
        &&& self.takes(t, channel_type, channel)
        &&& forall|j: int| 0 <= j < t ==> !#[trigger] self.takes(j, channel_type, channel)
    }

    /// Whether no tuner takes a new client of the channel.
    pub open spec fn no_taker(self, channel_type: Seq<char>, channel: Seq<char>) -> bool {
        forall|t: int|
            0 <= t < self.tuners.len() ==> !#[trigger] self.takes(t, channel_type, channel)
    }

    /// Whether a stream of the channel is on offer: some tuner that can receive it carries it
    /// already or carries no stream.
    pub open spec fn available(self, channel_type: Seq<char>, channel: Seq<char>) -> bool {
        exists|t: int|
            0 <= t < self.tuners.len() && #[trigger] self.serves(t, channel_type) && (
            self.tuners[t].active is None || self.tuners[t].carries(channel_type, channel))
    }

    /// The state with another state of the tuner at `t`.
    pub open spec fn with_tuner(self, t: int, tuner: TunerState) -> StateModel {
        StateModel { tuners: self.tuners.update(t, tuner), ..self }
    }

    /// The state with another stream on the tuner at `t`.
    pub open spec fn with_stream(self, t: int, stream: Option<StreamModel>) -> StateModel {
        self.with_tuner(t, TunerState { active: stream, ..self.tuners[t] })
    }

    /// Whether every client that is listed has an identifier that was issued from the count `from`
    /// on and before the count `to`.
    pub open spec fn lists_issued(self, from: nat, to: nat) -> bool {
        forall|t: int, user: Seq<char>|
            0 <= t < self.tuners.len() && #[trigger] self.lists(t, user)
                ==> crate::users::issued_within(user, from, to)
    }

    /// Whether the tuner at `t` lists the client.
    pub open spec fn lists(self, t: int, user: Seq<char>) -> bool {
        self.tuners[t].active matches Some(stream) && stream.users.contains(user)
    }
}

/// The number of tuners that are taken.
pub open spec fn busy_count(tuners: Seq<TunerState>) -> nat
    decreases tuners.len(),
{
    if tuners.len() == 0 {
        0
    } else {
        busy_count(tuners.drop_last()) + if tuners.last().busy {
            1nat
        } else {
            0
        }
    }
}

/// A stream that is about to start.
pub struct PendingModel {
    pub tuner: int,
    pub channel_type: Seq<char>,
    pub channel: Seq<char>,
    pub user: Seq<char>,
    pub command: Seq<char>,
}

/// What an open request comes to, before a process is started.
pub enum StepModel {
    /// The channel is not configured.
    NotFound,
    /// No tuner takes the client.
    Unavailable,
    /// The client joins the stream on a tuner.
    Shared { tuner: int, user: Seq<char> },
    /// A process has to be started.
    Start(PendingModel),
}

/// Whether an open request at the time `now_ms`, when `issued` numbers were given, comes to `step`
/// and leads from `before` to `after`, with `issued_after` numbers given. A request for a channel
/// that is not configured takes no number; every other one does.
pub open spec fn opens(
    before: StateModel,
    issued: nat,
    channel_type: Seq<char>,
    channel: Seq<char>,
    now_ms: u64,
    step: StepModel,
    after: StateModel,
    issued_after: nat,
) -> bool {
    let id = crate::users::user_id(now_ms, crate::users::number_of(issued));
    match step {
        StepModel::NotFound => {
            &&& !before.knows(channel_type, channel)
            &&& after == before
            &&& issued_after == issued
        },
        StepModel::Unavailable => {
            &&& before.knows(channel_type, channel)
            &&& before.no_taker(channel_type, channel)
            &&& after == before
            &&& issued_after == issued + 1
        },
        StepModel::Shared { tuner, user } => {
            &&& before.knows(channel_type, channel)
            &&& before.first_taker(tuner, channel_type, channel)
            &&& before.tuners[tuner].active matches Some(stream)
            &&& user == id
            &&& after == before.with_stream(tuner, Some(stream.joined(id)))
            &&& issued_after == issued + 1
        },
        StepModel::Start(pending) => {
            &&& before.first_taker(pending.tuner, channel_type, channel)
            &&& before.tuners[pending.tuner].active is None
            &&& pending.channel_type == channel_type
            &&& pending.channel == channel
            &&& pending.user == id
            &&& exists|i: int| #[trigger]
                before.first_entry(i, channel_type, channel) && pending.command
                    == crate::command::rendered(
                    before.config.tuners[pending.tuner].command,
                    before.config.channels[i],
                )
            &&& after == before.with_tuner(pending.tuner, TunerState::reserved())
            &&& issued_after == issued + 1
        },
    }
}

/// Whether the client that a step lets join a stream was not listed on it before.
pub open spec fn joins_as_new(before: StateModel, step: StepModel) -> bool {
    step matches StepModel::Shared { tuner, user } ==> !before.lists(tuner, user)
}

/// Where all listed clients have identifiers from the numbers given since the count `from`, a
/// request keeps it so, also for the client that a stream is to be started for, and fewer than 2^64
/// numbers after that count the client that joins a stream was not listed on it before.
pub proof fn joining_client_is_new(
    before: StateModel,
    issued: nat,
    channel_type: Seq<char>,
    channel: Seq<char>,
    now_ms: u64,
    step: StepModel,
    after: StateModel,
    issued_after: nat,
    from: nat,
)
    requires
        opens(before, issued, channel_type, channel, now_ms, step, after, issued_after),
        before.lists_issued(from, issued),
        from <= issued,
    ensures
        after.lists_issued(from, issued_after),
        step matches StepModel::Start(pending) ==> crate::users::issued_within(
            pending.user,
            from,
            issued_after,
        ),
        issued < from + 0x1_0000_0000_0000_0000 ==> joins_as_new(before, step),
        issued < from + 0x1_0000_0000_0000_0000 ==> (step matches StepModel::Shared { tuner, user }
            ==> before.tuners[tuner].active matches Some(stream) && !stream.users.contains(user)),
{
    let id = crate::users::user_id(now_ms, crate::users::number_of(issued));
    assert forall|t: int, user: Seq<char>|
        0 <= t < after.tuners.len() && #[trigger] after.lists(
            t,
            user,
        ) implies crate::users::issued_within(user, from, issued_after) by {
        if before.lists(t, user) {
            let (now, k) = choose|now: u64, k: nat|
                from <= k < issued && user == #[trigger] crate::users::user_id(
                    now,
                    crate::users::number_of(k),
                );
            assert(user == crate::users::user_id(now, crate::users::number_of(k)));
        } else {
            assert(user == id);
        }
    }
    if issued < from + 0x1_0000_0000_0000_0000 {
        if let StepModel::Shared { tuner, user } = step {
            if before.lists(tuner, user) {
                let (now, k) = choose|now: u64, k: nat|
                    from <= k < issued && user == #[trigger] crate::users::user_id(
                        now,
                        crate::users::number_of(k),
                    );
                crate::users::numbers_differ(k, issued);
                crate::users::user_ids_differ(
                    now,
                    crate::users::number_of(k),
                    now_ms,
                    crate::users::number_of(issued),
                );
            }
        }
    }
}

/// The state after the attempt to start a pending stream: with the stream where there is a
/// process, and with the tuner given back where there is none.
pub open spec fn started(before: StateModel, pending: PendingModel, pid: Option<u32>) -> StateModel {
    match pid {
        Some(pid) => before.with_stream(
            pending.tuner,
            Some(
                StreamModel {
                    pid,
                    channel_type: pending.channel_type,
                    channel: pending.channel,
                    users: set![pending.user],
                    cancelled: false,
                },
            ),
        ),
        None => before.with_tuner(pending.tuner, TunerState::idle()),
    }
}

/// The state after a client of the tuner at `t` has left.
pub open spec fn client_gone(before: StateModel, t: int, user: Seq<char>) -> StateModel {
    match before.tuners[t].active {
        Some(stream) => before.with_stream(t, Some(stream.left(user))),
        None => before,
    }
}

/// Whether the process of the tuner at `t` is told to stop when the client leaves.
pub open spec fn stops_process(before: StateModel, t: int, user: Seq<char>) -> bool {
    before.tuners[t].active matches Some(stream) && stream.users.remove(user)
        == Set::<Seq<char>>::empty()
}

/// The state after the process `pid` of the tuner at `t` has ended.
pub open spec fn stream_gone(before: StateModel, t: int, pid: u32) -> StateModel {
    if before.tuners[t].active matches Some(stream) && stream.pid == pid {
        before.with_stream(t, None)
    } else {
        before
    }
}

} // verus!
