//! The tuners at work: which tuner serves a request, who uses it, and when it is given back.

use crate::clock::unix_time_ms;
use crate::command::render_command;
use crate::config::{contains_text, texts, ChannelConfig, Config};
use crate::state::{PendingModel, StateModel, StepModel, StreamModel, TunerState};
use crate::users::{user_id_text, UserNumbers};
use vstd::prelude::*;

verus! {

/// A stream that a tuner carries.
struct ActiveStream {
    pid: u32,
    channel_type: String,
    channel: String,
    users: Vec<String>,
    cancelled: bool,
}

impl ActiveStream {
    spec fn model(&self) -> StreamModel {
        StreamModel {
            pid: self.pid,
            channel_type: self.channel_type@,
            channel: self.channel@,
            users: texts(self.users@).to_set(),
            cancelled: self.cancelled,
        }
    }

    /// No client is listed twice.
    spec fn wf(&self) -> bool {
        texts(self.users@).no_duplicates()
    }

    fn carries(&self, channel_type: &String, channel: &String) -> (result: bool)
        ensures
            result == self.model().carries(channel_type@, channel@),
    {
        self.channel_type == *channel_type && self.channel == *channel
    }

    /// Adds a client, once.
    fn join(&mut self, user: String)
        requires
            old(self).wf(),
        ensures
            final(self).wf(),
            final(self).model() == old(self).model().joined(user@),
    {
        let ghost before = texts(self.users@);
        if !contains_text(&self.users, &user) {
            self.users.push(user);
            proof {
                let after = texts(self.users@);
                assert(after =~= before.push(user@));
                assert(after.to_set() =~= before.to_set().insert(user@)) by {
                    assert forall|u: Seq<char>| after.contains(u) implies before.contains(u) || u
                        == user@ by {
                        let i = choose|i: int| 0 <= i < after.len() && after[i] == u;
                        if i < before.len() {
                            assert(before[i] == u);
                        }
                    }
                    assert forall|u: Seq<char>| before.contains(u) || u == user@ implies
                        after.contains(u) by {
                        if before.contains(u) {
                            let i = choose|i: int| 0 <= i < before.len() && before[i] == u;
                            assert(after[i] == u);
                        } else {
                            assert(after[before.len() as int] == u);
                        }
                    }
                }
            }
        } else {
            assert(before.to_set().insert(user@) =~= before.to_set());
        }
    }

    /// Takes a client off the list. The process is to stop when no client is left; the result
    /// says so.
    fn leave(&mut self, user: &String) -> (result: bool)
        requires
            old(self).wf(),
        ensures
            final(self).wf(),
            final(self).model() == old(self).model().left(user@),
            result == (old(self).model().users.remove(user@) == Set::<Seq<char>>::empty()),
    {
        let ghost before = texts(self.users@);
        let mut i: usize = 0;
        while i < self.users.len() && self.users[i] != *user
            invariant
                i <= self.users@.len(),
                before == texts(self.users@),
                *self == *old(self),
                forall|k: int| 0 <= k < i ==> (#[trigger] before[k]) != user@,
            decreases self.users@.len() - i,
        {
            assert(before[i as int] == self.users@[i as int]@);
            i += 1;
        }
        if i < self.users.len() {
            assert(before[i as int] == user@);
            let _ = self.users.remove(i);
            assert(texts(self.users@) =~= before.remove(i as int));
        } else {
            assert(!before.contains(user@));
        }
        proof {
            lemma_users_without(before, texts(self.users@), i as int, user@);
        }
        let empty = self.users.len() == 0;
        proof {
            let now = texts(self.users@);
            if now.len() > 0 {
                assert(now.to_set().contains(now[0]));
            } else {
                assert(now.to_set() =~= Set::<Seq<char>>::empty());
            }
        }
        if empty {
            self.cancelled = true;
        }
        empty
    }
}

/// Taking the only occurrence of a user off a list takes the user out of the set.
proof fn lemma_users_without(
    before: Seq<Seq<char>>,
    after: Seq<Seq<char>>,
    at: int,
    user: Seq<char>,
)
    requires
        before.no_duplicates(),
        0 <= at <= before.len(),
        at < before.len() ==> before[at] == user && after == before.remove(at),
        at == before.len() ==> after == before && !before.contains(user),
    ensures
        after.no_duplicates(),
        after.to_set() == before.to_set().remove(user),
{
    assert forall|u: Seq<char>| after.contains(u) implies before.contains(u) && u != user by {
        let k = choose|k: int| 0 <= k < after.len() && after[k] == u;
        let j = if k < at { k } else { k + 1 };
        if at < before.len() {
            assert(before[j] == u);
        }
    }
    assert forall|u: Seq<char>| before.contains(u) && u != user implies after.contains(u) by {
        let j = choose|j: int| 0 <= j < before.len() && before[j] == u;
        if at < before.len() {
            assert(after[if j < at { j } else { j - 1 }] == u);
        }
    }
    assert(after.to_set() =~= before.to_set().remove(user));
}

/// A tuner: whether it is taken, and the stream it carries.
struct Tuner {
    busy: bool,
    active: Option<ActiveStream>,
}

impl Tuner {
    spec fn model(&self) -> TunerState {
        TunerState {
            busy: self.busy,
            active: match self.active {
                Some(stream) => Some(stream.model()),
                None => None,
            },
        }
    }

    spec fn wf(&self) -> bool {
        self.active matches Some(stream) ==> stream.wf()
    }
}

/// The configuration and the tuners.
pub struct AppState {
    config: Config,
    tuners: Vec<Tuner>,
}

impl View for AppState {
    type V = StateModel;

    closed spec fn view(&self) -> StateModel {
        StateModel {
            config: self.config@,
            tuners: Seq::new(self.tuners@.len(), |t: int| self.tuners@[t].model()),
        }
    }
}

/// A client's place on a tuner.
pub struct OpenedStream {
    pub tuner: usize,
    pub user_id: String,
}

/// A stream that is about to start: the tuner that is taken for it, its channel and first
/// client, and the command line of its process.
pub struct PendingStream {
    tuner: usize,
    channel_type: String,
    channel: String,
    user_id: String,
    command: String,
}

impl View for PendingStream {
    type V = PendingModel;

    closed spec fn view(&self) -> PendingModel {
        PendingModel {
            tuner: self.tuner as int,
            channel_type: self.channel_type@,
            channel: self.channel@,
            user: self.user_id@,
            command: self.command@,
        }
    }
}

impl PendingStream {
    /// The tuner that is taken for the stream.
    pub fn tuner(&self) -> (result: usize)
        ensures
            result == self@.tuner,
    {
        self.tuner
    }

    /// The identifier of the first client.
    pub fn user_id(&self) -> (result: &str)
        ensures
            result@ == self@.user,
    {
        self.user_id.as_str()
    }

    /// The command line of the process.
    pub fn command(&self) -> (result: &str)
        ensures
            result@ == self@.command,
    {
        self.command.as_str()
    }
}

/// Why a stream could not be opened.
#[derive(Clone, Copy, Debug, PartialEq, Eq, Structural)]
pub enum OpenError {
    NotFound,
    Unavailable,
    Spawn,
}

/// What has to be done to open a stream.
pub enum OpenStep {
    /// Nothing: the channel is not configured.
    NotFound,
    /// Nothing: no tuner takes the client.
    Unavailable,
    /// The client is to read from the stream that the tuner carries.
    Shared(OpenedStream),
    /// The process is to be started.
    Start(PendingStream),
}

impl View for OpenStep {
    type V = StepModel;

    open spec fn view(&self) -> StepModel {
        match self {
            OpenStep::NotFound => StepModel::NotFound,
            OpenStep::Unavailable => StepModel::Unavailable,
            OpenStep::Shared(opened) => StepModel::Shared {
                tuner: opened.tuner as int,
                user: opened.user_id@,
            },
            OpenStep::Start(pending) => StepModel::Start(pending@),
        }
    }
}

/// A tuner as it is reported.
pub struct TunerSnapshot {
    pub index: usize,
    pub name: String,
    pub types: Vec<String>,
    pub command: String,
    pub pid: i64,
    pub users: Vec<String>,
    pub is_free: bool,
}

impl TunerSnapshot {
    /// Whether this reports the tuner at `t`: what is configured of it, its process or -1, its
    /// clients, each once and in no particular order, and whether it is free.
    pub open spec fn reports(&self, state: StateModel, t: int) -> bool {
        let tuner = state.tuners[t];
        &&& self.index == t
        &&& self.name@ == state.config.tuners[t].name
        &&& texts(self.types@) == state.config.tuners[t].types
        &&& self.command@ == state.config.tuners[t].command
        &&& self.is_free == !tuner.busy
        &&& texts(self.users@).no_duplicates()
        &&& match tuner.active {
            Some(stream) => self.pid == stream.pid && texts(self.users@).to_set() == stream.users,
            None => self.pid == -1 && self.users@.len() == 0,
        }
    }
}

/// Copies a vector of strings.
fn copy_texts(strings: &Vec<String>) -> (result: Vec<String>)
    ensures
        texts(result@) == texts(strings@),
{
    let mut result: Vec<String> = Vec::new();
    let mut i: usize = 0;
    while i < strings.len()
        invariant
            i <= strings@.len(),
            result@ == strings@.take(i as int),
        decreases strings@.len() - i,
    {
        result.push(strings[i].clone());
        assert(strings@.take(i + 1) =~= strings@.take(i as int).push(strings@[i as int]));
        i += 1;
    }
    assert(result@ =~= strings@);
    result
}

impl AppState {
    /// The state is valid, and no client is listed twice.
    pub open spec fn wf(&self) -> bool {
        self@.valid() && self.lists_wf()
    }

    /// No tuner lists a client twice.
    pub closed spec fn lists_wf(&self) -> bool {
        forall|t: int| 0 <= t < self.tuners@.len() ==> (#[trigger] self.tuners@[t]).wf()
    }

    /// The state before any request.
    pub fn new(config: Config) -> (result: AppState)
        ensures
            result.wf(),
            result@ == StateModel::initial(config@),
    {
        let mut tuners: Vec<Tuner> = Vec::new();
        let mut t: usize = 0;
        while t < config.tuners.len()
            invariant
                t <= config.tuners@.len(),
                tuners@.len() == t,
                forall|k: int|
                    0 <= k < t ==> (#[trigger] tuners@[k]).model() == TunerState::idle()
                        && tuners@[k].wf(),
            decreases config.tuners@.len() - t,
        {
            tuners.push(Tuner { busy: false, active: None });
            t += 1;
        }
        let result = AppState { config, tuners };
        assert(result@.tuners =~= StateModel::initial(config@).tuners);
        result
    }

    /// The configured channels.
    pub fn channels(&self) -> (result: &Vec<ChannelConfig>)
        ensures
            Seq::new(result@.len(), |i: int| result@[i]@) == self@.config.channels,
    {
        &self.config.channels
    }

    /// The first entry for the channel.
    pub fn channel(&self, channel_type: &str, channel: &str) -> (result: Option<&ChannelConfig>)
        ensures
            match result {
                Some(entry) => exists|i: int| #[trigger]
                    self@.first_entry(i, channel_type@, channel@) && self@.config.channels[i]
                        == entry@,
                None => !self@.knows(channel_type@, channel@),
            },
    {
        let wanted_type = channel_type.to_owned();
        let wanted = channel.to_owned();
        let mut i: usize = 0;
        while i < self.config.channels.len()
            invariant
                i <= self.config.channels@.len(),
                wanted_type@ == channel_type@,
                wanted@ == channel@,
                forall|k: int|
                    0 <= k < i ==> !(#[trigger] self@.config.channels[k]).denotes(
                        channel_type@,
                        channel@,
                    ),
            decreases self.config.channels@.len() - i,
        {
            let entry = &self.config.channels[i];
            assert(self@.config.channels[i as int] == entry@);
            if entry.channel_type == wanted_type && entry.channel == wanted {
                assert(self@.first_entry(i as int, channel_type@, channel@));
                return Some(entry);
            }
            i += 1;
        }
        None
    }

    /// The number of tuners that are taken.
    pub fn stream_count(&self) -> (result: usize)
        ensures
            result == crate::state::busy_count(self@.tuners),
    {
        let mut count: usize = 0;
        let mut t: usize = 0;
        while t < self.tuners.len()
            invariant
                t <= self.tuners@.len(),
                count <= t,
                count == crate::state::busy_count(self@.tuners.take(t as int)),
            decreases self.tuners@.len() - t,
        {
            proof {
                let taken = self@.tuners.take(t + 1);
                assert(taken.drop_last() =~= self@.tuners.take(t as int));
                assert(taken.last() == self.tuners@[t as int].model());
            }
            if self.tuners[t].busy {
                count += 1;
            }
            t += 1;
        }
        assert(self@.tuners.take(t as int) =~= self@.tuners);
        count
    }

    /// Whether the tuner at `index` is free.
    pub fn tuner_is_free(&self, index: usize) -> (result: bool)
        requires
            index < self@.tuners.len(),
        ensures
            result == !self@.tuners[index as int].busy,
    {
        !self.tuners[index].busy
    }

    /// Whether there is a tuner at `index` that is taken and carries no stream.
    pub fn is_reserved(&self, index: usize) -> (result: bool)
        ensures
            result == (index < self@.tuners.len() && self@.tuners[index as int]
                == TunerState::reserved()),
    {
        index < self.tuners.len() && self.tuners[index].busy && self.tuners[index].active.is_none()
    }

    /// The number of tuners.
    pub fn tuner_count(&self) -> (result: usize)
        ensures
            result == self@.tuners.len(),
    {
        self.tuners.len()
    }

    /// Reports all tuners, in order.
    pub fn tuner_snapshots(&self) -> (result: Vec<TunerSnapshot>)
        requires
            self.wf(),
        ensures
            result@.len() == self@.tuners.len(),
            forall|t: int|
                0 <= t < result@.len() ==> (#[trigger] result@[t]).reports(self@, t),
    {
        let mut result: Vec<TunerSnapshot> = Vec::new();
        let mut t: usize = 0;
        while t < self.tuners.len()
            invariant
                t <= self.tuners@.len(),
                self.wf(),
                result@.len() == t,
                forall|k: int| 0 <= k < t ==> (#[trigger] result@[k]).reports(self@, k),
            decreases self.tuners@.len() - t,
        {
            let tuner = &self.tuners[t];
            let config = &self.config.tuners[t];
            assert(self@.tuners[t as int] == tuner.model());
            assert(self@.config.tuners[t as int] == config@);
            assert(tuner.wf());
            let (pid, users) = match &tuner.active {
                Some(stream) => (stream.pid as i64, copy_texts(&stream.users)),
                None => (-1i64, Vec::new()),
            };
            let snapshot = TunerSnapshot {
                index: t,
                name: config.name.clone(),
                types: copy_texts(&config.types),
                command: config.command.clone(),
                pid,
                users,
                is_free: !tuner.busy,
            };
            assert(snapshot.reports(self@, t as int));
            result.push(snapshot);
            t += 1;
        }
        result
    }

    /// Whether a stream of the channel is on offer.
    pub fn stream_available(&self, channel_type: &str, channel: &str) -> (result: bool)
        requires
            self.wf(),
        ensures
            result == self@.available(channel_type@, channel@),
    {
        let wanted_type = channel_type.to_owned();
        let wanted = channel.to_owned();
        let mut t: usize = 0;
        while t < self.tuners.len()
            invariant
                t <= self.tuners@.len(),
                self.wf(),
                wanted_type@ == channel_type@,
                wanted@ == channel@,
                forall|k: int|
                    0 <= k < t && #[trigger] self@.serves(k, channel_type@) ==> !(
                    self@.tuners[k].active is None || self@.tuners[k].carries(
                        channel_type@,
                        channel@,
                    )),
            decreases self.tuners@.len() - t,
        {
            let tuner = &self.tuners[t];
            assert(self@.tuners[t as int] == tuner.model());
            assert(self@.config.tuners[t as int] == self.config.tuners@[t as int]@);
            if contains_text(&self.config.tuners[t].types, &wanted_type) {
                assert(self@.serves(t as int, channel_type@));
                let offered = match &tuner.active {
                    Some(stream) => stream.carries(&wanted_type, &wanted),
                    None => true,
                };
                if offered {
                    return true;
                }
            }
            t += 1;
        }
        false
    }

    /// The first tuner that takes a new client of the channel.
    fn find_taker(&self, channel_type: &String, channel: &String) -> (result: Option<usize>)
        requires
            self.wf(),
        ensures
            match result {
                Some(t) => self@.first_taker(t as int, channel_type@, channel@),
                None => self@.no_taker(channel_type@, channel@),
            },
    {
        let mut t: usize = 0;
        while t < self.tuners.len()
            invariant
                t <= self.tuners@.len(),
                self.wf(),
                forall|k: int|
                    0 <= k < t ==> !#[trigger] self@.takes(k, channel_type@, channel@),
            decreases self.tuners@.len() - t,
        {
            let tuner = &self.tuners[t];
            assert(self@.tuners[t as int] == tuner.model());
            assert(self@.config.tuners[t as int] == self.config.tuners@[t as int]@);
            if contains_text(&self.config.tuners[t].types, channel_type) {
                let takes = match &tuner.active {
                    Some(stream) => stream.carries(channel_type, channel),
                    None => !tuner.busy,
                };
                if takes {
                    return Some(t);
                }
            }
            t += 1;
        }
        None
    }

    /// Decides an open request that comes at `now_ms`, and takes the tuner that serves it: the
    /// first one that carries the channel, or that is idle and can receive it.
    pub fn open_stream_at(
        &mut self,
        numbers: &mut UserNumbers,
        channel_type: &str,
        channel: &str,
        now_ms: u64,
    ) -> (result: OpenStep)
        requires
            old(self).wf(),
        ensures
            final(self).wf(),
            crate::state::opens(
                old(self)@,
                old(numbers)@,
                channel_type@,
                channel@,
                now_ms,
                result@,
                final(self)@,
                final(numbers)@,
            ),
            forall|from: nat|
                #![trigger old(self)@.lists_issued(from, old(numbers)@)]
                from <= old(numbers)@ && old(self)@.lists_issued(from, old(numbers)@) ==> {
                    &&& final(self)@.lists_issued(from, final(numbers)@)
                    &&& old(numbers)@ < from + 0x1_0000_0000_0000_0000
                        ==> crate::state::joins_as_new(old(self)@, result@)
                },
    {
        let result = self.decide_open(numbers, channel_type, channel, now_ms);
        proof {
            assert forall|from: nat|
                #![trigger old(self)@.lists_issued(from, old(numbers)@)]
                from <= old(numbers)@ && old(self)@.lists_issued(from, old(numbers)@) implies {
                &&& self@.lists_issued(from, numbers@)
                &&& old(numbers)@ < from + 0x1_0000_0000_0000_0000 ==> crate::state::joins_as_new(
                    old(self)@,
                    result@,
                )
            } by {
                crate::state::joining_client_is_new(
                    old(self)@,
                    old(numbers)@,
                    channel_type@,
                    channel@,
                    now_ms,
                    result@,
                    self@,
                    numbers@,
                    from,
                );
            }
        }
        result
    }

    /// Decides an open request and takes the tuner.
    fn decide_open(
        &mut self,
        numbers: &mut UserNumbers,
        channel_type: &str,
        channel: &str,
        now_ms: u64,
    ) -> (result: OpenStep)
        requires
            old(self).wf(),
        ensures
            final(self).wf(),
            crate::state::opens(
                old(self)@,
                old(numbers)@,
                channel_type@,
                channel@,
                now_ms,
                result@,
                final(self)@,
                final(numbers)@,
            ),
    {
        let ghost before = self@;
        let entry: &ChannelConfig = match self.channel(channel_type, channel) {
            Some(entry) => entry,
            None => {
                return OpenStep::NotFound;
            },
        };
        let wanted_type = channel_type.to_owned();
        let wanted = channel.to_owned();
        let user_id = user_id_text(now_ms, numbers.take());
        let t: usize = match self.find_taker(&wanted_type, &wanted) {
            Some(t) => t,
            None => {
                return OpenStep::Unavailable;
            },
        };
        assert(before.tuners[t as int] == self.tuners@[t as int].model());
        if self.tuners[t].active.is_none() {
            let command = render_command(self.config.tuners[t].command.as_str(), entry);
            self.tuners[t].busy = true;
            let pending = PendingStream {
                tuner: t,
                channel_type: wanted_type,
                channel: wanted,
                user_id,
                command,
            };
            assert(self@.tuners =~= before.tuners.update(t as int, TunerState::reserved()));
            return OpenStep::Start(pending);
        }
        let joining = user_id.clone();
        if let Some(stream) = &mut self.tuners[t].active {
            stream.join(joining);
        }
        let ghost stream = before.tuners[t as int].active->0;
        assert(self@.tuners =~= before.with_stream(
            t as int,
            Some(stream.joined(user_id@)),
        ).tuners);
        assert(before.tuners[t as int].valid());
        assert(stream.joined(user_id@).users.contains(user_id@));
        OpenStep::Shared(OpenedStream { tuner: t, user_id })
    }

    /// Decides an open request that comes now.
    pub fn open_stream(
        &mut self,
        numbers: &mut UserNumbers,
        channel_type: &str,
        channel: &str,
    ) -> (result: OpenStep)
        requires
            old(self).wf(),
        ensures
            final(self).wf(),
            exists|now: std::time::SystemTime|
                crate::state::opens(
                    old(self)@,
                    old(numbers)@,
                    channel_type@,
                    channel@,
                    #[trigger] crate::clock::stamp_at(now),
                    result@,
                    final(self)@,
                    final(numbers)@,
                ),
            forall|from: nat|
                #![trigger old(self)@.lists_issued(from, old(numbers)@)]
                from <= old(numbers)@ && old(self)@.lists_issued(from, old(numbers)@) ==> {
                    &&& final(self)@.lists_issued(from, final(numbers)@)
                    &&& old(numbers)@ < from + 0x1_0000_0000_0000_0000
                        ==> crate::state::joins_as_new(old(self)@, result@)
                },
    {
        let now_ms = unix_time_ms();
        self.open_stream_at(numbers, channel_type, channel, now_ms)
    }

    /// Starts the pending stream with the process `pid`; without one, gives the tuner back.
    pub fn start_stream(&mut self, pending: PendingStream, pid: Option<u32>) -> (result: Result<
        OpenedStream,
        OpenError,
    >)
        requires
            old(self).wf(),
            pending@.tuner < old(self)@.tuners.len(),
            old(self)@.tuners[pending@.tuner] == TunerState::reserved(),
        ensures
            final(self).wf(),
            final(self)@ == crate::state::started(old(self)@, pending@, pid),
            match pid {
                Some(_) => result matches Ok(opened) && opened.tuner == pending@.tuner
                    && opened.user_id@ == pending@.user,
                None => result == Err::<OpenedStream, OpenError>(OpenError::Spawn),
            },
    {
        let ghost before = self@;
        let t: usize = pending.tuner;
        assert(before.tuners[t as int] == self.tuners@[t as int].model());
        match pid {
            Some(pid) => {
                let mut users: Vec<String> = Vec::new();
                users.push(pending.user_id.clone());
                proof {
                    let listed = texts(users@);
                    assert(listed =~= seq![pending.user_id@]);
                    assert(listed[0] == pending.user_id@);
                    assert(listed.to_set() =~= set![pending.user_id@]);
                    assert(listed.to_set().contains(pending.user_id@));
                }
                let stream = ActiveStream {
                    pid,
                    channel_type: pending.channel_type,
                    channel: pending.channel,
                    users,
                    cancelled: false,
                };
                self.tuners[t].active = Some(stream);
                assert(self@.tuners =~= crate::state::started(
                    before,
                    pending@,
                    Some(pid),
                ).tuners);
                Ok(OpenedStream { tuner: t, user_id: pending.user_id })
            },
            None => {
                self.tuners[t].busy = false;
                assert(self@.tuners =~= crate::state::started(before, pending@, None).tuners);
                Err(OpenError::Spawn)
            },
        }
    }

    /// Takes a client off the tuner at `tuner`. The result says whether the process is to be told
    /// to stop.
    pub fn client_left(&mut self, tuner: usize, user_id: &str) -> (result: bool)
        requires
            old(self).wf(),
            tuner < old(self)@.tuners.len(),
        ensures
            final(self).wf(),
            final(self)@ == crate::state::client_gone(old(self)@, tuner as int, user_id@),
            result == crate::state::stops_process(old(self)@, tuner as int, user_id@),
    {
        let ghost before = self@;
        let user = user_id.to_owned();
        let mut result = false;
        assert(before.tuners[tuner as int] == self.tuners@[tuner as int].model());
        assert(self.tuners@[tuner as int].wf());
        if let Some(stream) = &mut self.tuners[tuner].active {
            result = stream.leave(&user);
        }
        assert(self@.tuners =~= crate::state::client_gone(
            before,
            tuner as int,
            user_id@,
        ).tuners);
        result
    }

    /// Takes the stream of the process `pid` off the tuner at `tuner`, now that the process has
    /// ended.
    pub fn stream_stopped(&mut self, tuner: usize, pid: u32)
        requires
            old(self).wf(),
            tuner < old(self)@.tuners.len(),
        ensures
            final(self).wf(),
            final(self)@ == crate::state::stream_gone(old(self)@, tuner as int, pid),
    {
        let ghost before = self@;
        assert(before.tuners[tuner as int] == self.tuners@[tuner as int].model());
        let ended = match &self.tuners[tuner].active {
            Some(stream) => stream.pid == pid,
            None => false,
        };
        if ended {
            self.tuners[tuner].active = None;
        }
        assert(self@.tuners =~= crate::state::stream_gone(before, tuner as int, pid).tuners);
    }

    /// Gives the tuner at `tuner` back after its stream has ended.
    pub fn release_tuner(&mut self, tuner: usize)
        requires
            old(self).wf(),
            tuner < old(self)@.tuners.len(),
            old(self)@.tuners[tuner as int] == TunerState::reserved(),
        ensures
            final(self).wf(),
            final(self)@ == old(self)@.with_tuner(tuner as int, TunerState::idle()),
    {
        let ghost before = self@;
        assert(before.tuners[tuner as int] == self.tuners@[tuner as int].model());
        self.tuners[tuner].busy = false;
        assert(self@.tuners =~= before.with_tuner(tuner as int, TunerState::idle()).tuners);
    }
}

/// A step is told as what it is, with the tuner and the client that it holds.
pub proof fn steps_are_told_as_they_are(step: OpenStep)
    ensures
        step is NotFound <==> step@ is NotFound,
        step is Unavailable <==> step@ is Unavailable,
        step matches OpenStep::Shared(opened) ==> (step@ matches StepModel::Shared { tuner, user }
            && tuner == opened.tuner && user == opened.user_id@),
        step matches OpenStep::Start(pending) ==> step@ == StepModel::Start(pending@),
{
}

} // verus!
