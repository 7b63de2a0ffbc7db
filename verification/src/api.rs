//! The answers to the requests of the HTTP interface.

use crate::clock::unix_time_ms;
use crate::config::{texts, ChannelConfig, ChannelModel};
use crate::state::{StateModel, StepModel, TunerState};
use crate::tuner::{AppState, OpenError, OpenStep, OpenedStream, PendingStream, TunerSnapshot};
use crate::users::UserNumbers;
use axum::http::HeaderValue;
use vstd::prelude::*;

verus! {

/// A channel as it is reported.
pub struct ApiChannel {
    pub channel_type: String,
    pub channel: String,
    pub name: String,
}

impl ApiChannel {
    /// Whether this reports the entry: its type, number and name.
    pub open spec fn reports(&self, entry: ChannelModel) -> bool {
        &&& self.channel_type@ == entry.channel_type
        &&& self.channel@ == entry.channel
        &&& self.name@ == entry.name
    }

    /// Reports an entry.
    pub fn from(channel: &ChannelConfig) -> (result: ApiChannel)
        ensures
            result.reports(channel@),
    {
        ApiChannel {
            channel_type: channel.channel_type.clone(),
            channel: channel.channel.clone(),
            name: channel.name.clone(),
        }
    }
}

/// A client of a tuner as it is reported.
pub struct ApiTunerUser {
    pub id: String,
    pub priority: i32,
}

/// A tuner as it is reported over the interface.
pub struct ApiTuner {
    pub index: usize,
    pub name: String,
    pub types: Vec<String>,
    pub command: String,
    pub pid: i64,
    pub users: Vec<ApiTunerUser>,
    pub is_available: bool,
    pub is_remote: bool,
    pub is_free: bool,
    pub is_using: bool,
    pub is_fault: bool,
}

impl ApiTuner {
    /// The identifiers of the clients.
    pub open spec fn user_ids(&self) -> Seq<Seq<char>> {
        Seq::new(self.users@.len(), |i: int| self.users@[i].id@)
    }

    /// What is reported of every tuner: it is at hand, local and sound, it is in use where it is
    /// not free, and its clients have no priorities.
    pub open spec fn has_fixed_parts(&self) -> bool {
        &&& self.is_available
        &&& !self.is_remote
        &&& !self.is_fault
        &&& self.is_using == !self.is_free
        &&& forall|i: int| 0 <= i < self.users@.len() ==> (#[trigger] self.users@[i]).priority == 0
    }

    /// Whether this reports the tuner at `t`.
    pub open spec fn reports(&self, state: StateModel, t: int) -> bool {
        let tuner = state.tuners[t];
        &&& self.has_fixed_parts()
        &&& self.index == t
        &&& self.name@ == state.config.tuners[t].name
        &&& texts(self.types@) == state.config.tuners[t].types
        &&& self.command@ == state.config.tuners[t].command
        &&& self.is_free == !tuner.busy
        &&& self.user_ids().no_duplicates()
        &&& match tuner.active {
            Some(stream) => self.pid == stream.pid && self.user_ids().to_set() == stream.users,
            None => self.pid == -1 && self.users@.len() == 0,
        }
    }

    /// Reports a snapshot.
    pub fn from(tuner: TunerSnapshot) -> (result: ApiTuner)
        ensures
            result.has_fixed_parts(),
            result.index == tuner.index,
            result.name == tuner.name,
            result.types == tuner.types,
            result.command == tuner.command,
            result.pid == tuner.pid,
            result.user_ids() == texts(tuner.users@),
            result.is_free == tuner.is_free,
    {
        let mut users: Vec<ApiTunerUser> = Vec::new();
        let mut i: usize = 0;
        while i < tuner.users.len()
            invariant
                i <= tuner.users@.len(),
                users@.len() == i,
                forall|k: int|
                    0 <= k < i ==> (#[trigger] users@[k]).id@ == tuner.users@[k]@
                        && users@[k].priority == 0,
            decreases tuner.users@.len() - i,
        {
            users.push(ApiTunerUser { id: tuner.users[i].clone(), priority: 0 });
            i += 1;
        }
        let result = ApiTuner {
            index: tuner.index,
            name: tuner.name,
            types: tuner.types,
            command: tuner.command,
            pid: tuner.pid,
            users,
            is_available: true,
            is_remote: false,
            is_free: tuner.is_free,
            is_using: !tuner.is_free,
            is_fault: false,
        };
        assert(result.user_ids() =~= texts(tuner.users@));
        result
    }
}

/// The code of an answer and its reason.
pub struct ErrorModel {
    pub code: u16,
    pub reason: Seq<char>,
}

/// The answer to a request that is refused.
pub struct ApiError {
    pub code: u16,
    pub reason: &'static str,
}

impl View for ApiError {
    type V = ErrorModel;

    open spec fn view(&self) -> ErrorModel {
        ErrorModel { code: self.code, reason: self.reason@ }
    }
}

/// The answer for each reason why a stream cannot be opened.
pub open spec fn refusal(error: OpenError) -> ErrorModel {
    match error {
        OpenError::NotFound => ErrorModel { code: 404, reason: "channel not found"@ },
        OpenError::Unavailable => ErrorModel { code: 503, reason: "tuner resource unavailable"@ },
        OpenError::Spawn => ErrorModel { code: 500, reason: "failed to start tuner command"@ },
    }
}

/// An answer with a status code and a reason.
pub fn api_error(code: u16, reason: &'static str) -> (result: ApiError)
    ensures
        result.code == code,
        result.reason == reason,
{
    ApiError { code, reason }
}

/// The channel is not configured.
pub fn not_found() -> (result: ApiError)
    ensures
        result@ == refusal(OpenError::NotFound),
{
    api_error(404, "channel not found")
}

/// No tuner takes the client.
pub fn unavailable() -> (result: ApiError)
    ensures
        result@ == refusal(OpenError::Unavailable),
{
    api_error(503, "tuner resource unavailable")
}

/// The process could not be started.
pub fn internal_error() -> (result: ApiError)
    ensures
        result@ == refusal(OpenError::Spawn),
{
    api_error(500, "failed to start tuner command")
}

/// The answer for the reason why a stream could not be opened.
pub fn open_refused(error: OpenError) -> (result: ApiError)
    ensures
        result@ == refusal(error),
{
    match error {
        OpenError::NotFound => not_found(),
        OpenError::Unavailable => unavailable(),
        OpenError::Spawn => internal_error(),
    }
}

/// The server and its version.
pub struct VersionInfo {
    pub current: String,
    pub latest: String,
    pub server: String,
}

/// Reports the version.
pub fn version(current: &str) -> (result: VersionInfo)
    ensures
        result.current@ == current@,
        result.latest@ == Seq::<char>::empty(),
        result.server@ == "SoymilkCurry"@,
{
    VersionInfo {
        current: current.to_owned(),
        latest: String::new(),
        server: "SoymilkCurry".to_owned(),
    }
}

/// The machine and the process that the server runs on.
pub struct ProcessInfo {
    pub arch: String,
    pub platform: String,
    pub pid: u32,
}

/// How many streams are open, by kind.
pub struct StreamCount {
    pub tuner_device: usize,
    pub ts_filter: usize,
    pub decoder: usize,
}

/// The status of the server.
pub struct Status {
    pub time: u64,
    pub version: String,
    pub process: ProcessInfo,
    pub stream_count: StreamCount,
}

impl Status {
    /// Whether this is the status for the state: its version and process, and one stream for each
    /// tuner that is taken, none of the other kinds.
    pub open spec fn reports(
        &self,
        state: StateModel,
        version: Seq<char>,
        process: ProcessInfo,
    ) -> bool {
        &&& self.version@ == version
        &&& self.process == process
        &&& self.stream_count.tuner_device == crate::state::busy_count(state.tuners)
        &&& self.stream_count.ts_filter == 0
        &&& self.stream_count.decoder == 0
    }
}

/// Reports the status at a time.
pub fn status_at(state: &AppState, version: &str, process: ProcessInfo, now_ms: u64) -> (result:
    Status)
    ensures
        result.time == now_ms,
        result.reports(state@, version@, process),
{
    Status {
        time: now_ms,
        version: version.to_owned(),
        process,
        stream_count: StreamCount { tuner_device: state.stream_count(), ts_filter: 0, decoder: 0 },
    }
}

/// Reports the status now.
pub fn status(state: &AppState, version: &str, process: ProcessInfo) -> (result: Status)
    ensures
        exists|now: std::time::SystemTime| result.time == #[trigger] crate::clock::stamp_at(now),
        result.reports(state@, version@, process),
{
    let now_ms = unix_time_ms();
    status_at(state, version, process, now_ms)
}

/// Reports all tuners, in order.
pub fn tuners(state: &AppState) -> (result: Vec<ApiTuner>)
    requires
        state.wf(),
    ensures
        result@.len() == state@.tuners.len(),
        forall|t: int| 0 <= t < result@.len() ==> (#[trigger] result@[t]).reports(state@, t),
{
    let snapshots = state.tuner_snapshots();
    let ghost all = snapshots@;
    let mut result: Vec<ApiTuner> = Vec::new();
    for snapshot in it: snapshots
        invariant
            it.seq() == all,
            all.len() == state@.tuners.len(),
            result@.len() == it.index(),
            forall|t: int| 0 <= t < all.len() ==> (#[trigger] all[t]).reports(state@, t),
            forall|t: int| 0 <= t < result@.len() ==> (#[trigger] result@[t]).reports(state@, t),
    {
        let ghost at = it.index();
        assert(snapshot == all[at]);
        let tuner = ApiTuner::from(snapshot);
        assert(all[at].reports(state@, at));
        assert(state@.tuners[at].active is None ==> tuner.user_ids().len() == 0);
        assert(tuner.reports(state@, at));
        result.push(tuner);
    }
    result
}

/// Whether an entry before the one at `i` is for the same channel.
pub open spec fn listed_before(entries: Seq<ChannelModel>, i: int) -> bool {
    exists|j: int|
        0 <= j < i && (#[trigger] entries[j]).denotes(
            entries[i].channel_type,
            entries[i].channel,
        )
}

/// The entries, without those for a channel that an earlier entry is for.
pub open spec fn distinct(entries: Seq<ChannelModel>) -> Seq<ChannelModel>
    decreases entries.len(),
{
    if entries.len() == 0 {
        Seq::empty()
    } else if listed_before(entries, entries.len() - 1) {
        distinct(entries.drop_last())
    } else {
        distinct(entries.drop_last()).push(entries.last())
    }
}

/// Whether an entry before the one at `i` is for the same channel.
fn is_listed_before(entries: &Vec<ChannelConfig>, i: usize) -> (result: bool)
    requires
        i < entries@.len(),
    ensures
        result == listed_before(Seq::new(entries@.len(), |k: int| entries@[k]@), i as int),
{
    let ghost models = Seq::new(entries@.len(), |k: int| entries@[k]@);
    let mut j: usize = 0;
    while j < i
        invariant
            j <= i < entries@.len(),
            models == Seq::new(entries@.len(), |k: int| entries@[k]@),
            forall|k: int|
                0 <= k < j ==> !(#[trigger] models[k]).denotes(
                    models[i as int].channel_type,
                    models[i as int].channel,
                ),
        decreases i - j,
    {
        assert(models[j as int] == entries@[j as int]@);
        if entries[j].channel_type == entries[i].channel_type && entries[j].channel
            == entries[i].channel {
            assert(models[j as int].denotes(
                models[i as int].channel_type,
                models[i as int].channel,
            ));
            return true;
        }
        j += 1;
    }
    false
}

/// Whether the list reports the entries, one by one.
pub open spec fn lists(list: Seq<ApiChannel>, entries: Seq<ChannelModel>) -> bool {
    &&& list.len() == entries.len()
    &&& forall|i: int| 0 <= i < list.len() ==> (#[trigger] list[i]).reports(entries[i])
}

/// Reports the channels, each once, with its first entry, in the order of the configuration.
pub fn channels(state: &AppState) -> (result: Vec<ApiChannel>)
    ensures
        lists(result@, distinct(state@.config.channels)),
{
    let entries = state.channels();
    let ghost models = state@.config.channels;
    let mut result: Vec<ApiChannel> = Vec::new();
    let mut i: usize = 0;
    while i < entries.len()
        invariant
            i <= entries@.len(),
            models == Seq::new(entries@.len(), |k: int| entries@[k]@),
            lists(result@, distinct(models.take(i as int))),
        decreases entries@.len() - i,
    {
        proof {
            let taken = models.take(i + 1);
            assert(taken.drop_last() =~= models.take(i as int));
            assert(taken.last() == entries@[i as int]@);
            if listed_before(models, i as int) {
                let j = choose|j: int|
                    0 <= j < i && (#[trigger] models[j]).denotes(
                        models[i as int].channel_type,
                        models[i as int].channel,
                    );
                assert(taken[j].denotes(taken[i as int].channel_type, taken[i as int].channel));
            }
            if listed_before(taken, i as int) {
                let j = choose|j: int|
                    0 <= j < i && (#[trigger] taken[j]).denotes(
                        taken[i as int].channel_type,
                        taken[i as int].channel,
                    );
                assert(models[j].denotes(models[i as int].channel_type, models[i as int].channel));
            }
        }
        if !is_listed_before(entries, i) {
            result.push(ApiChannel::from(&entries[i]));
        }
        i += 1;
    }
    assert(models.take(i as int) =~= models);
    result
}

/// Reports the channel, with its first entry.
pub fn channel(state: &AppState, channel_type: &str, number: &str) -> (result: Result<
    ApiChannel,
    ApiError,
>)
    ensures
        match result {
            Ok(item) => exists|i: int| #[trigger]
                state@.first_entry(i, channel_type@, number@) && item.reports(
                    state@.config.channels[i],
                ),
            Err(error) => !state@.knows(channel_type@, number@) && error@ == refusal(
                OpenError::NotFound,
            ),
        },
{
    match state.channel(channel_type, number) {
        Some(item) => Ok(ApiChannel::from(item)),
        None => Err(not_found()),
    }
}

/// Whether a header may hold the character.
pub open spec fn is_header_char(c: char) -> bool {
    c == '\t' || (c as int >= 32 && c as int != 127)
}

/// Whether the text can be the value of a header.
pub open spec fn is_header_text(text: Seq<char>) -> bool {
    forall|i: int| 0 <= i < text.len() ==> is_header_char(#[trigger] text[i])
}

/// `HeaderValue::from_str` of the `http` crate: it takes a text of which every byte is a tab, or
/// is at least 32 and not 127; a character outside ASCII is made of such bytes.
#[verifier::external_body]
fn can_be_header(text: &str) -> (result: bool)
    ensures
        result == is_header_text(text@),
{
    HeaderValue::from_str(text).is_ok()
}

/// A header of an answer.
pub struct Header {
    pub name: &'static str,
    pub value: String,
}

impl View for Header {
    type V = (Seq<char>, Seq<char>);

    open spec fn view(&self) -> (Seq<char>, Seq<char>) {
        (self.name@, self.value@)
    }
}

/// The head of an answer that carries a stream.
pub struct TsResponse {
    pub headers: Vec<Header>,
}

impl View for TsResponse {
    type V = Seq<(Seq<char>, Seq<char>)>;

    open spec fn view(&self) -> Seq<(Seq<char>, Seq<char>)> {
        Seq::new(self.headers@.len(), |i: int| self.headers@[i]@)
    }
}

/// The headers of an answer that carries a stream, with those of its client, if it has one whose
/// identifier can be told.
pub open spec fn ts_headers(user_id: Option<Seq<char>>) -> Seq<(Seq<char>, Seq<char>)> {
    let always = seq![("content-type"@, "video/MP2T"@), ("cache-control"@, "no-store"@)];
    match user_id {
        Some(id) => if is_header_text(id) {
            always.push(("x-mirakurun-tuner-user-id"@, id))
        } else {
            always
        },
        None => always,
    }
}

/// The head of an answer that carries a stream.
pub fn ts_response(user_id: Option<&str>) -> (result: TsResponse)
    ensures
        result@ == ts_headers(
            match user_id {
                Some(id) => Some(id@),
                None => None,
            },
        ),
{
    let mut headers: Vec<Header> = Vec::new();
    headers.push(Header { name: "content-type", value: "video/MP2T".to_owned() });
    headers.push(Header { name: "cache-control", value: "no-store".to_owned() });
    if let Some(id) = user_id {
        if can_be_header(id) {
            headers.push(Header { name: "x-mirakurun-tuner-user-id", value: id.to_owned() });
        }
    }
    let result = TsResponse { headers };
    assert(result@ =~= ts_headers(
        match user_id {
            Some(id) => Some(id@),
            None => None,
        },
    ));
    result
}

/// Answers whether a stream of the channel can be had.
pub fn channel_stream_head(state: &AppState, channel_type: &str, channel: &str) -> (result: Result<
    TsResponse,
    ApiError,
>)
    requires
        state.wf(),
    ensures
        match result {
            Ok(response) => {
                &&& state@.knows(channel_type@, channel@)
                &&& state@.available(channel_type@, channel@)
                &&& response@ == ts_headers(None)
            },
            Err(error) => if state@.knows(channel_type@, channel@) {
                &&& !state@.available(channel_type@, channel@)
                &&& error@ == refusal(OpenError::Unavailable)
            } else {
                error@ == refusal(OpenError::NotFound)
            },
        },
{
    match state.channel(channel_type, channel) {
        None => {
            return Err(not_found());
        },
        Some(_) => {
            assert(state@.knows(channel_type@, channel@)) by {
                let i = choose|i: int| state@.first_entry(i, channel_type@, channel@);
                assert(state@.config.channels[i].denotes(channel_type@, channel@));
            }
        },
    }
    if !state.stream_available(channel_type, channel) {
        return Err(unavailable());
    }
    Ok(ts_response(None))
}

/// The answer to a client that was given a stream.
pub struct StreamResponse {
    pub opened: OpenedStream,
    pub response: TsResponse,
}

impl StreamResponse {
    /// Whether this gives the client the stream on the tuner, and tells it its identifier.
    pub open spec fn admits(&self, tuner: int, user: Seq<char>) -> bool {
        &&& self.opened.tuner == tuner
        &&& self.opened.user_id@ == user
        &&& self.response@ == ts_headers(Some(user))
    }
}

/// The answer that gives the client the stream.
fn stream_response(opened: OpenedStream) -> (result: StreamResponse)
    ensures
        result.opened == opened,
        result.admits(opened.tuner as int, opened.user_id@),
{
    let response = ts_response(Some(opened.user_id.as_str()));
    StreamResponse { opened, response }
}

/// What has to be done to answer a request for a stream that is not refused.
pub enum StreamStep {
    /// The answer is ready.
    Respond(StreamResponse),
    /// The process is to be started first.
    Start(PendingStream),
}

/// Whether the result is the one for the step.
pub open spec fn answers(result: Result<StreamStep, ApiError>, step: StepModel) -> bool {
    match step {
        StepModel::NotFound => result matches Err(error) && error@ == refusal(OpenError::NotFound),
        StepModel::Unavailable => result matches Err(error) && error@ == refusal(
            OpenError::Unavailable,
        ),
        StepModel::Shared { tuner, user } => result matches Ok(StreamStep::Respond(response))
            && response.admits(tuner, user),
        StepModel::Start(pending) => result matches Ok(StreamStep::Start(start)) && start@
            == pending,
    }
}

/// Answers a request for a stream that comes at `now_ms`.
pub fn channel_stream_at(
    state: &mut AppState,
    numbers: &mut UserNumbers,
    channel_type: &str,
    channel: &str,
    now_ms: u64,
) -> (result: Result<StreamStep, ApiError>)
    requires
        old(state).wf(),
    ensures
        final(state).wf(),
        exists|step: StepModel| #[trigger]
            answers(result, step) && crate::state::opens(
                old(state)@,
                old(numbers)@,
                channel_type@,
                channel@,
                now_ms,
                step,
                final(state)@,
                final(numbers)@,
            ),
{
    let step = state.open_stream_at(numbers, channel_type, channel, now_ms);
    let ghost taken = step@;
    let result = match step {
        OpenStep::NotFound => Err(open_refused(OpenError::NotFound)),
        OpenStep::Unavailable => Err(open_refused(OpenError::Unavailable)),
        OpenStep::Shared(opened) => Ok(StreamStep::Respond(stream_response(opened))),
        OpenStep::Start(pending) => Ok(StreamStep::Start(pending)),
    };
    assert(answers(result, taken));
    result
}

/// Answers a request for a stream that comes now.
pub fn channel_stream(
    state: &mut AppState,
    numbers: &mut UserNumbers,
    channel_type: &str,
    channel: &str,
) -> (result: Result<StreamStep, ApiError>)
    requires
        old(state).wf(),
    ensures
        final(state).wf(),
        exists|step: StepModel, now: std::time::SystemTime| #[trigger]
            answers(result, step) && crate::state::opens(
                old(state)@,
                old(numbers)@,
                channel_type@,
                channel@,
                #[trigger] crate::clock::stamp_at(now),
                step,
                final(state)@,
                final(numbers)@,
            ),
{
    let now_ms = unix_time_ms();
    channel_stream_at(state, numbers, channel_type, channel, now_ms)
}

/// Answers the request for which a process was to be started; `pid` is that of the process, if
/// there is one.
pub fn channel_stream_started(state: &mut AppState, pending: PendingStream, pid: Option<u32>) -> (
    result: Result<StreamResponse, ApiError>)
    requires
        old(state).wf(),
        pending@.tuner < old(state)@.tuners.len(),
        old(state)@.tuners[pending@.tuner] == TunerState::reserved(),
    ensures
        final(state).wf(),
        final(state)@ == crate::state::started(old(state)@, pending@, pid),
        match pid {
            Some(_) => result matches Ok(response) && response.admits(
                pending@.tuner,
                pending@.user,
            ),
            None => result matches Err(error) && error@ == refusal(OpenError::Spawn),
        },
{
    match state.start_stream(pending, pid) {
        Ok(opened) => Ok(stream_response(opened)),
        Err(error) => Err(open_refused(error)),
    }
}

/// Whether `entry` is the first of the entries for its channel.
pub open spec fn is_first(entries: Seq<ChannelModel>, entry: ChannelModel) -> bool {
    exists|i: int|
        0 <= i < entries.len() && #[trigger] entries[i] == entry && !listed_before(entries, i)
}

/// Whether one of the entries is for the channel.
pub open spec fn shows(
    entries: Seq<ChannelModel>,
    channel_type: Seq<char>,
    channel: Seq<char>,
) -> bool {
    exists|a: int|
        0 <= a < entries.len() && (#[trigger] entries[a]).denotes(channel_type, channel)
}

/// The list of channels shows every configured channel, each once, with its first entry and with
/// nothing else.
pub proof fn channel_list_is_complete(entries: Seq<ChannelModel>)
    ensures
        forall|a: int, b: int|
            0 <= a < b < distinct(entries).len() ==> !(#[trigger] distinct(entries)[a]).denotes(
                (#[trigger] distinct(entries)[b]).channel_type,
                distinct(entries)[b].channel,
            ),
        forall|i: int|
            0 <= i < entries.len() ==> shows(
                distinct(entries),
                (#[trigger] entries[i]).channel_type,
                entries[i].channel,
            ),
        forall|a: int|
            0 <= a < distinct(entries).len() ==> is_first(entries, #[trigger] distinct(entries)[a]),
    decreases entries.len(),
{
    if entries.len() > 0 {
        let rest = entries.drop_last();
        let list = distinct(entries);
        let last = entries.len() - 1;
        channel_list_is_complete(rest);
        assert forall|i: int| 0 <= i < last implies listed_before(rest, i) == listed_before(
            entries,
            i,
        ) by {
            if listed_before(rest, i) {
                let j = choose|j: int|
                    0 <= j < i && (#[trigger] rest[j]).denotes(
                        rest[i].channel_type,
                        rest[i].channel,
                    );
                assert(entries[j].denotes(entries[i].channel_type, entries[i].channel));
            }
            if listed_before(entries, i) {
                let j = choose|j: int|
                    0 <= j < i && (#[trigger] entries[j]).denotes(
                        entries[i].channel_type,
                        entries[i].channel,
                    );
                assert(rest[j].denotes(rest[i].channel_type, rest[i].channel));
            }
        }
        let earlier = distinct(rest);
        assert forall|i: int| 0 <= i < entries.len() implies shows(
            list,
            (#[trigger] entries[i]).channel_type,
            entries[i].channel,
        ) by {
            if i < last || listed_before(entries, last) {
                let k = if i < last {
                    i
                } else {
                    choose|j: int|
                        0 <= j < last && (#[trigger] entries[j]).denotes(
                            entries[last].channel_type,
                            entries[last].channel,
                        )
                };
                assert(rest[k] == entries[k]);
                assert(shows(earlier, rest[k].channel_type, rest[k].channel));
                let a = choose|a: int|
                    0 <= a < earlier.len() && (#[trigger] earlier[a]).denotes(
                        entries[i].channel_type,
                        entries[i].channel,
                    );
                assert(list[a] == earlier[a]);
            } else {
                assert(list[list.len() - 1] == entries[i]);
            }
        }
        assert forall|a: int| 0 <= a < list.len() implies is_first(
            entries,
            #[trigger] list[a],
        ) by {
            if a < earlier.len() {
                assert(is_first(rest, earlier[a]));
                let i = choose|i: int|
                    0 <= i < rest.len() && #[trigger] rest[i] == earlier[a] && !listed_before(
                        rest,
                        i,
                    );
                assert(entries[i] == list[a]);
                assert(!listed_before(entries, i));
            } else {
                assert(entries[last] == list[a]);
            }
        }
        assert forall|a: int, b: int| 0 <= a < b < list.len() implies !(#[trigger] list[a]).denotes(
            (#[trigger] list[b]).channel_type,
            list[b].channel,
        ) by {
            if b < earlier.len() {
                assert(!earlier[a].denotes(earlier[b].channel_type, earlier[b].channel));
            } else {
                assert(is_first(rest, earlier[a]));
                let i = choose|i: int|
                    0 <= i < rest.len() && #[trigger] rest[i] == earlier[a] && !listed_before(
                        rest,
                        i,
                    );
                assert(entries[i] == list[a]);
                assert(list[b] == entries[last]);
            }
        }
    }
}

/// An entry is the first one for its channel exactly where no earlier entry is for the channel, so
/// that the list of channels and the report on one channel show the same entry.
pub proof fn first_entries_are_listed(state: StateModel, i: int)
    requires
        0 <= i < state.config.channels.len(),
    ensures
        state.first_entry(
            i,
            state.config.channels[i].channel_type,
            state.config.channels[i].channel,
        ) <==> !listed_before(state.config.channels, i),
{
}

/// The identifier of every client can be told in a header.
pub proof fn user_ids_are_told(now_ms: u64, number: u64)
    ensures
        ts_headers(Some(crate::users::user_id(now_ms, number))) == ts_headers(None).push(
            ("x-mirakurun-tuner-user-id"@, crate::users::user_id(now_ms, number)),
        ),
{
    let id = crate::users::user_id(now_ms, number);
    reveal_strlit("soymilk-curry-");
    reveal_strlit("-");
    crate::text::decimal_is_digits(now_ms as nat);
    crate::text::decimal_is_digits(number as nat);
    assert(is_header_text(id)) by {
        let head = "soymilk-curry-"@;
        let time = crate::text::decimal(now_ms as nat);
        let count = crate::text::decimal(number as nat);
        assert forall|i: int| 0 <= i < id.len() implies is_header_char(#[trigger] id[i]) by {
            if i < head.len() {
                assert(id[i] == head[i]);
            } else if i < head.len() + time.len() {
                assert(id[i] == time[i - head.len()]);
                assert(crate::text::is_digit(time[i - head.len()]));
            } else if i > head.len() + time.len() {
                let k = i - head.len() - time.len() - 1;
                assert(id[i] == count[k]);
                assert(crate::text::is_digit(count[k]));
            }
        }
    }
}

/// The number of tuners that are reported in use.
pub open spec fn using_count(report: Seq<ApiTuner>) -> nat
    decreases report.len(),
{
    if report.len() == 0 {
        0
    } else {
        using_count(report.drop_last()) + if report.last().is_using {
            1nat
        } else {
            0
        }
    }
}

/// The status counts as many streams as there are tuners that are reported in use.
pub proof fn status_counts_tuners_in_use(
    status: Status,
    version: Seq<char>,
    process: ProcessInfo,
    report: Seq<ApiTuner>,
    state: StateModel,
)
    requires
        status.reports(state, version, process),
        report.len() == state.tuners.len(),
        forall|t: int| 0 <= t < report.len() ==> (#[trigger] report[t]).reports(state, t),
    ensures
        status.stream_count.tuner_device == using_count(report),
{
    using_is_busy(report, state, report.len() as int);
    assert(report.take(report.len() as int) =~= report);
    assert(state.tuners.take(report.len() as int) =~= state.tuners);
}

proof fn using_is_busy(report: Seq<ApiTuner>, state: StateModel, n: int)
    requires
        report.len() == state.tuners.len(),
        0 <= n <= report.len(),
        forall|t: int| 0 <= t < report.len() ==> (#[trigger] report[t]).reports(state, t),
    ensures
        using_count(report.take(n)) == crate::state::busy_count(state.tuners.take(n)),
    decreases n,
{
    if n > 0 {
        using_is_busy(report, state, n - 1);
        assert(report.take(n).drop_last() =~= report.take(n - 1));
        assert(state.tuners.take(n).drop_last() =~= state.tuners.take(n - 1));
        assert(report[n - 1].reports(state, n - 1));
    }
}

/// A report of the tuners tells, for each tuner in the order of the configuration, what is
/// configured of that same tuner, whether it is free, and the process of its stream.
pub proof fn reports_tell_each_tuner_of_itself(
    config: crate::config::ConfigModel,
    state: StateModel,
    report: Seq<ApiTuner>,
    t: int,
    k: int,
)
    requires
        state.config == config,
        state.tuners.len() == config.tuners.len(),
        report.len() == state.tuners.len(),
        forall|i: int| 0 <= i < report.len() ==> (#[trigger] report[i]).reports(state, i),
        0 <= t < config.tuners.len(),
    ensures
        report[t].index == t,
        report[t].name@ == config.tuners[t].name,
        report[t].command@ == config.tuners[t].command,
        report[t].types@.len() == config.tuners[t].types.len(),
        0 <= k < config.tuners[t].types.len() ==> report[t].types@[k]@ == config.tuners[t].types[k],
        report[t].is_free <==> !state.tuners[t].busy,
        report[t].is_using <==> state.tuners[t].busy,
        report[t].is_available && !report[t].is_remote && !report[t].is_fault,
        state.tuners[t].active matches Some(stream) ==> report[t].pid == stream.pid,
        state.tuners[t].active is None ==> report[t].pid == -1,
{
    assert(report[t].reports(state, t));
    assert(texts(report[t].types@) == config.tuners[t].types);
    if 0 <= k < config.tuners[t].types.len() {
        assert(texts(report[t].types@)[k] == report[t].types@[k]@);
    }
}

/// A report lists the clients of each tuner's own stream, each once, without priorities, and
/// nobody else.
pub proof fn reports_list_the_clients_of_each_tuner(
    state: StateModel,
    report: Seq<ApiTuner>,
    t: int,
    client: Seq<char>,
)
    requires
        report.len() == state.tuners.len(),
        forall|i: int| 0 <= i < report.len() ==> (#[trigger] report[i]).reports(state, i),
        0 <= t < state.tuners.len(),
    ensures
        (exists|a: int| 0 <= a < report[t].users@.len() && (#[trigger] report[t].users@[a]).id@
            == client) <==> (state.tuners[t].active matches Some(stream) && stream.users.contains(
            client,
        )),
        forall|a: int, b: int|
            0 <= a < b < report[t].users@.len() ==> (#[trigger] report[t].users@[a]).id@ != (
            #[trigger] report[t].users@[b]).id@,
        forall|a: int|
            0 <= a < report[t].users@.len() ==> (#[trigger] report[t].users@[a]).priority == 0,
{
    let item = report[t];
    let ids = item.user_ids();
    assert(item.reports(state, t));
    assert forall|a: int, b: int| 0 <= a < b < item.users@.len() implies (
    #[trigger] item.users@[a]).id@ != (#[trigger] item.users@[b]).id@ by {
        assert(ids[a] != ids[b]);
    }
    if state.tuners[t].active matches Some(stream) && stream.users.contains(client) {
        assert(ids.to_set().contains(client));
        let a = choose|a: int| 0 <= a < ids.len() && ids[a] == client;
        assert(item.users@[a].id@ == client);
    }
    if exists|a: int| 0 <= a < item.users@.len() && (#[trigger] item.users@[a]).id@ == client {
        let a = choose|a: int|
            0 <= a < item.users@.len() && (#[trigger] item.users@[a]).id@ == client;
        assert(ids[a] == client);
        assert(ids.to_set().contains(client));
    }
}

/// A server that has just started reports the configured tuners by their names, in order, all of
/// them free and without clients.
pub proof fn first_report_names_the_configured_tuners(
    config: crate::config::ConfigModel,
    report: Seq<ApiTuner>,
)
    requires
        report.len() == config.tuners.len(),
        forall|i: int|
            0 <= i < report.len() ==> (#[trigger] report[i]).reports(
                StateModel::initial(config),
                i,
            ),
    ensures
        Seq::new(report.len(), |t: int| report[t].name@) == Seq::new(
            config.tuners.len(),
            |t: int| config.tuners[t].name,
        ),
        forall|t: int|
            0 <= t < report.len() ==> (#[trigger] report[t]).is_free && report[t].pid == -1
                && report[t].users@.len() == 0,
{
    let names = Seq::new(report.len(), |t: int| report[t].name@);
    assert forall|t: int| 0 <= t < names.len() implies names[t] == config.tuners[t].name by {
        assert(report[t].reports(StateModel::initial(config), t));
    }
    assert(names =~= Seq::new(config.tuners.len(), |t: int| config.tuners[t].name));
    assert forall|t: int| 0 <= t < report.len() implies (#[trigger] report[t]).is_free
        && report[t].pid == -1 && report[t].users@.len() == 0 by {
        assert(report[t].reports(StateModel::initial(config), t));
    }
}

/// The snapshots tell, for each tuner in order, the same of that tuner: what is configured of it,
/// whether it is free, the process of its stream, and its clients, each once.
pub proof fn snapshots_tell_each_tuner_of_itself(
    state: StateModel,
    snapshots: Seq<TunerSnapshot>,
    t: int,
    k: int,
    client: Seq<char>,
)
    requires
        snapshots.len() == state.tuners.len(),
        forall|i: int| 0 <= i < snapshots.len() ==> (#[trigger] snapshots[i]).reports(state, i),
        0 <= t < snapshots.len(),
    ensures
        snapshots[t].index == t,
        snapshots[t].name@ == state.config.tuners[t].name,
        snapshots[t].command@ == state.config.tuners[t].command,
        snapshots[t].types@.len() == state.config.tuners[t].types.len(),
        0 <= k < state.config.tuners[t].types.len() ==> snapshots[t].types@[k]@
            == state.config.tuners[t].types[k],
        snapshots[t].is_free <==> !state.tuners[t].busy,
        state.tuners[t].active matches Some(stream) ==> snapshots[t].pid == stream.pid,
        state.tuners[t].active is None ==> snapshots[t].pid == -1,
        (exists|a: int| 0 <= a < snapshots[t].users@.len() && (#[trigger] snapshots[t].users@[a])@
            == client) <==> (state.tuners[t].active matches Some(stream) && stream.users.contains(
            client,
        )),
        forall|a: int, b: int|
            0 <= a < b < snapshots[t].users@.len() ==> (#[trigger] snapshots[t].users@[a])@ != (
            #[trigger] snapshots[t].users@[b])@,
{
    let item = snapshots[t];
    let ids = texts(item.users@);
    assert(item.reports(state, t));
    assert(texts(item.types@) == state.config.tuners[t].types);
    if 0 <= k < state.config.tuners[t].types.len() {
        assert(texts(item.types@)[k] == item.types@[k]@);
    }
    assert forall|a: int, b: int| 0 <= a < b < item.users@.len() implies (
    #[trigger] item.users@[a])@ != (#[trigger] item.users@[b])@ by {
        assert(ids[a] != ids[b]);
    }
    if state.tuners[t].active matches Some(stream) && stream.users.contains(client) {
        assert(ids.to_set().contains(client));
        let a = choose|a: int| 0 <= a < ids.len() && ids[a] == client;
        assert(item.users@[a]@ == client);
    }
    if exists|a: int| 0 <= a < item.users@.len() && (#[trigger] item.users@[a])@ == client {
        let a = choose|a: int| 0 <= a < item.users@.len() && (#[trigger] item.users@[a])@ == client;
        assert(ids[a] == client);
        assert(ids.to_set().contains(client));
    }
}

/// The status tells the version and the process that it was asked to tell, and counts the tuners
/// that are taken.
pub proof fn status_tells_what_it_was_given(
    status: Status,
    state: StateModel,
    version: Seq<char>,
    process: ProcessInfo,
)
    requires
        status.reports(state, version, process),
    ensures
        status.version@ == version,
        status.process.arch == process.arch,
        status.process.platform == process.platform,
        status.process.pid == process.pid,
        status.stream_count.tuner_device == state.tuners.filter(
            |tuner: TunerState| tuner.busy,
        ).len(),
        status.stream_count.ts_filter == 0,
        status.stream_count.decoder == 0,
{
    crate::effects::tuners_in_use_are_counted(state.tuners);
}

/// Whether the entry at `i` is the first of its type and number.
pub open spec fn is_new_at(entries: Seq<ChannelModel>, i: int) -> bool {
    &&& 0 <= i < entries.len()
    &&& forall|j: int|
        0 <= j < i ==> (#[trigger] entries[j]).channel_type != entries[i].channel_type
            || entries[j].channel != entries[i].channel
}

/// The list of channels is made of the entries at certain places, in their order: those, and only
/// those, before which there is no entry of the same type and number. Each item tells the type,
/// the number and the name of its own entry.
pub proof fn channel_list_follows_the_configuration(
    list: Seq<ApiChannel>,
    entries: Seq<ChannelModel>,
) -> (places: Seq<int>)
    requires
        lists(list, distinct(entries)),
    ensures
        places.len() == list.len(),
        forall|a: int, b: int|
            0 <= a < b < places.len() ==> #[trigger] places[a] < #[trigger] places[b],
        forall|i: int| is_new_at(entries, i) <==> places.contains(i),
        forall|a: int|
            0 <= a < list.len() ==> (#[trigger] list[a]).channel_type@
                == entries[places[a]].channel_type && list[a].channel@ == entries[places[a]].channel
                && list[a].name@ == entries[places[a]].name,
{
    let places = places_of_distinct(entries);
    assert forall|a: int| 0 <= a < list.len() implies (#[trigger] list[a]).channel_type@
        == entries[places[a]].channel_type && list[a].channel@ == entries[places[a]].channel
        && list[a].name@ == entries[places[a]].name by {
        assert(list[a].reports(distinct(entries)[a]));
        assert(distinct(entries)[a] == entries[places[a]]);
    }
    places
}

proof fn places_of_distinct(entries: Seq<ChannelModel>) -> (places: Seq<int>)
    ensures
        places.len() == distinct(entries).len(),
        forall|a: int, b: int|
            0 <= a < b < places.len() ==> #[trigger] places[a] < #[trigger] places[b],
        forall|i: int| is_new_at(entries, i) <==> places.contains(i),
        forall|a: int|
            0 <= a < places.len() ==> distinct(entries)[a] == entries[#[trigger] places[a]],
    decreases entries.len(),
{
    if entries.len() == 0 {
        Seq::empty()
    } else {
        let rest = entries.drop_last();
        let last = entries.len() - 1;
        let earlier = places_of_distinct(rest);
        assert forall|i: int| i < last implies is_new_at(rest, i) == is_new_at(entries, i) by {
            if is_new_at(rest, i) {
                assert forall|j: int| 0 <= j < i implies (#[trigger] entries[j]).channel_type
                    != entries[i].channel_type || entries[j].channel != entries[i].channel by {
                    assert(rest[j] == entries[j]);
                }
            }
            if is_new_at(entries, i) {
                assert forall|j: int| 0 <= j < i implies (#[trigger] rest[j]).channel_type
                    != rest[i].channel_type || rest[j].channel != rest[i].channel by {
                    assert(rest[j] == entries[j]);
                }
            }
        }
        assert forall|a: int| 0 <= a < earlier.len() implies 0 <= #[trigger] earlier[a] < last by {
            assert(earlier.contains(earlier[a]));
            assert(is_new_at(rest, earlier[a]));
        }
        if listed_before(entries, last) {
            let j = choose|j: int|
                0 <= j < last && (#[trigger] entries[j]).denotes(
                    entries[last].channel_type,
                    entries[last].channel,
                );
            assert(entries[j].channel_type == entries[last].channel_type);
            assert(!is_new_at(entries, last));
            assert forall|i: int| is_new_at(entries, i) <==> earlier.contains(i) by {
                if earlier.contains(i) {
                    assert(is_new_at(rest, i));
                }
            }
            earlier
        } else {
            let places = earlier.push(last);
            assert(is_new_at(entries, last)) by {
                assert forall|j: int| 0 <= j < last implies (#[trigger] entries[j]).channel_type
                    != entries[last].channel_type || entries[j].channel
                    != entries[last].channel by {
                    assert(!entries[j].denotes(
                        entries[last].channel_type,
                        entries[last].channel,
                    ));
                }
            }
            assert forall|i: int| is_new_at(entries, i) <==> places.contains(i) by {
                if is_new_at(entries, i) {
                    if i == last {
                        assert(places[earlier.len() as int] == i);
                    } else {
                        assert(is_new_at(rest, i));
                        let a = choose|a: int| 0 <= a < earlier.len() && earlier[a] == i;
                        assert(places[a] == i);
                    }
                }
                if places.contains(i) {
                    let a = choose|a: int| 0 <= a < places.len() && places[a] == i;
                    if a < earlier.len() {
                        assert(earlier[a] == i);
                        assert(is_new_at(rest, i));
                    }
                }
            }
            places
        }
    }
}

/// The head of a stream's answer always begins with the kind of its contents and the order not to
/// store it. It tells the identifier of the client, as it is, exactly where the identifier holds
/// no control character but the tab; it holds nothing else.
pub proof fn stream_heads_tell_the_client(id: Seq<char>)
    ensures
        ts_headers(None) == seq![
            ("content-type"@, "video/MP2T"@),
            ("cache-control"@, "no-store"@),
        ],
        ts_headers(Some(id)).take(2) == ts_headers(None),
        (forall|i: int|
            0 <= i < id.len() ==> (#[trigger] id[i]) == '\t' || (id[i] as int >= 32 && id[i] as int
                != 127)) ==> ts_headers(Some(id)).len() == 3 && ts_headers(Some(id))[2] == (
            "x-mirakurun-tuner-user-id"@,
            id,
        ),
        (exists|i: int|
            0 <= i < id.len() && (#[trigger] id[i]) != '\t' && ((id[i] as int) < 32 || id[i] as int
                == 127)) ==> ts_headers(Some(id)).len() == 2,
{
    if forall|i: int|
        0 <= i < id.len() ==> (#[trigger] id[i]) == '\t' || (id[i] as int >= 32 && id[i] as int
            != 127) {
        assert(is_header_text(id));
    }
    if exists|i: int|
        0 <= i < id.len() && (#[trigger] id[i]) != '\t' && ((id[i] as int) < 32 || id[i] as int
            == 127) {
        let i = choose|i: int|
            0 <= i < id.len() && (#[trigger] id[i]) != '\t' && ((id[i] as int) < 32 || id[i] as int
                == 127);
        assert(!is_header_char(id[i]));
        assert(!is_header_text(id));
    }
    assert(ts_headers(Some(id)).take(2) =~= ts_headers(None));
}

/// A request is answered as it was decided: one that fails, with the code and the reason of its
/// failure; a client that joins, with the tuner that it joins and its own identifier; and where a
/// stream is to be started, with that very stream.
pub proof fn answers_follow_the_decision(result: Result<StreamStep, ApiError>, step: StepModel)
    requires
        answers(result, step),
    ensures
        step is NotFound ==> (result matches Err(error) && error.code == 404 && error.reason@
            == "channel not found"@),
        step is Unavailable ==> (result matches Err(error) && error.code == 503 && error.reason@
            == "tuner resource unavailable"@),
        result is Err <==> step is NotFound || step is Unavailable,
        step matches StepModel::Shared { tuner, user } ==> (result matches Ok(
            StreamStep::Respond(response),
        ) && response.opened.tuner == tuner && response.opened.user_id@ == user
            && response.response@.len() <= 3 && response.response@.take(2) == seq![
            ("content-type"@, "video/MP2T"@),
            ("cache-control"@, "no-store"@),
        ] && (response.response@.len() == 3 ==> response.response@[2] == (
            "x-mirakurun-tuner-user-id"@,
            user,
        ))),
        step matches StepModel::Start(pending) ==> (result matches Ok(StreamStep::Start(start))
            && start@ == pending),
{
    if let StepModel::Shared { tuner, user } = step {
        stream_heads_tell_the_client(user);
    }
}

/// A client that is admitted is told its own tuner and its own identifier.
pub proof fn admitted_clients_are_told(response: StreamResponse, tuner: int, user: Seq<char>)
    requires
        response.admits(tuner, user),
    ensures
        response.opened.tuner == tuner,
        response.opened.user_id@ == user,
        response.response.headers@.len() >= 2,
        response.response.headers@[0].name@ == "content-type"@,
        response.response.headers@[0].value@ == "video/MP2T"@,
        response.response.headers@[1].name@ == "cache-control"@,
        response.response.headers@[1].value@ == "no-store"@,
        (forall|i: int|
            0 <= i < user.len() ==> (#[trigger] user[i]) == '\t' || (user[i] as int >= 32
                && user[i] as int != 127)) ==> {
            &&& response.response.headers@.len() == 3
            &&& response.response.headers@[2].name@ == "x-mirakurun-tuner-user-id"@
            &&& response.response.headers@[2].value@ == user
        },
{
    let told = response.response@;
    let headers = response.response.headers@;
    stream_heads_tell_the_client(user);
    assert(told.len() == headers.len());
    assert(told.take(2)[0] == told[0]);
    assert(told.take(2)[1] == told[1]);
    assert(told[0] == headers[0]@);
    assert(told[1] == headers[1]@);
    if forall|i: int|
        0 <= i < user.len() ==> (#[trigger] user[i]) == '\t' || (user[i] as int >= 32
            && user[i] as int != 127) {
        assert(told[2] == headers[2]@);
    }
}

/// Each failure has its own code and reason.
pub proof fn refusals_tell_the_failure(error: ApiError, failure: OpenError)
    requires
        error@ == refusal(failure),
    ensures
        failure == OpenError::NotFound <==> error.code == 404,
        failure == OpenError::Unavailable <==> error.code == 503,
        failure == OpenError::Spawn <==> error.code == 500,
        error.code == 404 ==> error.reason@ == "channel not found"@,
        error.code == 503 ==> error.reason@ == "tuner resource unavailable"@,
        error.code == 500 ==> error.reason@ == "failed to start tuner command"@,
{
}

} // verus!
