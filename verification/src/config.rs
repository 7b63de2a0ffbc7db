//! The configuration: tuners, channels, and the rules that a configuration has to meet.

use crate::text::decimal_text;
use crate::vars::CommandVars;
use vstd::prelude::*;

verus! {

/// The contents of a tuner's configuration.
pub struct TunerModel {
    pub name: Seq<char>,
    pub types: Seq<Seq<char>>,
    pub command: Seq<char>,
}

/// The contents of a channel's configuration.
pub struct ChannelModel {
    pub name: Seq<char>,
    pub channel_type: Seq<char>,
    pub channel: Seq<char>,
    pub service_id: Option<u16>,
    pub command_vars: Seq<(Seq<char>, Seq<char>)>,
}

/// The contents of a configuration.
pub struct ConfigModel {
    pub listen: Seq<char>,
    pub tuners: Seq<TunerModel>,
    pub channels: Seq<ChannelModel>,
}

/// The texts that a vector of strings holds.
pub open spec fn texts(strings: Seq<String>) -> Seq<Seq<char>> {
    Seq::new(strings.len(), |i: int| strings[i]@)
}

/// A tuner: the channel types it can receive and the command that receives a channel.
pub struct TunerConfig {
    pub name: String,
    pub types: Vec<String>,
    pub command: String,
}

impl View for TunerConfig {
    type V = TunerModel;

    open spec fn view(&self) -> TunerModel {
        TunerModel { name: self.name@, types: texts(self.types@), command: self.command@ }
    }
}

/// A channel: its type and number, and what the tuner command is told about it.
pub struct ChannelConfig {
    pub name: String,
    pub channel_type: String,
    pub channel: String,
    pub service_id: Option<u16>,
    pub command_vars: CommandVars,
}

impl View for ChannelConfig {
    type V = ChannelModel;

    open spec fn view(&self) -> ChannelModel {
        ChannelModel {
            name: self.name@,
            channel_type: self.channel_type@,
            channel: self.channel@,
            service_id: self.service_id,
            command_vars: self.command_vars@,
        }
    }
}

/// The whole configuration; `listen` is the address to listen on, as text.
pub struct Config {
    pub listen: String,
    pub tuners: Vec<TunerConfig>,
    pub channels: Vec<ChannelConfig>,
}

impl View for Config {
    type V = ConfigModel;

    open spec fn view(&self) -> ConfigModel {
        ConfigModel {
            listen: self.listen@,
            tuners: Seq::new(self.tuners@.len(), |i: int| self.tuners@[i]@),
            channels: Seq::new(self.channels@.len(), |i: int| self.channels@[i]@),
        }
    }
}

/// The address to listen on where the configuration names none.
pub fn default_listen() -> (result: String)
    ensures
        result@ == "0.0.0.0:40772"@,
{
    "0.0.0.0:40772".to_owned()
}

/// What can be wrong with a configuration.
pub enum Fault {
    NoTuners,
    NoChannels,
    IncompleteTuner,
    EmptyTunerType,
    IncompleteChannel,
    DuplicateChannel { channel_type: Seq<char>, channel: Seq<char>, service_id: Option<u16> },
    UnsupportedType { channel_type: Seq<char> },
}

/// An optional number as the messages show it.
pub open spec fn shown_service_id(service_id: Option<u16>) -> Seq<char> {
    match service_id {
        Some(id) => "Some("@ + crate::text::decimal(id as nat) + ")"@,
        None => "None"@,
    }
}

impl Fault {
    /// The message that reports the fault.
    pub open spec fn message(self) -> Seq<char> {
        match self {
            Fault::NoTuners => "at least one tuner is required"@,
            Fault::NoChannels => "at least one channel is required"@,
            Fault::IncompleteTuner => "each tuner requires name, command, and at least one type"@,
            Fault::EmptyTunerType => "tuner types must not be empty"@,
            Fault::IncompleteChannel => "each channel requires name, type, and channel"@,
            Fault::DuplicateChannel { channel_type, channel, service_id } =>
                "duplicate channel: "@ + channel_type + "/"@ + channel + " (serviceId "@
                    + shown_service_id(service_id) + ")"@,
            Fault::UnsupportedType { channel_type } => "no tuner supports channel type "@
                + channel_type,
        }
    }
}

impl TunerModel {
    /// Whether the tuner can receive channels of this type.
    pub open spec fn serves(self, channel_type: Seq<char>) -> bool {
        self.types.contains(channel_type)
    }

    /// What is wrong with the tuner, if anything.
    pub open spec fn fault(self) -> Option<Fault> {
        if self.name.len() == 0 || self.command.len() == 0 || self.types.len() == 0 {
            Some(Fault::IncompleteTuner)
        } else if self.types.contains(Seq::empty()) {
            Some(Fault::EmptyTunerType)
        } else {
            None
        }
    }
}

impl ChannelModel {
    /// Whether the two entries are the same service of the same channel.
    pub open spec fn same_service(self, other: ChannelModel) -> bool {
        &&& self.channel_type == other.channel_type
        &&& self.channel == other.channel
        &&& self.service_id == other.service_id
    }

    /// Whether this is the channel of that type and number.
    pub open spec fn denotes(self, channel_type: Seq<char>, channel: Seq<char>) -> bool {
        self.channel_type == channel_type && self.channel == channel
    }
}

/// The first fault among those found, in order.
pub open spec fn first_fault(found: Seq<Option<Fault>>) -> Option<Fault>
    decreases found.len(),
{
    if found.len() == 0 {
        None
    } else if found[0] is Some {
        found[0]
    } else {
        first_fault(found.skip(1))
    }
}

impl ConfigModel {
    /// Whether some tuner can receive channels of this type.
    pub open spec fn supports(self, channel_type: Seq<char>) -> bool {
        exists|t: int| 0 <= t < self.tuners.len() && (#[trigger] self.tuners[t]).serves(channel_type)
    }

    /// What is wrong with the channel at `i`, if anything.
    pub open spec fn channel_fault(self, i: int) -> Option<Fault> {
        let entry = self.channels[i];
        if entry.name.len() == 0 || entry.channel_type.len() == 0 || entry.channel.len() == 0 {
            Some(Fault::IncompleteChannel)
        } else if exists|j: int|
            0 <= j < i && (#[trigger] self.channels[j]).same_service(entry) {
            Some(
                Fault::DuplicateChannel {
                    channel_type: entry.channel_type,
                    channel: entry.channel,
                    service_id: entry.service_id,
                },
            )
        } else if !self.supports(entry.channel_type) {
            Some(Fault::UnsupportedType { channel_type: entry.channel_type })
        } else {
            None
        }
    }

    /// What the tuners and then the channels have wrong, each in the order of the configuration.
    pub open spec fn found(self) -> Seq<Option<Fault>> {
        Seq::new(self.tuners.len(), |i: int| self.tuners[i].fault()) + Seq::new(
            self.channels.len(),
            |i: int| self.channel_fault(i),
        )
    }

    /// The fault that is reported of the configuration, if it has any.
    pub open spec fn fault(self) -> Option<Fault> {
        if self.tuners.len() == 0 {
            Some(Fault::NoTuners)
        } else if self.channels.len() == 0 {
            Some(Fault::NoChannels)
        } else {
            first_fault(self.found())
        }
    }

    /// The rules for a configuration.
    pub open spec fn valid(self) -> bool {
        &&& self.tuners.len() > 0
        &&& self.channels.len() > 0
        &&& forall|t: int|
            0 <= t < self.tuners.len() ==> {
                let tuner = #[trigger] self.tuners[t];
                &&& tuner.name.len() > 0
                &&& tuner.command.len() > 0
                &&& tuner.types.len() > 0
                &&& !tuner.types.contains(Seq::empty())
            }
        &&& forall|i: int|
            0 <= i < self.channels.len() ==> {
                let entry = #[trigger] self.channels[i];
                &&& entry.name.len() > 0
                &&& entry.channel_type.len() > 0
                &&& entry.channel.len() > 0
                &&& self.supports(entry.channel_type)
            }
        &&& forall|i: int, j: int|
            0 <= i < j < self.channels.len() ==> !(#[trigger] self.channels[i]).same_service(
                #[trigger] self.channels[j],
            )
    }
}

/// No fault is found first where there is none at all.
proof fn first_fault_none(found: Seq<Option<Fault>>)
    ensures
        first_fault(found) is None <==> forall|i: int|
            0 <= i < found.len() ==> (#[trigger] found[i]) is None,
    decreases found.len(),
{
    if found.len() > 0 {
        let rest = found.skip(1);
        first_fault_none(rest);
        if found[0] is None {
            if first_fault(found) is None {
                assert forall|i: int| 0 <= i < found.len() implies (
                #[trigger] found[i]) is None by {
                    if i > 0 {
                        assert(rest[i - 1] is None);
                    }
                }
            } else {
                let i = choose|i: int| 0 <= i < rest.len() && (#[trigger] rest[i]) is Some;
                assert(found[i + 1] is Some);
            }
        }
    }
}

/// The fault at a position is the first one where no earlier position has any.
proof fn first_fault_at(found: Seq<Option<Fault>>, at: int)
    requires
        0 <= at < found.len(),
        found[at] is Some,
        forall|i: int| 0 <= i < at ==> (#[trigger] found[i]) is None,
    ensures
        first_fault(found) == found[at],
    decreases found.len(),
{
    if at > 0 {
        let rest = found.skip(1);
        assert forall|i: int| 0 <= i < at - 1 implies (#[trigger] rest[i]) is None by {
            assert(rest[i] == found[i + 1]);
        }
        first_fault_at(rest, at - 1);
    }
}

/// A configuration has no fault exactly where it meets the rules.
pub proof fn faultless_is_valid(config: ConfigModel)
    ensures
        config.fault() is None <==> config.valid(),
{
    if config.tuners.len() > 0 && config.channels.len() > 0 {
        let found = config.found();
        let tuners = config.tuners.len();
        first_fault_none(found);
        if config.fault() is None {
            assert forall|t: int| 0 <= t < tuners implies config.tuners[t].fault() is None by {
                assert(found[t] is None);
            }
            assert forall|i: int| 0 <= i < config.channels.len() implies config.channel_fault(
                i,
            ) is None by {
                assert(found[tuners + i] is None);
            }
            assert forall|i: int, j: int| 0 <= i < j < config.channels.len() implies !(
            #[trigger] config.channels[i]).same_service(#[trigger] config.channels[j]) by {
                assert(config.channel_fault(j) is None);
            }
            assert forall|i: int| 0 <= i < config.channels.len() implies config.supports(
                (#[trigger] config.channels[i]).channel_type,
            ) && config.channels[i].name.len() > 0 && config.channels[i].channel_type.len() > 0
                && config.channels[i].channel.len() > 0 by {
                assert(config.channel_fault(i) is None);
            }
            assert forall|t: int| 0 <= t < tuners implies {
                let tuner = #[trigger] config.tuners[t];
                &&& tuner.name.len() > 0
                &&& tuner.command.len() > 0
                &&& tuner.types.len() > 0
                &&& !tuner.types.contains(Seq::empty())
            } by {
                assert(config.tuners[t].fault() is None);
            }
        }
        if config.valid() {
            assert forall|i: int| 0 <= i < found.len() implies (#[trigger] found[i]) is None by {
                if i < tuners {
                    assert(found[i] == config.tuners[i].fault());
                } else {
                    assert(found[i] == config.channel_fault(i - tuners));
                }
            }
        }
    }
}

/// Whether `wanted` is one of `strings`.
pub fn contains_text(strings: &Vec<String>, wanted: &String) -> (result: bool)
    ensures
        result == texts(strings@).contains(wanted@),
{
    let mut i: usize = 0;
    while i < strings.len()
        invariant
            i <= strings@.len(),
            forall|k: int| 0 <= k < i ==> (#[trigger] strings@[k])@ != wanted@,
        decreases strings@.len() - i,
    {
        if strings[i] == *wanted {
            assert(texts(strings@)[i as int] == wanted@);
            return true;
        }
        i += 1;
    }
    assert forall|k: int| 0 <= k < strings@.len() implies texts(strings@)[k] != wanted@ by {
        assert(strings@[k]@ != wanted@);
    }
    false
}

/// Shows an optional number.
fn show_service_id(service_id: Option<u16>) -> (result: String)
    ensures
        result@ == shown_service_id(service_id),
{
    match service_id {
        Some(id) => {
            let mut result = "Some(".to_owned();
            let number = decimal_text(id as u64);
            result.append(number.as_str());
            result.append(")");
            result
        },
        None => "None".to_owned(),
    }
}

impl TunerConfig {
    /// Checks the tuner on its own.
    fn check(&self) -> (result: Result<(), String>)
        ensures
            match result {
                Ok(_) => self@.fault() is None,
                Err(message) => self@.fault() matches Some(fault) && message@ == fault.message(),
            },
    {
        if self.name.as_str().is_empty() || self.command.as_str().is_empty() || self.types.len() == 0
        {
            return Err("each tuner requires name, command, and at least one type".to_owned());
        }
        if contains_text(&self.types, &String::new()) {
            return Err("tuner types must not be empty".to_owned());
        }
        Ok(())
    }
}

impl Config {
    /// Whether some tuner can receive channels of this type.
    fn supports(&self, channel_type: &String) -> (result: bool)
        ensures
            result == self@.supports(channel_type@),
    {
        let mut t: usize = 0;
        while t < self.tuners.len()
            invariant
                t <= self.tuners@.len(),
                forall|k: int| 0 <= k < t ==> !(#[trigger] self@.tuners[k]).serves(channel_type@),
            decreases self.tuners@.len() - t,
        {
            if contains_text(&self.tuners[t].types, channel_type) {
                assert(self@.tuners[t as int].serves(channel_type@));
                return true;
            }
            assert(!self@.tuners[t as int].serves(channel_type@));
            t += 1;
        }
        false
    }

    /// Whether an entry before `i` is the same service as the entry at `i`.
    fn repeats(&self, i: usize) -> (result: bool)
        requires
            i < self.channels@.len(),
        ensures
            result == exists|j: int|
                0 <= j < i && (#[trigger] self@.channels[j]).same_service(self@.channels[i as int]),
    {
        let entry = &self.channels[i];
        let mut j: usize = 0;
        while j < i
            invariant
                j <= i < self.channels@.len(),
                *entry == self.channels@[i as int],
                forall|k: int|
                    0 <= k < j ==> !(#[trigger] self@.channels[k]).same_service(
                        self@.channels[i as int],
                    ),
            decreases i - j,
        {
            let earlier = &self.channels[j];
            assert(self@.channels[j as int] == earlier@);
            if earlier.channel_type == entry.channel_type && earlier.channel == entry.channel
                && earlier.service_id == entry.service_id {
                assert(self@.channels[j as int].same_service(self@.channels[i as int]));
                return true;
            }
            j += 1;
        }
        false
    }

    /// Checks the channel at `i` against the rules and the entries before it.
    fn check_channel(&self, i: usize) -> (result: Result<(), String>)
        requires
            i < self.channels@.len(),
        ensures
            match result {
                Ok(_) => self@.channel_fault(i as int) is None,
                Err(message) => self@.channel_fault(i as int) matches Some(fault) && message@
                    == fault.message(),
            },
    {
        let entry = &self.channels[i];
        assert(self@.channels[i as int] == entry@);
        if entry.name.as_str().is_empty() || entry.channel_type.as_str().is_empty()
            || entry.channel.as_str().is_empty() {
            return Err("each channel requires name, type, and channel".to_owned());
        }
        if self.repeats(i) {
            let mut message = "duplicate channel: ".to_owned();
            message.append(entry.channel_type.as_str());
            message.append("/");
            message.append(entry.channel.as_str());
            message.append(" (serviceId ");
            let shown = show_service_id(entry.service_id);
            message.append(shown.as_str());
            message.append(")");
            return Err(message);
        }
        if !self.supports(&entry.channel_type) {
            let mut message = "no tuner supports channel type ".to_owned();
            message.append(entry.channel_type.as_str());
            return Err(message);
        }
        Ok(())
    }

    /// Checks the configuration against the rules; the first fault is reported.
    pub fn validate(&self) -> (result: Result<(), String>)
        ensures
            match result {
                Ok(_) => self@.fault() is None,
                Err(message) => self@.fault() matches Some(fault) && message@ == fault.message(),
            },
            result is Ok <==> self@.valid(),
    {
        proof {
            faultless_is_valid(self@);
        }
        if self.tuners.len() == 0 {
            return Err("at least one tuner is required".to_owned());
        }
        if self.channels.len() == 0 {
            return Err("at least one channel is required".to_owned());
        }
        let ghost found = self@.found();
        let mut t: usize = 0;
        while t < self.tuners.len()
            invariant
                t <= self.tuners@.len(),
                found == self@.found(),
                self.tuners@.len() > 0,
                self.channels@.len() > 0,
                self@.fault() is None <==> self@.valid(),
                forall|k: int| 0 <= k < t ==> (#[trigger] found[k]) is None,
            decreases self.tuners@.len() - t,
        {
            assert(found[t as int] == self.tuners@[t as int]@.fault());
            match self.tuners[t].check() {
                Ok(_) => {},
                Err(message) => {
                    proof {
                        first_fault_at(found, t as int);
                    }
                    return Err(message);
                },
            }
            t += 1;
        }
        let mut i: usize = 0;
        while i < self.channels.len()
            invariant
                i <= self.channels@.len(),
                t == self.tuners@.len(),
                found == self@.found(),
                self.tuners@.len() > 0,
                self.channels@.len() > 0,
                self@.fault() is None <==> self@.valid(),
                forall|k: int| 0 <= k < t + i ==> (#[trigger] found[k]) is None,
            decreases self.channels@.len() - i,
        {
            assert(found[t + i] == self@.channel_fault(i as int));
            match self.check_channel(i) {
                Ok(_) => {},
                Err(message) => {
                    proof {
                        first_fault_at(found, t + i);
                    }
                    return Err(message);
                },
            }
            i += 1;
        }
        proof {
            first_fault_none(found);
        }
        Ok(())
    }
}

/// What came of reading and parsing a configuration file.
pub enum Loaded {
    /// The file could not be read; the text says why.
    Unreadable(String),
    /// The file was read and is not a configuration; the text says why.
    Unparsable(String),
    /// The configuration that the file holds.
    Parsed(Config),
}

/// A message on a file: what failed, the file's path, and the cause.
pub open spec fn failure_message(what: Seq<char>, path: Seq<char>, cause: Seq<char>) -> Seq<char> {
    what + path + ": "@ + cause
}

/// Builds a message on a file.
fn failure_text(what: &str, path: &str, cause: &str) -> (result: String)
    ensures
        result@ == failure_message(what@, path@, cause@),
{
    let mut message = what.to_owned();
    message.append(path);
    message.append(": ");
    message.append(cause);
    message
}

impl Config {
    /// Accepts the configuration that the file at `path` holds, or says why there is none to
    /// accept.
    pub fn load(path: &str, loaded: Loaded) -> (result: Result<Config, String>)
        ensures
            match loaded {
                Loaded::Unreadable(cause) => result matches Err(message) && message@
                    == failure_message("failed to read "@, path@, cause@),
                Loaded::Unparsable(cause) => result matches Err(message) && message@
                    == failure_message("failed to parse "@, path@, cause@),
                Loaded::Parsed(config) => match config@.fault() {
                    None => result == Ok::<Config, String>(config),
                    Some(fault) => result matches Err(message) && message@ == fault.message(),
                },
            },
            result matches Ok(config) ==> config@.valid(),
    {
        match loaded {
            Loaded::Unreadable(cause) => Err(
                failure_text("failed to read ", path, cause.as_str()),
            ),
            Loaded::Unparsable(cause) => Err(
                failure_text("failed to parse ", path, cause.as_str()),
            ),
            Loaded::Parsed(config) => match config.validate() {
                Ok(_) => Ok(config),
                Err(message) => Err(message),
            },
        }
    }
}

/// Whether a tuner has a name, a command and a type, and no type without characters.
pub open spec fn is_complete_tuner(tuner: TunerModel) -> bool {
    &&& tuner.name.len() > 0
    &&& tuner.command.len() > 0
    &&& tuner.types.len() > 0
    &&& forall|k: int| 0 <= k < tuner.types.len() ==> (#[trigger] tuner.types[k]).len() > 0
}

/// Whether a tuner has this type among its own.
pub open spec fn has_type(tuner: TunerModel, channel_type: Seq<char>) -> bool {
    exists|k: int| 0 <= k < tuner.types.len() && #[trigger] tuner.types[k] == channel_type
}

/// Whether the entry at `i` has a name, a type and a number, some tuner has its type, and no
/// earlier entry has its type, number and service number.
pub open spec fn is_sound_entry(config: ConfigModel, i: int) -> bool {
    let entry = config.channels[i];
    &&& entry.name.len() > 0
    &&& entry.channel_type.len() > 0
    &&& entry.channel.len() > 0
    &&& exists|t: int|
        0 <= t < config.tuners.len() && has_type(#[trigger] config.tuners[t], entry.channel_type)
    &&& forall|j: int|
        0 <= j < i ==> (#[trigger] config.channels[j]).channel_type != entry.channel_type
            || config.channels[j].channel != entry.channel || config.channels[j].service_id
            != entry.service_id
}

proof fn complete_tuners_have_no_fault(tuner: TunerModel)
    ensures
        tuner.fault() is None <==> is_complete_tuner(tuner),
{
    let blank = Seq::<char>::empty();
    if tuner.types.contains(blank) {
        let k = choose|k: int| 0 <= k < tuner.types.len() && tuner.types[k] == blank;
        assert(tuner.types[k].len() == 0);
    } else {
        assert forall|k: int| 0 <= k < tuner.types.len() implies (
        #[trigger] tuner.types[k]).len() > 0 by {
            if tuner.types[k].len() == 0 {
                assert(tuner.types[k] =~= blank);
            }
        }
    }
}

proof fn supported_types_are_had(config: ConfigModel, channel_type: Seq<char>)
    ensures
        config.supports(channel_type) <==> exists|t: int|
            0 <= t < config.tuners.len() && has_type(#[trigger] config.tuners[t], channel_type),
{
    if config.supports(channel_type) {
        let t = choose|t: int|
            0 <= t < config.tuners.len() && (#[trigger] config.tuners[t]).serves(channel_type);
        assert(config.tuners[t].types.contains(channel_type));
        assert(has_type(config.tuners[t], channel_type));
    }
    if exists|t: int|
        0 <= t < config.tuners.len() && has_type(#[trigger] config.tuners[t], channel_type) {
        let t = choose|t: int|
            0 <= t < config.tuners.len() && has_type(#[trigger] config.tuners[t], channel_type);
        let k = choose|k: int|
            0 <= k < config.tuners[t].types.len() && #[trigger] config.tuners[t].types[k]
                == channel_type;
        assert(config.tuners[t].types.contains(channel_type));
        assert(config.tuners[t].serves(channel_type));
    }
}

proof fn sound_entries_have_no_fault(config: ConfigModel, i: int)
    requires
        0 <= i < config.channels.len(),
    ensures
        config.channel_fault(i) is None <==> is_sound_entry(config, i),
{
    let entry = config.channels[i];
    supported_types_are_had(config, entry.channel_type);
    if is_sound_entry(config, i) {
        assert forall|j: int| 0 <= j < i implies !(#[trigger] config.channels[j]).same_service(
            entry,
        ) by {}
    }
    if config.channel_fault(i) is None {
        assert forall|j: int| 0 <= j < i implies (#[trigger] config.channels[j]).channel_type
            != entry.channel_type || config.channels[j].channel != entry.channel
            || config.channels[j].service_id != entry.service_id by {
            assert(!config.channels[j].same_service(entry));
        }
    }
}

/// A configuration is accepted exactly where it has a tuner and a channel, every tuner is
/// complete, and every entry is sound.
pub proof fn accepted_configurations(config: ConfigModel)
    ensures
        config.fault() is None <==> {
            &&& config.tuners.len() > 0
            &&& config.channels.len() > 0
            &&& forall|t: int|
                0 <= t < config.tuners.len() ==> is_complete_tuner(#[trigger] config.tuners[t])
            &&& forall|i: int| 0 <= i < config.channels.len() ==> is_sound_entry(config, i)
        },
        config.valid() <==> config.fault() is None,
{
    faultless_is_valid(config);
    let found = config.found();
    let tuners = config.tuners.len();
    first_fault_none(found);
    if config.tuners.len() > 0 && config.channels.len() > 0 {
        if config.fault() is None {
            assert forall|t: int| 0 <= t < tuners implies is_complete_tuner(
                #[trigger] config.tuners[t],
            ) by {
                assert(found[t] is None);
                complete_tuners_have_no_fault(config.tuners[t]);
            }
            assert forall|i: int| 0 <= i < config.channels.len() implies is_sound_entry(
                config,
                i,
            ) by {
                assert(found[tuners + i] is None);
                sound_entries_have_no_fault(config, i);
            }
        } else {
            let k = choose|k: int| 0 <= k < found.len() && (#[trigger] found[k]) is Some;
            if k < tuners {
                complete_tuners_have_no_fault(config.tuners[k]);
                assert(!is_complete_tuner(config.tuners[k]));
            } else {
                sound_entries_have_no_fault(config, k - tuners);
                assert(!is_sound_entry(config, k - tuners));
            }
        }
    }
}

/// A configuration without tuners is refused for that, whatever else it holds, and then one
/// without channels.
pub proof fn empty_configurations_are_refused(config: ConfigModel)
    ensures
        config.tuners.len() == 0 ==> (config.fault() matches Some(fault) && fault.message()
            == "at least one tuner is required"@),
        config.tuners.len() > 0 && config.channels.len() == 0 ==> (config.fault() matches Some(
            fault,
        ) && fault.message() == "at least one channel is required"@),
{
}

/// The first tuner that is not complete is what a configuration is refused for, whatever its
/// channels are: for want of a name, a command or a type, and else for an empty type.
pub proof fn first_incomplete_tuner_is_reported(config: ConfigModel, t: int)
    requires
        config.channels.len() > 0,
        0 <= t < config.tuners.len(),
        forall|k: int| 0 <= k < t ==> is_complete_tuner(#[trigger] config.tuners[k]),
        !is_complete_tuner(config.tuners[t]),
    ensures
        config.fault() matches Some(fault) && fault.message() == if config.tuners[t].name.len()
            == 0 || config.tuners[t].command.len() == 0 || config.tuners[t].types.len() == 0 {
            "each tuner requires name, command, and at least one type"@
        } else {
            "tuner types must not be empty"@
        },
{
    let found = config.found();
    assert forall|k: int| 0 <= k < t implies (#[trigger] found[k]) is None by {
        complete_tuners_have_no_fault(config.tuners[k]);
    }
    complete_tuners_have_no_fault(config.tuners[t]);
    first_fault_at(found, t);
}

/// Where all tuners are complete, the first entry that is not sound is what a configuration is
/// refused for: for want of a name, a type or a number, else because an earlier entry is the same
/// service, and else because no tuner has its type.
pub proof fn first_unsound_entry_is_reported(config: ConfigModel, i: int)
    requires
        config.tuners.len() > 0,
        0 <= i < config.channels.len(),
        forall|t: int|
            0 <= t < config.tuners.len() ==> is_complete_tuner(#[trigger] config.tuners[t]),
        forall|k: int| 0 <= k < i ==> is_sound_entry(config, k),
        !is_sound_entry(config, i),
    ensures
        config.fault() matches Some(fault) && {
            let entry = config.channels[i];
            fault.message() == if entry.name.len() == 0 || entry.channel_type.len() == 0
                || entry.channel.len() == 0 {
                "each channel requires name, type, and channel"@
            } else if exists|j: int|
                0 <= j < i && (#[trigger] config.channels[j]).channel_type == entry.channel_type
                    && config.channels[j].channel == entry.channel && config.channels[j].service_id
                    == entry.service_id {
                "duplicate channel: "@ + entry.channel_type + "/"@ + entry.channel
                    + " (serviceId "@ + (match entry.service_id {
                    Some(id) => "Some("@ + crate::text::decimal(id as nat) + ")"@,
                    None => "None"@,
                }) + ")"@
            } else {
                "no tuner supports channel type "@ + entry.channel_type
            }
        },
{
    let found = config.found();
    let tuners = config.tuners.len();
    let entry = config.channels[i];
    assert forall|k: int| 0 <= k < tuners + i implies (#[trigger] found[k]) is None by {
        if k < tuners {
            complete_tuners_have_no_fault(config.tuners[k]);
        } else {
            assert(is_sound_entry(config, k - tuners));
            sound_entries_have_no_fault(config, k - tuners);
        }
    }
    sound_entries_have_no_fault(config, i);
    assert(found[tuners + i] == config.channel_fault(i));
    first_fault_at(found, tuners + i);
    if exists|j: int| 0 <= j < i && (#[trigger] config.channels[j]).same_service(entry) {
        let j = choose|j: int| 0 <= j < i && (#[trigger] config.channels[j]).same_service(entry);
        assert(config.channels[j].channel_type == entry.channel_type);
    }
    if exists|j: int|
        0 <= j < i && (#[trigger] config.channels[j]).channel_type == entry.channel_type
            && config.channels[j].channel == entry.channel && config.channels[j].service_id
            == entry.service_id {
        let j = choose|j: int|
            0 <= j < i && (#[trigger] config.channels[j]).channel_type == entry.channel_type
                && config.channels[j].channel == entry.channel && config.channels[j].service_id
                == entry.service_id;
        assert(config.channels[j].same_service(entry));
    }
}

/// A message on a file holds what failed, the path, a colon and a space, and the cause, each whole
/// and in this order.
pub proof fn failure_messages_tell_path_and_cause(
    what: Seq<char>,
    path: Seq<char>,
    cause: Seq<char>,
)
    ensures
        failure_message(what, path, cause).take((what.len() + path.len()) as int) == what + path,
        failure_message(what, path, cause).skip((what.len() + path.len()) as int) == seq![':', ' ']
            + cause,
{
    reveal_strlit(": ");
}

/// The contents of a configuration are those of its parts, each at its own place.
pub proof fn contents_are_those_of_the_parts(config: Config, t: int, k: int, i: int)
    ensures
        config@.listen == config.listen@,
        config@.tuners.len() == config.tuners@.len(),
        config@.channels.len() == config.channels@.len(),
        0 <= t < config.tuners@.len() ==> {
            &&& config@.tuners[t].name == config.tuners@[t].name@
            &&& config@.tuners[t].command == config.tuners@[t].command@
            &&& config@.tuners[t].types.len() == config.tuners@[t].types@.len()
            &&& 0 <= k < config.tuners@[t].types@.len() ==> config@.tuners[t].types[k]
                == config.tuners@[t].types@[k]@
        },
        0 <= i < config.channels@.len() ==> {
            &&& config@.channels[i].name == config.channels@[i].name@
            &&& config@.channels[i].channel_type == config.channels@[i].channel_type@
            &&& config@.channels[i].channel == config.channels@[i].channel@
            &&& config@.channels[i].service_id == config.channels@[i].service_id
            &&& config@.channels[i].command_vars == config.channels@[i].command_vars@
        },
{
}

} // verus!
