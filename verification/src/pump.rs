//! The pump of a tuner: what is read from its process goes to the clients, until the end.

use crate::text::decimal_text;
use bytes::Bytes;
use vstd::prelude::*;
use vstd::slice::slice_subrange;

verus! {

/// How many chunks a client may fall behind.
pub const STREAM_BUFFER_CHUNKS: usize = 64;

/// How many bytes are read at a time.
pub const READ_BUFFER_BYTES: usize = 64 * 1024;

/// `bytes::Bytes`, a chunk of a stream.
#[verifier::external_type_specification]
#[verifier::external_body]
pub struct ExBytes(Bytes);

/// The bytes that a chunk holds.
pub uninterp spec fn chunk_bytes(chunk: Bytes) -> Seq<u8>;

/// `Bytes::copy_from_slice`: a chunk that holds the bytes of the slice.
pub assume_specification[ Bytes::copy_from_slice ](data: &[u8]) -> (result: Bytes)
    ensures
        chunk_bytes(result) == data@,
;

/// What the pump waits for.
#[derive(Clone, Copy, Debug, PartialEq, Eq, Structural)]
pub enum PumpEvent {
    /// So many bytes were read into the buffer; none at the end of the output.
    Read(usize),
    /// The output could not be read.
    ReadFailed,
    /// A chunk was sent; `received` says whether a client was there to receive it.
    Sent { received: bool },
    /// The order to stop has changed: it may be given, or nobody is left to give it.
    OrderChanged { abandoned: bool, cancelled: bool },
}

/// What the pump does next.
pub enum PumpAction {
    /// Sends a chunk to the clients.
    Send(Bytes),
    /// Waits for more output, or for the order to stop.
    Wait,
    /// Stops.
    Stop,
}

/// What the pump does, with the bytes that it sends.
pub enum ActionModel {
    Send(Seq<u8>),
    Wait,
    Stop,
}

impl View for PumpAction {
    type V = ActionModel;

    open spec fn view(&self) -> ActionModel {
        match self {
            PumpAction::Send(chunk) => ActionModel::Send(chunk_bytes(*chunk)),
            PumpAction::Wait => ActionModel::Wait,
            PumpAction::Stop => ActionModel::Stop,
        }
    }
}

/// What the pump does on an event: it sends what was read, and stops at the end of the output,
/// when reading fails, when no client is left to receive, and when it is told to stop or nobody
/// is left to tell it.
pub open spec fn reaction(event: PumpEvent, buffer: Seq<u8>) -> ActionModel {
    match event {
        PumpEvent::Read(length) => if length == 0 {
            ActionModel::Stop
        } else {
            ActionModel::Send(buffer.take(length as int))
        },
        PumpEvent::ReadFailed => ActionModel::Stop,
        PumpEvent::Sent { received } => if received {
            ActionModel::Wait
        } else {
            ActionModel::Stop
        },
        PumpEvent::OrderChanged { abandoned, cancelled } => if abandoned || cancelled {
            ActionModel::Stop
        } else {
            ActionModel::Wait
        },
    }
}

/// Decides what the pump does on an event; `buffer` begins with what was read.
pub fn pump_step(event: PumpEvent, buffer: &Vec<u8>) -> (result: PumpAction)
    requires
        event matches PumpEvent::Read(length) ==> length <= buffer@.len(),
    ensures
        result@ == reaction(event, buffer@),
{
    match event {
        PumpEvent::Read(length) => {
            if length == 0 {
                return PumpAction::Stop;
            }
            let chunk = Bytes::copy_from_slice(slice_subrange(buffer.as_slice(), 0, length));
            assert(buffer@.subrange(0, length as int) =~= buffer@.take(length as int));
            PumpAction::Send(chunk)
        },
        PumpEvent::ReadFailed => PumpAction::Stop,
        PumpEvent::Sent { received } => if received {
            PumpAction::Wait
        } else {
            PumpAction::Stop
        },
        PumpEvent::OrderChanged { abandoned, cancelled } => if abandoned || cancelled {
            PumpAction::Stop
        } else {
            PumpAction::Wait
        },
    }
}

/// The bytes that the pump sends in a run of events, each with the buffer of its moment, up to
/// where it stops.
pub open spec fn sent_in(run: Seq<(PumpEvent, Seq<u8>)>) -> Seq<u8>
    decreases run.len(),
{
    if run.len() == 0 {
        Seq::empty()
    } else {
        match reaction(run[0].0, run[0].1) {
            ActionModel::Send(chunk) => chunk + sent_in(run.skip(1)),
            ActionModel::Wait => sent_in(run.skip(1)),
            ActionModel::Stop => Seq::empty(),
        }
    }
}

/// The bytes that were read in a run of events.
pub open spec fn read_in(run: Seq<(PumpEvent, Seq<u8>)>) -> Seq<u8>
    decreases run.len(),
{
    if run.len() == 0 {
        Seq::empty()
    } else {
        match run[0].0 {
            PumpEvent::Read(length) => run[0].1.take(length as int) + read_in(run.skip(1)),
            _ => read_in(run.skip(1)),
        }
    }
}

/// What the process writes reaches the clients, whole and in order: up to the event at which the
/// pump stops, the bytes sent are the bytes read.
pub proof fn output_is_forwarded(run: Seq<(PumpEvent, Seq<u8>)>)
    requires
        forall|i: int|
            0 <= i < run.len() - 1 ==> !(reaction((#[trigger] run[i]).0, run[i].1) is Stop),
    ensures
        sent_in(run) == read_in(run),
    decreases run.len(),
{
    if run.len() > 0 {
        let rest = run.skip(1);
        assert forall|i: int| 0 <= i < rest.len() - 1 implies !(reaction(
            (#[trigger] rest[i]).0,
            rest[i].1,
        ) is Stop) by {
            assert(rest[i] == run[i + 1]);
        }
        output_is_forwarded(rest);
        if run[0].0 matches PumpEvent::Read(length) && length == 0 {
            assert(run.len() == 1);
            assert(read_in(run) =~= Seq::<u8>::empty());
        }
        if reaction(run[0].0, run[0].1) is Stop {
            assert(rest.len() == 0);
        }
    }
}

/// What a client's side of a stream gives when it is asked for the next chunk.
pub enum Delivery {
    Chunk(Bytes),
    /// The client fell behind and so many chunks were dropped.
    Lagged(u64),
    Closed,
    Pending,
}

/// What the client is given.
pub enum ClientItem {
    Chunk(Bytes),
    /// An error, with its message.
    Failed(String),
    Finished,
    Pending,
}

/// The message for a client that fell behind.
pub open spec fn lag_message(skipped: u64) -> Seq<char> {
    "stream client lagged by "@ + crate::text::decimal(skipped as nat) + " chunks"@
}

/// Whether the item is what a client is given for the delivery.
pub open spec fn is_given(delivery: Delivery, item: ClientItem) -> bool {
    match delivery {
        Delivery::Chunk(chunk) => item == ClientItem::Chunk(chunk),
        Delivery::Lagged(skipped) => item matches ClientItem::Failed(message) && message@
            == lag_message(skipped),
        Delivery::Closed => item == ClientItem::Finished,
        Delivery::Pending => item == ClientItem::Pending,
    }
}

/// What a client is given for a delivery: the chunk as it came, or an error that says how many
/// were lost.
pub fn client_item(delivery: Delivery) -> (result: ClientItem)
    ensures
        is_given(delivery, result),
        match delivery {
            Delivery::Chunk(chunk) => result == ClientItem::Chunk(chunk),
            Delivery::Lagged(skipped) => result matches ClientItem::Failed(message) && message@
                == lag_message(skipped),
            Delivery::Closed => result == ClientItem::Finished,
            Delivery::Pending => result == ClientItem::Pending,
        },
{
    match delivery {
        Delivery::Chunk(chunk) => ClientItem::Chunk(chunk),
        Delivery::Lagged(skipped) => {
            let mut message = "stream client lagged by ".to_owned();
            let count = decimal_text(skipped);
            message.append(count.as_str());
            message.append(" chunks");
            ClientItem::Failed(message)
        },
        Delivery::Closed => ClientItem::Finished,
        Delivery::Pending => ClientItem::Pending,
    }
}

/// What came of killing a process group.
#[derive(Clone, Copy, Debug, PartialEq, Eq, Structural)]
pub enum KillOutcome {
    Killed,
    /// The group had ended before.
    NoSuchProcess,
    Failed,
}

/// Whether the outcome is worth a warning: only a failure is, and not that the group had ended.
pub fn kill_is_reported(outcome: KillOutcome) -> (result: bool)
    ensures
        result == (outcome == KillOutcome::Failed),
{
    outcome == KillOutcome::Failed
}

/// The number of the process group of a process, in signed form.
pub open spec fn group_number(pid: u32) -> int {
    if pid < 0x8000_0000 {
        pid as int
    } else {
        pid - 0x1_0000_0000
    }
}

/// The number of the process group of a process, in the signed form that the system takes: the
/// same bits.
pub fn process_group(pid: u32) -> (result: i32)
    ensures
        result == group_number(pid),
        result == if pid < 0x8000_0000 {
            pid as int
        } else {
            pid - 0x1_0000_0000
        },
{
    if pid < 0x8000_0000 {
        pid as i32
    } else {
        (pid as i64 - 0x1_0000_0000) as i32
    }
}

/// Whatever the buffer holds and however long it is, the pump stops exactly where nothing more was
/// read, reading failed, no client received the chunk, or the order to stop was given or can be
/// given no more.
pub proof fn pump_stops_only_at_the_end(event: PumpEvent, buffer: Seq<u8>)
    ensures
        reaction(event, buffer) is Stop <==> {
            ||| event == PumpEvent::Read(0)
            ||| event == PumpEvent::ReadFailed
            ||| event == PumpEvent::Sent { received: false }
            ||| (event matches PumpEvent::OrderChanged { abandoned, cancelled } && (abandoned
                || cancelled))
        },
{
}

/// Whatever the buffer holds and however long it is, the pump goes on waiting after a chunk that a
/// client received and after an order that does not stop it, and only then.
pub proof fn pump_waits_for_more(event: PumpEvent, buffer: Seq<u8>)
    ensures
        reaction(event, buffer) is Wait <==> {
            ||| event == PumpEvent::Sent { received: true }
            ||| event == PumpEvent::OrderChanged { abandoned: false, cancelled: false }
        },
{
}

/// Bytes that were read are sent: as many as were read, each as it stands in the buffer, and
/// whatever else the buffer holds is not.
pub proof fn pump_sends_what_was_read(event: PumpEvent, buffer: Seq<u8>)
    requires
        event matches PumpEvent::Read(length) ==> length <= buffer.len(),
    ensures
        reaction(event, buffer) is Send <==> (event matches PumpEvent::Read(length) && length > 0),
        reaction(event, buffer) matches ActionModel::Send(chunk) ==> {
            &&& event == PumpEvent::Read(chunk.len() as usize)
            &&& chunk.len() <= buffer.len()
            &&& forall|i: int| 0 <= i < chunk.len() ==> chunk[i] == #[trigger] buffer[i]
        },
{
}

/// The message for a client that fell behind tells, between its fixed words, how many chunks were
/// dropped.
pub proof fn lag_messages_tell_the_loss(skipped: u64) -> (count: Seq<char>)
    ensures
        lag_message(skipped) == "stream client lagged by "@ + count + " chunks"@,
        crate::text::denoted(count) == skipped,
        count.len() > 0,
        count.len() > 1 ==> count[0] != '0',
        forall|i: int| 0 <= i < count.len() ==> crate::text::is_digit(#[trigger] count[i]),
{
    crate::text::numerals_denote_their_numbers(skipped as nat);
    crate::text::decimal_is_digits(skipped as nat);
    crate::text::decimal(skipped as nat)
}

/// A client is given every chunk as it came, and a chunk only for a chunk; its stream fails exactly
/// where chunks were dropped, and is finished exactly where it was closed.
pub proof fn clients_are_given_what_is_delivered(delivery: Delivery, item: ClientItem)
    requires
        is_given(delivery, item),
    ensures
        forall|chunk: Bytes| #![auto]
            delivery == Delivery::Chunk(chunk) <==> item == ClientItem::Chunk(chunk),
        item is Failed <==> delivery is Lagged,
        item is Finished <==> delivery is Closed,
        item is Pending <==> delivery is Pending,
        forall|skipped: u64| #![auto]
            delivery == Delivery::Lagged(skipped) ==> item->Failed_0@ == lag_message(skipped),
{
}

/// The number of a group has the same 32 bits as that of its process: the two differ by nothing or
/// by 2^32, and the group's fits a signed number. Groups of different processes differ.
pub proof fn groups_have_the_bits_of_their_processes(pid: u32, other: u32)
    ensures
        group_number(pid) == pid || group_number(pid) == pid - 0x1_0000_0000,
        i32::MIN <= group_number(pid) <= i32::MAX,
        pid != other ==> group_number(pid) != group_number(other),
{
}

/// An action is told as what it is, and a chunk by its bytes.
pub proof fn actions_are_told_as_they_are(action: PumpAction)
    ensures
        action is Wait <==> action@ is Wait,
        action is Stop <==> action@ is Stop,
        action matches PumpAction::Send(chunk) ==> action@ == ActionModel::Send(chunk_bytes(chunk)),
{
}

} // verus!
