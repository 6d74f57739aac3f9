//! The decisions of the dispatch loop: which opcode a chunk names, whether
//! it starts a command or continues the one in flight, and what a stream
//! that ends inside a chunk means.

use crate::cursor::ByteCursor;
use crate::implementation::{
    Action, ActionView, CellView, Event, EventView, GetAddress, GetAddressView, ParsersState,
    Prompt, Sign, SignView,
};
use crate::interface::{bip32_key_format, transaction_format, ArrayNode};
use crate::parser::{parsed_all, ArrayProgress, ArrayState, Outcome, Parsed, Step, Value};
use crate::status::Failure;
use vstd::prelude::*;

verus! {

/// How the parse of one stream stands after a chunk.
#[derive(Debug)]
pub enum Parse {
    /// The stream is complete and ended with the chunk.
    Done(Vec<Value>),
    /// The chunk is consumed and the stream goes on.
    NeedMore,
    /// The command is to be abandoned.
    Fail(Failure),
}

/// [`Parse`] as plain values, with the progress that a stream which goes
/// on has made.
#[verifier::ext_equal]
pub enum ParseView {
    Done(Seq<Parsed>),
    NeedMore(ArrayProgress),
    Fail(Failure),
}

/// What the chunk `data` means for a stream that has progressed to `at`.
/// A stream has to end where its chunk ends: one that is complete with
/// bytes of the chunk left over is abandoned, like one whose bytes the
/// grammar rejects.
pub open spec fn top_level(node: ArrayNode, at: ArrayProgress, data: Seq<u8>) -> ParseView {
    match node.resume(at, data) {
        Step::Done { value, used } => if used == data.len() {
            ParseView::Done(value)
        } else {
            ParseView::Fail(Failure::TrailingData)
        },
        Step::NeedMore { state } => ParseView::NeedMore(state),
        Step::Reject => ParseView::Fail(Failure::Malformed),
    }
}

/// Offers one chunk to a stream of a command.
///
/// The result is [`top_level`] of the progress in `state` and the chunk.
/// Where the stream goes on, `state` holds the new progress; otherwise it
/// is fresh again.
pub fn run_parser_apdu(node: &ArrayNode, state: &mut ArrayState, data: &[u8]) -> (parse: Parse)
    requires
        node.wf(),
        old(state)@.wf(*node),
    ensures
        final(state)@.wf(*node),
        match top_level(*node, old(state)@, data@) {
            ParseView::Done(items) => {
                &&& parse matches Parse::Done(values)
                &&& parsed_all(values@) == items
                &&& final(state)@ == node.fresh()
            },
            ParseView::NeedMore(next) => parse is NeedMore && final(state)@ == next,
            ParseView::Fail(failure) => {
                &&& parse matches Parse::Fail(reported)
                &&& reported == failure
                &&& final(state)@ == node.fresh()
            },
        },
{
    let mut cursor = ByteCursor::new(data);
    assert(cursor.unread() == data@);
    match node.attempt(state, &mut cursor) {
        Outcome::Done(items) => {
            if cursor.at_end() {
                Parse::Done(items)
            } else {
                Parse::Fail(Failure::TrailingData)
            }
        },
        Outcome::NeedMore => Parse::NeedMore,
        Outcome::Reject => Parse::Fail(Failure::Malformed),
    }
}


/// The commands a host can name.
#[derive(Clone, Copy, Debug, PartialEq, Eq, Structural)]
pub enum Ins {
    GetPubkey,
    Sign,
    Menu,
    ShowPrivateKey,
    Exit,
}

impl Ins {
    /// The command that the opcode byte `ins` names, if any.
    pub open spec fn decode(ins: u8) -> Option<Ins> {
        if ins == 2 {
            Some(Ins::GetPubkey)
        } else if ins == 3 {
            Some(Ins::Sign)
        } else if ins == 4 {
            Some(Ins::Menu)
        } else if ins == 0xfe {
            Some(Ins::ShowPrivateKey)
        } else if ins == 0xff {
            Some(Ins::Exit)
        } else {
            None
        }
    }

    /// Looks the opcode byte up in the table. An unknown byte is `None`.
    pub fn from(ins: u8) -> (decoded: Option<Ins>)
        ensures
            decoded == Self::decode(ins),
    {
        match ins {
            2 => Some(Ins::GetPubkey),
            3 => Some(Ins::Sign),
            4 => Some(Ins::Menu),
            0xfe => Some(Ins::ShowPrivateKey),
            0xff => Some(Ins::Exit),
            _ => None,
        }
    }
}

impl CellView {
    /// The command in flight, if any.
    pub open spec fn busy_with(self) -> Option<Ins> {
        match self {
            CellView::Idle => None,
            CellView::GetAddress(_) => Some(Ins::GetPubkey),
            CellView::Sign(_) => Some(Ins::Sign),
        }
    }
}

/// What handing `event` to the command in flight leads to. With no
/// command in flight there is nothing to resume: that is a failure.
pub open spec fn delivered(cell: CellView, event: EventView, capacity: nat) -> (
    CellView,
    ActionView,
) {
    match cell {
        CellView::Idle => (CellView::Idle, ActionView::Fail(Failure::NoTask)),
        CellView::GetAddress(_) => GetAddress::polled(cell, event, capacity),
        CellView::Sign(_) => Sign::polled(cell, event, capacity),
    }
}

/// What a chunk `data` tagged with the opcode byte `ins` leads to.
///
/// With the cell idle, the chunk starts the command it names: the two
/// commands that carry a payload get a new task, which is handed the chunk
/// at once, unless the chunk is empty; the others are actions without a
/// task; an unknown opcode fails. With a command in flight, a chunk for
/// the same opcode continues it and a chunk for any other opcode fails: the
/// command in flight is discarded and the one named is not started.
pub open spec fn dispatched(cell: CellView, ins: u8, data: Seq<u8>, capacity: nat) -> (
    CellView,
    ActionView,
) {
    match cell.busy_with() {
        None => match Ins::decode(ins) {
            None => (CellView::Idle, ActionView::Fail(Failure::UnknownOpcode)),
            Some(Ins::Menu) => (CellView::Idle, ActionView::ShowMenu),
            Some(Ins::ShowPrivateKey) => (CellView::Idle, ActionView::ShowPrivateKey),
            Some(Ins::Exit) => (CellView::Idle, ActionView::Exit),
            Some(Ins::GetPubkey) => if data.len() == 0 {
                (CellView::Idle, ActionView::Fail(Failure::NothingReceived))
            } else {
                GetAddress::polled(
                    CellView::GetAddress(GetAddressView::ParsePath(bip32_key_format().fresh())),
                    EventView::Chunk(data),
                    capacity,
                )
            },
            Some(Ins::Sign) => if data.len() == 0 {
                (CellView::Idle, ActionView::Fail(Failure::NothingReceived))
            } else {
                Sign::polled(
                    CellView::Sign(SignView::ParseTransaction(transaction_format().fresh())),
                    EventView::Chunk(data),
                    capacity,
                )
            },
        },
        Some(active) => if Ins::decode(ins) == Some(active) {
            delivered(cell, EventView::Chunk(data), capacity)
        } else {
            (CellView::Idle, ActionView::Fail(Failure::OpcodeMismatch))
        },
    }
}

/// Hands the result of an action back to the command in flight.
///
/// The cell afterwards and the action to perform next are those of
/// [`delivered`].
pub fn deliver(cell: &mut ParsersState, event: Event, capacity: usize) -> (action: Action)
    ensures
        final(cell)@ == delivered(old(cell)@, event@, capacity as nat).0,
        action@ == delivered(old(cell)@, event@, capacity as nat).1,
        action@.ends_command() ==> final(cell)@ == CellView::Idle,
        action@ matches ActionView::Respond { bytes, .. } ==> bytes.len() <= capacity,
{
    match cell {
        ParsersState::NoState => Action::Fail(Failure::NoTask),
        ParsersState::GetAddressState(_) => GetAddress.poll(cell, event, capacity),
        ParsersState::SignState(_) => Sign.poll(cell, event, capacity),
    }
}

/// Handles one inbound chunk.
///
/// The cell afterwards and the action to perform are those of
/// [`dispatched`]. After a failure, and after the last slice of a
/// response, the cell is idle.
pub fn handle_apdu(cell: &mut ParsersState, ins: u8, data: &[u8], capacity: usize) -> (action:
    Action)
    ensures
        final(cell)@ == dispatched(old(cell)@, ins, data@, capacity as nat).0,
        action@ == dispatched(old(cell)@, ins, data@, capacity as nat).1,
        action@.ends_command() ==> final(cell)@ == CellView::Idle,
        action@ matches ActionView::Respond { bytes, .. } ==> bytes.len() <= capacity,
{
    let named = Ins::from(ins);
    let active = match cell {
        ParsersState::NoState => None,
        ParsersState::GetAddressState(_) => Some(Ins::GetPubkey),
        ParsersState::SignState(_) => Some(Ins::Sign),
    };
    match active {
        Some(active) => {
            let same = match named {
                Some(named) => named == active,
                None => false,
            };
            if same {
                deliver(cell, Event::Chunk(data), capacity)
            } else {
                cell.cancel();
                Action::Fail(Failure::OpcodeMismatch)
            }
        },
        None => match named {
            None => Action::Fail(Failure::UnknownOpcode),
            Some(Ins::Menu) => Action::ShowMenu,
            Some(Ins::ShowPrivateKey) => Action::ShowPrivateKey,
            Some(Ins::Exit) => Action::Exit,
            Some(Ins::GetPubkey) => {
                if data.len() == 0 {
                    Action::Fail(Failure::NothingReceived)
                } else {
                    GetAddress.init(cell);
                    GetAddress.poll(cell, Event::Chunk(data), capacity)
                }
            },
            Some(Ins::Sign) => {
                if data.len() == 0 {
                    Action::Fail(Failure::NothingReceived)
                } else {
                    Sign.init(cell);
                    Sign.poll(cell, Event::Chunk(data), capacity)
                }
            },
        },
    }
}

/// A failure leaves nothing behind: the cell is idle after it, whatever
/// it held before, and the next chunk is handled exactly as it is on a
/// cell that has never run a command.
pub proof fn failure_leaves_no_trace(
    cell: CellView,
    ins: u8,
    data: Seq<u8>,
    capacity: nat,
    next_ins: u8,
    next_data: Seq<u8>,
    next_capacity: nat,
)
    requires
        dispatched(cell, ins, data, capacity).1 is Fail,
    ensures
        dispatched(cell, ins, data, capacity).0 == CellView::Idle,
        dispatched(dispatched(cell, ins, data, capacity).0, next_ins, next_data, next_capacity)
            == dispatched(CellView::Idle, next_ins, next_data, next_capacity),
{
    command_end_clears_cell(cell, ins, data, capacity);
}

/// The same for a failure that answers the result of an action.
pub proof fn failed_delivery_leaves_no_trace(
    cell: CellView,
    event: EventView,
    capacity: nat,
    next_ins: u8,
    next_data: Seq<u8>,
    next_capacity: nat,
)
    requires
        delivered(cell, event, capacity).1 is Fail,
    ensures
        delivered(cell, event, capacity).0 == CellView::Idle,
        dispatched(delivered(cell, event, capacity).0, next_ins, next_data, next_capacity)
            == dispatched(CellView::Idle, next_ins, next_data, next_capacity),
{
    delivery_end_clears_cell(cell, event, capacity);
}

/// The cell is idle after every action that ends a command, and busy
/// with a command only after an action that does not.
pub proof fn command_end_clears_cell(cell: CellView, ins: u8, data: Seq<u8>, capacity: nat)
    ensures
        dispatched(cell, ins, data, capacity).1.ends_command() ==> dispatched(
            cell,
            ins,
            data,
            capacity,
        ).0 == CellView::Idle,
{
    delivery_end_clears_cell(cell, EventView::Chunk(data), capacity);
    delivery_end_clears_cell(
        CellView::GetAddress(GetAddressView::ParsePath(bip32_key_format().fresh())),
        EventView::Chunk(data),
        capacity,
    );
    delivery_end_clears_cell(
        CellView::Sign(SignView::ParseTransaction(transaction_format().fresh())),
        EventView::Chunk(data),
        capacity,
    );
}

/// [`command_end_clears_cell`] for the result of an action.
pub proof fn delivery_end_clears_cell(cell: CellView, event: EventView, capacity: nat)
    ensures
        delivered(cell, event, capacity).1.ends_command() ==> delivered(cell, event, capacity).0
            == CellView::Idle,
{
}


/// Nothing is signed without the user's consent: a signing request is
/// only ever the answer to an accepted prompt, and the digest it names is
/// the digest that the prompt showed.
pub proof fn signing_needs_consent(cell: CellView, event: EventView, capacity: nat)
    ensures
        delivered(cell, event, capacity).1 matches ActionView::Sign { digest } ==> {
            &&& event == EventView::Confirmed(true)
            &&& cell == CellView::Sign(SignView::AwaitConfirmation { digest })
        },
        delivered(cell, event, capacity).1 matches ActionView::Confirm(
            Prompt::SignHash { digest, .. },
        ) ==> delivered(cell, event, capacity).0 == CellView::Sign(
            SignView::AwaitConfirmation { digest },
        ),
{
}

/// No chunk from the host leads to a signing request or a prompt by
/// itself: both only answer what the caller hands back.
pub proof fn chunks_never_sign(cell: CellView, ins: u8, data: Seq<u8>, capacity: nat)
    ensures
        !(dispatched(cell, ins, data, capacity).1 is Sign),
        !(dispatched(cell, ins, data, capacity).1 is Confirm),
{
}

/// No public key leaves the device without the user's consent: outside
/// the delivery of further slices, a get-address task responds only to an
/// accepted prompt, and then with the key that the prompt was about.
pub proof fn key_release_needs_consent(task: GetAddressView, event: EventView, capacity: nat)
    ensures
        GetAddress::next(task, event, capacity).1 is Respond ==> {
            ||| task is AwaitConfirmation && event == EventView::Confirmed(true)
            ||| task is Emit && event is Chunk
        },
{
}

/// What the chunks of one command lead to, handled one at a time for as
/// long as each is answered with a request for the next.
pub open spec fn dispatched_all(cell: CellView, ins: u8, chunks: Seq<Seq<u8>>, capacity: nat) -> (
    CellView,
    ActionView,
)
    decreases chunks.len(),
{
    if chunks.len() == 0 {
        (cell, ActionView::NeedMore { observed: 0 })
    } else {
        let (after, action) = dispatched(cell, ins, chunks[0], capacity);
        if chunks.len() == 1 || !(action is NeedMore) {
            (after, action)
        } else {
            dispatched_all(after, ins, chunks.drop_first(), capacity)
        }
    }
}


/// The accumulator after the bytes that the caller is told to observe,
/// chunk by chunk, have been folded into `acc` with `f`. Folding stops
/// with the first chunk that is not answered with a request for the next.
pub open spec fn folded_all<A>(
    f: spec_fn(A, u8) -> A,
    acc: A,
    cell: CellView,
    ins: u8,
    chunks: Seq<Seq<u8>>,
    capacity: nat,
) -> A
    decreases chunks.len(),
{
    if chunks.len() == 0 {
        acc
    } else {
        match dispatched(cell, ins, chunks[0], capacity) {
            (after, ActionView::NeedMore { observed }) => folded_all(
                f,
                chunks[0].take(observed as int).fold_left(acc, f),
                after,
                ins,
                chunks.drop_first(),
                capacity,
            ),
            _ => acc,
        }
    }
}

} // verus!
