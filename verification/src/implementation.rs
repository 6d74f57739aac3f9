//! The two commands, get-address and sign, each an ordered sequence of
//! steps, and the cell that holds the one command in flight.
//!
//! A task never calls the cryptography or the display itself. Where a step
//! needs them, the task returns an [`Action`] that says what to do, and
//! waits for the [`Event`] that carries the result.

use crate::buffers::{
    extend_bytes, new_path, new_response, path_segments, push_byte, push_segment, response_bytes,
    response_slice, PATH_CAPACITY, RESPONSE_CAPACITY,
};
use crate::dispatch::{run_parser_apdu, top_level, Parse, ParseView};
use crate::interface::{
    bip32_key, bip32_key_format, span, transaction, transaction_format, Grammar,
};
use crate::parser::{joined, parsed_all, ArrayProgress, ArrayState, Parsed, Value};
use crate::status::{Failure, FailureKind};
use arrayvec::ArrayVec;
use vstd::prelude::*;
use vstd::slice::slice_subrange;

verus! {

/// A public key as the curve library returns it: `w_len` significant bytes
/// at the start of `w`, the first of them a format marker.
#[derive(Clone, Copy, Debug)]
pub struct PublicKey {
    pub w: [u8; 65],
    pub w_len: u32,
}

/// What key derivation hands back: the public key and the hash under which
/// it is shown to the user.
#[derive(Clone, Copy, Debug)]
pub struct DerivedKey {
    pub public_key: PublicKey,
    pub hash: [u8; 20],
}

/// What the user is asked to confirm.
#[derive(Clone, Copy, Debug)]
pub enum Prompt {
    /// Release the public key whose hash is shown.
    ProvidePublicKey { key_hash: [u8; 20] },
    /// Sign the transaction digest shown with the key whose hash is shown.
    SignHash { digest: [u8; 32], key_hash: [u8; 20] },
}

/// What happened outside the engine.
#[derive(Clone, Copy, Debug)]
pub enum Event<'a> {
    /// The host sent a chunk for the active command.
    Chunk(&'a [u8]),
    /// Key derivation finished; `None` when it failed.
    KeyDerived(Option<DerivedKey>),
    /// The transaction digest is final.
    Digest([u8; 32]),
    /// The user answered the prompt.
    Confirmed(bool),
    /// Signing finished; `None` when it failed.
    Signed(Option<&'a [u8]>),
}

/// [`Event`] as plain values.
pub enum EventView {
    Chunk(Seq<u8>),
    KeyDerived(Option<DerivedKey>),
    Digest([u8; 32]),
    Confirmed(bool),
    Signed(Option<Seq<u8>>),
}

impl<'a> View for Event<'a> {
    type V = EventView;

    open spec fn view(&self) -> EventView {
        match *self {
            Event::Chunk(data) => EventView::Chunk(data@),
            Event::KeyDerived(key) => EventView::KeyDerived(key),
            Event::Digest(digest) => EventView::Digest(digest),
            Event::Confirmed(yes) => EventView::Confirmed(yes),
            Event::Signed(Some(bytes)) => EventView::Signed(Some(bytes@)),
            Event::Signed(None) => EventView::Signed(None),
        }
    }
}

/// What the caller has to do next.
#[derive(Debug)]
pub enum Action {
    /// Acknowledge the chunk and wait for the next one. The first
    /// `observed` bytes of the chunk belong to the transaction and are to
    /// be folded into its digest.
    NeedMore { observed: usize },
    /// Derive the key at `path`, then hand back [`Event::KeyDerived`].
    DeriveKey { path: ArrayVec<u32, 10> },
    /// Ask the user, then hand back [`Event::Confirmed`].
    Confirm(Prompt),
    /// Finish the transaction digest, then hand back [`Event::Digest`].
    FinishDigest,
    /// Sign `digest` with the derived key, then hand back
    /// [`Event::Signed`].
    Sign { digest: [u8; 32] },
    /// Send `bytes` to the host with the success status. Unless `last`,
    /// the next chunk for the same opcode fetches the slice that follows.
    Respond { bytes: ArrayVec<u8, 128>, last: bool },
    /// Send the failure status; the command is gone.
    Fail(Failure),
    /// Show the menu.
    ShowMenu,
    /// Show the private key (diagnostic).
    ShowPrivateKey,
    /// Leave the application.
    Exit,
}

/// [`Action`] as plain values.
#[verifier::ext_equal]
pub enum ActionView {
    NeedMore { observed: nat },
    DeriveKey { path: Seq<u32> },
    Confirm(Prompt),
    FinishDigest,
    Sign { digest: [u8; 32] },
    Respond { bytes: Seq<u8>, last: bool },
    Fail(Failure),
    ShowMenu,
    ShowPrivateKey,
    Exit,
}

impl View for Action {
    type V = ActionView;

    open spec fn view(&self) -> ActionView {
        match *self {
            Action::NeedMore { observed } => ActionView::NeedMore { observed: observed as nat },
            Action::DeriveKey { path } => ActionView::DeriveKey { path: path_segments(path) },
            Action::Confirm(prompt) => ActionView::Confirm(prompt),
            Action::FinishDigest => ActionView::FinishDigest,
            Action::Sign { digest } => ActionView::Sign { digest },
            Action::Respond { bytes, last } => ActionView::Respond {
                bytes: response_bytes(bytes),
                last,
            },
            Action::Fail(failure) => ActionView::Fail(failure),
            Action::ShowMenu => ActionView::ShowMenu,
            Action::ShowPrivateKey => ActionView::ShowPrivateKey,
            Action::Exit => ActionView::Exit,
        }
    }
}

impl ActionView {
    /// The command is over after this action: it failed, or its last
    /// slice is on its way.
    pub open spec fn ends_command(self) -> bool {
        match self {
            ActionView::Fail(_) => true,
            ActionView::Respond { last, .. } => last,
            _ => false,
        }
    }
}

/// Tells whether the command is over after `action`.
pub fn ends_command(action: &Action) -> (over: bool)
    ensures
        over == action@.ends_command(),
{
    match action {
        Action::Fail(_) => true,
        Action::Respond { last, .. } => *last,
        _ => false,
    }
}

/// The bytes sent for a public key: its length as one byte, then the key
/// without its format marker. A key whose length is more than the response
/// buffer holds has no response that fits. A key of no length, or of more
/// bytes than a key holds, is unusable.
pub open spec fn encoded_key(key: PublicKey) -> Result<Seq<u8>, Failure> {
    if key.w_len > RESPONSE_CAPACITY {
        Err(Failure::Overflow)
    } else if 1 <= key.w_len <= 65 {
        Ok(seq![key.w_len as u8] + key.w@.subrange(1, key.w_len as int))
    } else {
        Err(Failure::CryptoFailure)
    }
}

/// Builds the response for a public key, or says why there is none.
pub fn encode_key(key: &PublicKey) -> (response: Result<ArrayVec<u8, 128>, Failure>)
    ensures
        match encoded_key(*key) {
            Ok(bytes) => response matches Ok(buffer) && response_bytes(buffer) == bytes,
            Err(failure) => response matches Err(reported) && reported == failure,
        },
{
    if key.w_len as usize > RESPONSE_CAPACITY {
        return Err(Failure::Overflow);
    }
    if key.w_len < 1 || key.w_len > 65 {
        return Err(Failure::CryptoFailure);
    }
    let mut buffer = new_response();
    let pushed = push_byte(&mut buffer, key.w_len as u8);
    let tail = slice_subrange(key.w.as_slice(), 1, key.w_len as usize);
    let extended = extend_bytes(&mut buffer, tail);
    assert(pushed && extended);
    assert(response_bytes(buffer) == seq![key.w_len as u8] + key.w@.subrange(
        1,
        key.w_len as int,
    ));
    Ok(buffer)
}

/// The segment that a parsed value stands for, if it is an integer of at
/// most 32 bits.
pub open spec fn segment_of(value: Parsed) -> Option<u32> {
    match value {
        Parsed::Int(segment) if segment <= u32::MAX => Some(segment as u32),
        _ => None,
    }
}

/// The key path that parsed values stand for. `None` when there are more
/// than ten or one of them is no segment.
pub open spec fn path_of(items: Seq<Parsed>) -> Option<Seq<u32>> {
    if items.len() <= PATH_CAPACITY && forall|i: int|
        0 <= i < items.len() ==> segment_of(items[i]) is Some {
        Some(Seq::new(items.len(), |i: int| segment_of(items[i])->0))
    } else {
        None
    }
}

/// Whatever completes the key path format is a key path: the conversion
/// to segments never fails on it.
pub proof fn key_path_converts(at: ArrayProgress, data: Seq<u8>)
    requires
        at.wf(bip32_key_format()),
    ensures
        top_level(bip32_key_format(), at, data) matches ParseView::Done(items) ==> path_of(items)
            is Some,
{
    let node = bip32_key_format();
    node.resume_bounded(at, data);
    if let ParseView::Done(items) = top_level(node, at, data) {
        assert(Parsed::List(items).fits(Grammar::Array(node)));
        assert(span(4) == 0x1_0000_0000) by {
            reveal_with_fuel(span, 5);
        }
        assert forall|i: int| 0 <= i < items.len() implies segment_of(items[i]) is Some by {
            assert(items[i].fits(*node.element));
        }
    }
}

/// Builds the key path from parsed values.
pub fn make_path(items: &Vec<Value>) -> (made: Option<ArrayVec<u32, 10>>)
    ensures
        match path_of(parsed_all(items@)) {
            Some(segments) => made matches Some(path) && path_segments(path) == segments,
            None => made is None,
        },
{
    let ghost values = parsed_all(items@);
    let mut path = new_path();
    let n = items.len();
    if n > PATH_CAPACITY {
        return None;
    }
    let mut i: usize = 0;
    while i < n
        invariant
            n == items@.len(),
            n <= PATH_CAPACITY,
            i <= n,
            values == parsed_all(items@),
            forall|j: int| 0 <= j < i ==> segment_of(values[j]) is Some,
            path_segments(path) == Seq::new(i as nat, |j: int| segment_of(values[j])->0),
        decreases n - i,
    {
        let segment = match &items[i] {
            Value::Int(segment) => *segment,
            Value::List(_) => {
                assert(segment_of(values[i as int]) is None);
                return None;
            },
        };
        if segment > u32::MAX as u64 {
            assert(segment_of(values[i as int]) is None);
            return None;
        }
        assert(segment_of(values[i as int]) == Some(segment as u32));
        let pushed = push_segment(&mut path, segment as u32);
        assert(pushed);
        i = i + 1;
        assert(path_segments(path) == Seq::new(i as nat, |j: int| segment_of(values[j])->0));
    }
    Some(path)
}

/// What offering up to `capacity` bytes of `response`, of which `sent` are
/// already delivered, comes to: the next slice, marked as last when it
/// completes the response, and the count delivered after it. A count
/// beyond the end of the response stands for the end. A buffer without
/// room for a single byte cannot deliver what is left.
pub open spec fn emitted(response: Seq<u8>, sent: nat, capacity: nat) -> (ActionView, nat) {
    let from = if sent < response.len() {
        sent
    } else {
        response.len()
    };
    let left = (response.len() - from) as nat;
    let n = if capacity < left {
        capacity
    } else {
        left
    };
    if n == 0 && left > 0 {
        (ActionView::Fail(Failure::Overflow), from)
    } else {
        (
            ActionView::Respond {
                bytes: response.subrange(from as int, (from + n) as int),
                last: n == left,
            },
            from + n,
        )
    }
}

/// Cuts the next slice of at most `capacity` bytes from `response`.
pub fn emit(response: &ArrayVec<u8, 128>, sent: usize, capacity: usize) -> (out: (Action, usize))
    ensures
        out.0@ == emitted(response_bytes(*response), sent as nat, capacity as nat).0,
        out.1 == emitted(response_bytes(*response), sent as nat, capacity as nat).1,
        out.1 <= response_bytes(*response).len(),
        out.0@ matches ActionView::Respond { bytes, .. } ==> bytes.len() <= capacity,
{
    let all = response_slice(response);
    let from = if sent < all.len() {
        sent
    } else {
        all.len()
    };
    let left = all.len() - from;
    let n = if capacity < left {
        capacity
    } else {
        left
    };
    if n == 0 && left > 0 {
        return (Action::Fail(Failure::Overflow), from);
    }
    let mut bytes = new_response();
    let extended = extend_bytes(&mut bytes, slice_subrange(all, from, from + n));
    assert(extended);
    (Action::Respond { bytes, last: n == left }, from + n)
}

/// Position of a get-address task in its sequence of steps.
#[derive(Clone, Copy, Debug, PartialEq, Eq, Structural)]
pub enum GetAddressStep {
    /// Reading the key path from the host.
    ParsePath,
    /// Waiting for the derived key.
    AwaitKey,
    /// Waiting for the user's answer.
    AwaitConfirmation,
    /// Delivering a response too long for one chunk.
    Emit,
}

/// The get-address command in flight.
pub struct GetAddressTask {
    step: GetAddressStep,
    path: ArrayState,
    key: Option<PublicKey>,
    response: ArrayVec<u8, 128>,
    sent: usize,
}

/// A get-address task as plain values: its step and what that step holds.
#[verifier::ext_equal]
pub enum GetAddressView {
    /// Reading the key path, with the progress made.
    ParsePath(ArrayProgress),
    /// Waiting for the derived key.
    AwaitKey,
    /// Waiting for the user's answer, holding the key to release.
    AwaitConfirmation(PublicKey),
    /// Delivering `response`, of which `sent` bytes are out.
    Emit { response: Seq<u8>, sent: nat },
}

impl View for GetAddressTask {
    type V = GetAddressView;

    closed spec fn view(&self) -> GetAddressView {
        match self.step {
            GetAddressStep::ParsePath => GetAddressView::ParsePath(self.path@),
            GetAddressStep::AwaitKey => GetAddressView::AwaitKey,
            GetAddressStep::AwaitConfirmation => GetAddressView::AwaitConfirmation(
                match self.key {
                    Some(key) => key,
                    None => arbitrary(),
                },
            ),
            GetAddressStep::Emit => GetAddressView::Emit {
                response: response_bytes(self.response),
                sent: self.sent as nat,
            },
        }
    }
}

impl GetAddressTask {
    #[verifier::type_invariant]
    spec fn wf(&self) -> bool {
        &&& self.path@.wf(bip32_key_format())
        &&& self.step == GetAddressStep::AwaitConfirmation ==> self.key is Some
        &&& self.sent <= response_bytes(self.response).len()
    }

    /// A task at its first step, with nothing read.
    pub fn new() -> (task: Self)
        ensures
            task@ == GetAddressView::ParsePath(bip32_key_format().fresh()),
    {
        GetAddressTask {
            step: GetAddressStep::ParsePath,
            path: bip32_key().start(),
            key: None,
            response: new_response(),
            sent: 0,
        }
    }

    /// The step the task is at.
    pub fn step(&self) -> (step: GetAddressStep)
        ensures
            step == match self@ {
                GetAddressView::ParsePath(_) => GetAddressStep::ParsePath,
                GetAddressView::AwaitKey => GetAddressStep::AwaitKey,
                GetAddressView::AwaitConfirmation(_) => GetAddressStep::AwaitConfirmation,
                GetAddressView::Emit { .. } => GetAddressStep::Emit,
            },
    {
        self.step
    }
}

/// The slices in which what is left of `response` after `sent` bytes goes
/// out, `capacity` bytes at a time.
pub open spec fn slices(response: Seq<u8>, sent: nat, capacity: nat) -> Seq<Seq<u8>>
    decreases response.len() - sent,
{
    if sent > response.len() {
        Seq::empty()
    } else {
        match emitted(response, sent, capacity) {
            (ActionView::Respond { bytes, last }, next) => if last || next <= sent {
                seq![bytes]
            } else {
                seq![bytes] + slices(response, next, capacity)
            },
            _ => Seq::empty(),
        }
    }
}

/// A response that takes several exchanges arrives whole: the slices, in
/// the order they are sent, make up exactly the bytes that were left, none
/// twice and none missing, and no slice is longer than the outgoing buffer.
pub proof fn slices_deliver_response(response: Seq<u8>, sent: nat, capacity: nat)
    requires
        capacity > 0,
        sent <= response.len(),
    ensures
        joined(slices(response, sent, capacity)) == response.skip(sent as int),
        forall|i: int|
            0 <= i < slices(response, sent, capacity).len() ==> (#[trigger] slices(
                response,
                sent,
                capacity,
            )[i]).len() <= capacity,
    decreases response.len() - sent,
{
    let (action, next) = emitted(response, sent, capacity);
    let all = slices(response, sent, capacity);
    match action {
        ActionView::Respond { bytes, last } => {
            if last || next <= sent {
                assert(all.drop_first() == Seq::<Seq<u8>>::empty());
                assert(joined(all) == bytes + joined(all.drop_first()));
                assert(bytes + Seq::<u8>::empty() == response.skip(sent as int));
            } else {
                let rest = slices(response, next, capacity);
                slices_deliver_response(response, next, capacity);
                assert(all.drop_first() == rest);
                assert(joined(all) == bytes + joined(rest));
                assert(bytes + response.skip(next as int) == response.skip(sent as int));
            }
        },
        _ => {},
    }
}

/// What the end of a response slice means for the task that emits it: the
/// task goes on from `sent` unless the action ends the command.
pub open spec fn emission(response: Seq<u8>, sent: nat, capacity: nat) -> (Option<nat>, ActionView) {
    let (action, next) = emitted(response, sent, capacity);
    (
        if action.ends_command() {
            None
        } else {
            Some(next)
        },
        action,
    )
}

/// The get-address command: read a key path, derive the public key, ask
/// the user, send the key.
#[derive(Clone, Copy, Debug)]
pub struct GetAddress;

impl GetAddress {
    /// The step function of the command: what `event` leads to for a task
    /// at `task`, as the task that goes on (`None` when the command is
    /// over) and the action to perform.
    pub open spec fn next(task: GetAddressView, event: EventView, capacity: nat) -> (
        Option<GetAddressView>,
        ActionView,
    ) {
        match (task, event) {
            (GetAddressView::ParsePath(at), EventView::Chunk(data)) => match top_level(
                bip32_key_format(),
                at,
                data,
            ) {
                ParseView::NeedMore(progress) => (
                    Some(GetAddressView::ParsePath(progress)),
                    ActionView::NeedMore { observed: 0 },
                ),
                ParseView::Done(items) => match path_of(items) {
                    Some(path) => (Some(GetAddressView::AwaitKey), ActionView::DeriveKey { path }),
                    None => (None, ActionView::Fail(Failure::Malformed)),
                },
                ParseView::Fail(failure) => (None, ActionView::Fail(failure)),
            },
            (GetAddressView::AwaitKey, EventView::KeyDerived(Some(key))) => (
                Some(GetAddressView::AwaitConfirmation(key.public_key)),
                ActionView::Confirm(Prompt::ProvidePublicKey { key_hash: key.hash }),
            ),
            (GetAddressView::AwaitKey, EventView::KeyDerived(None)) => (
                None,
                ActionView::Fail(Failure::CryptoFailure),
            ),
            (GetAddressView::AwaitConfirmation(key), EventView::Confirmed(true)) => match encoded_key(
                key,
            ) {
                Ok(response) => {
                    let (sent, action) = emission(response, 0, capacity);
                    (
                        match sent {
                            Some(sent) => Some(GetAddressView::Emit { response, sent }),
                            None => None,
                        },
                        action,
                    )
                },
                Err(failure) => (None, ActionView::Fail(failure)),
            },
            (GetAddressView::AwaitConfirmation(_), EventView::Confirmed(false)) => (
                None,
                ActionView::Fail(Failure::Declined),
            ),
            (GetAddressView::Emit { response, sent }, EventView::Chunk(_)) => {
                let (sent, action) = emission(response, sent, capacity);
                (
                    match sent {
                        Some(sent) => Some(GetAddressView::Emit { response, sent }),
                        None => None,
                    },
                    action,
                )
            },
            _ => (None, ActionView::Fail(Failure::UnexpectedEvent)),
        }
    }

    /// Advances `task` by one event.
    ///
    /// The task that goes on and the action to perform are those of
    /// [`GetAddress::next`]: `None` comes back where the command is over.
    pub fn run(self, task: GetAddressTask, event: Event, capacity: usize) -> (out: (
        Option<GetAddressTask>,
        Action,
    ))
        ensures
            out.1@ == Self::next(task@, event@, capacity as nat).1,
            match Self::next(task@, event@, capacity as nat).0 {
                Some(after) => out.0 matches Some(next) && next@ == after,
                None => out.0 is None,
            },
            out.1@ matches ActionView::Respond { bytes, .. } ==> bytes.len() <= capacity,
    {
        proof {
            use_type_invariant(&task);
        }
        let GetAddressTask { step, path, key, response, sent } = task;
        let mut path = path;
        match (step, event) {
            (GetAddressStep::ParsePath, Event::Chunk(data)) => {
                let node = bip32_key();
                match run_parser_apdu(&node, &mut path, data) {
                    Parse::NeedMore => (
                        Some(GetAddressTask { step, path, key, response, sent }),
                        Action::NeedMore { observed: 0 },
                    ),
                    Parse::Done(items) => match make_path(&items) {
                        Some(derive) => (
                            Some(
                                GetAddressTask {
                                    step: GetAddressStep::AwaitKey,
                                    path,
                                    key,
                                    response,
                                    sent,
                                },
                            ),
                            Action::DeriveKey { path: derive },
                        ),
                        None => (None, Action::Fail(Failure::Malformed)),
                    },
                    Parse::Fail(failure) => (None, Action::Fail(failure)),
                }
            },
            (GetAddressStep::AwaitKey, Event::KeyDerived(Some(derived))) => (
                Some(
                    GetAddressTask {
                        step: GetAddressStep::AwaitConfirmation,
                        path,
                        key: Some(derived.public_key),
                        response,
                        sent,
                    },
                ),
                Action::Confirm(Prompt::ProvidePublicKey { key_hash: derived.hash }),
            ),
            (GetAddressStep::AwaitKey, Event::KeyDerived(None)) => (
                None,
                Action::Fail(Failure::CryptoFailure),
            ),
            (GetAddressStep::AwaitConfirmation, Event::Confirmed(true)) => {
                let encoded = match key {
                    Some(key) => encode_key(&key),
                    None => Err(Failure::CryptoFailure),
                };
                match encoded {
                    Ok(response) => {
                        let (action, sent) = emit(&response, 0, capacity);
                        let over = ends_command(&action);
                        if over {
                            (None, action)
                        } else {
                            (
                                Some(
                                    GetAddressTask {
                                        step: GetAddressStep::Emit,
                                        path,
                                        key,
                                        response,
                                        sent,
                                    },
                                ),
                                action,
                            )
                        }
                    },
                    Err(failure) => (None, Action::Fail(failure)),
                }
            },
            (GetAddressStep::AwaitConfirmation, Event::Confirmed(false)) => (
                None,
                Action::Fail(Failure::Declined),
            ),
            (GetAddressStep::Emit, Event::Chunk(_)) => {
                let (action, sent) = emit(&response, sent, capacity);
                let over = ends_command(&action);
                if over {
                    (None, action)
                } else {
                    (Some(GetAddressTask { step, path, key, response, sent }), action)
                }
            },
            _ => (None, Action::Fail(Failure::UnexpectedEvent)),
        }
    }
}

/// A key that the response buffer cannot hold is a fatal fault: once the
/// prompt is accepted the command ends with the overflow failure, and no
/// byte of the key is sent. The same holds of a signature that does not
/// fit.
pub proof fn oversized_response_is_a_fatal_fault(
    key: PublicKey,
    signature: Seq<u8>,
    capacity: nat,
)
    ensures
        key.w_len > RESPONSE_CAPACITY ==> GetAddress::next(
            GetAddressView::AwaitConfirmation(key),
            EventView::Confirmed(true),
            capacity,
        ) == (None::<GetAddressView>, ActionView::Fail(Failure::Overflow)),
        signature.len() > RESPONSE_CAPACITY ==> Sign::next(
            SignView::AwaitSignature,
            EventView::Signed(Some(signature)),
            capacity,
        ) == (None::<SignView>, ActionView::Fail(Failure::Overflow)),
        Failure::Overflow.kind_of() == FailureKind::FatalFault,
{
}

/// Position of a sign task in its sequence of steps.
#[derive(Clone, Copy, Debug, PartialEq, Eq, Structural)]
pub enum SignStep {
    /// Reading the transaction from the host, every byte observed.
    ParseTransaction,
    /// Reading the key path from the host.
    ParsePath,
    /// Waiting for the derived key.
    AwaitKey,
    /// Waiting for the final digest.
    AwaitDigest,
    /// Waiting for the user's answer.
    AwaitConfirmation,
    /// Waiting for the signature.
    AwaitSignature,
    /// Delivering a response too long for one chunk.
    Emit,
}

/// The sign command in flight.
pub struct SignTask {
    step: SignStep,
    transaction: ArrayState,
    path: ArrayState,
    key_hash: [u8; 20],
    digest: [u8; 32],
    response: ArrayVec<u8, 128>,
    sent: usize,
}

/// A sign task as plain values: its step and what that step holds.
#[verifier::ext_equal]
pub enum SignView {
    /// Reading the transaction, with the progress made.
    ParseTransaction(ArrayProgress),
    /// Reading the key path, with the progress made.
    ParsePath(ArrayProgress),
    /// Waiting for the derived key.
    AwaitKey,
    /// Waiting for the final digest, holding the hash of the derived key.
    AwaitDigest { key_hash: [u8; 20] },
    /// Waiting for the user's answer to the prompt that shows `digest`.
    AwaitConfirmation { digest: [u8; 32] },
    /// Waiting for the signature.
    AwaitSignature,
    /// Delivering `response`, of which `sent` bytes are out.
    Emit { response: Seq<u8>, sent: nat },
}

impl View for SignTask {
    type V = SignView;

    closed spec fn view(&self) -> SignView {
        match self.step {
            SignStep::ParseTransaction => SignView::ParseTransaction(self.transaction@),
            SignStep::ParsePath => SignView::ParsePath(self.path@),
            SignStep::AwaitKey => SignView::AwaitKey,
            SignStep::AwaitDigest => SignView::AwaitDigest { key_hash: self.key_hash },
            SignStep::AwaitConfirmation => SignView::AwaitConfirmation { digest: self.digest },
            SignStep::AwaitSignature => SignView::AwaitSignature,
            SignStep::Emit => SignView::Emit {
                response: response_bytes(self.response),
                sent: self.sent as nat,
            },
        }
    }
}

impl SignTask {
    #[verifier::type_invariant]
    spec fn wf(&self) -> bool {
        &&& self.transaction@.wf(transaction_format())
        &&& self.path@.wf(bip32_key_format())
        &&& self.sent <= response_bytes(self.response).len()
    }

    /// A task at its first step, with nothing read.
    pub fn new() -> (task: Self)
        ensures
            task@ == SignView::ParseTransaction(transaction_format().fresh()),
    {
        SignTask {
            step: SignStep::ParseTransaction,
            transaction: transaction().start(),
            path: bip32_key().start(),
            key_hash: [0u8; 20],
            digest: [0u8; 32],
            response: new_response(),
            sent: 0,
        }
    }

    /// The step the task is at.
    pub fn step(&self) -> (step: SignStep)
        ensures
            step == match self@ {
                SignView::ParseTransaction(_) => SignStep::ParseTransaction,
                SignView::ParsePath(_) => SignStep::ParsePath,
                SignView::AwaitKey => SignStep::AwaitKey,
                SignView::AwaitDigest { .. } => SignStep::AwaitDigest,
                SignView::AwaitConfirmation { .. } => SignStep::AwaitConfirmation,
                SignView::AwaitSignature => SignStep::AwaitSignature,
                SignView::Emit { .. } => SignStep::Emit,
            },
    {
        self.step
    }
}

/// The sign command: read a transaction while its bytes are folded into a
/// digest, read a key path, derive the key, show the user the digest and
/// the key's hash, sign the digest that was shown, send the signature.
#[derive(Clone, Copy, Debug)]
pub struct Sign;

impl Sign {
    /// The step function of the command: what `event` leads to for a task
    /// at `task`, as the task that goes on (`None` when the command is
    /// over) and the action to perform.
    ///
    /// While the transaction is read, every chunk is observed whole: a
    /// chunk the transaction does not fill to its end fails the command.
    pub open spec fn next(task: SignView, event: EventView, capacity: nat) -> (
        Option<SignView>,
        ActionView,
    ) {
        match (task, event) {
            (SignView::ParseTransaction(at), EventView::Chunk(data)) => match top_level(
                transaction_format(),
                at,
                data,
            ) {
                ParseView::NeedMore(progress) => (
                    Some(SignView::ParseTransaction(progress)),
                    ActionView::NeedMore { observed: data.len() },
                ),
                ParseView::Done(_) => (
                    Some(SignView::ParsePath(bip32_key_format().fresh())),
                    ActionView::NeedMore { observed: data.len() },
                ),
                ParseView::Fail(failure) => (None, ActionView::Fail(failure)),
            },
            (SignView::ParsePath(at), EventView::Chunk(data)) => match top_level(
                bip32_key_format(),
                at,
                data,
            ) {
                ParseView::NeedMore(progress) => (
                    Some(SignView::ParsePath(progress)),
                    ActionView::NeedMore { observed: 0 },
                ),
                ParseView::Done(items) => match path_of(items) {
                    Some(path) => (Some(SignView::AwaitKey), ActionView::DeriveKey { path }),
                    None => (None, ActionView::Fail(Failure::Malformed)),
                },
                ParseView::Fail(failure) => (None, ActionView::Fail(failure)),
            },
            (SignView::AwaitKey, EventView::KeyDerived(Some(key))) => (
                Some(SignView::AwaitDigest { key_hash: key.hash }),
                ActionView::FinishDigest,
            ),
            (SignView::AwaitDigest { key_hash }, EventView::Digest(digest)) => (
                Some(SignView::AwaitConfirmation { digest }),
                ActionView::Confirm(Prompt::SignHash { digest, key_hash }),
            ),
            (SignView::AwaitKey, EventView::KeyDerived(None)) => (
                None,
                ActionView::Fail(Failure::CryptoFailure),
            ),
            (SignView::AwaitConfirmation { digest }, EventView::Confirmed(true)) => (
                Some(SignView::AwaitSignature),
                ActionView::Sign { digest },
            ),
            (SignView::AwaitConfirmation { .. }, EventView::Confirmed(false)) => (
                None,
                ActionView::Fail(Failure::Declined),
            ),
            (SignView::AwaitSignature, EventView::Signed(Some(signature))) => if signature.len()
                > RESPONSE_CAPACITY {
                (None, ActionView::Fail(Failure::Overflow))
            } else {
                let (sent, action) = emission(signature, 0, capacity);
                (
                    match sent {
                        Some(sent) => Some(SignView::Emit { response: signature, sent }),
                        None => None,
                    },
                    action,
                )
            },
            (SignView::AwaitSignature, EventView::Signed(None)) => (
                None,
                ActionView::Fail(Failure::CryptoFailure),
            ),
            (SignView::Emit { response, sent }, EventView::Chunk(_)) => {
                let (sent, action) = emission(response, sent, capacity);
                (
                    match sent {
                        Some(sent) => Some(SignView::Emit { response, sent }),
                        None => None,
                    },
                    action,
                )
            },
            _ => (None, ActionView::Fail(Failure::UnexpectedEvent)),
        }
    }

    /// Advances `task` by one event.
    ///
    /// The task that goes on and the action to perform are those of
    /// [`Sign::next`]: `None` comes back where the command is over.
    pub fn run(self, task: SignTask, event: Event, capacity: usize) -> (out: (
        Option<SignTask>,
        Action,
    ))
        ensures
            out.1@ == Self::next(task@, event@, capacity as nat).1,
            match Self::next(task@, event@, capacity as nat).0 {
                Some(after) => out.0 matches Some(next) && next@ == after,
                None => out.0 is None,
            },
            out.1@ matches ActionView::Respond { bytes, .. } ==> bytes.len() <= capacity,
    {
        proof {
            use_type_invariant(&task);
        }
        let SignTask { step, transaction: body, path, key_hash, digest, response, sent } = task;
        let mut body = body;
        let mut path = path;
        match (step, event) {
            (SignStep::ParseTransaction, Event::Chunk(data)) => {
                let node = transaction();
                match run_parser_apdu(&node, &mut body, data) {
                    Parse::NeedMore => (
                        Some(
                            SignTask {
                                step,
                                transaction: body,
                                path,
                                key_hash,
                                digest,
                                response,
                                sent,
                            },
                        ),
                        Action::NeedMore { observed: data.len() },
                    ),
                    Parse::Done(_) => (
                        Some(
                            SignTask {
                                step: SignStep::ParsePath,
                                transaction: body,
                                path: bip32_key().start(),
                                key_hash,
                                digest,
                                response,
                                sent,
                            },
                        ),
                        Action::NeedMore { observed: data.len() },
                    ),
                    Parse::Fail(failure) => (None, Action::Fail(failure)),
                }
            },
            (SignStep::ParsePath, Event::Chunk(data)) => {
                let node = bip32_key();
                match run_parser_apdu(&node, &mut path, data) {
                    Parse::NeedMore => (
                        Some(
                            SignTask {
                                step,
                                transaction: body,
                                path,
                                key_hash,
                                digest,
                                response,
                                sent,
                            },
                        ),
                        Action::NeedMore { observed: 0 },
                    ),
                    Parse::Done(items) => match make_path(&items) {
                        Some(derive) => (
                            Some(
                                SignTask {
                                    step: SignStep::AwaitKey,
                                    transaction: body,
                                    path,
                                    key_hash,
                                    digest,
                                    response,
                                    sent,
                                },
                            ),
                            Action::DeriveKey { path: derive },
                        ),
                        None => (None, Action::Fail(Failure::Malformed)),
                    },
                    Parse::Fail(failure) => (None, Action::Fail(failure)),
                }
            },
            (SignStep::AwaitKey, Event::KeyDerived(Some(derived))) => (
                Some(
                    SignTask {
                        step: SignStep::AwaitDigest,
                        transaction: body,
                        path,
                        key_hash: derived.hash,
                        digest,
                        response,
                        sent,
                    },
                ),
                Action::FinishDigest,
            ),
            (SignStep::AwaitKey, Event::KeyDerived(None)) => (
                None,
                Action::Fail(Failure::CryptoFailure),
            ),
            (SignStep::AwaitDigest, Event::Digest(finished)) => (
                Some(
                    SignTask {
                        step: SignStep::AwaitConfirmation,
                        transaction: body,
                        path,
                        key_hash,
                        digest: finished,
                        response,
                        sent,
                    },
                ),
                Action::Confirm(Prompt::SignHash { digest: finished, key_hash }),
            ),
            (SignStep::AwaitConfirmation, Event::Confirmed(true)) => (
                Some(
                    SignTask {
                        step: SignStep::AwaitSignature,
                        transaction: body,
                        path,
                        key_hash,
                        digest,
                        response,
                        sent,
                    },
                ),
                Action::Sign { digest },
            ),
            (SignStep::AwaitConfirmation, Event::Confirmed(false)) => (
                None,
                Action::Fail(Failure::Declined),
            ),
            (SignStep::AwaitSignature, Event::Signed(Some(signature))) => {
                let mut response = new_response();
                if !extend_bytes(&mut response, signature) {
                    return (None, Action::Fail(Failure::Overflow));
                }
                let (action, sent) = emit(&response, 0, capacity);
                let over = ends_command(&action);
                if over {
                    (None, action)
                } else {
                    (
                        Some(
                            SignTask {
                                step: SignStep::Emit,
                                transaction: body,
                                path,
                                key_hash,
                                digest,
                                response,
                                sent,
                            },
                        ),
                        action,
                    )
                }
            },
            (SignStep::AwaitSignature, Event::Signed(None)) => (
                None,
                Action::Fail(Failure::CryptoFailure),
            ),
            (SignStep::Emit, Event::Chunk(_)) => {
                let (action, sent) = emit(&response, sent, capacity);
                let over = ends_command(&action);
                if over {
                    (None, action)
                } else {
                    (
                        Some(
                            SignTask {
                                step,
                                transaction: body,
                                path,
                                key_hash,
                                digest,
                                response,
                                sent,
                            },
                        ),
                        action,
                    )
                }
            },
            _ => (None, Action::Fail(Failure::UnexpectedEvent)),
        }
    }
}

/// The command state cell: idle, or the one command in flight.
pub enum ParsersState {
    NoState,
    GetAddressState(GetAddressTask),
    SignState(SignTask),
}

/// The cell as plain values.
#[verifier::ext_equal]
pub enum CellView {
    Idle,
    GetAddress(GetAddressView),
    Sign(SignView),
}

impl View for ParsersState {
    type V = CellView;

    open spec fn view(&self) -> CellView {
        match self {
            ParsersState::NoState => CellView::Idle,
            ParsersState::GetAddressState(task) => CellView::GetAddress(task@),
            ParsersState::SignState(task) => CellView::Sign(task@),
        }
    }
}

impl Default for ParsersState {
    fn default() -> (cell: Self)
        ensures
            cell@ == CellView::Idle,
    {
        ParsersState::NoState
    }
}

impl ParsersState {
    /// True exactly when no command is in flight.
    pub fn is_idle(&self) -> (idle: bool)
        ensures
            idle <==> self@ == CellView::Idle,
    {
        match self {
            ParsersState::NoState => true,
            _ => false,
        }
    }

    /// Discards whatever command is in flight, without running any of its
    /// remaining steps.
    pub fn cancel(&mut self)
        ensures
            final(self)@ == CellView::Idle,
    {
        *self = ParsersState::NoState;
    }
}

impl GetAddress {
    /// What handing `event` to the get-address task of the cell leads to.
    /// A cell that holds no such task is answered with a failure, and so
    /// ends up idle just like a cell whose command is over.
    pub open spec fn polled(cell: CellView, event: EventView, capacity: nat) -> (
        CellView,
        ActionView,
    ) {
        match cell {
            CellView::GetAddress(task) => {
                let (after, action) = Self::next(task, event, capacity);
                (
                    match after {
                        Some(task) => CellView::GetAddress(task),
                        None => CellView::Idle,
                    },
                    action,
                )
            },
            _ => (CellView::Idle, ActionView::Fail(Failure::NoTask)),
        }
    }

    /// Puts a new get-address task into the cell. Whatever the cell held
    /// is gone.
    pub fn init(self, cell: &mut ParsersState)
        ensures
            final(cell)@ == CellView::GetAddress(
                GetAddressView::ParsePath(bip32_key_format().fresh()),
            ),
    {
        *cell = ParsersState::GetAddressState(GetAddressTask::new());
    }

    /// Hands `event` to the get-address task in the cell and clears the
    /// cell when the command is over.
    pub fn poll(self, cell: &mut ParsersState, event: Event, capacity: usize) -> (action: Action)
        ensures
            final(cell)@ == Self::polled(old(cell)@, event@, capacity as nat).0,
            action@ == Self::polled(old(cell)@, event@, capacity as nat).1,
            action@ matches ActionView::Respond { bytes, .. } ==> bytes.len() <= capacity,
    {
        let mut held = ParsersState::NoState;
        std::mem::swap(&mut held, cell);
        match held {
            ParsersState::GetAddressState(task) => {
                let (after, action) = self.run(task, event, capacity);
                if let Some(task) = after {
                    *cell = ParsersState::GetAddressState(task);
                }
                action
            },
            _ => Action::Fail(Failure::NoTask),
        }
    }
}

impl Sign {
    /// What handing `event` to the sign task of the cell leads to. A cell
    /// that holds no such task is answered with a failure, and so ends up
    /// idle just like a cell whose command is over.
    pub open spec fn polled(cell: CellView, event: EventView, capacity: nat) -> (
        CellView,
        ActionView,
    ) {
        match cell {
            CellView::Sign(task) => {
                let (after, action) = Self::next(task, event, capacity);
                (
                    match after {
                        Some(task) => CellView::Sign(task),
                        None => CellView::Idle,
                    },
                    action,
                )
            },
            _ => (CellView::Idle, ActionView::Fail(Failure::NoTask)),
        }
    }

    /// Puts a new sign task into the cell. Whatever the cell held is gone.
    pub fn init(self, cell: &mut ParsersState)
        ensures
            final(cell)@ == CellView::Sign(SignView::ParseTransaction(transaction_format().fresh())),
    {
        *cell = ParsersState::SignState(SignTask::new());
    }

    /// Hands `event` to the sign task in the cell and clears the cell when
    /// the command is over.
    pub fn poll(self, cell: &mut ParsersState, event: Event, capacity: usize) -> (action: Action)
        ensures
            final(cell)@ == Self::polled(old(cell)@, event@, capacity as nat).0,
            action@ == Self::polled(old(cell)@, event@, capacity as nat).1,
            action@ matches ActionView::Respond { bytes, .. } ==> bytes.len() <= capacity,
    {
        let mut held = ParsersState::NoState;
        std::mem::swap(&mut held, cell);
        match held {
            ParsersState::SignState(task) => {
                let (after, action) = self.run(task, event, capacity);
                if let Some(task) = after {
                    *cell = ParsersState::SignState(task);
                }
                action
            },
            _ => Action::Fail(Failure::NoTask),
        }
    }
}

} // verus!
