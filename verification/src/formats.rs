//! What the grammar reads, said the other way round: the bytes that stand
//! for a value, and the laws that parsing those bytes gives the value back.

use crate::dispatch::{dispatched, dispatched_all, folded_all, top_level, ParseView};
use crate::implementation::{path_of, ActionView, CellView, GetAddressView, SignView};
use crate::interface::{
    be_value, bip32_key_format, le_value, span, transaction_format, ArrayNode, Count, Endianness,
    Grammar, IntNode,
};
use crate::parser::{fold_joins, joined, ArrayProgress, Parsed, Progress, Step};
use vstd::prelude::*;

verus! {

/// The `width` bytes of `value`, least significant first.
pub open spec fn le_bytes(value: nat, width: nat) -> Seq<u8>
    decreases width,
{
    if width == 0 {
        Seq::empty()
    } else {
        seq![(value % 256) as u8] + le_bytes(value / 256, (width - 1) as nat)
    }
}

/// The `width` bytes of `value`, most significant first.
pub open spec fn be_bytes(value: nat, width: nat) -> Seq<u8>
    decreases width,
{
    if width == 0 {
        Seq::empty()
    } else {
        be_bytes(value / 256, (width - 1) as nat).push((value % 256) as u8)
    }
}

/// Reading the little-endian bytes of a value that fits the width gives
/// the value back.
pub proof fn le_bytes_decode(value: nat, width: nat)
    requires
        value < span(width),
    ensures
        le_bytes(value, width).len() == width,
        le_value(le_bytes(value, width)) == value,
    decreases width,
{
    if width > 0 {
        let rest = le_bytes(value / 256, (width - 1) as nat);
        le_bytes_decode(value / 256, (width - 1) as nat);
        assert(le_bytes(value, width).drop_first() == rest);
    }
}

/// Reading the big-endian bytes of a value that fits the width gives the
/// value back.
pub proof fn be_bytes_decode(value: nat, width: nat)
    requires
        value < span(width),
    ensures
        be_bytes(value, width).len() == width,
        be_value(be_bytes(value, width)) == value,
    decreases width,
{
    if width > 0 {
        let rest = be_bytes(value / 256, (width - 1) as nat);
        be_bytes_decode(value / 256, (width - 1) as nat);
        assert(be_bytes(value, width).drop_last() == rest);
    }
}

impl IntNode {
    /// The bytes that stand for `value` under this node.
    pub open spec fn encode(&self, value: nat) -> Seq<u8> {
        match self.endianness {
            Endianness::Little => le_bytes(value, self.width as nat),
            Endianness::Big => be_bytes(value, self.width as nat),
        }
    }

    /// An integer that fits the width is read back from its bytes, whatever
    /// follows them.
    pub proof fn reads_back(&self, value: u64, rest: Seq<u8>)
        requires
            self.wf(),
            value < span(self.width as nat),
        ensures
            self.encode(value as nat).len() == self.width,
            self.resume(Seq::empty(), self.encode(value as nat) + rest) == (Step::<
                Seq<u8>,
                u64,
            >::Done { value, used: self.width as nat }),
    {
        let bytes = self.encode(value as nat);
        le_bytes_decode(value as nat, self.width as nat);
        be_bytes_decode(value as nat, self.width as nat);
        assert(Seq::<u8>::empty() + (bytes + rest).take(self.width as int) == bytes);
    }
}


impl ArrayNode {
    /// The bytes that announce `n` elements: the count prefix where the
    /// node has one, nothing where the count is fixed.
    pub open spec fn encode_count(&self, n: nat) -> Seq<u8> {
        match self.count {
            Count::Prefixed(prefix) => prefix.encode(n),
            Count::Fixed(_) => Seq::empty(),
        }
    }

    /// The bytes that stand for the elements `items`, one after the other.
    pub open spec fn encode_items(&self, items: Seq<Parsed>) -> Seq<u8>
        decreases self, 0nat, items.len(),
    {
        if items.len() == 0 {
            Seq::empty()
        } else {
            self.element.encode(items[0]) + self.encode_items(items.drop_first())
        }
    }

    /// `items` is a list that the node can yield and that its bytes
    /// determine: the node keeps its elements, the count is within the
    /// bound and is the fixed one or fits the prefix, and each element is
    /// written by the child node.
    pub open spec fn writes(&self, items: Seq<Parsed>) -> bool
        decreases self, 0nat, 0nat,
    {
        &&& self.keep
        &&& items.len() <= self.bound
        &&& match self.count {
            Count::Fixed(n) => items.len() == n,
            Count::Prefixed(prefix) => items.len() < span(prefix.width as nat),
        }
        &&& forall|i: int| 0 <= i < items.len() ==> self.element.writes(#[trigger] items[i])
    }
}

impl Grammar {
    /// The bytes that stand for `value` under this grammar.
    pub open spec fn encode(&self, value: Parsed) -> Seq<u8>
        decreases self, 1nat, 0nat,
    {
        match (self, value) {
            (Grammar::Int(node), Parsed::Int(value)) => node.encode(value as nat),
            (Grammar::Array(node), Parsed::List(items)) => node.encode_count(items.len())
                + node.encode_items(items),
            _ => Seq::empty(),
        }
    }

    /// `value` is one that the grammar can yield and that its bytes
    /// determine.
    pub open spec fn writes(&self, value: Parsed) -> bool
        decreases self, 1nat, 0nat,
    {
        match (self, value) {
            (Grammar::Int(node), Parsed::Int(value)) => value < span(node.width as nat),
            (Grammar::Array(node), Parsed::List(items)) => node.writes(items),
            _ => false,
        }
    }

    /// Parsing the bytes of a value gives the value back and stops right
    /// behind them, whatever follows.
    pub proof fn reads_back(&self, value: Parsed, rest: Seq<u8>)
        requires
            self.wf(),
            self.writes(value),
        ensures
            self.resume(self.fresh(), self.encode(value) + rest) == (Step::<
                Progress,
                Parsed,
            >::Done { value, used: self.encode(value).len() }),
        decreases self, 1nat, 0nat,
    {
        match (self, value) {
            (Grammar::Int(node), Parsed::Int(value)) => node.reads_back(value, rest),
            (Grammar::Array(node), Parsed::List(items)) => node.reads_back(items, rest),
            _ => {},
        }
    }
}

impl ArrayNode {
    /// The elements still outstanding are read back from their bytes.
    proof fn reads_elements_back(&self, at: ArrayProgress, items: Seq<Parsed>, rest: Seq<u8>)
        requires
            self.wf(),
            self.keep,
            at.wf(*self),
            at.count is Some,
            at.outstanding() == items.len(),
            *at.element == self.element.fresh(),
            forall|i: int| 0 <= i < items.len() ==> self.element.writes(#[trigger] items[i]),
        ensures
            self.elements(at, self.encode_items(items) + rest) == (Step::<
                ArrayProgress,
                Seq<Parsed>,
            >::Done { value: at.items + items, used: self.encode_items(items).len() }),
        decreases self, 0nat, items.len(),
    {
        if items.len() == 0 {
            assert(at.items + items == at.items);
        } else {
            let first = items[0];
            let tail = items.drop_first();
            let head = self.element.encode(first);
            let input = self.encode_items(items) + rest;
            assert(input == head + (self.encode_items(tail) + rest));
            self.element.reads_back(first, self.encode_items(tail) + rest);
            assert(input.skip(head.len() as int) == self.encode_items(tail) + rest);
            let next = self.advance(at, first);
            self.element.fresh_is_wf();
            self.element.resume_bounded(*at.element, input);
            assert forall|i: int| 0 <= i < tail.len() implies self.element.writes(
                #[trigger] tail[i],
            ) by {
                assert(tail[i] == items[i + 1]);
            }
            self.reads_elements_back(next, tail, rest);
            assert(next.items + tail == at.items + items);
        }
    }

    /// Parsing the bytes of a list gives the list back and stops right
    /// behind them, whatever follows.
    pub proof fn reads_back(&self, items: Seq<Parsed>, rest: Seq<u8>)
        requires
            self.wf(),
            self.writes(items),
        ensures
            self.resume(self.fresh(), self.encode_count(items.len()) + self.encode_items(items)
                + rest) == (Step::<ArrayProgress, Seq<Parsed>>::Done {
                value: items,
                used: (self.encode_count(items.len()) + self.encode_items(items)).len(),
            }),
        decreases self, 0nat, items.len() + 1,
    {
        let n = items.len() as u64;
        let body = self.encode_items(items);
        let at = self.counted(n);
        self.element.fresh_is_wf();
        self.reads_elements_back(at, items, rest);
        assert(at.items + items == items);
        match self.count {
            Count::Fixed(_) => {
                assert(Seq::<u8>::empty() + body + rest == body + rest);
                assert(Seq::<u8>::empty() + body == body);
            },
            Count::Prefixed(prefix) => {
                let head = prefix.encode(n as nat);
                prefix.reads_back(n, body + rest);
                assert(head + body + rest == head + (body + rest));
                assert((head + (body + rest)).skip(head.len() as int) == body + rest);
            },
        }
    }
}


/// The parsed form of a key path: its segments as integers.
pub open spec fn segments(path: Seq<u32>) -> Seq<Parsed> {
    Seq::new(path.len(), |i: int| Parsed::Int(path[i] as u64))
}

/// The payload of a public-key request for `path`: the number of segments
/// as one byte, then each segment as four bytes, least significant first.
pub open spec fn key_path_payload(path: Seq<u32>) -> Seq<u8> {
    bip32_key_format().encode_count(path.len()) + bip32_key_format().encode_items(segments(path))
}

/// The payload of a key path of at most ten segments is read back as that
/// path, and is never empty.
pub proof fn key_path_reads_back(path: Seq<u32>)
    requires
        path.len() <= 10,
    ensures
        key_path_payload(path).len() > 0,
        top_level(bip32_key_format(), bip32_key_format().fresh(), key_path_payload(path))
            == ParseView::Done(segments(path)),
        path_of(segments(path)) == Some(path),
{
    let node = bip32_key_format();
    let items = segments(path);
    assert(span(1) == 0x100 && span(4) == 0x1_0000_0000) by {
        reveal_with_fuel(span, 5);
    }
    assert(node.writes(items));
    node.reads_back(items, Seq::empty());
    assert(key_path_payload(path) + Seq::<u8>::empty() == key_path_payload(path));
    let prefix = IntNode { width: 1, endianness: Endianness::Little };
    prefix.reads_back(path.len() as u64, Seq::empty());
    assert(path_of(items)->0 == path);
}

/// A public-key request whose whole payload arrives in the first chunk
/// asks for the key at exactly the path that was sent.
pub proof fn get_address_requests_the_path_sent(path: Seq<u32>, capacity: nat)
    requires
        path.len() <= 10,
    ensures
        dispatched(CellView::Idle, 2, key_path_payload(path), capacity) == (
            CellView::GetAddress(GetAddressView::AwaitKey),
            ActionView::DeriveKey { path },
        ),
{
    key_path_reads_back(path);
}

/// The payload of a sign request: the length of the transaction as four
/// bytes, least significant first, then the transaction.
pub open spec fn transaction_payload(body: Seq<u8>) -> Seq<u8> {
    le_bytes(body.len(), 4) + body
}

/// The bytes of a transaction are consumed one per element and none is
/// kept.
proof fn transaction_body_is_discarded(at: ArrayProgress, body: Seq<u8>, rest: Seq<u8>)
    requires
        at.wf(transaction_format()),
        at.count is Some,
        at.outstanding() == body.len(),
        *at.element == transaction_format().element.fresh(),
    ensures
        transaction_format().elements(at, body + rest) == (Step::<
            ArrayProgress,
            Seq<Parsed>,
        >::Done { value: Seq::empty(), used: body.len() }),
    decreases body.len(),
{
    let node = transaction_format();
    if body.len() > 0 {
        let input = body + rest;
        node.element.resume_bounded(*at.element, input);
        let value = node.element.resume(*at.element, input)->Done_value;
        assert(input.skip(1) == body.drop_first() + rest);
        transaction_body_is_discarded(node.advance(at, value), body.drop_first(), rest);
    }
}

/// The payload of a transaction shorter than 2^32 bytes is read to its
/// end and yields nothing.
pub proof fn transaction_reads_to_its_end(body: Seq<u8>)
    requires
        body.len() < 0x1_0000_0000,
    ensures
        transaction_payload(body).len() == 4 + body.len(),
        top_level(transaction_format(), transaction_format().fresh(), transaction_payload(body))
            == ParseView::Done(Seq::empty()),
{
    let node = transaction_format();
    let prefix = IntNode { width: 4, endianness: Endianness::Little };
    let n = body.len() as u64;
    assert(span(4) == 0x1_0000_0000) by {
        reveal_with_fuel(span, 5);
    }
    prefix.reads_back(n, body);
    let head = prefix.encode(n as nat);
    assert((head + body).skip(4) == body);
    assert(body + Seq::<u8>::empty() == body);
    node.element.fresh_is_wf();
    transaction_body_is_discarded(node.counted(n), body, Seq::empty());
}

/// A sign request whose first chunk is exactly the transaction has every
/// byte of the chunk observed and goes on to read the key path.
pub proof fn sign_observes_the_transaction_sent(body: Seq<u8>, capacity: nat)
    requires
        body.len() < 0x1_0000_0000,
    ensures
        dispatched(CellView::Idle, 3, transaction_payload(body), capacity) == (
            CellView::Sign(SignView::ParsePath(bip32_key_format().fresh())),
            ActionView::NeedMore { observed: transaction_payload(body).len() },
        ),
{
    transaction_reads_to_its_end(body);
}


/// Chunks that hold no byte between them are all empty.
proof fn nothing_joined(chunks: Seq<Seq<u8>>)
    requires
        joined(chunks).len() == 0,
    ensures
        forall|i: int| 0 <= i < chunks.len() ==> (#[trigger] chunks[i]).len() == 0,
    decreases chunks.len(),
{
    if chunks.len() > 0 {
        let rest = chunks.drop_first();
        nothing_joined(rest);
        assert forall|i: int| 0 <= i < chunks.len() implies (#[trigger] chunks[i]).len() == 0 by {
            if i > 0 {
                assert(chunks[i] == rest[i - 1]);
            }
        }
    }
}

/// Where a stream cut into chunks is complete exactly at its end, the
/// first chunk either holds all of it and completes it, or is consumed
/// with more needed and the rest of the stream completes from the progress
/// it leaves.
pub proof fn complete_stream_step(
    node: ArrayNode,
    at: ArrayProgress,
    chunks: Seq<Seq<u8>>,
    value: Seq<Parsed>,
)
    requires
        node.wf(),
        at.wf(node),
        joined(chunks).len() > 0,
        node.resume(at, joined(chunks)) == (Step::<ArrayProgress, Seq<Parsed>>::Done {
            value,
            used: joined(chunks).len(),
        }),
    ensures
        chunks.len() > 0,
        joined(chunks.drop_first()).len() == 0 ==> top_level(node, at, chunks[0])
            == ParseView::Done(value),
        joined(chunks.drop_first()).len() > 0 ==> {
            let rest = chunks.drop_first();
            &&& top_level(node, at, chunks[0]) matches ParseView::NeedMore(next)
            &&& next.wf(node)
            &&& node.resume(next, joined(rest)) == (Step::<ArrayProgress, Seq<Parsed>>::Done {
                value,
                used: joined(rest).len(),
            })
        },
{
    let first = chunks[0];
    let rest = chunks.drop_first();
    node.resume_split(at, first, joined(rest));
    node.resume_bounded(at, first);
    if joined(rest).len() == 0 {
        assert(first + joined(rest) == first);
    }
}

/// A public-key request asks for the key at exactly the path that was
/// sent, in however many chunks the payload arrives and wherever they are
/// cut, as long as the first of them is not empty.
pub proof fn get_address_ignores_chunking(path: Seq<u32>, chunks: Seq<Seq<u8>>, capacity: nat)
    requires
        path.len() <= 10,
        joined(chunks) == key_path_payload(path),
        chunks.len() > 0,
        chunks[0].len() > 0,
    ensures
        dispatched_all(CellView::Idle, 2, chunks, capacity) == (
            CellView::GetAddress(GetAddressView::AwaitKey),
            ActionView::DeriveKey { path },
        ),
{
    let node = bip32_key_format();
    let started = CellView::GetAddress(GetAddressView::ParsePath(node.fresh()));
    key_path_reads_back(path);
    node.element.fresh_is_wf();
    assert(dispatched(CellView::Idle, 2, chunks[0], capacity) == dispatched(
        started,
        2,
        chunks[0],
        capacity,
    ));
    key_path_continues(path, node.fresh(), chunks, capacity);
}

/// [`get_address_ignores_chunking`] for a task that has read part of the
/// path.
proof fn key_path_continues(
    path: Seq<u32>,
    at: ArrayProgress,
    chunks: Seq<Seq<u8>>,
    capacity: nat,
)
    requires
        at.wf(bip32_key_format()),
        joined(chunks).len() > 0,
        bip32_key_format().resume(at, joined(chunks)) == (Step::<
            ArrayProgress,
            Seq<Parsed>,
        >::Done { value: segments(path), used: joined(chunks).len() }),
        path_of(segments(path)) == Some(path),
    ensures
        dispatched_all(
            CellView::GetAddress(GetAddressView::ParsePath(at)),
            2,
            chunks,
            capacity,
        ) == (CellView::GetAddress(GetAddressView::AwaitKey), ActionView::DeriveKey { path }),
    decreases chunks.len(),
{
    let node = bip32_key_format();
    complete_stream_step(node, at, chunks, segments(path));
    if joined(chunks.drop_first()).len() > 0 {
        let next = top_level(node, at, chunks[0])->NeedMore_0;
        key_path_continues(path, next, chunks.drop_first(), capacity);
    }
}

/// The digest of a transaction does not depend on how the transaction is
/// cut into chunks, as long as the first of them is not empty: every chunk
/// is observed whole, so whatever is folded over the observed bytes, chunk
/// by chunk, comes to what one pass over the whole payload gives; and after
/// the last chunk the task is reading the key path.
pub proof fn sign_digest_ignores_chunking<A>(
    f: spec_fn(A, u8) -> A,
    acc: A,
    body: Seq<u8>,
    chunks: Seq<Seq<u8>>,
    capacity: nat,
)
    requires
        body.len() < 0x1_0000_0000,
        joined(chunks) == transaction_payload(body),
        chunks.len() > 0,
        chunks[0].len() > 0,
    ensures
        folded_all(f, acc, CellView::Idle, 3, chunks, capacity) == transaction_payload(
            body,
        ).fold_left(acc, f),
        dispatched_all(CellView::Idle, 3, chunks, capacity) == (
            CellView::Sign(SignView::ParsePath(bip32_key_format().fresh())),
            ActionView::NeedMore { observed: chunks.last().len() },
        ),
{
    let node = transaction_format();
    let started = CellView::Sign(SignView::ParseTransaction(node.fresh()));
    transaction_reads_to_its_end(body);
    node.element.fresh_is_wf();
    assert(dispatched(CellView::Idle, 3, chunks[0], capacity) == dispatched(
        started,
        3,
        chunks[0],
        capacity,
    ));
    transaction_continues(f, acc, node.fresh(), chunks, capacity);
}

/// [`sign_digest_ignores_chunking`] for a task that has read part of the
/// transaction.
proof fn transaction_continues<A>(
    f: spec_fn(A, u8) -> A,
    acc: A,
    at: ArrayProgress,
    chunks: Seq<Seq<u8>>,
    capacity: nat,
)
    requires
        at.wf(transaction_format()),
        joined(chunks).len() > 0,
        transaction_format().resume(at, joined(chunks)) == (Step::<
            ArrayProgress,
            Seq<Parsed>,
        >::Done { value: Seq::empty(), used: joined(chunks).len() }),
    ensures
        folded_all(f, acc, CellView::Sign(SignView::ParseTransaction(at)), 3, chunks, capacity)
            == joined(chunks).fold_left(acc, f),
        dispatched_all(CellView::Sign(SignView::ParseTransaction(at)), 3, chunks, capacity) == (
            CellView::Sign(SignView::ParsePath(bip32_key_format().fresh())),
            ActionView::NeedMore { observed: chunks.last().len() },
        ),
    decreases chunks.len(),
{
    let node = transaction_format();
    complete_stream_step(node, at, chunks, Seq::empty());
    let first = chunks[0];
    let rest = chunks.drop_first();
    assert(first.take(first.len() as int) == first);
    let cell = CellView::Sign(SignView::ParseTransaction(at));
    let seen = first.fold_left(acc, f);
    let (after, action) = dispatched(cell, 3, first, capacity);
    assert(action == ActionView::NeedMore { observed: first.len() });
    assert(folded_all(f, acc, cell, 3, chunks, capacity) == folded_all(
        f,
        seen,
        after,
        3,
        rest,
        capacity,
    ));
    fold_joins(f, acc, first, joined(rest));
    if joined(rest).len() > 0 {
        let next = top_level(node, at, first)->NeedMore_0;
        transaction_continues(f, seen, next, rest, capacity);
        assert(rest.len() > 0);
        assert(rest.last() == chunks.last());
    } else if rest.len() > 0 {
        key_path_waits(f, seen, rest, capacity);
        nothing_joined(rest);
        assert(rest.last() == chunks.last());
        assert(joined(rest).fold_left(seen, f) == seen);
    } else {
        assert(joined(rest).fold_left(seen, f) == seen);
    }
}

/// Empty chunks that follow the transaction change nothing: the task
/// keeps waiting for the key path and nothing is observed.
proof fn key_path_waits<A>(
    f: spec_fn(A, u8) -> A,
    acc: A,
    chunks: Seq<Seq<u8>>,
    capacity: nat,
)
    requires
        chunks.len() > 0,
        joined(chunks).len() == 0,
    ensures
        folded_all(
            f,
            acc,
            CellView::Sign(SignView::ParsePath(bip32_key_format().fresh())),
            3,
            chunks,
            capacity,
        ) == acc,
        dispatched_all(
            CellView::Sign(SignView::ParsePath(bip32_key_format().fresh())),
            3,
            chunks,
            capacity,
        ) == (
            CellView::Sign(SignView::ParsePath(bip32_key_format().fresh())),
            ActionView::NeedMore { observed: 0 },
        ),
    decreases chunks.len(),
{
    let node = bip32_key_format();
    let cell = CellView::Sign(SignView::ParsePath(node.fresh()));
    let first = chunks[0];
    let rest = chunks.drop_first();
    nothing_joined(chunks);
    assert(first == Seq::<u8>::empty());
    assert(node.fresh().prefix + first == node.fresh().prefix);
    assert(top_level(node, node.fresh(), first) == ParseView::NeedMore(node.fresh()));
    let (after, action) = dispatched(cell, 3, first, capacity);
    assert(after == cell);
    assert(action == ActionView::NeedMore { observed: 0 });
    assert(first.take(0).fold_left(acc, f) == acc);
    assert(folded_all(f, acc, cell, 3, chunks, capacity) == folded_all(
        f,
        acc,
        cell,
        3,
        rest,
        capacity,
    ));
    if rest.len() > 0 {
        key_path_waits(f, acc, rest, capacity);
    }
}

} // verus!
