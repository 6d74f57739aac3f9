//! The resumable parser engine.
//!
//! A grammar node is attempted against a byte cursor. The attempt consumes
//! what it can and ends in one of three ways: the node is complete and the
//! cursor stands at the first byte it did not need; the chunk ran out and
//! the progress made is kept in the node's parse state; or the input is
//! rejected. What an attempt does is defined by the `resume` functions, as a
//! function of the progress so far and the bytes offered, and the laws at the
//! end of this module show that cutting a byte stream into chunks never
//! changes what comes out.

use crate::cursor::ByteCursor;
use crate::interface::{
    be_value_below_span, le_value_below_span, span, span_within_u64, ArrayNode, Count, Grammar,
    IntNode,
};
use vstd::prelude::*;

verus! {

/// How an attempt ended.
#[derive(Debug)]
pub enum Outcome<V> {
    /// The node is complete.
    Done(V),
    /// The chunk is exhausted; offer the next one to the same state.
    NeedMore,
    /// The input is invalid.
    Reject,
}

impl<V> Outcome<V> {
    /// The fallible value transform: applies `f` to the value of a complete
    /// node. Where `f` declines, the whole parse is rejected; an attempt
    /// that is not complete is passed on and `f` is not called.
    pub fn transform<W, F: FnOnce(V) -> Option<W>>(self, f: F) -> (out: Outcome<W>)
        requires
            self matches Outcome::Done(value) ==> f.requires((value,)),
        ensures
            match self {
                Outcome::Done(value) => match out {
                    Outcome::Done(changed) => f.ensures((value,), Some(changed)),
                    Outcome::Reject => f.ensures((value,), None),
                    Outcome::NeedMore => false,
                },
                Outcome::NeedMore => out is NeedMore,
                Outcome::Reject => out is Reject,
            },
    {
        match self {
            Outcome::Done(value) => match f(value) {
                Some(changed) => Outcome::Done(changed),
                None => Outcome::Reject,
            },
            Outcome::NeedMore => Outcome::NeedMore,
            Outcome::Reject => Outcome::Reject,
        }
    }
}

/// What offering some input to a node in a given state leads to: the
/// mathematical counterpart of [`Outcome`].
#[verifier::ext_equal]
pub enum Step<S, V> {
    /// Complete after `used` bytes of the input.
    Done { value: V, used: nat },
    /// All of the input was consumed and `state` is the progress after it.
    NeedMore { state: S },
    /// Invalid.
    Reject,
}

impl<S, V> Step<S, V> {
    /// The same step seen from `by` bytes earlier in the stream.
    pub open spec fn shift(self, by: nat) -> Self {
        match self {
            Step::Done { value, used } => Step::Done { value, used: used + by },
            other => other,
        }
    }
}

/// Progress of a fixed-width integer: the bytes collected so far.
pub struct IntState {
    buf: [u8; 8],
    len: u8,
}

impl View for IntState {
    type V = Seq<u8>;

    closed spec fn view(&self) -> Seq<u8> {
        Seq::new(self.len as nat, |i: int| self.buf@[i])
    }
}

impl IntNode {
    /// What `input` leads to when `held` bytes of the field were collected
    /// before: complete as soon as `width` bytes are there, decoded from the
    /// held bytes followed by as many of the input as were missing.
    pub open spec fn resume(&self, held: Seq<u8>, input: Seq<u8>) -> Step<Seq<u8>, u64> {
        let need = self.width - held.len();
        if input.len() >= need {
            Step::Done {
                value: self.decode(held + input.take(need)) as u64,
                used: need as nat,
            }
        } else {
            Step::NeedMore { state: held + input }
        }
    }

    /// Splitting the input in two and resuming after the first part changes
    /// nothing.
    pub proof fn resume_split(&self, held: Seq<u8>, a: Seq<u8>, b: Seq<u8>)
        requires
            self.wf(),
            held.len() < self.width,
        ensures
            self.resume(held, a + b) == match self.resume(held, a) {
                Step::NeedMore { state } => self.resume(state, b).shift(a.len()),
                other => other,
            },
            self.resume(held, a) matches Step::NeedMore { state } ==> state.len() < self.width,
            self.resume(held, a) matches Step::Done { value, used } ==> 0 < used <= a.len(),
            !(self.resume(held, a) is Reject),
    {
        let need = self.width - held.len();
        if a.len() >= need {
            assert((a + b).take(need) == a.take(need));
        } else {
            let rest = need - a.len();
            if b.len() >= rest {
                assert((held + a) + b.take(rest) == held + (a + b).take(need));
            } else {
                assert((held + a) + b == held + (a + b));
            }
        }
    }
}

impl IntNode {
    /// A complete integer is below the span of its width.
    pub proof fn resume_bounded(&self, held: Seq<u8>, input: Seq<u8>)
        requires
            self.wf(),
            held.len() < self.width,
        ensures
            self.resume(held, input) matches Step::Done { value, used } ==> value < span(
                self.width as nat,
            ) && 0 < used <= input.len(),
            self.resume(held, input) matches Step::NeedMore { state } ==> state.len()
                < self.width,
            !(self.resume(held, input) is Reject),
    {
        let need = self.width - held.len();
        if input.len() >= need {
            let bytes = held + input.take(need);
            le_value_below_span(bytes);
            be_value_below_span(bytes);
            span_within_u64(bytes.len());
        }
    }
}

impl IntState {
    /// No byte collected.
    pub fn new() -> (state: Self)
        ensures
            state@ == Seq::<u8>::empty(),
    {
        IntState { buf: [0u8; 8], len: 0 }
    }

    /// Fewer bytes are held than the node needs.
    pub open spec fn wf(&self, node: IntNode) -> bool {
        self@.len() < node.width
    }

    /// Number of bytes held.
    pub fn held(&self) -> (n: u8)
        ensures
            n == self@.len(),
    {
        self.len
    }

    /// Appends `bytes` to the held ones.
    fn collect(&mut self, bytes: &[u8])
        requires
            old(self)@.len() + bytes@.len() <= 8,
        ensures
            final(self)@ == old(self)@ + bytes@,
    {
        let n = bytes.len();
        let mut i: usize = 0;
        while i < n
            invariant
                n == bytes@.len(),
                i <= n,
                old(self)@.len() + n <= 8,
                self.len == old(self)@.len() + i,
                self@ == old(self)@ + bytes@.take(i as int),
            decreases n - i,
        {
            let ghost before = self@;
            let ghost stored = self.buf@;
            let at = self.len as usize;
            self.buf[at] = bytes[i];
            self.len = self.len + 1;
            i = i + 1;
            assert(self.buf@ == stored.update(at as int, bytes@[i - 1]));
            assert(self@ == before.push(bytes@[i - 1]));
            assert(bytes@.take(i as int) == bytes@.take(i - 1).push(bytes@[i - 1]));
            assert(self@ == old(self)@ + bytes@.take(i as int));
        }
        assert(bytes@.take(n as int) == bytes@);
    }

    /// The held bytes as a slice.
    fn bytes(&self) -> (out: &[u8])
        requires
            self@.len() <= 8,
        ensures
            out@ == self@,
    {
        let all = self.buf.as_slice();
        let out = vstd::slice::slice_subrange(all, 0, self.len as usize);
        assert(out@ == self@);
        out
    }
}

impl IntNode {
    /// Attempts the integer on `cursor`, continuing from `state`.
    ///
    /// The result is the one [`IntNode::resume`] gives for the held bytes
    /// and the unread bytes of the cursor. When complete, the cursor has
    /// advanced by the bytes that were missing and the state is empty again;
    /// otherwise the whole chunk is consumed into the state.
    pub fn attempt(&self, state: &mut IntState, cursor: &mut ByteCursor) -> (out: Outcome<u64>)
        requires
            self.wf(),
            old(state).wf(*self),
        ensures
            final(cursor).chunk() == old(cursor).chunk(),
            old(cursor).position() <= final(cursor).position() <= final(cursor).chunk().len(),
            final(state).wf(*self),
            match self.resume(old(state)@, old(cursor).unread()) {
                Step::Done { value, used } => {
                    &&& out == Outcome::Done(value)
                    &&& final(cursor).position() == old(cursor).position() + used
                    &&& final(state)@ == Seq::<u8>::empty()
                },
                Step::NeedMore { state: next } => {
                    &&& out is NeedMore
                    &&& final(cursor).position() == final(cursor).chunk().len()
                    &&& final(state)@ == next
                },
                Step::Reject => false,
            },
    {
        let need = (self.width - state.held()) as usize;
        let available = cursor.remaining();
        if available >= need {
            let taken = cursor.take(need);
            let bytes = taken.unwrap();
            state.collect(bytes);
            proof {
                self.decode_fits(state@);
            }
            let value = self.decode_bytes(state.bytes());
            state.len = 0;
            Outcome::Done(value)
        } else {
            let taken = cursor.take(available);
            let bytes = taken.unwrap();
            assert(bytes@ == old(cursor).unread());
            state.collect(bytes);
            Outcome::NeedMore
        }
    }
}


/// What a complete node yields, as plain values: an integer, or the list of
/// what the elements of an array yielded.
#[verifier::ext_equal]
pub enum Parsed {
    Int(u64),
    List(Seq<Parsed>),
}

/// Progress of any grammar node, as plain values.
#[verifier::ext_equal]
pub enum Progress {
    /// The bytes of an integer collected so far.
    Int(Seq<u8>),
    Array(ArrayProgress),
}

/// Progress of a repeated array, as plain values.
#[verifier::ext_equal]
pub struct ArrayProgress {
    /// The element count, once it is known.
    pub count: Option<u64>,
    /// Bytes of the count prefix collected so far.
    pub prefix: Seq<u8>,
    /// Number of complete elements.
    pub done: u64,
    /// Progress of the current element.
    pub element: Box<Progress>,
    /// The values of the elements kept so far.
    pub items: Seq<Parsed>,
}

impl Parsed {
    /// The value has the shape of what `grammar` yields: an integer below
    /// the span of its width, or a list of what the child node yields that
    /// is no longer than the bound and empty where elements are discarded.
    pub open spec fn fits(self, grammar: Grammar) -> bool
        decreases grammar,
    {
        match (grammar, self) {
            (Grammar::Int(node), Parsed::Int(value)) => value < span(node.width as nat),
            (Grammar::Array(node), Parsed::List(items)) => {
                &&& items.len() <= node.bound
                &&& !node.keep ==> items.len() == 0
                &&& forall|i: int|
                    0 <= i < items.len() ==> (#[trigger] items[i]).fits(*node.element)
            },
            _ => false,
        }
    }
}

impl ArrayProgress {
    /// Number of elements still to come.
    pub open spec fn outstanding(self) -> nat {
        match self.count {
            Some(n) if n >= self.done => (n - self.done) as nat,
            _ => 0,
        }
    }

    /// The progress is one that `node` can be in. In particular a node that
    /// does not keep its elements holds none, whatever the count, and one
    /// that keeps them holds exactly the complete ones, never more than the
    /// node's bound.
    pub open spec fn wf(self, node: ArrayNode) -> bool
        decreases node,
    {
        &&& self.element.wf(*node.element)
        &&& self.items.len() == if node.keep {
            self.done as nat
        } else {
            0
        }
        &&& forall|i: int|
            0 <= i < self.items.len() ==> (#[trigger] self.items[i]).fits(*node.element)
        &&& match self.count {
            None => {
                &&& self.done == 0
                &&& *self.element == node.element.fresh()
                &&& match node.count {
                    Count::Prefixed(prefix) => self.prefix.len() < prefix.width,
                    Count::Fixed(_) => self.prefix.len() == 0,
                }
            },
            Some(n) => {
                &&& n <= node.bound
                &&& self.done <= n
                &&& self.done == n ==> *self.element == node.element.fresh()
                &&& self.prefix.len() == 0
            },
        }
    }
}

impl Progress {
    /// The progress is of the node's kind and one that the node can be in.
    pub open spec fn wf(self, grammar: Grammar) -> bool
        decreases grammar,
    {
        match (grammar, self) {
            (Grammar::Int(node), Progress::Int(held)) => held.len() < node.width,
            (Grammar::Array(node), Progress::Array(at)) => at.wf(node),
            _ => false,
        }
    }
}

impl ArrayNode {
    /// The progress of an array that has seen nothing.
    pub open spec fn fresh(&self) -> ArrayProgress
        decreases self,
    {
        ArrayProgress {
            count: None,
            prefix: Seq::empty(),
            done: 0,
            element: Box::new(self.element.fresh()),
            items: Seq::empty(),
        }
    }

    /// The count `n` is known and no element has started.
    pub open spec fn counted(&self, n: u64) -> ArrayProgress {
        ArrayProgress { count: Some(n), ..self.fresh() }
    }

    /// The progress after one more element, which yielded `value`, is
    /// complete.
    pub open spec fn advance(&self, at: ArrayProgress, value: Parsed) -> ArrayProgress {
        ArrayProgress {
            done: (at.done + 1) as u64,
            element: Box::new(self.element.fresh()),
            items: if self.keep {
                at.items.push(value)
            } else {
                at.items
            },
            ..at
        }
    }

    /// What `input` leads to once the count is known: the elements still
    /// outstanding are parsed one after the other, each by the child node.
    pub open spec fn elements(&self, at: ArrayProgress, input: Seq<u8>) -> Step<
        ArrayProgress,
        Seq<Parsed>,
    >
        decreases self, 0nat, at.outstanding(),
    {
        if at.outstanding() == 0 {
            Step::Done { value: at.items, used: 0 }
        } else {
            match self.element.resume(*at.element, input) {
                Step::NeedMore { state } => Step::NeedMore {
                    state: ArrayProgress { element: Box::new(state), ..at },
                },
                Step::Done { value, used } => self.elements(
                    self.advance(at, value),
                    input.skip(used as int),
                ).shift(used),
                Step::Reject => Step::Reject,
            }
        }
    }

    /// What `input` leads to once the count is read as `n`: a count above
    /// the bound is rejected.
    pub open spec fn counted_as(&self, n: u64, input: Seq<u8>) -> Step<ArrayProgress, Seq<Parsed>>
        decreases self, 1nat, 0nat,
    {
        if n > self.bound {
            Step::Reject
        } else {
            self.elements(self.counted(n), input)
        }
    }

    /// What `input` leads to when the array has progressed to `at`.
    pub open spec fn resume(&self, at: ArrayProgress, input: Seq<u8>) -> Step<
        ArrayProgress,
        Seq<Parsed>,
    >
        decreases self, 2nat, 0nat,
    {
        match at.count {
            Some(_) => self.elements(at, input),
            None => match self.count {
                Count::Fixed(n) => self.counted_as(n, input),
                Count::Prefixed(prefix) => match prefix.resume(at.prefix, input) {
                    Step::NeedMore { state } => Step::NeedMore {
                        state: ArrayProgress { prefix: state, ..at },
                    },
                    Step::Done { value, used } => self.counted_as(
                        value,
                        input.skip(used as int),
                    ).shift(used),
                    Step::Reject => Step::Reject,
                },
            },
        }
    }
}

impl Grammar {
    /// The progress of a node that has seen nothing.
    pub open spec fn fresh(&self) -> Progress
        decreases self,
    {
        match self {
            Grammar::Int(_) => Progress::Int(Seq::empty()),
            Grammar::Array(node) => Progress::Array(node.fresh()),
        }
    }

    /// What `input` leads to when the node has progressed to `at`.
    pub open spec fn resume(&self, at: Progress, input: Seq<u8>) -> Step<Progress, Parsed>
        decreases self, 0nat, 0nat,
    {
        match (self, at) {
            (Grammar::Int(node), Progress::Int(held)) => match node.resume(held, input) {
                Step::Done { value, used } => Step::Done { value: Parsed::Int(value), used },
                Step::NeedMore { state } => Step::NeedMore { state: Progress::Int(state) },
                Step::Reject => Step::Reject,
            },
            (Grammar::Array(node), Progress::Array(at)) => match node.resume(at, input) {
                Step::Done { value, used } => Step::Done { value: Parsed::List(value), used },
                Step::NeedMore { state } => Step::NeedMore { state: Progress::Array(state) },
                Step::Reject => Step::Reject,
            },
            _ => Step::Reject,
        }
    }

    /// A node that has seen nothing is in a valid state.
    pub proof fn fresh_is_wf(&self)
        requires
            self.wf(),
        ensures
            self.fresh().wf(*self),
        decreases self,
    {
        match self {
            Grammar::Int(_) => {},
            Grammar::Array(node) => node.element.fresh_is_wf(),
        }
    }
}

/// What a complete node yields: an integer, or the list of what the
/// elements of an array yielded.
#[derive(Debug, PartialEq, Eq)]
pub enum Value {
    Int(u64),
    List(Vec<Value>),
}

impl Value {
    /// The value as plain values.
    pub open spec fn parsed(&self) -> Parsed
        decreases self,
    {
        match self {
            Value::Int(value) => Parsed::Int(*value),
            Value::List(items) => Parsed::List(
                Seq::new(
                    items@.len(),
                    |i: int|
                        if 0 <= i < items@.len() {
                            items@[i].parsed()
                        } else {
                            Parsed::Int(0)
                        },
                ),
            ),
        }
    }
}

impl View for Value {
    type V = Parsed;

    open spec fn view(&self) -> Parsed {
        self.parsed()
    }
}

/// The values of a list, each as plain values.
pub open spec fn parsed_all(items: Seq<Value>) -> Seq<Parsed> {
    Seq::new(items.len(), |i: int| items[i].parsed())
}

/// Progress of a repeated array.
pub struct ArrayState {
    count: Option<u64>,
    prefix: IntState,
    done: u64,
    element: Box<ParseState>,
    items: Vec<Value>,
}

/// Progress of any grammar node.
pub enum ParseState {
    Int(IntState),
    Array(ArrayState),
}

impl ArrayState {
    /// The progress as plain values.
    pub closed spec fn progress(&self) -> ArrayProgress
        decreases self,
    {
        ArrayProgress {
            count: self.count,
            prefix: self.prefix@,
            done: self.done,
            element: Box::new(self.element.progress()),
            items: parsed_all(self.items@),
        }
    }

    /// Number of complete elements.
    pub fn done(&self) -> (n: u64)
        ensures
            n == self@.done,
    {
        self.done
    }

    /// Number of elements held in memory.
    pub fn held(&self) -> (n: usize)
        ensures
            n == self@.items.len(),
    {
        self.items.len()
    }
}

impl ParseState {
    /// The progress as plain values.
    pub open spec fn progress(&self) -> Progress
        decreases self,
    {
        match self {
            ParseState::Int(state) => Progress::Int(state@),
            ParseState::Array(state) => Progress::Array(state.progress()),
        }
    }
}

impl View for ArrayState {
    type V = ArrayProgress;

    open spec fn view(&self) -> ArrayProgress {
        self.progress()
    }
}

impl View for ParseState {
    type V = Progress;

    open spec fn view(&self) -> Progress {
        self.progress()
    }
}

impl ArrayNode {
    /// A state for this array that has seen nothing.
    pub fn start(&self) -> (state: ArrayState)
        requires
            self.wf(),
        ensures
            state@ == self.fresh(),
            state@.wf(*self),
        decreases self,
    {
        proof {
            self.element.fresh_is_wf();
        }
        let element = self.element.start();
        let state = ArrayState {
            count: None,
            prefix: IntState::new(),
            done: 0,
            element: Box::new(element),
            items: Vec::new(),
        };
        assert(state@ == self.fresh());
        state
    }

    /// Attempts the array on `cursor`, continuing from `state`.
    ///
    /// The result is the one [`ArrayNode::resume`] gives for the progress
    /// in `state` and the unread bytes of the cursor. When complete, the
    /// cursor stands behind the last element; when more input is needed,
    /// the whole chunk is consumed and `state` holds the progress. After
    /// completion or rejection the state is fresh again.
    pub fn attempt(&self, state: &mut ArrayState, cursor: &mut ByteCursor) -> (out: Outcome<
        Vec<Value>,
    >)
        requires
            self.wf(),
            old(state)@.wf(*self),
        ensures
            final(cursor).chunk() == old(cursor).chunk(),
            old(cursor).position() <= final(cursor).position() <= final(cursor).chunk().len(),
            final(state)@.wf(*self),
            match self.resume(old(state)@, old(cursor).unread()) {
                Step::Done { value, used } => {
                    &&& out matches Outcome::Done(items)
                    &&& parsed_all(items@) == value
                    &&& final(cursor).position() == old(cursor).position() + used
                    &&& final(state)@ == self.fresh()
                },
                Step::NeedMore { state: next } => {
                    &&& out is NeedMore
                    &&& final(cursor).position() == final(cursor).chunk().len()
                    &&& final(state)@ == next
                },
                Step::Reject => {
                    &&& out is Reject
                    &&& final(state)@ == self.fresh()
                },
            },
        decreases self,
    {
        let ghost target = self.resume(old(state)@, old(cursor).unread());
        let ghost start = old(cursor).position();
        let ghost chunk = old(cursor).chunk();
        proof {
            use_type_invariant(&*cursor);
        }
        if state.count.is_none() {
            let n = match self.count {
                Count::Fixed(n) => n,
                Count::Prefixed(prefix) => {
                    match prefix.attempt(&mut state.prefix, cursor) {
                        Outcome::Done(n) => {
                            assert(cursor.unread() == old(cursor).unread().skip(
                                cursor.position() - start,
                            ));
                            n
                        },
                        _ => {
                            assert(state@ == ArrayProgress { prefix: state.prefix@, ..old(state)@ });
                            return Outcome::NeedMore;
                        },
                    }
                },
            };
            if n > self.bound {
                assert(state@ == self.fresh());
                return Outcome::Reject;
            }
            state.count = Some(n);
            assert(state@ == self.counted(n));
        }
        let n = match state.count {
            Some(n) => n,
            None => 0,
        };
        while state.done < n
            invariant
                self.wf(),
                state@.wf(*self),
                state.count == Some(n),
                chunk == old(cursor).chunk(),
                start == old(cursor).position(),
                target == self.resume(old(state)@, old(cursor).unread()),
                cursor.chunk() == chunk,
                start <= cursor.position() <= chunk.len(),
                target == self.elements(state@, cursor.unread()).shift(
                    (cursor.position() - start) as nat,
                ),
            decreases n - state.done,
        {
            let ghost at = state@;
            let ghost before = cursor.position();
            let ghost unread = cursor.unread();
            proof {
                self.element.resume_bounded(*at.element, unread);
            }
            match self.element.attempt(&mut state.element, cursor) {
                Outcome::Done(value) => {
                    let ghost kept = state.items@;
                    if self.keep {
                        state.items.push(value);
                        assert(parsed_all(state.items@) == parsed_all(kept).push(value@));
                    }
                    state.done = state.done + 1;
                    proof {
                        assert(cursor.unread() == unread.skip(cursor.position() - before));
                        assert(state@ == self.advance(at, value@));
                    }
                },
                Outcome::NeedMore => {
                    assert(state@ == ArrayProgress {
                        element: Box::new(state.element@),
                        ..at
                    });
                    return Outcome::NeedMore;
                },
                Outcome::Reject => {
                    state.count = None;
                    state.done = 0;
                    state.items = Vec::new();
                    assert(state@ == self.fresh());
                    return Outcome::Reject;
                },
            }
        }
        let mut items = Vec::new();
        std::mem::swap(&mut items, &mut state.items);
        state.count = None;
        state.done = 0;
        assert(state@ == self.fresh());
        Outcome::Done(items)
    }
}

impl Grammar {
    /// A state for this node that has seen nothing.
    pub fn start(&self) -> (state: ParseState)
        requires
            self.wf(),
        ensures
            state@ == self.fresh(),
            state@.wf(*self),
        decreases self,
    {
        match self {
            Grammar::Int(_) => ParseState::Int(IntState::new()),
            Grammar::Array(node) => ParseState::Array(node.start()),
        }
    }

    /// Attempts the node on `cursor`, continuing from `state`.
    ///
    /// The result is the one [`Grammar::resume`] gives for the progress in
    /// `state` and the unread bytes of the cursor. When complete, the
    /// cursor stands at the first byte the node did not need; when more
    /// input is needed, the whole chunk is consumed and `state` holds the
    /// progress. After completion or rejection the state is fresh again.
    pub fn attempt(&self, state: &mut ParseState, cursor: &mut ByteCursor) -> (out: Outcome<Value>)
        requires
            self.wf(),
            old(state)@.wf(*self),
        ensures
            final(cursor).chunk() == old(cursor).chunk(),
            old(cursor).position() <= final(cursor).position() <= final(cursor).chunk().len(),
            final(state)@.wf(*self),
            match self.resume(old(state)@, old(cursor).unread()) {
                Step::Done { value, used } => {
                    &&& out matches Outcome::Done(parsed)
                    &&& parsed@ == value
                    &&& final(cursor).position() == old(cursor).position() + used
                    &&& final(state)@ == self.fresh()
                },
                Step::NeedMore { state: next } => {
                    &&& out is NeedMore
                    &&& final(cursor).position() == final(cursor).chunk().len()
                    &&& final(state)@ == next
                },
                Step::Reject => {
                    &&& out is Reject
                    &&& final(state)@ == self.fresh()
                },
            },
        decreases self,
    {
        match (self, state) {
            (Grammar::Int(node), ParseState::Int(held)) => match node.attempt(held, cursor) {
                Outcome::Done(value) => Outcome::Done(Value::Int(value)),
                Outcome::NeedMore => Outcome::NeedMore,
                Outcome::Reject => Outcome::Reject,
            },
            (Grammar::Array(node), ParseState::Array(at)) => match node.attempt(at, cursor) {
                Outcome::Done(items) => {
                    let value = Value::List(items);
                    assert(value.parsed()->List_0 == parsed_all(items@));
                    Outcome::Done(value)
                },
                Outcome::NeedMore => Outcome::NeedMore,
                Outcome::Reject => Outcome::Reject,
            },
            _ => Outcome::Reject,
        }
    }
}

impl ArrayNode {
    /// [`ArrayNode::resume_bounded`] once the count is known.
    proof fn elements_bounded(&self, at: ArrayProgress, input: Seq<u8>)
        requires
            self.wf(),
            at.wf(*self),
            at.count is Some,
        ensures
            match self.elements(at, input) {
                Step::NeedMore { state } => {
                    &&& state.wf(*self)
                    &&& state.count == at.count
                    &&& state.done < at.count->0
                    &&& state.items.len() <= self.bound
                },
                Step::Done { value, used } => {
                    &&& used <= input.len()
                    &&& Parsed::List(value).fits(Grammar::Array(*self))
                },
                Step::Reject => true,
            },
        decreases self, 0nat, at.outstanding(),
    {
        if at.outstanding() != 0 {
            self.element.resume_bounded(*at.element, input);
            if let Step::Done { value, used } = self.element.resume(*at.element, input) {
                self.element.fresh_is_wf();
                self.elements_bounded(self.advance(at, value), input.skip(used as int));
            }
        }
    }

    /// Resuming keeps the progress valid, consumes no more than is offered,
    /// yields a list of the node's shape, and holds in memory only what the
    /// node keeps: nothing at all where elements are discarded, at most
    /// `bound` elements otherwise.
    pub proof fn resume_bounded(&self, at: ArrayProgress, input: Seq<u8>)
        requires
            self.wf(),
            at.wf(*self),
        ensures
            match self.resume(at, input) {
                Step::NeedMore { state } => {
                    &&& state.wf(*self)
                    &&& state.items.len() <= self.bound
                    &&& !self.keep ==> state.items.len() == 0
                },
                Step::Done { value, used } => {
                    &&& used <= input.len()
                    &&& Parsed::List(value).fits(Grammar::Array(*self))
                },
                Step::Reject => true,
            },
        decreases self, 1nat, 0nat,
    {
        self.element.fresh_is_wf();
        match at.count {
            Some(_) => self.elements_bounded(at, input),
            None => match self.count {
                Count::Fixed(n) => {
                    if n <= self.bound {
                        self.elements_bounded(self.counted(n), input);
                    }
                },
                Count::Prefixed(prefix) => {
                    prefix.resume_split(at.prefix, input, Seq::empty());
                    if let Step::Done { value, used } = prefix.resume(at.prefix, input) {
                        if value <= self.bound {
                            self.elements_bounded(self.counted(value), input.skip(used as int));
                        }
                    }
                },
            },
        }
    }

    /// Splitting the input in two and resuming after the first part changes
    /// nothing, once the count is known.
    proof fn elements_split(&self, at: ArrayProgress, a: Seq<u8>, b: Seq<u8>)
        requires
            self.wf(),
            at.wf(*self),
            at.count is Some,
        ensures
            self.elements(at, a + b) == match self.elements(at, a) {
                Step::NeedMore { state } => self.elements(state, b).shift(a.len()),
                other => other,
            },
        decreases self, 0nat, at.outstanding(),
    {
        if at.outstanding() != 0 {
            let child = *self.element;
            child.resume_split(*at.element, a, b);
            child.resume_bounded(*at.element, a);
            match child.resume(*at.element, a) {
                Step::NeedMore { state: held } => {
                    let mid = ArrayProgress { element: Box::new(held), ..at };
                    child.resume_bounded(held, b);
                    if let Step::Done { value, used } = child.resume(held, b) {
                        assert((a + b).skip((used + a.len()) as int) == b.skip(used as int));
                        assert(self.advance(mid, value) == self.advance(at, value));
                    }
                },
                Step::Done { value, used } => {
                    let next = self.advance(at, value);
                    child.fresh_is_wf();
                    assert((a + b).skip(used as int) == a.skip(used as int) + b);
                    self.elements_split(next, a.skip(used as int), b);
                    self.elements_bounded(next, a.skip(used as int));
                },
                Step::Reject => {},
            }
        }
    }

    /// Splitting the input in two and resuming after the first part changes
    /// nothing, when the count is read as `n` at the start of the input.
    proof fn counted_split(&self, n: u64, a: Seq<u8>, b: Seq<u8>)
        requires
            self.wf(),
        ensures
            self.counted_as(n, a + b) == match self.counted_as(n, a) {
                Step::NeedMore { state } => self.elements(state, b).shift(a.len()),
                other => other,
            },
            self.counted_as(n, a) matches Step::NeedMore { state } ==> state.wf(*self)
                && state.count is Some,
        decreases self, 1nat, 0nat,
    {
        if n <= self.bound {
            self.element.fresh_is_wf();
            self.elements_split(self.counted(n), a, b);
            self.elements_bounded(self.counted(n), a);
        }
    }

    /// Splitting the input in two and resuming after the first part changes
    /// nothing, while the count prefix is being read.
    proof fn prefixed_split(&self, prefix: IntNode, at: ArrayProgress, a: Seq<u8>, b: Seq<u8>)
        requires
            self.wf(),
            at.wf(*self),
            at.count is None,
            self.count == Count::Prefixed(prefix),
        ensures
            self.resume(at, a + b) == match self.resume(at, a) {
                Step::NeedMore { state } => self.resume(state, b).shift(a.len()),
                other => other,
            },
        decreases self, 2nat, 0nat,
    {
        prefix.resume_split(at.prefix, a, b);
        match prefix.resume(at.prefix, a) {
            Step::NeedMore { state: held } => {
                let mid = ArrayProgress { prefix: held, ..at };
                assert(self.resume(at, a) == Step::<ArrayProgress, Seq<Parsed>>::NeedMore {
                    state: mid,
                });
                if let Step::Done { value, used } = prefix.resume(held, b) {
                    assert((a + b).skip((used + a.len()) as int) == b.skip(used as int));
                }
            },
            Step::Done { value, used } => {
                assert((a + b).skip(used as int) == a.skip(used as int) + b);
                self.counted_split(value, a.skip(used as int), b);
            },
            Step::Reject => {},
        }
    }

    /// Splitting the input in two and resuming after the first part changes
    /// nothing.
    pub proof fn resume_split(&self, at: ArrayProgress, a: Seq<u8>, b: Seq<u8>)
        requires
            self.wf(),
            at.wf(*self),
        ensures
            self.resume(at, a + b) == match self.resume(at, a) {
                Step::NeedMore { state } => self.resume(state, b).shift(a.len()),
                other => other,
            },
        decreases self, 3nat, 0nat,
    {
        match at.count {
            Some(_) => {
                self.elements_split(at, a, b);
                self.elements_bounded(at, a);
            },
            None => match self.count {
                Count::Fixed(n) => self.counted_split(n, a, b),
                Count::Prefixed(prefix) => self.prefixed_split(prefix, at, a, b),
            },
        }
    }

    /// An array that discards its elements holds none of them in memory,
    /// however many the host declares: neither while it waits for more
    /// input nor when it completes.
    pub proof fn discarding_holds_nothing(&self, at: ArrayProgress, input: Seq<u8>)
        requires
            self.wf(),
            at.wf(*self),
            !self.keep,
        ensures
            self.resume(at, input) matches Step::NeedMore { state } ==> state.items.len() == 0,
            self.resume(at, input) matches Step::Done { value, .. } ==> value.len() == 0,
    {
        self.resume_bounded(at, input);
    }
}

/// The bytes of `chunks` one after the other.
pub open spec fn joined(chunks: Seq<Seq<u8>>) -> Seq<u8>
    decreases chunks.len(),
{
    if chunks.len() == 0 {
        Seq::empty()
    } else {
        chunks[0] + joined(chunks.drop_first())
    }
}

/// Folding `f` over `a` and then over `b` is folding it over both at once.
pub proof fn fold_joins<A>(f: spec_fn(A, u8) -> A, acc: A, a: Seq<u8>, b: Seq<u8>)
    ensures
        (a + b).fold_left(acc, f) == b.fold_left(a.fold_left(acc, f), f),
    decreases b.len(),
{
    if b.len() == 0 {
        assert(a + b == a);
    } else {
        assert((a + b).drop_last() == a + b.drop_last());
        fold_joins(f, acc, a, b.drop_last());
    }
}

impl Grammar {
    /// Resuming keeps the progress valid, consumes no more than is
    /// offered, and yields a value of the node's shape.
    pub proof fn resume_bounded(&self, at: Progress, input: Seq<u8>)
        requires
            self.wf(),
            at.wf(*self),
        ensures
            self.resume(at, input) matches Step::NeedMore { state } ==> state.wf(*self),
            self.resume(at, input) matches Step::Done { value, used } ==> used <= input.len()
                && value.fits(*self),
        decreases self, 2nat, 0nat,
    {
        match (self, at) {
            (Grammar::Int(node), Progress::Int(held)) => {
                node.resume_bounded(held, input);
            },
            (Grammar::Array(node), Progress::Array(at)) => node.resume_bounded(at, input),
            _ => {},
        }
    }

    /// Splitting the input in two and resuming after the first part changes
    /// nothing.
    pub proof fn resume_split(&self, at: Progress, a: Seq<u8>, b: Seq<u8>)
        requires
            self.wf(),
            at.wf(*self),
        ensures
            self.resume(at, a + b) == match self.resume(at, a) {
                Step::NeedMore { state } => self.resume(state, b).shift(a.len()),
                other => other,
            },
        decreases self, 4nat, 0nat,
    {
        match (self, at) {
            (Grammar::Int(node), Progress::Int(held)) => node.resume_split(held, a, b),
            (Grammar::Array(node), Progress::Array(at)) => {
                node.resume_split(at, a, b);
                node.resume_bounded(at, a);
            },
            _ => {},
        }
    }

    /// What offering `chunks` one at a time leads to: each chunk is offered
    /// to the progress the one before it left, until the node is complete
    /// or rejects. `used` counts from the start of the first chunk.
    pub open spec fn feed(&self, at: Progress, chunks: Seq<Seq<u8>>) -> Step<Progress, Parsed>
        decreases chunks.len(),
    {
        if chunks.len() == 0 {
            self.resume(at, Seq::empty())
        } else {
            match self.resume(at, chunks[0]) {
                Step::NeedMore { state } => self.feed(state, chunks.drop_first()).shift(
                    chunks[0].len(),
                ),
                other => other,
            }
        }
    }

    /// Offering a stream chunk by chunk leads to the same step as offering
    /// it whole: the same value after the same number of bytes, the same
    /// rejection, or the same progress.
    pub proof fn feed_is_resume(&self, at: Progress, chunks: Seq<Seq<u8>>)
        requires
            self.wf(),
            at.wf(*self),
        ensures
            self.feed(at, chunks) == self.resume(at, joined(chunks)),
        decreases chunks.len(),
    {
        if chunks.len() > 0 {
            let first = chunks[0];
            let rest = chunks.drop_first();
            self.resume_split(at, first, joined(rest));
            self.resume_bounded(at, first);
            if let Step::NeedMore { state } = self.resume(at, first) {
                self.feed_is_resume(state, rest);
            }
        }
    }

    /// Two ways of cutting one byte stream into chunks give the same
    /// result, whatever the grammar and wherever the cuts fall.
    pub proof fn chunking_is_transparent(&self, first: Seq<Seq<u8>>, second: Seq<Seq<u8>>)
        requires
            self.wf(),
            joined(first) == joined(second),
        ensures
            self.feed(self.fresh(), first) == self.feed(self.fresh(), second),
    {
        self.fresh_is_wf();
        self.feed_is_resume(self.fresh(), first);
        self.feed_is_resume(self.fresh(), second);
    }

    /// The bytes of `input` that the node consumes: up to where it is
    /// complete, or all of them. Input that is rejected counts as consumed
    /// whole.
    pub open spec fn consumed(&self, at: Progress, input: Seq<u8>) -> Seq<u8> {
        match self.resume(at, input) {
            Step::Done { used, .. } => input.take(used as int),
            _ => input,
        }
    }

    /// The accumulator after the bytes that the node consumes from each of
    /// `chunks`, offered one at a time, have been folded into `acc`. After
    /// a rejection everything that follows counts as consumed too.
    pub open spec fn fold_feed<A>(
        &self,
        f: spec_fn(A, u8) -> A,
        acc: A,
        at: Progress,
        chunks: Seq<Seq<u8>>,
    ) -> A
        decreases chunks.len(),
    {
        if chunks.len() == 0 {
            acc
        } else {
            let seen = self.consumed(at, chunks[0]).fold_left(acc, f);
            match self.resume(at, chunks[0]) {
                Step::NeedMore { state } => self.fold_feed(f, seen, state, chunks.drop_first()),
                Step::Done { .. } => seen,
                Step::Reject => joined(chunks.drop_first()).fold_left(seen, f),
            }
        }
    }

    /// Attempts the node like [`Grammar::attempt`] and also hands out the
    /// bytes it consumed, for the caller to fold into an accumulator.
    pub fn observe<'a>(&self, state: &mut ParseState, cursor: &mut ByteCursor<'a>) -> (out: (
        Outcome<Value>,
        &'a [u8],
    ))
        requires
            self.wf(),
            old(state)@.wf(*self),
        ensures
            final(cursor).chunk() == old(cursor).chunk(),
            old(cursor).position() <= final(cursor).position() <= final(cursor).chunk().len(),
            final(state)@.wf(*self),
            match self.resume(old(state)@, old(cursor).unread()) {
                Step::Done { value, used } => {
                    &&& out.0 matches Outcome::Done(parsed)
                    &&& parsed@ == value
                    &&& final(cursor).position() == old(cursor).position() + used
                    &&& final(state)@ == self.fresh()
                    &&& out.1@ == self.consumed(old(state)@, old(cursor).unread())
                },
                Step::NeedMore { state: next } => {
                    &&& out.0 is NeedMore
                    &&& final(cursor).position() == final(cursor).chunk().len()
                    &&& final(state)@ == next
                    &&& out.1@ == self.consumed(old(state)@, old(cursor).unread())
                },
                Step::Reject => {
                    &&& out.0 is Reject
                    &&& final(state)@ == self.fresh()
                },
            },
    {
        let from = cursor.offset();
        let ghost unread = cursor.unread();
        let out = self.attempt(state, cursor);
        let seen = cursor.consumed_since(from);
        assert(seen@ == unread.take(cursor.position() - from));
        assert(unread.take(unread.len() as int) == unread);
        (out, seen)
    }

    /// The bytes consumed from a stream offered in two parts are those
    /// consumed from the stream offered whole.
    proof fn consumed_split(&self, at: Progress, a: Seq<u8>, b: Seq<u8>)
        requires
            self.wf(),
            at.wf(*self),
        ensures
            self.consumed(at, a + b) == match self.resume(at, a) {
                Step::NeedMore { state } => a + self.consumed(state, b),
                Step::Done { .. } => self.consumed(at, a),
                Step::Reject => a + b,
            },
    {
        self.resume_split(at, a, b);
        self.resume_bounded(at, a);
        match self.resume(at, a) {
            Step::NeedMore { state } => {
                self.resume_bounded(state, b);
                match self.resume(state, b) {
                    Step::Done { used, .. } => {
                        assert((a + b).take((used + a.len()) as int) == a + b.take(used as int));
                    },
                    _ => {},
                }
            },
            Step::Done { used, .. } => {
                assert((a + b).take(used as int) == a.take(used as int));
            },
            Step::Reject => {},
        }
    }

    /// Folding the consumed bytes chunk by chunk gives the accumulator that
    /// one pass over the reassembled stream gives, whatever is folded and
    /// wherever the chunks are cut.
    pub proof fn fold_ignores_chunking<A>(
        &self,
        f: spec_fn(A, u8) -> A,
        acc: A,
        at: Progress,
        chunks: Seq<Seq<u8>>,
    )
        requires
            self.wf(),
            at.wf(*self),
        ensures
            self.fold_feed(f, acc, at, chunks) == self.consumed(at, joined(chunks)).fold_left(
                acc,
                f,
            ),
        decreases chunks.len(),
    {
        if chunks.len() == 0 {
            self.resume_bounded(at, joined(chunks));
            assert(self.consumed(at, joined(chunks)) == Seq::<u8>::empty());
        } else {
            let first = chunks[0];
            let rest = chunks.drop_first();
            self.consumed_split(at, first, joined(rest));
            self.resume_bounded(at, first);
            match self.resume(at, first) {
                Step::NeedMore { state } => {
                    self.fold_ignores_chunking(f, first.fold_left(acc, f), state, rest);
                    fold_joins(f, acc, first, self.consumed(state, joined(rest)));
                },
                Step::Done { .. } => {},
                Step::Reject => {
                    fold_joins(f, acc, first, joined(rest));
                },
            }
        }
    }
}

} // verus!
