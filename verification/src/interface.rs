//! Grammar nodes: stateless descriptions of the fields a command carries,
//! and the two payload formats of this application.

use vstd::prelude::*;

verus! {

/// Byte order of a fixed-width integer.
#[derive(Clone, Copy, Debug, PartialEq, Eq, Structural)]
pub enum Endianness {
    Little,
    Big,
}

/// An unsigned integer of `width` bytes, one to eight.
#[derive(Clone, Copy, Debug, PartialEq, Eq, Structural)]
pub struct IntNode {
    pub width: u8,
    pub endianness: Endianness,
}

/// How many elements a repeated array has.
#[derive(Clone, Copy, Debug, PartialEq, Eq, Structural)]
pub enum Count {
    /// Known in advance.
    Fixed(u64),
    /// Given by an integer field that precedes the elements.
    Prefixed(IntNode),
}

/// A repeated array: the child node `element`, run once per element. A
/// count above `bound` is rejected. With `keep` the values of the elements
/// are collected; without it each is dropped as soon as it is complete and
/// only their number is tracked.
#[derive(Debug, PartialEq, Eq)]
pub struct ArrayNode {
    pub count: Count,
    pub bound: u64,
    pub element: Box<Grammar>,
    pub keep: bool,
}

/// Any grammar node.
#[derive(Debug, PartialEq, Eq)]
pub enum Grammar {
    Int(IntNode),
    Array(ArrayNode),
}

/// Value of `bytes` read least significant byte first.
pub open spec fn le_value(bytes: Seq<u8>) -> nat
    decreases bytes.len(),
{
    if bytes.len() == 0 {
        0
    } else {
        bytes[0] as nat + 256 * le_value(bytes.drop_first())
    }
}

/// Value of `bytes` read most significant byte first.
pub open spec fn be_value(bytes: Seq<u8>) -> nat
    decreases bytes.len(),
{
    if bytes.len() == 0 {
        0
    } else {
        256 * be_value(bytes.drop_last()) + bytes.last() as nat
    }
}

/// 256 to the power `n`: the number of values that `n` bytes can take.
pub open spec fn span(n: nat) -> nat
    decreases n,
{
    if n == 0 {
        1
    } else {
        256 * span((n - 1) as nat)
    }
}

/// Eight bytes span exactly the range of `u64`, fewer bytes span less.
pub proof fn span_within_u64(n: nat)
    requires
        n <= 8,
    ensures
        1 <= span(n) <= 0x1_0000_0000_0000_0000,
        n < 8 ==> 256 * span(n) <= 0x1_0000_0000_0000_0000,
{
    reveal_with_fuel(span, 10);
}

/// A little-endian value is below the span of its byte count.
pub proof fn le_value_below_span(bytes: Seq<u8>)
    ensures
        le_value(bytes) < span(bytes.len()),
    decreases bytes.len(),
{
    if bytes.len() > 0 {
        le_value_below_span(bytes.drop_first());
    }
}

/// A big-endian value is below the span of its byte count.
pub proof fn be_value_below_span(bytes: Seq<u8>)
    ensures
        be_value(bytes) < span(bytes.len()),
    decreases bytes.len(),
{
    if bytes.len() > 0 {
        be_value_below_span(bytes.drop_last());
    }
}

impl IntNode {
    /// The width is between one and eight bytes.
    pub open spec fn wf(&self) -> bool {
        1 <= self.width <= 8
    }

    /// The integer that `bytes` encode under this node's byte order.
    pub open spec fn decode(&self, bytes: Seq<u8>) -> nat {
        match self.endianness {
            Endianness::Little => le_value(bytes),
            Endianness::Big => be_value(bytes),
        }
    }

    /// Whatever `width` bytes encode fits in a `u64`.
    pub proof fn decode_fits(&self, bytes: Seq<u8>)
        requires
            bytes.len() <= 8,
        ensures
            self.decode(bytes) <= u64::MAX,
    {
        le_value_below_span(bytes);
        be_value_below_span(bytes);
        span_within_u64(bytes.len());
    }

    /// A node of `width` bytes, or `None` when the width is not between one
    /// and eight.
    pub fn new(width: u8, endianness: Endianness) -> (node: Option<IntNode>)
        ensures
            node == if 1 <= width <= 8 {
                Some(IntNode { width, endianness })
            } else {
                None
            },
            node matches Some(n) ==> n.wf(),
    {
        if 1 <= width && width <= 8 {
            Some(IntNode { width, endianness })
        } else {
            None
        }
    }

    /// Tells whether the node is valid.
    pub fn is_valid(&self) -> (valid: bool)
        ensures
            valid == self.wf(),
    {
        1 <= self.width && self.width <= 8
    }

    /// Decodes a complete field.
    pub fn decode_bytes(&self, bytes: &[u8]) -> (value: u64)
        requires
            bytes@.len() <= 8,
        ensures
            value == self.decode(bytes@),
    {
        let n = bytes.len();
        let mut acc: u64 = 0;
        let mut i: usize = 0;
        match self.endianness {
            Endianness::Big => {
                while i < n
                    invariant
                        n == bytes@.len(),
                        n <= 8,
                        i <= n,
                        acc == be_value(bytes@.take(i as int)),
                    decreases n - i,
                {
                    proof {
                        let next = bytes@.take(i + 1);
                        assert(next.drop_last() == bytes@.take(i as int));
                        be_value_below_span(bytes@.take(i as int));
                        span_within_u64(i as nat);
                    }
                    acc = acc * 256 + bytes[i] as u64;
                    i = i + 1;
                }
                assert(bytes@.take(n as int) == bytes@);
            },
            Endianness::Little => {
                while i < n
                    invariant
                        n == bytes@.len(),
                        n <= 8,
                        i <= n,
                        acc == le_value(bytes@.skip(n - i)),
                    decreases n - i,
                {
                    proof {
                        let next = bytes@.skip(n - i - 1);
                        assert(next.drop_first() == bytes@.skip(n - i));
                        le_value_below_span(bytes@.skip(n - i));
                        span_within_u64(i as nat);
                    }
                    acc = acc * 256 + bytes[n - i - 1] as u64;
                    i = i + 1;
                }
                assert(bytes@.skip(0) == bytes@);
            },
        }
        acc
    }
}

impl ArrayNode {
    /// The child node and, where there is one, the count prefix are valid.
    pub open spec fn wf(&self) -> bool
        decreases self,
    {
        &&& self.element.wf()
        &&& self.count matches Count::Prefixed(prefix) ==> prefix.wf()
    }

    /// Tells whether the node is valid.
    pub fn is_valid(&self) -> (valid: bool)
        ensures
            valid == self.wf(),
        decreases self,
    {
        self.element.is_valid() && match self.count {
            Count::Prefixed(prefix) => prefix.is_valid(),
            Count::Fixed(_) => true,
        }
    }
}

impl Grammar {
    /// Every node inside is valid.
    pub open spec fn wf(&self) -> bool
        decreases self,
    {
        match self {
            Grammar::Int(node) => node.wf(),
            Grammar::Array(node) => node.wf(),
        }
    }

    /// Tells whether the node is valid.
    pub fn is_valid(&self) -> (valid: bool)
        ensures
            valid == self.wf(),
        decreases self,
    {
        match self {
            Grammar::Int(node) => node.is_valid(),
            Grammar::Array(node) => node.is_valid(),
        }
    }
}

/// Payload of a public-key request: one count byte, then that many
/// little-endian 32-bit path segments, ten at most, all kept.
pub open spec fn bip32_key_format() -> ArrayNode {
    ArrayNode {
        count: Count::Prefixed(IntNode { width: 1, endianness: Endianness::Little }),
        bound: 10,
        element: Box::new(Grammar::Int(IntNode { width: 4, endianness: Endianness::Little })),
        keep: true,
    }
}

/// The node for [`bip32_key_format`].
pub fn bip32_key() -> (node: ArrayNode)
    ensures
        node == bip32_key_format(),
        node.wf(),
{
    ArrayNode {
        count: Count::Prefixed(IntNode { width: 1, endianness: Endianness::Little }),
        bound: 10,
        element: Box::new(Grammar::Int(IntNode { width: 4, endianness: Endianness::Little })),
        keep: true,
    }
}

/// A transaction: a little-endian 32-bit length, then that many bytes, none
/// of them kept.
pub open spec fn transaction_format() -> ArrayNode {
    ArrayNode {
        count: Count::Prefixed(IntNode { width: 4, endianness: Endianness::Little }),
        bound: u64::MAX,
        element: Box::new(Grammar::Int(IntNode { width: 1, endianness: Endianness::Little })),
        keep: false,
    }
}

/// The node for [`transaction_format`].
pub fn transaction() -> (node: ArrayNode)
    ensures
        node == transaction_format(),
        node.wf(),
{
    ArrayNode {
        count: Count::Prefixed(IntNode { width: 4, endianness: Endianness::Little }),
        bound: u64::MAX,
        element: Box::new(Grammar::Int(IntNode { width: 1, endianness: Endianness::Little })),
        keep: false,
    }
}

} // verus!
