//! Key events and their one-byte wire encoding.
//!
//! A key event pairs a key index in `[0, 48]` with an edge (pressed or
//! released). For transport through the event channel it is packed into a
//! single byte: the high bit carries the edge (1 = pressed), the low seven
//! bits carry the key index.

use vstd::prelude::*;

verus! {

/// Number of physical keys; valid key indices are `0 .. KEY_COUNT - 1`.
pub const KEY_COUNT: u8 = 49;

/// The direction of a key transition.
#[derive(Clone, Copy, PartialEq, Eq, Structural, Debug)]
pub enum Edge {
    Pressed,
    Released,
}

/// One detected key transition.
#[derive(Clone, Copy, PartialEq, Eq, Structural, Debug)]
pub struct KeyEvent {
    pub key: u8,
    pub edge: Edge,
}

impl KeyEvent {
    /// The key index lies in the valid domain.
    pub open spec fn wf(self) -> bool {
        self.key < KEY_COUNT
    }
}

/// Conditions the design asserts cannot occur in correct operation; on
/// occurrence the affected execution context halts rather than continuing
/// with corrupted state.
#[derive(Clone, Copy, PartialEq, Eq, Structural, Debug)]
pub enum FatalError {
    /// The event channel was full when one more event had to be queued.
    CapacityExhausted,
    /// A channel byte whose key-index field lies outside the valid domain.
    InvalidKeyCode(u8),
}

/// The wire byte for an event: high bit = edge (1 = pressed), low seven
/// bits = key index.
pub open spec fn encode_spec(e: KeyEvent) -> u8 {
    if e.edge is Pressed {
        (e.key + 128) as u8
    } else {
        e.key
    }
}

/// The event a wire byte stands for, or `None` when the key-index field is
/// outside the valid domain.
pub open spec fn decode_spec(b: u8) -> Option<KeyEvent> {
    let k = if b >= 128 { (b - 128) as u8 } else { b };
    if k < KEY_COUNT {
        Some(KeyEvent { key: k, edge: if b >= 128 { Edge::Pressed } else { Edge::Released } })
    } else {
        None
    }
}

/// Packs an event into its wire byte.
pub fn encode(e: KeyEvent) -> (b: u8)
    requires
        e.wf(),
    ensures
        b == encode_spec(e),
{
    match e.edge {
        Edge::Pressed => e.key + 128,
        Edge::Released => e.key,
    }
}

/// Unpacks a wire byte; rejects, rather than silently substitutes, a byte
/// whose key-index field is outside the valid domain.
pub fn decode(b: u8) -> (r: Result<KeyEvent, FatalError>)
    ensures
        r is Ok <==> decode_spec(b) is Some,
        r is Ok ==> decode_spec(b) == Some(r->Ok_0),
        r is Err ==> r->Err_0 == FatalError::InvalidKeyCode(b),
{
    let key: u8 = if b >= 128 { b - 128 } else { b };
    if key < KEY_COUNT {
        let edge = if b >= 128 { Edge::Pressed } else { Edge::Released };
        Ok(KeyEvent { key, edge })
    } else {
        Err(FatalError::InvalidKeyCode(b))
    }
}

/// Law: decoding an encoded event gives the event back, for every valid
/// key index and either edge.
pub proof fn lemma_encode_decode_round_trip(e: KeyEvent)
    requires
        e.wf(),
    ensures
        decode_spec(encode_spec(e)) == Some(e),
{
}

/// Law: encoding a successfully decoded byte gives the byte back.
pub proof fn lemma_decode_encode_round_trip(b: u8)
    requires
        decode_spec(b) is Some,
    ensures
        encode_spec(decode_spec(b)->Some_0) == b,
{
}

} // verus!
