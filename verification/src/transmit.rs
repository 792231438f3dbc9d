//! The transmit side: the key map, USB MIDI packet construction, and the
//! per-iteration service step of the transmit loop.
//!
//! Each service iteration peeks at most one pending event, builds its USB
//! MIDI event packet, and removes the event from the channel only once the
//! caller reports a successful send. A failed send leaves the event at the
//! channel head for the next iteration: at-least-once, in-order delivery
//! with head-of-line blocking.

use vstd::prelude::*;
use crate::channel::Channel;
use crate::event::{decode, decode_spec, FatalError, KeyEvent};

verus! {

/// MIDI note number of the lowest key (C0 in scientific pitch, MIDI 12).
pub const LOWEST_NOTE: u8 = 12;

/// The key map: key index to MIDI note number. The 49 keys span four and a
/// bit chromatic octaves upward from C0, so the map adds a fixed offset and
/// is bijective over its domain.
pub open spec fn note_number_spec(k: int) -> int {
    k + LOWEST_NOTE
}

/// Looks a key up in the key map. Total over the valid domain; out-of-range
/// input is precluded by construction.
pub fn key_index_to_note(k: u8) -> (n: u8)
    requires
        k < 49,
    ensures
        n == note_number_spec(k as int),
        LOWEST_NOTE <= n <= 60,
{
    k + LOWEST_NOTE
}

/// A 4-byte USB MIDI event packet: header (cable number in the high
/// nibble, code index number in the low), then the 3-byte channel-voice
/// message (status, note number, velocity).
#[derive(Clone, Copy, PartialEq, Eq, Structural, Debug)]
pub struct MidiPacket {
    pub header: u8,
    pub status: u8,
    pub note: u8,
    pub velocity: u8,
}

/// The packet for an event: cable 0; code index number and status for note
/// on (0x9) or note off (0x8); channel 1 (0 on the wire); the mapped note;
/// maximum velocity.
pub open spec fn packet_spec(e: KeyEvent) -> MidiPacket {
    MidiPacket {
        header: if e.edge is Pressed {
            0x09
        } else {
            0x08
        },
        status: if e.edge is Pressed {
            0x90
        } else {
            0x80
        },
        note: note_number_spec(e.key as int) as u8,
        velocity: 0x7f,
    }
}

/// Builds the USB MIDI event packet for one key event.
pub fn packet_for(e: KeyEvent) -> (p: MidiPacket)
    requires
        e.wf(),
    ensures
        p == packet_spec(e),
{
    let note = key_index_to_note(e.key);
    match e.edge {
        crate::event::Edge::Pressed => MidiPacket {
            header: 0x09,
            status: 0x90,
            note,
            velocity: 0x7f,
        },
        crate::event::Edge::Released => MidiPacket {
            header: 0x08,
            status: 0x80,
            note,
            velocity: 0x7f,
        },
    }
}

/// The decision half of one transmit-loop iteration: peeks the channel and
/// builds the packet for the event at its head. The channel is not
/// changed. A head byte whose key-index field is out of domain is the
/// defined fatal condition.
pub fn tx_pending(chan: &Channel) -> (r: Result<Option<MidiPacket>, FatalError>)
    ensures
        chan.contents().len() == 0 ==> r == Ok::<Option<MidiPacket>, FatalError>(None),
        chan.contents().len() > 0 ==> (match decode_spec(chan.contents()[0]) {
            Some(e) => r == Ok::<Option<MidiPacket>, FatalError>(Some(packet_spec(e))),
            None => r == Err::<Option<MidiPacket>, FatalError>(
                FatalError::InvalidKeyCode(chan.contents()[0]),
            ),
        }),
{
    match chan.peek() {
        None => Ok(None),
        Some(b) => match decode(b) {
            Ok(e) => {
                proof {
                    assert(decode_spec(b) is Some);
                    assert(e.wf());
                }
                Ok(Some(packet_for(e)))
            },
            Err(err) => Err(err),
        },
    }
}

/// The completion half of one transmit-loop iteration: on a successful
/// send the head event is removed for good; on a failed send the channel
/// is left as it was, so the same event is retried next iteration.
pub fn tx_acknowledge(chan: &mut Channel, sent: bool)
    requires
        old(chan).contents().len() > 0,
    ensures
        old(chan).wf() ==> final(chan).wf(),
        sent ==> final(chan).contents() == old(chan).contents().drop_first(),
        !sent ==> final(chan).contents() == old(chan).contents(),
{
    if sent {
        let _ = chan.pop();
    }
}

/// What one service iteration leaves in the channel: the head is removed
/// exactly when an event was pending and the send succeeded.
pub open spec fn tx_step(s: Seq<u8>, sent: bool) -> Seq<u8> {
    if s.len() > 0 && sent {
        s.drop_first()
    } else {
        s
    }
}

/// What one service iteration delivers to the host: the head event when
/// one was pending and the send succeeded, nothing otherwise.
pub open spec fn tx_delivered(s: Seq<u8>, sent: bool) -> Seq<u8> {
    if s.len() > 0 && sent {
        seq![s[0]]
    } else {
        Seq::empty()
    }
}

/// The channel contents after a run of service iterations with the given
/// send outcomes.
pub open spec fn tx_run_state(s: Seq<u8>, outcomes: Seq<bool>) -> Seq<u8>
    decreases outcomes.len(),
{
    if outcomes.len() == 0 {
        s
    } else {
        tx_run_state(tx_step(s, outcomes[0]), outcomes.drop_first())
    }
}

/// Everything a run of service iterations delivers to the host, in order.
pub open spec fn tx_run_delivered(s: Seq<u8>, outcomes: Seq<bool>) -> Seq<u8>
    decreases outcomes.len(),
{
    if outcomes.len() == 0 {
        Seq::empty()
    } else {
        tx_delivered(s, outcomes[0]) + tx_run_delivered(tx_step(s, outcomes[0]), outcomes.drop_first())
    }
}

/// A run of send outcomes: `k` failures, then one success.
pub open spec fn fail_then_succeed(k: nat) -> Seq<bool> {
    Seq::new(k, |i: int| false).push(true)
}

/// Law: retry without duplication. If the send of the head event fails any
/// number of times and then succeeds, that event is delivered exactly once
/// and exactly it is consumed from the channel.
pub proof fn lemma_retry_delivers_once(s: Seq<u8>, k: nat)
    requires
        s.len() > 0,
    ensures
        tx_run_delivered(s, fail_then_succeed(k)) =~= seq![s[0]],
        tx_run_state(s, fail_then_succeed(k)) =~= s.drop_first(),
    decreases k,
{
    let outcomes = fail_then_succeed(k);
    let rest = outcomes.drop_first();
    assert(outcomes.len() == k + 1);
    if k == 0 {
        assert(outcomes[0]);
        assert(rest =~= Seq::<bool>::empty());
        assert(tx_run_delivered(s, outcomes) == tx_delivered(s, true) + tx_run_delivered(
            tx_step(s, true),
            rest,
        ));
        assert(tx_run_delivered(tx_step(s, true), rest) =~= Seq::<u8>::empty());
        assert(tx_run_state(s, outcomes) == tx_run_state(tx_step(s, true), rest));
        assert(tx_run_state(tx_step(s, true), rest) == tx_step(s, true));
    } else {
        assert(!outcomes[0]);
        assert(tx_step(s, false) == s);
        assert(rest =~= fail_then_succeed((k - 1) as nat));
        lemma_retry_delivers_once(s, (k - 1) as nat);
        assert(tx_run_delivered(s, rest) =~= seq![s[0]]);
        assert(tx_run_state(s, rest) =~= s.drop_first());
        assert(tx_run_delivered(s, outcomes) == tx_delivered(s, false) + tx_run_delivered(s, rest));
        assert(tx_run_state(s, outcomes) == tx_run_state(s, rest));
    }
}

} // verus!
