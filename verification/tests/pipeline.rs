//! Tests of the event channel and of the scan → channel → transmit pipeline.

use midi_matrix::channel::Channel;
use midi_matrix::event::{decode, encode, Edge, FatalError, KeyEvent};
use midi_matrix::scanner::{scan_cell, scan_changes, scan_matrix, KeyState};
use midi_matrix::transmit::{tx_acknowledge, tx_pending, MidiPacket};

fn idle_scan() -> Vec<bool> {
    vec![false; 56]
}

#[test]
fn channel_fifo_order_under_interleaving() {
    let mut c = Channel::new();
    let e1 = encode(KeyEvent { key: 1, edge: Edge::Pressed });
    let e2 = encode(KeyEvent { key: 2, edge: Edge::Pressed });
    let e3 = encode(KeyEvent { key: 1, edge: Edge::Released });
    assert_eq!(c.push(e1), Ok(()));
    assert_eq!(c.peek(), Some(e1));
    assert_eq!(c.push(e2), Ok(()));
    assert_eq!(c.peek(), Some(e1));
    assert_eq!(c.pop(), Some(e1));
    assert_eq!(c.push(e3), Ok(()));
    assert_eq!(c.peek(), Some(e2));
    assert_eq!(c.pop(), Some(e2));
    assert_eq!(c.pop(), Some(e3));
    assert_eq!(c.pop(), None);
    assert_eq!(c.peek(), None);
}

#[test]
fn channel_capacity_boundary() {
    let mut c = Channel::new();
    for i in 0..128u32 {
        assert_eq!(c.push((i % 97) as u8), Ok(()));
    }
    // The 129th event while 128 remain unconsumed: defined fatal behavior,
    // no silent drop or overwrite.
    assert_eq!(c.push(42), Err(FatalError::CapacityExhausted));
    // Everything already queued is intact and in order.
    for i in 0..128u32 {
        assert_eq!(c.pop(), Some((i % 97) as u8));
    }
    assert_eq!(c.pop(), None);
}

#[test]
fn scan_cell_ignores_unwired_cells() {
    let mut state = KeyState::new();
    // Raw indices 0-3 never produce an event, whatever the level.
    for raw in 0..4 {
        assert_eq!(scan_cell(&mut state, raw, true), None);
        assert_eq!(scan_cell(&mut state, raw, false), None);
    }
    // The unpopulated tail of the last row likewise.
    for raw in 53..56 {
        assert_eq!(scan_cell(&mut state, raw, true), None);
    }
}

#[test]
fn scan_cell_emits_on_edges_only() {
    let mut state = KeyState::new();
    let raw = 26; // row 3, column 2
    assert_eq!(
        scan_cell(&mut state, raw, true),
        Some(KeyEvent { key: 22, edge: Edge::Pressed })
    );
    // Held: no further event across repeated scans.
    for _ in 0..100 {
        assert_eq!(scan_cell(&mut state, raw, true), None);
    }
    assert_eq!(
        scan_cell(&mut state, raw, false),
        Some(KeyEvent { key: 22, edge: Edge::Released })
    );
    assert_eq!(scan_cell(&mut state, raw, false), None);
}

#[test]
fn unchanged_scan_produces_nothing() {
    let mut state = KeyState::new();
    let mut chan = Channel::new();
    let samples = idle_scan();
    assert_eq!(scan_matrix(&mut state, &mut chan, &samples), Ok(()));
    assert_eq!(chan.peek(), None);
    // Press one key, drain, then an identical scan again changes nothing.
    let mut pressed = idle_scan();
    pressed[26] = true;
    assert_eq!(scan_matrix(&mut state, &mut chan, &pressed), Ok(()));
    assert_eq!(chan.pop(), Some(encode(KeyEvent { key: 22, edge: Edge::Pressed })));
    assert_eq!(scan_matrix(&mut state, &mut chan, &pressed), Ok(()));
    assert_eq!(chan.peek(), None);
}

#[test]
fn scan_changes_orders_events_by_raw_index() {
    let mut state = KeyState::new();
    let mut samples = idle_scan();
    samples[4] = true; // key 0
    samples[26] = true; // key 22
    samples[52] = true; // key 48
    let evs = scan_changes(&mut state, &samples);
    assert_eq!(
        evs,
        vec![
            encode(KeyEvent { key: 0, edge: Edge::Pressed }),
            encode(KeyEvent { key: 22, edge: Edge::Pressed }),
            encode(KeyEvent { key: 48, edge: Edge::Pressed }),
        ]
    );
    // Releasing two of them emits exactly those two edges.
    let mut next = idle_scan();
    next[26] = true;
    let evs = scan_changes(&mut state, &next);
    assert_eq!(
        evs,
        vec![
            encode(KeyEvent { key: 0, edge: Edge::Released }),
            encode(KeyEvent { key: 48, edge: Edge::Released }),
        ]
    );
}

#[test]
fn press_then_release_becomes_note_on_then_note_off() {
    // Key at row 3, column 2: raw index 26, key index 22, note 34.
    let mut state = KeyState::new();
    let mut chan = Channel::new();
    let mut pressed = idle_scan();
    pressed[26] = true;
    assert_eq!(scan_matrix(&mut state, &mut chan, &pressed), Ok(()));
    assert_eq!(scan_matrix(&mut state, &mut chan, &idle_scan()), Ok(()));

    let on = tx_pending(&chan).unwrap().unwrap();
    assert_eq!(on, MidiPacket { header: 0x09, status: 0x90, note: 34, velocity: 0x7f });
    tx_acknowledge(&mut chan, true);
    let off = tx_pending(&chan).unwrap().unwrap();
    assert_eq!(off, MidiPacket { header: 0x08, status: 0x80, note: 34, velocity: 0x7f });
    tx_acknowledge(&mut chan, true);
    assert_eq!(tx_pending(&chan), Ok(None));
}

#[test]
fn failed_sends_retry_without_duplication() {
    let mut chan = Channel::new();
    let b1 = encode(KeyEvent { key: 7, edge: Edge::Pressed });
    let b2 = encode(KeyEvent { key: 7, edge: Edge::Released });
    chan.push(b1).unwrap();
    chan.push(b2).unwrap();
    let first = tx_pending(&chan).unwrap().unwrap();
    // The send fails three times: the same event stays at the head.
    for _ in 0..3 {
        tx_acknowledge(&mut chan, false);
        assert_eq!(tx_pending(&chan).unwrap().unwrap(), first);
    }
    // Then it succeeds: the event is consumed exactly once.
    tx_acknowledge(&mut chan, true);
    let second = tx_pending(&chan).unwrap().unwrap();
    assert_ne!(second, first);
    tx_acknowledge(&mut chan, true);
    assert_eq!(tx_pending(&chan), Ok(None));
}

#[test]
fn invalid_byte_at_head_is_fatal() {
    let mut chan = Channel::new();
    chan.push(49).unwrap(); // key-index field 49: outside the domain
    assert_eq!(tx_pending(&chan), Err(FatalError::InvalidKeyCode(49)));
    assert_eq!(decode(49), Err(FatalError::InvalidKeyCode(49)));
}

#[test]
fn scan_into_full_channel_is_fatal() {
    let mut state = KeyState::new();
    let mut chan = Channel::new();
    for _ in 0..128 {
        chan.push(0).unwrap();
    }
    let mut pressed = idle_scan();
    pressed[26] = true;
    assert_eq!(
        scan_matrix(&mut state, &mut chan, &pressed),
        Err(FatalError::CapacityExhausted)
    );
}
