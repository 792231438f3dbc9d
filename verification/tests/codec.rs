//! Tests of the one-byte event encoding, the key map and packet building.

use midi_matrix::event::{decode, encode, Edge, FatalError, KeyEvent};
use midi_matrix::transmit::{key_index_to_note, packet_for, MidiPacket};

#[test]
fn round_trip_all_keys_both_edges() {
    for key in 0u8..49 {
        for edge in [Edge::Pressed, Edge::Released] {
            let e = KeyEvent { key, edge };
            let b = encode(e);
            assert_eq!(decode(b), Ok(e));
        }
    }
}

#[test]
fn encode_packs_edge_in_high_bit() {
    assert_eq!(encode(KeyEvent { key: 0, edge: Edge::Pressed }), 128);
    assert_eq!(encode(KeyEvent { key: 0, edge: Edge::Released }), 0);
    assert_eq!(encode(KeyEvent { key: 22, edge: Edge::Pressed }), 150);
    assert_eq!(encode(KeyEvent { key: 22, edge: Edge::Released }), 22);
    assert_eq!(encode(KeyEvent { key: 48, edge: Edge::Pressed }), 176);
}

#[test]
fn decode_rejects_out_of_domain_key_field() {
    // Low seven bits above 48: invalid whichever the edge bit says.
    assert_eq!(decode(49), Err(FatalError::InvalidKeyCode(49)));
    assert_eq!(decode(127), Err(FatalError::InvalidKeyCode(127)));
    assert_eq!(decode(128 + 49), Err(FatalError::InvalidKeyCode(177)));
    assert_eq!(decode(255), Err(FatalError::InvalidKeyCode(255)));
    // Boundary values are valid.
    assert!(decode(48).is_ok());
    assert!(decode(128 + 48).is_ok());
}

#[test]
fn key_map_is_chromatic_from_c0() {
    assert_eq!(key_index_to_note(0), 12); // C0
    assert_eq!(key_index_to_note(12), 24); // C1
    assert_eq!(key_index_to_note(22), 34);
    assert_eq!(key_index_to_note(48), 60); // C4
    // Bijective over the domain: all values distinct.
    let mut seen = [false; 128];
    for k in 0u8..49 {
        let n = key_index_to_note(k) as usize;
        assert!(!seen[n]);
        seen[n] = true;
    }
}

#[test]
fn packet_for_press_and_release() {
    let on = packet_for(KeyEvent { key: 22, edge: Edge::Pressed });
    assert_eq!(on, MidiPacket { header: 0x09, status: 0x90, note: 34, velocity: 0x7f });
    let off = packet_for(KeyEvent { key: 22, edge: Edge::Released });
    assert_eq!(off, MidiPacket { header: 0x08, status: 0x80, note: 34, velocity: 0x7f });
}
