//! Matrix scanning: the previous-scan snapshot, per-cell edge detection,
//! and the conversion of one full scan's samples into encoded events on the
//! event channel.
//!
//! The matrix is strobed as 7 rows by 8 columns, giving raw scan indices
//! `row * 8 + column` in `[0, 55]`. Raw indices 0–3 are wired to no key and
//! are always ignored; a key's index is its raw index minus 4. Raw indices
//! beyond 52 likewise map to no physical key (the last row is only partly
//! populated) and never produce an event.

use vstd::prelude::*;
use vstd::pervasive::VecAdditionalExecFns;
use crate::channel::Channel;
use crate::event::{
    decode_spec, encode, encode_spec, lemma_encode_decode_round_trip, Edge, FatalError, KeyEvent,
};

verus! {

/// Number of cells sampled by one full matrix scan (7 rows of 8 columns).
pub const SCAN_CELLS: usize = 56;

/// Raw indices below this are wired to no key.
pub const FIRST_KEY_CELL: usize = 4;

/// Raw indices above this are wired to no key.
pub const LAST_KEY_CELL: usize = 52;

/// The previous-scan snapshot: one bit per key, `true` = pressed. Owned
/// exclusively by the scanning context; it is the sole source of truth for
/// what changed since the last scan.
pub struct KeyState {
    pressed: Vec<bool>,
}

impl KeyState {
    /// The per-key pressed bits.
    pub closed spec fn snapshot(&self) -> Seq<bool> {
        self.pressed@
    }

    /// One bit per key.
    pub open spec fn wf(&self) -> bool {
        self.snapshot().len() == 49
    }

    /// A fresh snapshot: every key released.
    pub fn new() -> (s: KeyState)
        ensures
            s.wf(),
            s.snapshot() =~= Seq::new(49, |i: int| false),
    {
        let mut pressed: Vec<bool> = Vec::new();
        let mut i: usize = 0;
        while i < 49
            invariant
                i <= 49,
                pressed@.len() == i,
                forall|j: int| 0 <= j < i ==> !pressed@[j],
            decreases 49 - i,
        {
            pressed.push(false);
            i += 1;
        }
        let s = KeyState { pressed };
        proof {
            assert(s.snapshot() =~= Seq::new(49, |i: int| false));
        }
        s
    }
}

/// The event bytes one cell contributes to a scan: one encoded event when
/// the cell is wired to a key and its sampled level differs from the
/// snapshot, none otherwise.
pub open spec fn cell_event(prev: Seq<bool>, samples: Seq<bool>, i: int) -> Seq<u8> {
    if FIRST_KEY_CELL <= i <= LAST_KEY_CELL && samples[i] != prev[i - FIRST_KEY_CELL] {
        seq![
            encode_spec(
                KeyEvent {
                    key: (i - FIRST_KEY_CELL) as u8,
                    edge: if samples[i] { Edge::Pressed } else { Edge::Released },
                },
            ),
        ]
    } else {
        Seq::empty()
    }
}

/// The event bytes of the first `n` cells of a scan, in raw-index order.
pub open spec fn scan_events_upto(prev: Seq<bool>, samples: Seq<bool>, n: int) -> Seq<u8>
    decreases n,
{
    if n <= 0 {
        Seq::empty()
    } else {
        scan_events_upto(prev, samples, n - 1) + cell_event(prev, samples, n - 1)
    }
}

/// The event bytes of one full scan against snapshot `prev`, in raw-index
/// order.
pub open spec fn scan_events(prev: Seq<bool>, samples: Seq<bool>) -> Seq<u8> {
    scan_events_upto(prev, samples, SCAN_CELLS as int)
}

/// The snapshot after a full scan: each key's bit is its sampled level.
pub open spec fn snapshot_after(samples: Seq<bool>) -> Seq<bool> {
    Seq::new(49, |k: int| samples[k + FIRST_KEY_CELL])
}

/// Edge detection for one sampled cell. Cells wired to no key (raw index
/// below 4 or above 52) never produce an event and leave the snapshot
/// untouched; for the rest, an event is produced if and only if the sampled
/// level differs from the snapshot bit, which is then updated.
pub fn scan_cell(state: &mut KeyState, raw_index: usize, level: bool) -> (ev: Option<KeyEvent>)
    requires
        old(state).wf(),
        raw_index < SCAN_CELLS,
    ensures
        final(state).wf(),
        (if FIRST_KEY_CELL <= raw_index <= LAST_KEY_CELL && level != old(state).snapshot()[raw_index
            - FIRST_KEY_CELL] {
            ev == Some(
                KeyEvent {
                    key: (raw_index - FIRST_KEY_CELL) as u8,
                    edge: if level { Edge::Pressed } else { Edge::Released },
                },
            ) && final(state).snapshot() == old(state).snapshot().update(
                raw_index - FIRST_KEY_CELL,
                level,
            )
        } else {
            ev is None && final(state).snapshot() == old(state).snapshot()
        }),
{
    if raw_index < FIRST_KEY_CELL || raw_index > LAST_KEY_CELL {
        return None;
    }
    let key = raw_index - FIRST_KEY_CELL;
    if self_get(state, key) != level {
        state.pressed.set(key, level);
        let edge = if level { Edge::Pressed } else { Edge::Released };
        Some(KeyEvent { key: key as u8, edge })
    } else {
        None
    }
}

/// Reads one snapshot bit.
fn self_get(state: &KeyState, key: usize) -> (b: bool)
    requires
        state.wf(),
        key < 49,
    ensures
        b == state.snapshot()[key as int],
{
    state.pressed[key]
}

/// Processes one full scan's samples (all 56 cells in raw-index order)
/// against the snapshot: updates the snapshot to the sampled levels and
/// returns the encoded events of every detected edge, in detection order.
pub fn scan_changes(state: &mut KeyState, samples: &Vec<bool>) -> (evs: Vec<u8>)
    requires
        old(state).wf(),
        samples@.len() == SCAN_CELLS,
    ensures
        final(state).wf(),
        final(state).snapshot() =~= snapshot_after(samples@),
        evs@ == scan_events(old(state).snapshot(), samples@),
{
    let ghost prev = old(state).snapshot();
    let mut evs: Vec<u8> = Vec::new();
    let mut i: usize = 0;
    while i < SCAN_CELLS
        invariant
            i <= SCAN_CELLS,
            samples@.len() == SCAN_CELLS,
            state.wf(),
            prev.len() == 49,
            evs@ == scan_events_upto(prev, samples@, i as int),
            forall|k: int|
                0 <= k < 49 ==> state.snapshot()[k] == (if k + FIRST_KEY_CELL < i {
                    samples@[k + FIRST_KEY_CELL]
                } else {
                    prev[k]
                }),
        decreases SCAN_CELLS - i,
    {
        let level = samples[i];
        match scan_cell(state, i, level) {
            Some(ev) => {
                evs.push(encode(ev));
            },
            None => {},
        }
        proof {
            assert(evs@ =~= scan_events_upto(prev, samples@, i + 1));
        }
        i += 1;
    }
    evs
}

/// Pushes a batch of event bytes onto the channel in order. When the
/// channel cannot take them all, the bytes that fit are pushed and the
/// batch is reported as an unrecoverable capacity exhaustion — never a
/// silent drop.
pub fn push_events(chan: &mut Channel, evs: &Vec<u8>) -> (r: Result<(), FatalError>)
    requires
        old(chan).wf(),
    ensures
        final(chan).wf(),
        r is Ok <==> old(chan).contents().len() + evs@.len() <= 128,
        r is Ok ==> final(chan).contents() == old(chan).contents() + evs@,
        r is Err ==> r == Err::<(), FatalError>(FatalError::CapacityExhausted)
            && final(chan).contents() =~= old(chan).contents() + evs@.take(
            128 - old(chan).contents().len(),
        ),
{
    let ghost orig = old(chan).contents();
    let mut i: usize = 0;
    while i < evs.len()
        invariant
            i <= evs@.len(),
            chan.wf(),
            orig == old(chan).contents(),
            orig.len() + i <= 128,
            chan.contents() == orig + evs@.take(i as int),
        decreases evs@.len() - i,
    {
        match chan.push(evs[i]) {
            Ok(_) => {
                proof {
                    assert(chan.contents() =~= orig + evs@.take(i + 1));
                }
            },
            Err(e) => {
                proof {
                    assert(orig.len() + i == 128);
                    assert(evs@.take(128 - orig.len()) =~= evs@.take(i as int));
                }
                return Err(e);
            },
        }
        i += 1;
    }
    proof {
        assert(orig + evs@.take(evs@.len() as int) =~= orig + evs@);
    }
    Ok(())
}

/// One full matrix scan against the channel: detects every edge, updates
/// the snapshot, and queues the encoded events in detection order. A full
/// channel is an unrecoverable condition, reported rather than worked
/// around.
pub fn scan_matrix(state: &mut KeyState, chan: &mut Channel, samples: &Vec<bool>) -> (r: Result<
    (),
    FatalError,
>)
    requires
        old(state).wf(),
        old(chan).wf(),
        samples@.len() == SCAN_CELLS,
    ensures
        final(state).wf(),
        final(chan).wf(),
        final(state).snapshot() =~= snapshot_after(samples@),
        ({
            let evs = scan_events(old(state).snapshot(), samples@);
            &&& (r is Ok <==> old(chan).contents().len() + evs.len() <= 128)
            &&& (r is Ok ==> final(chan).contents() == old(chan).contents() + evs)
            &&& (r is Err ==> r == Err::<(), FatalError>(FatalError::CapacityExhausted)
                && final(chan).contents() =~= old(chan).contents() + evs.take(
                128 - old(chan).contents().len(),
            ))
        }),
{
    let evs = scan_changes(state, samples);
    push_events(chan, &evs)
}

/// Law: a scan whose sampled levels match the snapshot for every key
/// produces no events at all, and so leaves the channel unchanged.
pub proof fn lemma_unchanged_scan_no_events(prev: Seq<bool>, samples: Seq<bool>)
    requires
        prev.len() == 49,
        samples.len() == SCAN_CELLS,
        forall|k: int| 0 <= k < 49 ==> samples[k + FIRST_KEY_CELL] == prev[k],
    ensures
        scan_events(prev, samples) =~= Seq::<u8>::empty(),
{
    lemma_unchanged_scan_upto(prev, samples, SCAN_CELLS as int);
}

proof fn lemma_unchanged_scan_upto(prev: Seq<bool>, samples: Seq<bool>, n: int)
    requires
        prev.len() == 49,
        samples.len() == SCAN_CELLS,
        forall|k: int| 0 <= k < 49 ==> samples[k + FIRST_KEY_CELL] == prev[k],
        0 <= n <= SCAN_CELLS,
    ensures
        scan_events_upto(prev, samples, n) =~= Seq::<u8>::empty(),
    decreases n,
{
    if n > 0 {
        lemma_unchanged_scan_upto(prev, samples, n - 1);
        let i = n - 1;
        if FIRST_KEY_CELL <= i <= LAST_KEY_CELL {
            assert(samples[(i - FIRST_KEY_CELL) + FIRST_KEY_CELL] == prev[i - FIRST_KEY_CELL]);
        }
        assert(cell_event(prev, samples, i) =~= Seq::<u8>::empty());
    }
}

/// Whether a channel byte stands for an event at key `k`.
pub open spec fn is_event_for(b: u8, k: int) -> bool {
    match decode_spec(b) {
        Some(e) => e.key == k,
        None => false,
    }
}

/// How many of the event bytes are events at key `k`.
pub open spec fn count_for_key(evs: Seq<u8>, k: int) -> nat
    decreases evs.len(),
{
    if evs.len() == 0 {
        0
    } else {
        (if is_event_for(evs[0], k) {
            1nat
        } else {
            0nat
        }) + count_for_key(evs.drop_first(), k)
    }
}

proof fn lemma_count_concat(a: Seq<u8>, b: Seq<u8>, k: int)
    ensures
        count_for_key(a + b, k) == count_for_key(a, k) + count_for_key(b, k),
    decreases a.len(),
{
    if a.len() == 0 {
        assert(a + b =~= b);
    } else {
        assert((a + b).drop_first() =~= a.drop_first() + b);
        assert((a + b)[0] == a[0]);
        lemma_count_concat(a.drop_first(), b, k);
    }
}

/// Law: one scan emits at most one event per key — exactly one when the
/// key's sampled level differs from the snapshot, none when it does not.
pub proof fn lemma_scan_events_at_key(prev: Seq<bool>, samples: Seq<bool>, k: int)
    requires
        prev.len() == 49,
        samples.len() == SCAN_CELLS,
        0 <= k < 49,
    ensures
        count_for_key(scan_events(prev, samples), k) == (if samples[k + FIRST_KEY_CELL] != prev[k] {
            1nat
        } else {
            0nat
        }),
{
    lemma_scan_events_at_key_upto(prev, samples, k, SCAN_CELLS as int);
}

proof fn lemma_scan_events_at_key_upto(prev: Seq<bool>, samples: Seq<bool>, k: int, n: int)
    requires
        prev.len() == 49,
        samples.len() == SCAN_CELLS,
        0 <= k < 49,
        0 <= n <= SCAN_CELLS,
    ensures
        count_for_key(scan_events_upto(prev, samples, n), k) == (if k + FIRST_KEY_CELL < n
            && samples[k + FIRST_KEY_CELL] != prev[k] {
            1nat
        } else {
            0nat
        }),
    decreases n,
{
    if n > 0 {
        let i = n - 1;
        lemma_scan_events_at_key_upto(prev, samples, k, i);
        lemma_count_concat(scan_events_upto(prev, samples, i), cell_event(prev, samples, i), k);
        if FIRST_KEY_CELL <= i <= LAST_KEY_CELL && samples[i] != prev[i - FIRST_KEY_CELL] {
            let ev = KeyEvent {
                key: (i - FIRST_KEY_CELL) as u8,
                edge: if samples[i] {
                    Edge::Pressed
                } else {
                    Edge::Released
                },
            };
            lemma_encode_decode_round_trip(ev);
            assert(cell_event(prev, samples, i) =~= seq![encode_spec(ev)]);
            assert(seq![encode_spec(ev)].drop_first() =~= Seq::<u8>::empty());
            assert(count_for_key(Seq::<u8>::empty(), k) == 0);
            assert(is_event_for(encode_spec(ev), k) == (k == i - FIRST_KEY_CELL));
            assert(count_for_key(seq![encode_spec(ev)], k) == (if k == i - FIRST_KEY_CELL {
                1nat
            } else {
                0nat
            }));
        } else {
            assert(cell_event(prev, samples, i) =~= Seq::<u8>::empty());
        }
    }
}

/// Number of level transitions in a run of successive samples of one key,
/// starting from level `prev`.
pub open spec fn level_changes(prev: bool, levels: Seq<bool>) -> nat
    decreases levels.len(),
{
    if levels.len() == 0 {
        0
    } else {
        (if levels[0] != prev {
            1nat
        } else {
            0nat
        }) + level_changes(levels[0], levels.drop_first())
    }
}

/// The events the scanner emits for key `k` over a whole run of scans,
/// with the snapshot carried from scan to scan.
pub open spec fn total_events_at_key(prev: Seq<bool>, scans: Seq<Seq<bool>>, k: int) -> nat
    decreases scans.len(),
{
    if scans.len() == 0 {
        0
    } else {
        count_for_key(scan_events(prev, scans[0]), k) + total_events_at_key(
            snapshot_after(scans[0]),
            scans.drop_first(),
            k,
        )
    }
}

/// The successive sampled levels of key `k` over a run of scans.
pub open spec fn levels_at(scans: Seq<Seq<bool>>, k: int) -> Seq<bool> {
    Seq::new(scans.len(), |i: int| scans[i][k + FIRST_KEY_CELL])
}

/// Law: edge-only emission. Over any run of scans, the number of events
/// emitted for a key equals the number of level changes sampled at that
/// key — not the number of scan cycles: a key held across many scans
/// yields exactly the one event of its first transition.
pub proof fn lemma_edge_only(prev: Seq<bool>, scans: Seq<Seq<bool>>, k: int)
    requires
        prev.len() == 49,
        0 <= k < 49,
        forall|i: int| 0 <= i < scans.len() ==> #[trigger] scans[i].len() == SCAN_CELLS,
    ensures
        total_events_at_key(prev, scans, k) == level_changes(prev[k], levels_at(scans, k)),
    decreases scans.len(),
{
    if scans.len() > 0 {
        let first = scans[0];
        let rest = scans.drop_first();
        lemma_scan_events_at_key(prev, first, k);
        assert(snapshot_after(first).len() == 49);
        assert(snapshot_after(first)[k] == first[k + FIRST_KEY_CELL]);
        lemma_edge_only(snapshot_after(first), rest, k);
        assert(levels_at(scans, k).drop_first() =~= levels_at(rest, k));
        assert(levels_at(scans, k)[0] == first[k + FIRST_KEY_CELL]);
    }
}

/// Law: a key held at one level across any number of scans produces at
/// most one event — one when the level differs from the starting
/// snapshot, none when it is the same.
pub proof fn lemma_held_key(prev: bool, levels: Seq<bool>, v: bool)
    requires
        forall|i: int| 0 <= i < levels.len() ==> levels[i] == v,
    ensures
        level_changes(prev, levels) == (if levels.len() > 0 && v != prev {
            1nat
        } else {
            0nat
        }),
    decreases levels.len(),
{
    if levels.len() > 0 {
        assert(levels[0] == v);
        lemma_held_key(v, levels.drop_first(), v);
    }
}

} // verus!
