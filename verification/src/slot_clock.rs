//! The per-gateway slot clock: slot counter plus wall clock fusion.
//!
//! A clock anchors one slot counter sample to the wall-clock instant at which
//! the gateway captured it. A later counter is then converted to wall time
//! from its slot distance to the anchor, up to one epoch ahead; a counter
//! further ahead than one epoch is invalid and converts to nothing. Each
//! capture re-anchors the clock, which absorbs epoch rollovers.

use vstd::prelude::*;

use crate::pv::{slot_valid, slots_since_spec, InvalidSlotNumber, SlotCounter};

verus! {

/// The nominal duration of one slot, in milliseconds.
pub const SLOT_PERIOD_MS: i64 = 5;

/// The latest wall-clock instant the clock accepts, in milliseconds since the
/// epoch; far enough that conversions cannot overflow.
pub const MAX_TIME_MS: i64 = 253402300799999;

/// How far backwards an anchor instant may move before re-anchoring is
/// refused: one slot period of jitter.
pub const ANCHOR_SKEW_MS: i64 = 5;

/// Why the clock refused an operation.
#[derive(Debug, Copy, Clone, Eq, PartialEq, Structural)]
pub enum SlotClockError {
    /// The counter's slot component does not name a real slot.
    InvalidSlotNumber(u16),
    /// The new anchor instant lies before the current one by more than the
    /// tolerated skew.
    NonMonotonicTime,
    /// The counter lies more than one epoch ahead of the anchor.
    CounterOutOfRange(u16),
}

/// A slot clock: one slot counter sample anchored to a wall-clock instant.
///
/// A plain value with pure conversion; cloning it is free of meaning.
#[derive(Debug, Copy, Clone, Eq, PartialEq, Structural)]
pub struct SlotClock {
    /// The anchored counter sample.
    pub anchor_counter: SlotCounter,
    /// The wall-clock instant of the anchor, in milliseconds since the epoch.
    pub anchor_time_ms: i64,
}

impl SlotClock {
    /// The anchor is a real slot and its instant is within range.
    pub open spec fn wf(&self) -> bool {
        slot_valid(self.anchor_counter.0) && 0 <= self.anchor_time_ms <= MAX_TIME_MS
    }

    /// Anchor a fresh clock, rejecting an invalid counter.
    pub fn new(counter: SlotCounter, time_ms: i64) -> (r: Result<SlotClock, SlotClockError>)
        requires
            0 <= time_ms <= MAX_TIME_MS,
        ensures
            r is Ok <==> slot_valid(counter.0),
            r is Ok ==> r->Ok_0 == (SlotClock { anchor_counter: counter, anchor_time_ms: time_ms })
                && r->Ok_0.wf(),
            r is Err ==> r->Err_0 == SlotClockError::InvalidSlotNumber(counter.0 & 0x3fff),
    {
        match counter.slot_number() {
            Ok(_) => Ok(SlotClock { anchor_counter: counter, anchor_time_ms: time_ms }),
            Err(e) => Err(SlotClockError::InvalidSlotNumber(e.0)),
        }
    }

    /// Re-anchor the clock at a newer capture; epoch rollovers are absorbed
    /// because the new sample replaces the old anchor entirely. An invalid
    /// counter, or an instant behind the current anchor by more than the
    /// tolerated skew, is refused and leaves the clock unchanged.
    pub fn set(&mut self, counter: SlotCounter, time_ms: i64) -> (r: Result<(), SlotClockError>)
        requires
            old(self).wf(),
            0 <= time_ms <= MAX_TIME_MS,
        ensures
            final(self).wf(),
            r is Ok <==> slot_valid(counter.0) && time_ms + ANCHOR_SKEW_MS
                >= old(self).anchor_time_ms,
            r is Ok ==> *final(self) == (SlotClock {
                anchor_counter: counter,
                anchor_time_ms: time_ms,
            }),
            r is Err ==> *final(self) == *old(self),
            r is Err ==> (r->Err_0 == SlotClockError::NonMonotonicTime || r->Err_0
                == SlotClockError::InvalidSlotNumber(counter.0 & 0x3fff)),
    {
        match counter.slot_number() {
            Ok(_) => {
                if time_ms + ANCHOR_SKEW_MS >= self.anchor_time_ms {
                    self.anchor_counter = counter;
                    self.anchor_time_ms = time_ms;
                    Ok(())
                } else {
                    Err(SlotClockError::NonMonotonicTime)
                }
            }
            Err(e) => Err(SlotClockError::InvalidSlotNumber(e.0)),
        }
    }

    /// Does this counter lie at most one epoch ahead of the anchor? Only
    /// such counters convert to wall time.
    pub open spec fn within_one_epoch(&self, c: u16) -> bool {
        slots_since_spec(c, self.anchor_counter.0) <= crate::pv::SLOTS_PER_EPOCH
    }

    /// The wall time a counter within one epoch of the anchor converts to:
    /// the anchor instant plus one slot period per slot of distance.
    pub open spec fn to_wall_time_spec(&self, c: u16) -> int
        recommends
            slot_valid(c),
            self.within_one_epoch(c),
    {
        self.anchor_time_ms + SLOT_PERIOD_MS * slots_since_spec(c, self.anchor_counter.0)
    }

    /// Convert a counter to wall time. A counter whose slot component is out
    /// of range, or which lies more than one epoch ahead of the anchor, is
    /// invalid and converts to nothing.
    pub fn to_wall_time(&self, counter: SlotCounter) -> (r: Result<i64, SlotClockError>)
        requires
            self.wf(),
        ensures
            r is Ok <==> slot_valid(counter.0) && self.within_one_epoch(counter.0),
            r is Ok ==> r->Ok_0 == self.to_wall_time_spec(counter.0),
            r is Err && slot_valid(counter.0) ==> r->Err_0 == SlotClockError::CounterOutOfRange(
                counter.0,
            ),
            r is Err && !slot_valid(counter.0) ==> r->Err_0 == SlotClockError::InvalidSlotNumber(
                counter.0 & 0x3fff,
            ),
    {
        proof {
            crate::pv::lemma_slot_bounds(counter.0);
            crate::pv::lemma_slot_bounds(self.anchor_counter.0);
        }
        match counter.slots_since(&self.anchor_counter) {
            Ok(d) => {
                if d <= crate::pv::SLOTS_PER_EPOCH {
                    Ok(self.anchor_time_ms + SLOT_PERIOD_MS * (d as i64))
                } else {
                    Err(SlotClockError::CounterOutOfRange(counter.0))
                }
            }
            Err(e) => Err(SlotClockError::InvalidSlotNumber(e.0)),
        }
    }
}

/// Slot clock monotonicity: under one clock, if two valid counters both lie
/// within one epoch ahead of the anchor and the second follows the first in
/// slot order, the second converts to a wall time no earlier than the first.
pub proof fn lemma_slot_clock_monotone(clock: SlotClock, c1: u16, c2: u16)
    requires
        clock.wf(),
        slot_valid(c1),
        slot_valid(c2),
        clock.within_one_epoch(c1),
        clock.within_one_epoch(c2),
        slots_since_spec(c1, clock.anchor_counter.0) <= slots_since_spec(
            c2,
            clock.anchor_counter.0,
        ),
    ensures
        clock.to_wall_time_spec(c1) <= clock.to_wall_time_spec(c2),
{
    crate::pv::lemma_slot_bounds(c1);
    crate::pv::lemma_slot_bounds(c2);
    crate::pv::lemma_slot_bounds(clock.anchor_counter.0);
}

} // verus!
