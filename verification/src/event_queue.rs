//! Spike events and the time wheel that schedules them.
//!
//! The wheel is a circular calendar queue of `W` slots. An event with time
//! `t` lives in slot `t mod W`. Two events whose times differ by a multiple
//! of `W` share a slot and are handed out together, in the order in which
//! they were scheduled: the wheel does not tell them apart. A caller that
//! needs them apart picks `W` larger than the longest delay it schedules
//! ahead.

use vstd::prelude::*;
use crate::error::EmbeddedError;

verus! {

/// A spike of one neuron at one tick.
#[derive(Clone, Copy, Debug, PartialEq, Eq, Structural)]
pub struct SpikeEvent {
    pub neuron_id: u32,
    pub time: u64,
}

/// Mathematical model of a time wheel: the content of each slot, in
/// insertion order, and the current tick.
pub struct WheelView {
    pub slots: Seq<Seq<SpikeEvent>>,
    pub current_time: u64,
}

impl WheelView {
    /// The slot in which an event with the given time lives.
    pub open spec fn slot_of(self, time: u64) -> int {
        (time as int) % (self.slots.len() as int)
    }

    /// There is at least one slot, and every event lives in the slot that
    /// its time selects.
    pub open spec fn wf(self) -> bool {
        &&& self.slots.len() >= 1
        &&& forall|k: int, i: int|
            0 <= k < self.slots.len() && 0 <= i < self.slots[k].len() ==> self.slot_of(
                (#[trigger] self.slots[k][i]).time,
            ) == k
    }

    /// The wheel with `event` appended to the slot of its time.
    pub open spec fn schedule(self, event: SpikeEvent) -> WheelView {
        let k = self.slot_of(event.time);
        WheelView { slots: self.slots.update(k, self.slots[k].push(event)), ..self }
    }

    /// The events of the slot of the current tick.
    pub open spec fn due(self) -> Seq<SpikeEvent> {
        self.slots[self.slot_of(self.current_time)]
    }

    /// The tick that follows `time`; the last representable tick follows itself.
    pub open spec fn tick_after(time: u64) -> u64 {
        if time == u64::MAX {
            time
        } else {
            (time + 1) as u64
        }
    }

    /// The wheel after the slot of the current tick was emptied and the
    /// current tick advanced by one.
    pub open spec fn advance(self) -> WheelView {
        WheelView {
            slots: self.slots.update(self.slot_of(self.current_time), Seq::empty()),
            current_time: Self::tick_after(self.current_time),
        }
    }
}

/// The sequence of slot contents held by a vector of buckets.
pub open spec fn slots_of(buckets: Seq<Vec<SpikeEvent>>) -> Seq<Seq<SpikeEvent>> {
    Seq::new(buckets.len(), |k: int| buckets[k]@)
}

/// A circular calendar queue of spike events.
pub struct TimeWheel {
    buckets: Vec<Vec<SpikeEvent>>,
    pub current_time: u64,
    wheel_size: u64,
}

impl View for TimeWheel {
    type V = WheelView;

    closed spec fn view(&self) -> WheelView {
        WheelView { slots: slots_of(self.buckets@), current_time: self.current_time }
    }
}

impl TimeWheel {
    /// The recorded slot count is the number of buckets.
    pub closed spec fn sized(&self) -> bool {
        self.wheel_size as int == self.buckets@.len()
    }

    /// The wheel is usable: its representation is coherent and its model is
    /// well formed.
    pub open spec fn wf(&self) -> bool {
        self.sized() && self@.wf()
    }

    /// The current tick.
    pub fn now(&self) -> (t: u64)
        ensures
            t == self@.current_time,
    {
        self.current_time
    }

    /// Creates a wheel of `wheel_size` empty slots at tick 0.
    /// A wheel without slots is rejected.
    pub fn new(wheel_size: u64) -> (r: Result<TimeWheel, EmbeddedError>)
        ensures
            wheel_size == 0 <==> r is Err,
            r matches Err(e) ==> e == EmbeddedError::InvalidInput("wheel_size must be at least 1"),
            r matches Ok(w) ==> {
                &&& w.wf()
                &&& w@.current_time == 0
                &&& w@.slots.len() == wheel_size
                &&& forall|k: int| 0 <= k < wheel_size ==> #[trigger] w@.slots[k] == Seq::<
                    SpikeEvent,
                >::empty()
            },
    {
        if wheel_size == 0 {
            return Err(EmbeddedError::InvalidInput("wheel_size must be at least 1"));
        }
        let mut buckets: Vec<Vec<SpikeEvent>> = Vec::new();
        let mut n: u64 = 0;
        while n < wheel_size
            invariant
                n <= wheel_size,
                buckets@.len() == n,
                forall|k: int| 0 <= k < n ==> (#[trigger] buckets@[k])@ == Seq::<SpikeEvent>::empty(),
            decreases wheel_size - n,
        {
            buckets.push(Vec::new());
            n = n + 1;
        }
        let w = TimeWheel { buckets, current_time: 0, wheel_size };
        assert forall|k: int| 0 <= k < wheel_size implies #[trigger] w@.slots[k] == Seq::<
            SpikeEvent,
        >::empty() by {
            assert(w@.slots[k] == w.buckets@[k]@);
        }
        Ok(w)
    }

    /// Appends `event` to the slot of its time.
    pub fn schedule(&mut self, event: SpikeEvent)
        requires
            old(self).wf(),
        ensures
            final(self).wf(),
            final(self)@ == old(self)@.schedule(event),
    {
        assert(self.wheel_size as int == self.buckets.len() as int);
        let slot = (event.time % self.wheel_size) as usize;
        self.buckets[slot].push(event);
        proof {
            let before = old(self)@;
            let after = self@;
            assert(after.slots =~= before.slots.update(
                slot as int,
                before.slots[slot as int].push(event),
            ));
            assert forall|k: int, i: int|
                0 <= k < after.slots.len() && 0 <= i < after.slots[k].len() implies after.slot_of(
                (#[trigger] after.slots[k][i]).time,
            ) == k by {
                if k == slot as int && i == before.slots[k].len() {
                } else {
                    assert(after.slots[k][i] == before.slots[k][i]);
                }
            }
        }
    }

    /// Hands out the events of the current tick, in the order in which they
    /// were scheduled, and advances the current tick by one (the last
    /// representable tick stays).
    pub fn next(&mut self) -> (events: Vec<SpikeEvent>)
        requires
            old(self).wf(),
        ensures
            final(self).wf(),
            events@ == old(self)@.due(),
            final(self)@ == old(self)@.advance(),
    {
        assert(self.wheel_size as int == self.buckets.len() as int);
        let slot = (self.current_time % self.wheel_size) as usize;
        let mut events: Vec<SpikeEvent> = Vec::new();
        core::mem::swap(&mut events, &mut self.buckets[slot]);
        self.current_time = self.current_time.saturating_add(1);
        proof {
            let before = old(self)@;
            let after = self@;
            assert(after.slots =~= before.slots.update(slot as int, Seq::empty()));
            assert forall|k: int, i: int|
                0 <= k < after.slots.len() && 0 <= i < after.slots[k].len() implies after.slot_of(
                (#[trigger] after.slots[k][i]).time,
            ) == k by {
                assert(after.slots[k][i] == before.slots[k][i]);
            }
        }
        events
    }
}

/// An event scheduled for the current tick is handed out by the very next
/// call of `next`, after everything that was already waiting in that slot.
pub proof fn lemma_schedule_now_is_due_next(w: WheelView, event: SpikeEvent)
    requires
        w.wf(),
        event.time == w.current_time,
    ensures
        w.schedule(event).due() == w.due().push(event),
        w.schedule(event).wf(),
{
    lemma_schedule_keeps_wf(w, event);
}

/// Scheduling keeps every event in the slot that its time selects.
pub proof fn lemma_schedule_keeps_wf(w: WheelView, event: SpikeEvent)
    requires
        w.wf(),
    ensures
        w.schedule(event).wf(),
        w.schedule(event).slots.len() == w.slots.len(),
        w.schedule(event).current_time == w.current_time,
{
    let after = w.schedule(event);
    let slot = w.slot_of(event.time);
    assert forall|k: int, i: int|
        0 <= k < after.slots.len() && 0 <= i < after.slots[k].len() implies after.slot_of(
        (#[trigger] after.slots[k][i]).time,
    ) == k by {
        if k == slot && i == w.slots[k].len() {
        } else {
            assert(after.slots[k][i] == w.slots[k][i]);
        }
    }
}

/// Handing out the current slot keeps every remaining event in the slot that
/// its time selects, and moves the current tick forward by exactly one.
pub proof fn lemma_advance_keeps_wf(w: WheelView)
    requires
        w.wf(),
    ensures
        w.advance().wf(),
        w.advance().slots.len() == w.slots.len(),
        w.advance().current_time == WheelView::tick_after(w.current_time),
{
    let after = w.advance();
    assert forall|k: int, i: int|
        0 <= k < after.slots.len() && 0 <= i < after.slots[k].len() implies after.slot_of(
        (#[trigger] after.slots[k][i]).time,
    ) == k by {
        assert(after.slots[k][i] == w.slots[k][i]);
    }
}

} // verus!
