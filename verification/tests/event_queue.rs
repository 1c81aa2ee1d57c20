use snn_core::{EmbeddedError, SpikeEvent, TimeWheel};

fn ev(neuron_id: u32, time: u64) -> SpikeEvent {
    SpikeEvent { neuron_id, time }
}

#[test]
fn new_wheel_starts_at_tick_zero_and_empty() {
    let mut w = TimeWheel::new(8).unwrap();
    assert_eq!(w.current_time, 0);
    assert_eq!(w.now(), 0);
    for t in 0..16u64 {
        assert!(w.next().is_empty());
        assert_eq!(w.current_time, t + 1);
    }
}

#[test]
fn wheel_without_slots_is_rejected() {
    match TimeWheel::new(0) {
        Err(e) => assert_eq!(e, EmbeddedError::InvalidInput("wheel_size must be at least 1")),
        Ok(_) => panic!("a wheel of size 0 was accepted"),
    }
    assert!(TimeWheel::new(1).is_ok());
}

#[test]
fn events_come_out_at_their_tick_in_insertion_order() {
    let mut w = TimeWheel::new(32).unwrap();
    w.schedule(ev(7, 2));
    w.schedule(ev(1, 0));
    w.schedule(ev(3, 2));
    w.schedule(ev(2, 0));
    w.schedule(ev(9, 5));
    assert_eq!(w.next(), vec![ev(1, 0), ev(2, 0)]);
    assert_eq!(w.next(), vec![]);
    assert_eq!(w.next(), vec![ev(7, 2), ev(3, 2)]);
    assert_eq!(w.next(), vec![]);
    assert_eq!(w.next(), vec![]);
    assert_eq!(w.next(), vec![ev(9, 5)]);
    assert_eq!(w.current_time, 6);
}

#[test]
fn event_for_the_current_tick_is_handed_out_next() {
    let mut w = TimeWheel::new(5).unwrap();
    for _ in 0..7 {
        w.next();
    }
    assert_eq!(w.current_time, 7);
    w.schedule(ev(4, 7));
    assert_eq!(w.next(), vec![ev(4, 7)]);
}

#[test]
fn slot_is_empty_after_it_was_handed_out() {
    let mut w = TimeWheel::new(2).unwrap();
    w.schedule(ev(1, 0));
    assert_eq!(w.next(), vec![ev(1, 0)]);
    assert_eq!(w.next(), vec![]);
    // one revolution later the slot of tick 0 comes up again, empty
    assert_eq!(w.next(), vec![]);
}

#[test]
fn aliased_times_are_delivered_together() {
    // with four slots the times 0 and 4 share a slot; the wheel hands both
    // out at tick 0, in insertion order
    let mut w = TimeWheel::new(4).unwrap();
    w.schedule(ev(5, 0));
    w.schedule(ev(5, 4));
    let first = w.next();
    assert_eq!(first, vec![ev(5, 0), ev(5, 4)]);
    assert_eq!(w.current_time, 1);
    for _ in 0..8 {
        assert!(w.next().is_empty());
    }
}

#[test]
fn event_of_the_past_waits_for_its_slot() {
    let mut w = TimeWheel::new(4).unwrap();
    w.next();
    w.next();
    // tick 1 has passed; its slot comes up again at tick 5
    w.schedule(ev(8, 1));
    assert_eq!(w.next(), vec![]); // tick 2
    assert_eq!(w.next(), vec![]); // tick 3
    assert_eq!(w.next(), vec![]); // tick 4
    assert_eq!(w.next(), vec![ev(8, 1)]); // tick 5
}

#[test]
fn single_slot_wheel_hands_out_everything_at_once() {
    let mut w = TimeWheel::new(1).unwrap();
    w.schedule(ev(1, 10));
    w.schedule(ev(2, 3));
    assert_eq!(w.next(), vec![ev(1, 10), ev(2, 3)]);
    assert_eq!(w.next(), vec![]);
}

#[test]
fn every_event_comes_out_of_the_slot_of_its_time() {
    let size = 7u64;
    let mut w = TimeWheel::new(size).unwrap();
    let mut pending = 0;
    // a spread of times, many of them sharing slots
    for i in 0..200u64 {
        w.schedule(ev(i as u32, (i * 37 + (i % 5) * 11) % 90));
        pending += 1;
    }
    for _ in 0..size {
        let slot = w.current_time % size;
        for e in w.next() {
            assert_eq!(e.time % size, slot);
            pending -= 1;
        }
    }
    // one revolution hands out everything
    assert_eq!(pending, 0);
}

#[test]
fn current_tick_saturates() {
    let mut w = TimeWheel::new(3).unwrap();
    w.current_time = u64::MAX - 1;
    w.schedule(ev(1, u64::MAX));
    assert_eq!(w.next(), vec![]);
    assert_eq!(w.current_time, u64::MAX);
    assert_eq!(w.next(), vec![ev(1, u64::MAX)]);
    assert_eq!(w.current_time, u64::MAX);
    assert_eq!(w.next(), vec![]);
    assert_eq!(w.current_time, u64::MAX);
}
