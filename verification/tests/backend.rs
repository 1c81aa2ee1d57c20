use snn_core::{App, CoreBackend, SnnBackend, SpikeEvent, StepBudgets};

fn ev(neuron_id: u32, time: u64) -> SpikeEvent {
    SpikeEvent { neuron_id, time }
}

/// A backend that plays back a fixed script of spikes and relies on the
/// defaults of the interface for everything else.
struct Scripted {
    neurons: usize,
    script: Vec<Vec<SpikeEvent>>,
    at: usize,
}

impl SnnBackend for Scripted {
    fn step(&mut self) -> Vec<SpikeEvent> {
        let out = self.script.get(self.at).cloned().unwrap_or_default();
        self.at += 1;
        out
    }

    fn neurons(&self) -> usize {
        self.neurons
    }
}

fn column(app: &App<Scripted>, col: usize) -> String {
    app.raster.iter().map(|row| row[col]).collect()
}

#[test]
fn demo_backend_plays_the_chain() {
    let mut b = CoreBackend::new();
    assert_eq!(b.neurons(), 3);
    assert_eq!(b.step(), vec![ev(0, 0)]);
    assert_eq!(b.step(), vec![ev(1, 1), ev(2, 1)]);
    assert_eq!(b.step(), vec![]);
}

#[test]
fn demo_backend_has_neither_budgets_nor_plasticity() {
    let b = CoreBackend::new();
    assert!(b.get_budgets().is_none());
    assert!(!b.plasticity_enabled());
}

#[test]
fn backend_budgets_are_kept_and_used() {
    let mut b = CoreBackend::new();
    let budgets = StepBudgets { max_edge_visits: Some(0), max_spikes_scheduled: Some(5) };
    SnnBackend::set_budgets(&mut b, Some(budgets));
    let kept = b.get_budgets().unwrap();
    assert_eq!(kept.max_edge_visits, Some(0));
    assert_eq!(kept.max_spikes_scheduled, Some(5));
    // no edge may be visited: the seed spike is returned and nothing follows
    assert_eq!(b.step(), vec![ev(0, 0)]);
    assert_eq!(b.step(), vec![]);
    b.set_budgets(None);
    assert!(b.get_budgets().is_none());
}

#[test]
fn backend_spike_budget_truncates() {
    let mut b = CoreBackend::new();
    b.set_budgets(Some(StepBudgets { max_edge_visits: None, max_spikes_scheduled: Some(1) }));
    assert_eq!(b.step(), vec![ev(0, 0)]);
    assert_eq!(b.step(), vec![ev(1, 1)]);
    assert_eq!(b.step(), vec![]);
}

#[test]
fn backend_wheel_can_be_seeded() {
    let mut b = CoreBackend::new();
    b.queue_mut().schedule(ev(2, 0));
    b.queue_mut().schedule(ev(0, 3));
    assert_eq!(b.step(), vec![ev(0, 0), ev(2, 0)]);
    assert_eq!(b.step(), vec![ev(1, 1), ev(2, 1)]);
    assert_eq!(b.step(), vec![]);
    assert_eq!(b.step(), vec![ev(0, 3)]);
    assert_eq!(b.step(), vec![ev(1, 4), ev(2, 4)]);
}

#[test]
fn backend_plasticity_is_enabled_once() {
    let mut b = CoreBackend::new();
    SnnBackend::enable_default_plasticity(&mut b);
    assert!(b.plasticity_enabled());
    SnnBackend::enable_default_plasticity(&mut b);
    assert!(b.plasticity_enabled());
    assert_eq!(b.step(), vec![ev(0, 0)]);
    // neuron 1 fired, and the rule lowered the weight of the edge below the
    // threshold before neuron 2 was served: 1.0 + 0.01 - 0.012
    assert_eq!(b.step(), vec![ev(1, 1)]);
}

#[test]
fn direct_plasticity_does_not_raise_the_flag() {
    let mut b = CoreBackend::new();
    b.enable_default_plasticity();
    assert!(!b.plasticity_enabled());
    assert_eq!(b.step(), vec![ev(0, 0)]);
}

#[test]
fn interface_defaults_ignore_budgets_and_plasticity() {
    let mut s = Scripted { neurons: 2, script: vec![], at: 0 };
    s.set_budgets(Some(StepBudgets { max_edge_visits: Some(1), max_spikes_scheduled: None }));
    assert!(s.get_budgets().is_none());
    s.enable_default_plasticity();
    assert!(!s.plasticity_enabled());
}

#[test]
fn new_app_has_a_blank_raster() {
    let app = App::new(CoreBackend::new(), 80);
    assert_eq!(app.tick, 0);
    assert_eq!(app.width, 80);
    assert!(!app.running);
    assert_eq!(app.raster.len(), 3);
    for row in app.raster.iter() {
        assert_eq!(row.len(), 80);
        assert!(row.iter().all(|&c| c == ' '));
    }
}

#[test]
fn toggle_switches_running() {
    let mut app = App::new(CoreBackend::new(), 10);
    app.toggle_running();
    assert!(app.running);
    app.toggle_running();
    assert!(!app.running);
    assert_eq!(app.tick, 0);
}

#[test]
fn app_draws_the_chain() {
    let mut app = App::new(CoreBackend::new(), 8);
    app.step();
    assert_eq!(app.tick, 1);
    let col = |app: &App<CoreBackend>, c: usize| app.raster.iter().map(|row| row[c]).collect::<String>();
    assert_eq!(col(&app, 1), "\u{2022}  ");
    app.step();
    assert_eq!(app.tick, 2);
    assert_eq!(col(&app, 1), "\u{2022}  ");
    assert_eq!(col(&app, 2), " \u{2022}\u{2022}");
    app.step();
    assert_eq!(col(&app, 3), "   ");
    assert_eq!(col(&app, 0), "   ");
}

#[test]
fn app_raster_is_circular() {
    let script = vec![
        vec![ev(0, 0)],
        vec![ev(1, 1)],
        vec![ev(0, 2), ev(1, 2)],
        vec![],
        vec![ev(1, 4)],
    ];
    let mut app = App::new(Scripted { neurons: 2, script, at: 0 }, 3);
    app.step(); // tick 1, column 1
    assert_eq!(column(&app, 1), "\u{2022} ");
    app.step(); // tick 2, column 2
    assert_eq!(column(&app, 2), " \u{2022}");
    app.step(); // tick 3, column 0
    assert_eq!(column(&app, 0), "\u{2022}\u{2022}");
    app.step(); // tick 4, column 1 is cleared
    assert_eq!(column(&app, 1), "  ");
    assert_eq!(column(&app, 2), " \u{2022}");
    app.step(); // tick 5, column 2 is redrawn
    assert_eq!(column(&app, 2), " \u{2022}");
    assert_eq!(column(&app, 0), "\u{2022}\u{2022}");
    assert_eq!(app.tick, 5);
}

#[test]
fn app_ignores_spikes_without_a_row() {
    let script = vec![vec![ev(5, 0), ev(1, 0), ev(2, 0)]];
    let mut app = App::new(Scripted { neurons: 2, script, at: 0 }, 4);
    app.step();
    assert_eq!(column(&app, 1), " \u{2022}");
}

#[test]
fn app_without_neurons_counts_ticks() {
    let mut app = App::new(Scripted { neurons: 0, script: vec![vec![ev(0, 0)]], at: 0 }, 2);
    app.step();
    app.step();
    assert_eq!(app.tick, 2);
    assert!(app.raster.is_empty());
}
