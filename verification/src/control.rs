//! The decisions of a front end: what a key asks for, how a request changes
//! the budgets, and how a request changes the state of the front end.

use vstd::prelude::*;
use crate::backend::SnnBackend;
use crate::delivery::StepBudgets;
use crate::raster::App;

verus! {

/// The amount by which one request raises or lowers a budget.
pub const BUDGET_STEP: usize = 10;

/// What the user of a front end can ask for.
#[derive(Clone, Copy, Debug, PartialEq, Eq, Structural)]
pub enum Command {
    Quit,
    Step,
    ToggleRunning,
    RaiseEdgeBudget,
    LowerEdgeBudget,
    RaiseSpikeBudget,
    LowerSpikeBudget,
    EnablePlasticity,
    Nothing,
}

/// The request that a key stands for: `q` quits, `s` steps, `r` runs or
/// pauses, `+` and `-` raise and lower the edge-visit budget, `[` and `]`
/// raise and lower the spike budget, `p` enables plasticity. Any other key
/// asks for nothing.
pub open spec fn command_for(key: char) -> Command {
    if key == 'q' {
        Command::Quit
    } else if key == 's' {
        Command::Step
    } else if key == 'r' {
        Command::ToggleRunning
    } else if key == '+' {
        Command::RaiseEdgeBudget
    } else if key == '-' {
        Command::LowerEdgeBudget
    } else if key == '[' {
        Command::RaiseSpikeBudget
    } else if key == ']' {
        Command::LowerSpikeBudget
    } else if key == 'p' {
        Command::EnablePlasticity
    } else {
        Command::Nothing
    }
}

/// The request that a key stands for.
pub fn command_of(key: char) -> (command: Command)
    ensures
        command == command_for(key),
{
    if key == 'q' {
        Command::Quit
    } else if key == 's' {
        Command::Step
    } else if key == 'r' {
        Command::ToggleRunning
    } else if key == '+' {
        Command::RaiseEdgeBudget
    } else if key == '-' {
        Command::LowerEdgeBudget
    } else if key == '[' {
        Command::RaiseSpikeBudget
    } else if key == ']' {
        Command::LowerSpikeBudget
    } else if key == 'p' {
        Command::EnablePlasticity
    } else {
        Command::Nothing
    }
}

/// A limit raised by one step, held at the largest limit.
pub open spec fn raised(limit: Option<usize>) -> usize {
    let cur = match limit {
        Some(v) => v,
        None => 0,
    };
    if cur + BUDGET_STEP > usize::MAX {
        usize::MAX
    } else {
        (cur + BUDGET_STEP) as usize
    }
}

/// A limit lowered by one step, held at zero.
pub open spec fn lowered(limit: Option<usize>) -> usize {
    let cur = match limit {
        Some(v) => v,
        None => 0,
    };
    if cur < BUDGET_STEP {
        0
    } else {
        (cur - BUDGET_STEP) as usize
    }
}

/// The budgets after a request. A request about one budget turns budgets
/// on where they were off, counts that budget from zero where it was
/// unbounded, and leaves the other budget as it was. Any other request
/// leaves the budgets as they were.
pub open spec fn adjusted(current: Option<StepBudgets>, command: Command) -> Option<StepBudgets> {
    let b = match current {
        Some(b) => b,
        None => StepBudgets::unbounded(),
    };
    match command {
        Command::RaiseEdgeBudget => Some(
            StepBudgets { max_edge_visits: Some(raised(b.max_edge_visits)), ..b },
        ),
        Command::LowerEdgeBudget => Some(
            StepBudgets { max_edge_visits: Some(lowered(b.max_edge_visits)), ..b },
        ),
        Command::RaiseSpikeBudget => Some(
            StepBudgets { max_spikes_scheduled: Some(raised(b.max_spikes_scheduled)), ..b },
        ),
        Command::LowerSpikeBudget => Some(
            StepBudgets { max_spikes_scheduled: Some(lowered(b.max_spikes_scheduled)), ..b },
        ),
        _ => current,
    }
}

/// The budgets after a request.
pub fn adjust_budgets(current: Option<StepBudgets>, command: Command) -> (budgets: Option<
    StepBudgets,
>)
    ensures
        budgets == adjusted(current, command),
{
    let b = match current {
        Some(b) => b,
        None => StepBudgets { max_edge_visits: None, max_spikes_scheduled: None },
    };
    match command {
        Command::RaiseEdgeBudget => {
            let cur = match b.max_edge_visits {
                Some(v) => v,
                None => 0,
            };
            Some(
                StepBudgets {
                    max_edge_visits: Some(cur.saturating_add(BUDGET_STEP)),
                    max_spikes_scheduled: b.max_spikes_scheduled,
                },
            )
        },
        Command::LowerEdgeBudget => {
            let cur = match b.max_edge_visits {
                Some(v) => v,
                None => 0,
            };
            Some(
                StepBudgets {
                    max_edge_visits: Some(cur.saturating_sub(BUDGET_STEP)),
                    max_spikes_scheduled: b.max_spikes_scheduled,
                },
            )
        },
        Command::RaiseSpikeBudget => {
            let cur = match b.max_spikes_scheduled {
                Some(v) => v,
                None => 0,
            };
            Some(
                StepBudgets {
                    max_edge_visits: b.max_edge_visits,
                    max_spikes_scheduled: Some(cur.saturating_add(BUDGET_STEP)),
                },
            )
        },
        Command::LowerSpikeBudget => {
            let cur = match b.max_spikes_scheduled {
                Some(v) => v,
                None => 0,
            };
            Some(
                StepBudgets {
                    max_edge_visits: b.max_edge_visits,
                    max_spikes_scheduled: Some(cur.saturating_sub(BUDGET_STEP)),
                },
            )
        },
        _ => current,
    }
}

/// The budgets that two optional limits ask for: none where neither limit
/// is given, else budgets with the given limits.
pub fn budgets_from_limits(edges: Option<usize>, spikes: Option<usize>) -> (budgets: Option<
    StepBudgets,
>)
    ensures
        budgets == if edges is None && spikes is None {
            None
        } else {
            Some(StepBudgets { max_edge_visits: edges, max_spikes_scheduled: spikes })
        },
{
    if edges.is_none() && spikes.is_none() {
        None
    } else {
        Some(StepBudgets { max_edge_visits: edges, max_spikes_scheduled: spikes })
    }
}

impl<B: SnnBackend> App<B> {
    /// Carries out a request and reports whether the front end shall quit.
    ///
    /// Stepping steps once. Requests about budgets read the budgets of the
    /// backend and hand it the adjusted ones. Plasticity is enabled unless
    /// the backend reports that it is. None of these but stepping touches
    /// the raster or the tick count.
    pub fn handle(&mut self, command: Command) -> (quit: bool)
        requires
            old(self).wf(),
        ensures
            final(self).wf(),
            quit == (command == Command::Quit),
            final(self).width == old(self).width,
            final(self).running == (if command == Command::ToggleRunning {
                !old(self).running
            } else {
                old(self).running
            }),
            final(self).tick == (if command == Command::Step {
                Self::next_tick(old(self).tick)
            } else {
                old(self).tick
            }),
            command != Command::Step ==> final(self).raster == old(self).raster,
            command == Command::Step ==> exists|spikes: Seq<crate::event_queue::SpikeEvent>|
                final(self).grid() == crate::raster::drawn(
                    old(self).grid(),
                    Self::column_of(final(self).tick, old(self).width),
                    spikes,
                ),
            command == Command::Quit || command == Command::Nothing || command
                == Command::ToggleRunning ==> final(self).backend == old(self).backend,
    {
        match command {
            Command::Quit => true,
            Command::Step => {
                self.step();
                false
            },
            Command::ToggleRunning => {
                self.toggle_running();
                false
            },
            Command::EnablePlasticity => {
                if !self.backend.plasticity_enabled() {
                    self.backend.enable_default_plasticity();
                }
                false
            },
            Command::Nothing => false,
            _ => {
                let current = self.backend.get_budgets();
                self.backend.set_budgets(adjust_budgets(current, command));
                false
            },
        }
    }

    /// Lets time pass: a running front end steps once, a paused one stays as
    /// it is.
    pub fn on_timer(&mut self)
        requires
            old(self).wf(),
        ensures
            final(self).wf(),
            final(self).width == old(self).width,
            final(self).running == old(self).running,
            !old(self).running ==> *final(self) == *old(self),
            old(self).running ==> final(self).tick == Self::next_tick(old(self).tick),
            old(self).running ==> exists|spikes: Seq<crate::event_queue::SpikeEvent>|
                final(self).grid() == crate::raster::drawn(
                    old(self).grid(),
                    Self::column_of(final(self).tick, old(self).width),
                    spikes,
                ),
    {
        if self.running {
            self.step();
        }
    }
}

} // verus!
