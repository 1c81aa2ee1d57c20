//! Event-driven spiking neural network engine.
//!
//! A tick-driven scheduler routes spike events through a hypergraph of
//! integrate-and-fire neurons and weighted, delayed hyperedges. Membrane
//! potentials, weights and plasticity traces are Q16.16 fixed-point numbers.
//! Every executable function carries a contract over the mathematical models
//! defined next to the types, and the general properties of the engine are
//! stated as proof functions.

pub mod adjacency;
pub mod backend;
pub mod control;
pub mod delivery;
pub mod error;
pub mod event_queue;
pub mod fixed;
pub mod hypergraph;
pub mod ir;
pub mod neuron;
pub mod plasticity;
pub mod raster;
pub mod runtime;
pub mod runtime_plus;
pub mod sparse;
pub mod text;

pub use backend::{BackendView, CoreBackend, SnnBackend};
pub use control::{adjust_budgets, budgets_from_limits, command_of, Command, BUDGET_STEP};
pub use delivery::{StepBudgets, Tick};
pub use error::{EmbeddedError, EmbeddedResult};
pub use event_queue::{SpikeEvent, TimeWheel, WheelView};
pub use fixed::{add_sat, fixed_mul, sub_sat, Fixed, FRACTIONAL_BITS, SCALE};
pub use hypergraph::{EdgeView, HyperEdge};
pub use ir::{Program, SnnOp};
pub use neuron::Neuron;
pub use plasticity::{PlasticityRule, QuantizedStdp, StdpView};
pub use raster::App;
pub use runtime::{NetView, SnnRuntime};
pub use runtime_plus::{PlusView, SnnRuntimePlus};
pub use sparse::CsrMatrix;
pub use text::{row_label, status_line};
