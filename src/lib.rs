//! A structural model of digital circuits with two back ends that read the
//! same model: a cycle-accurate simulator (settling of combinational logic to
//! a fixpoint, clocked registers, and cooperative testbenches) and a netlist
//! emitter. Modules, leaves first: `bits` and `text` (values and their
//! rendering), `expr` (combinational expressions), `model` (the structural
//! model), `validate` (connectivity), `settle` (fixpoints), `kernel` (clock
//! edges), `testbench` (the scheduler and runs), `emit` (netlists), and two
//! devices built on the model, `ecp5` and `sdram_fifo`.

pub mod bits;
pub mod ecp5;
pub mod emit;
pub mod expr;
pub mod kernel;
pub mod loops;
pub mod model;
pub mod sdram_fifo;
pub mod settle;
pub mod testbench;
pub mod text;
pub mod validate;
