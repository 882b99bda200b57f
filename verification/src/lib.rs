//! Decision engine for a snake moving on a shared, turn-based grid.
//!
//! Each turn the engine receives an immutable snapshot of the board
//! (dimensions, food, hazards, every snake's body) and returns one of the
//! four cardinal moves. The pipeline validates candidate moves, looks for a
//! winning head-on collision, filters moves adjacent to enemies, and finally
//! runs a breadth-first search toward the nearest food while simulating the
//! agent's own body movement.

pub mod domain;
pub mod logic;
