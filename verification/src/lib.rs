//! A rewriting engine over two-dimensional grids of symbols.
//!
//! A rule finds a small pattern in the grid and writes another in its
//! place; a tree of control nodes decides, step by step, which rule fires
//! where. Every random choice is drawn from a generator that the caller
//! hands in.
//!
//! - `point`, `symbol`, `grid`: positions, the six symbols, and the generic
//!   row-major grid with its quarter turn.
//! - `pattern`, `rule`: patterns with wildcards, their text notation, and
//!   rules with their four orientations.
//! - `matching`, `rewrite`: testing and finding matches, and applying one
//!   match or a batch of them.
//! - `node`, `semantics`, `interpreter`: the tree of nodes, the tree of
//!   states, what a step may do, and the step itself.
//! - `laws`: what holds of every step and of every run.
//! - `random`, `render`: the draws of the generator, and what a renderer
//!   reads from the grid.

pub mod grid;
pub mod interpreter;
pub mod laws;
pub mod matching;
pub mod node;
pub mod pattern;
pub mod point;
pub mod random;
pub mod render;
pub mod rewrite;
pub mod rule;
pub mod semantics;
pub mod symbol;

pub use grid::{GenericGrid, GridView};
pub use pattern::{Grid, Pattern};
pub use point::Point;
pub use rewrite::Step;
pub use rule::{Rule, RuleError, RuleView};
pub use symbol::Symbol;
