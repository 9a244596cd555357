//! The core of a reverse-mode automatic differentiation engine over a
//! shared computation graph.
//!
//! A graph is built from nodes that name their operands; a node may feed any
//! number of consumers. A round consists of a forward pass, which computes
//! the value of every node once, a backward pass, which sums the gradients
//! that reach a node over all paths before it hands them on, and a reset.
//!
//! * [`counter`] holds the pass counter that tells the first visit of a
//!   round from later ones.
//! * [`node`], [`leaves`], [`unary`], [`binary`], [`softmax`] and
//!   [`select`] hold the kinds of nodes with the rules for their shapes
//!   ([`shape`]) and the decisions they take when they are visited.
//! * [`graph`] holds the graph itself and plans the passes; [`wiring`] and
//!   [`plans`] hold the mathematics of pass counting that the plans rest on.
//! * [`sparse`], [`accumulator`] and [`hogwild`] hold the gradient stores
//!   and the buffers of parameters.
//! * [`stack`] and [`rows`] move the elements of arrays where an operation
//!   only rearranges them.
//!
//! The library decides what is computed when, and never computes on the
//! elements of an array itself.

pub mod accumulator;
pub mod binary;
pub mod counter;
pub mod graph;
pub mod graph_node;
pub mod hogwild;
pub mod indices;
pub mod leaves;
pub mod node;
pub mod plans;
pub mod rows;
pub mod select;
pub mod shape;
pub mod softmax;
pub mod sparse;
pub mod stack;
pub mod unary;
pub mod wiring;
