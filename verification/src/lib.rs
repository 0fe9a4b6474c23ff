//! Repair of assignment statements that were broken across source lines.
//!
//! The library scans a document for three line-anchored shapes — a simple
//! assignment whose left side, `=`, and right side sit on separate lines, a
//! method-chain assignment whose chain was pushed to the next line, and a
//! destructuring assignment — and rewrites each according to a line-width
//! policy: collapse to one line when it fits, otherwise wrap the right side
//! in a parenthesized indented block; destructuring assignments are always
//! parenthesized.

use vstd::prelude::*;

pub mod chain;
pub mod classify;
pub mod config;
pub mod destructure;
pub mod pipeline;
pub mod reflow;
pub mod simple;
pub mod text;

verus! {

/// The formatter itself. It holds no state: every formatting call is a pure
/// function of the document text and a resolved configuration.
pub struct AssignmentFixerPlugin;

impl AssignmentFixerPlugin {
    pub fn new() -> AssignmentFixerPlugin {
        AssignmentFixerPlugin
    }
}

} // verus!
