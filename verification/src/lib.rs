//! A small todo-list library: tasks with a text and a completion status,
//! collection operations, an interactive menu's pure logic, and a codec
//! for the stored document.

use vstd::prelude::*;

pub mod chars;
pub mod codec;
pub mod engine;
pub mod menu;
pub mod ops;
pub mod todo;

verus! {

/// Configuration for a run: the path of the storage file.
pub struct Config {
    pub path: String,
}

} // verus!
