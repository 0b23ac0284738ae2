//! Application discovery, launch planning and process-tree logic for a
//! desktop launcher. The operating-system facing parts (registry, file walk,
//! process table, spawning) hand plain snapshots to the functions here.
use vstd::prelude::*;

pub mod catalog;
pub mod context;
pub mod launch;
pub mod lookup;
pub mod media;
pub mod names;
pub mod process;
pub mod registry;
pub mod text;
pub mod window;

verus! {

/// The greeting shown for `name`.
pub fn greet(name: &str) -> (r: String)
    ensures
        r@ == "Hello, "@ + name@ + "! You've been greeted from Rust!"@,
{
    let mut s = String::from_str("Hello, ");
    s.append(name);
    s.append("! You've been greeted from Rust!");
    s
}

} // verus!
