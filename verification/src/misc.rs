//! Plain configuration and record types that the surrounding programs
//! fill in, print, and serialize.

use vstd::prelude::*;
use std::time::Duration;

verus! {

/// Relies on std's `Duration::clone`: `Duration` is a `Copy` type, so
/// its clone is the value itself.
pub assume_specification[ <Duration as Clone>::clone ](d: &Duration) -> (r: Duration)
    ensures
        r == *d,
;

/// How a benchmarked buffer was allocated.
#[derive(Debug, Clone, PartialEq, Eq, Hash)]
pub enum AllocType {
    VecWithCapacity,
    VecNew,
    Array,
}

/// One timing measurement: what was allocated, how often, how large,
/// and how long it took.
#[derive(Debug, Hash, Eq, PartialEq, Clone)]
pub struct Config {
    pub alloc_type: AllocType,
    pub iterations: usize,
    pub size: usize,
    pub elapsed: Duration,
}

/// What a broom is currently up to.
#[derive(Copy, Clone, Debug)]
pub enum BroomIntent {
    FetchWater,
    DumpWater,
}

/// An immutable robot; the error counter is the one part that changes,
/// so it stays a plain number the owner bumps.
#[derive(Clone, Debug)]
pub struct Robot {
    pub name: String,
    pub power_level: u32,
    pub hardware_error_count: u32,
}

/// Render parameters with sensible defaults.
#[derive(Debug)]
pub struct Params {
    pub name: String,
    pub is_active: bool,
    pub width: u32,
    pub height: u32,
    pub depth: u32,
}

impl Default for Params {
    /// An active single-layer 640 by 480 configuration named `default`.
    fn default() -> (p: Self)
        ensures
            p.name@ == "default"@,
            p.is_active == true,
            p.width == 640,
            p.height == 480,
            p.depth == 1,
    {
        Self {
            name: String::from_str("default"),
            is_active: true,
            width: 640,
            height: 480,
            depth: 1,
        }
    }
}

/// A triple of counters that all start at zero.
#[derive(Debug, Default)]
pub struct ValuesZeroByDefault {
    pub a: u32,
    pub b: u32,
    pub c: u32,
}

/// A saved game character.
#[derive(Debug)]
pub struct Player {
    pub name: String,
    pub items: Vec<String>,
    pub health: u64,
}

} // verus!
