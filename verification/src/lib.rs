//! A file-tree templating engine core: context assembly with type coercion,
//! template discovery by filename tag, engine settings, and an idempotent
//! lockfile protocol.
use vstd::prelude::*;

pub mod args;
pub mod coerce;
pub mod config;
pub mod context;
pub mod digits;
pub mod engine;
pub mod errors;
pub mod lockfile;
pub mod patch;
pub mod strutil;
pub mod value;
pub mod walker;

verus! {

/// Name of the manifest file kept at the render root.
pub fn lockfile_name() -> (r: &'static str)
    ensures
        r@ == ".etch.lock"@,
{
    ".etch.lock"
}

} // verus!
