//! What a WASM runner does on the host side: access to the guest's memory,
//! the events handed to the guest and the players bound to it.

use vstd::prelude::*;

pub mod callctx;
pub mod event;
pub mod player;

verus! {

/// The id a request to start a WASM runner is known by.
#[derive(Clone, Copy, Debug, PartialEq, Eq, Hash)]
pub struct StartWasmId(pub u64);

} // verus!
