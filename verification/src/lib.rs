//! Core protocol logic for an Ark service provider and its client:
//! the VTXO data model and its canonical binary encoding, the in-flux
//! reservation guard, out-of-round (arkoor) and Lightning HTLC payment
//! arithmetic, the VTXO tree, the round coordinator state machine, the
//! client-side round checks, and the unilateral exit engine.

pub mod bytes;
pub mod codec;
pub mod crypto;
pub mod exit;
pub mod flux;
pub mod lightning;
pub mod logrec;
pub mod movement;
pub mod oor;
pub mod participant;
pub mod round;
pub mod state;
pub mod store;
pub mod tree;
pub mod util;
pub mod vtxo;
pub mod wire;

use vstd::prelude::*;

verus! {

/// Minimum value of a pay-to-taproot output, in satoshi. Outputs below
/// this bound are rejected everywhere in the protocol.
pub const P2TR_DUST_SAT: u64 = 330;

} // verus!
