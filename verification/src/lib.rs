//! Combat resolution for a round-based battle between ships built from
//! independently powered modules.
//!
//! A round has a planning phase, in which each participant chooses which
//! modules to power and what the weapons aim at, and a simulation phase, in
//! which every scheduled effect is applied tick by tick. Both sides of a
//! connection replay the same plan and so reach the same outcome.
//!
//! Ships and modules are addressed by value: a ship by its identifier, a module
//! by its slot within the ship. Scheduled effects hold such addresses, never
//! references.

pub mod net;
pub mod render;
pub mod module;
pub mod ship;
pub mod battle_state;
pub mod sim;
pub mod client_battle_state;
pub mod server_battle_state;
