//! Core of a trust-minimised naval combat protocol.
//!
//! Two or more players, each with a secret fleet on a 10×10 grid, play
//! through a ledger that never sees a board. Every move is a statement about
//! a hidden board, made by a guest program whose run is proved in zero
//! knowledge. The journal of the run binds the board to a SHA-256
//! commitment; the ledger holds each journal against the commitment it last
//! recorded for the fleet, and so links the moves of a player into a chain.
//!
//! - [`commitment`]: the commitment scheme.
//! - [`position`]: cells of the grid and their labels.
//! - [`fleet`]: which layouts are fleets; [`fleet_laws`]: what that rule
//!   means for the ships of a layout.
//! - [`journal`]: the inputs and journals of the moves.
//! - [`guest`]: the five moves, from private inputs to journal.
//! - [`encoder`]: from a player's intent to the inputs of a move.
//! - [`rules`]: what the ledger does with a request, as a function on plain
//!   values; [`ledger_laws`]: what holds of the games whatever requests
//!   come.
//! - [`ledger`]: the ledger itself; [`messages`]: the texts it answers with
//!   and broadcasts.
//!
//! Proving and verifying receipts, the transport and the event stream are
//! not in this crate: the ledger is handed the journal of a receipt that was
//! verified, or told that verification failed, and hands back the answer and
//! the event.

pub mod commitment;
pub mod encoder;
pub mod fleet;
pub mod fleet_laws;
pub mod guest;
pub mod journal;
pub mod ledger;
pub mod ledger_laws;
pub mod messages;
pub mod position;
pub mod rules;
