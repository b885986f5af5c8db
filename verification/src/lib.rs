//! Multi-hop swap router.
//!
//! Routes swaps through one or more AMM pools discovered via the factory
//! contract. A path is an ordered list of token addresses where each adjacent
//! pair must have a deployed pool.
//!
//! Flow:
//!   1. Deploy a contract around [`Router`].
//!   2. Call `initialize` with the factory address.
//!   3. Callers invoke `swap_exact_in` with a token path and slippage guard.
//!   4. Use `get_amount_out_path` to quote without executing.
//!
//! Modules:
//!   - [`host`]: the Soroban host, and the history of what was asked of it;
//!   - [`path`]: the token path of a request;
//!   - [`interfaces`]: the factory and the pools, and how they are called;
//!   - [`route`]: the rules of a hop, and of a whole route;
//!   - [`router`]: the router's four functions;
//!   - [`factory_laws`] and [`route_laws`]: what holds of the router as a whole;
//!   - [`history_laws`]: what can be read off the recorded calls of a request.

pub mod error;
pub mod factory_laws;
pub mod history_laws;
pub mod host;
pub mod interfaces;
pub mod path;
pub mod route;
pub mod route_laws;
pub mod router;

pub use crate::router::{DataKey, Router};
