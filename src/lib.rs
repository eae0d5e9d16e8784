//! A switchboard over a mainchain node and two sidechain nodes: amounts and their
//! decimal form, the requests that move value between the chains, the parameters of raw
//! calls, the gateway's errors and states, and the supervisor's boot and shutdown plans.

pub mod amount;
pub mod chain;
pub mod client;
pub mod gateway;
pub mod params;
pub mod supervisor;

pub use amount::{Amount, AmountError};
pub use chain::{Chain, Sidechain};
