//! A greeting contract modelled as a verified state machine: an admin set once,
//! a greeting counter, and the last accepted name of each address.
pub mod address;
pub mod contract;
pub mod error;
pub mod laws;

pub use address::Address;
pub use contract::{HelloContract, HelloState, LARGO_MAXIMO};
pub use error::Error;
