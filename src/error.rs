use vstd::prelude::*;

verus! {

/// The ways a call to the contract can fail.
#[derive(Clone, Copy, Debug, PartialEq, Eq, Structural)]
pub enum Error {
    /// The greeting name is empty.
    NombreVacio,
    /// The greeting name is longer than the limit.
    NombreMuyLargo,
    /// The caller proved its identity but is not the admin.
    NoAutorizado,
    /// The contract has no admin yet.
    NoInicializado,
    /// The contract already has an admin.
    YaInicializado,
    /// The caller could not prove that it is the address it claims.
    AutorizacionFallida,
}

} // verus!
