//! Errors reported by the runtime.
use vstd::prelude::*;

verus! {

/// A failure of the WebAssembly engine while spawning an actor or running one
/// of its handlers.
#[derive(Clone, Copy, Debug, PartialEq, Eq, Structural)]
pub enum WasmError {
    InstantiationError,
    RuntimeError,
    ExportError,
    CompileError,
}

/// Any error encountered by the runtime.
#[derive(Clone, Copy, Debug, PartialEq, Eq, Structural)]
pub enum Error {
    /// No addresses were available for allocation.
    NoFreeAddrs,
    /// The WebAssembly module encountered an error.
    ModuleError { source: WasmError },
    /// The runtime could not obtain a lock on a resource.
    LockError,
    /// No resource exists at the address.
    InvalidAddressError,
    /// No window exists for the runtime to bind to.
    MissingWindow,
    /// A serialization operation failed.
    SerializationError,
}

impl Error {
    /// A human-readable description of the error.
    pub fn describe(&self) -> (r: &'static str) {
        match self {
            Error::NoFreeAddrs => "No addresses were available for allocation",
            Error::ModuleError { .. } => "The WebAssembly module encountered an error",
            Error::LockError => "The server could not obtain a lock on a resource",
            Error::InvalidAddressError => "No resource exists at the address",
            Error::MissingWindow => "No window exists for the runtime to bind to",
            Error::SerializationError => "A serialization operation failed",
        }
    }
}

} // verus!
