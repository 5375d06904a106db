//! Message types of the bundled services' APIs, as guests exchange them.
pub mod display;
pub mod fetch;
pub mod ipfs;
pub mod web3;
