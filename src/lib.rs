//! Extraction of compiled-contract records from smart-contract build output.
//!
//! Each supported toolchain (Foundry, Hardhat, Truffle) has an adapter that
//! reads its artifact schema in two passes: every artifact's record is
//! inserted into a [`registry::ContractRegistry`], then each record's imports
//! are resolved against a snapshot of the registry taken before that pass.
//! [`selection`] decides which directory of a repository is built, with which
//! toolchains, and what follows when a build yields nothing.
pub mod builders;
pub mod cli;
pub mod contract;
pub mod github_api;
pub mod parsers;
pub mod registry;
pub mod selection;
pub mod text;
