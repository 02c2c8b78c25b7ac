pub mod forge;
pub mod hardhat;
pub mod truffle;
