pub mod code4rena;
pub mod hats;
pub mod immunefi;
pub mod parse;
pub mod sherlock;
