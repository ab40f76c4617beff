//! minsec: a minimalist intrusion prevention daemon. This crate holds the
//! verified core: the nftables script builder and its setup protocol, the
//! address model and its text forms, the reader of `nft -j` set listings,
//! the control-protocol types, and what the command line prints.

pub mod text;
pub mod order;

pub mod net;
pub mod addr_parse;
pub mod json;
pub mod nft;
pub mod control;
pub mod report;
pub mod commands;
pub mod dropin;
pub mod key_order;
pub mod tally;
pub mod script_laws;
pub mod nft_laws;
