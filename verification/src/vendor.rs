//! The exchanges: their wire records, and how these become the records that
//! are handed on.

pub mod binance_ws;
pub mod kraken_rest;
