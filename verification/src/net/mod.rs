//! What a client and a tower exchange.

pub mod http;
