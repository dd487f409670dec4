//! A verified core for an intercepting HTTP proxy: command validation,
//! connection-pool bookkeeping, protocol detection and request parsing.

pub mod addr;
pub mod commands;
pub mod http;
pub mod pool;
pub mod proxy;
pub mod security;
pub mod text;
