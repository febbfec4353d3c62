//! Where the addresses of published pages are remembered.

pub mod cloudflare_kv;
