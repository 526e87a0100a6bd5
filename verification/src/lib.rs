//! Wallet control engine for a descriptor wallet with timelocked recovery
//! paths: coin lifecycle tracking, feerate-aware coin selection, spend-draft
//! construction and lifecycle, recovery-path sweeps, label bookkeeping, the
//! background rescan state machine, and the request/response protocol surface.

pub mod types;
pub mod coin_store;
pub mod select;
pub mod engine;
pub mod labels;
pub mod history;
pub mod laws;
pub mod parse;
pub mod btc;
pub mod api;
