//! Underwriting library for real-estate investment analysis: integer money,
//! provenance-traced computation, fixed-point amortization, the underwriting
//! engine, the fair-housing connector boundary, and what the daemon's HTTP
//! surface decides.

pub mod money;
pub mod amort;
pub mod provenance;
pub mod text;
pub mod engine;
pub mod connector;
pub mod api;
