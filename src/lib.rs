//! Conversion of markup documents into an order-preserving path index and a
//! compact parent/child graph.

pub mod forwardstar;
pub mod index;
pub mod tag;
pub mod model;
pub mod xmlparser;
pub mod laws;
pub mod persistence;
pub mod fileprocessor;
