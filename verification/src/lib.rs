//! chronos-bt: an event-driven backtesting engine whose bookkeeping is
//! carried out in exact fixed-point integer arithmetic.
pub mod cli;
pub mod config;
pub mod data;
pub mod engine;
pub mod events;
pub mod execution;
pub mod fixed;
pub mod metrics;
pub mod portfolio;
pub mod strategy;
pub mod text;
