//! Performance metrics computed exactly from the portfolio's logs.
pub mod drawdown;
pub mod trades;
