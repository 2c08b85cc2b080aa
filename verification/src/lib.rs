//! The wallet and the book behind a market on Zcash blocks.

pub mod answers;
pub mod blocks;
pub mod book;
pub mod cache;
pub mod calls;
pub mod cli;
pub mod clock;
pub mod closing;
pub mod division;
pub mod history;
pub mod keys;
pub mod laws;
pub mod ledger;
pub mod memo;
pub mod network;
pub mod opening;
pub mod payment;
pub mod refusal;
pub mod rows;
pub mod rules;
pub mod scan;
pub mod serve;
pub mod sums;
pub mod supply;
pub mod terms;
pub mod text;
