//! An owner-gated leaderboard.
//!
//! A [`Leaderboard`] maps accounts to scores. Anyone may read a score, and
//! an account that was never written reads zero. Only the owner, fixed at
//! construction, may write, its own score included; a write by anyone else
//! is refused and changes nothing. A write replaces the account's score:
//! scores are never added up. Every accepted write returns the event that
//! reports it, for the caller to publish.
//!
//! The leaderboard reads no ambient state: the caller of an operation is
//! an argument, and the event is a result.
//!
//! Behind the leaderboard stands a [`ScoreStore`], which also keeps every
//! account that was ever written, in the order of first write.
//!
//! Contracts are stated over the mathematical views in [`store`] and
//! [`leaderboard`]; [`history`] says what holds after whole sequences of
//! writes.

pub mod account;
pub mod history;
pub mod leaderboard;
pub mod store;

pub use account::AccountId;
pub use leaderboard::{Error, Leaderboard, SetAccountScore};
pub use store::ScoreStore;
