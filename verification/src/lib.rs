//! A (mu + lambda) evolution-strategy engine.
//!
//! A population of candidate solutions is evolved toward higher fitness by
//! repeated shuffling, ranking, truncation, elite cloning and mutation, until
//! a caller-supplied termination predicate accepts some member. Organisms
//! plug in through the capability traits of [`evolution`]; two domains are
//! provided, a creature stat triple ([`creature`]) and a tile-based map
//! layout ([`linecraft`]), along with a deterministic probe ([`probe`]).
//!
//! Scores are modelled by [`fitness::FitnessMeasure`]: an integer rank that
//! embeds the domain's scalar score order-faithfully, plus an incomparable
//! variant standing in for undefined scores, which ranks equal to everything.

pub mod creature;
pub mod evolution;
pub mod fitness;
pub mod linecraft;
pub mod probe;
pub mod random;
pub mod ranking;
pub mod text;
