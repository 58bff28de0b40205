//! Monte Carlo study of the Spanish dice-poker game ("poker de dados").
//!
//! Five six-faced dice (faces 0..5, shown as 1..6) are rolled; a hand is
//! classified into one of nine categories and given a numeric score. The
//! library holds the verified core: the classifier and scorer, the
//! per-category tally, and the simulation loop that rolls hands under a
//! hold pattern. Thread fan-out and the printed report live outside.

pub mod hand;
pub mod counts;
pub mod classify;
pub mod tally;
pub mod sim;

pub use hand::Hand;
pub use classify::get_hand;
pub use tally::Tally;
pub use sim::HoldPattern;
pub use sim::play;
pub use sim::reduce;
pub use sim::roll;
pub use sim::run_games;
