//! Texas Hold 'em hand evaluation: cards, the residual deck, hand
//! classification with a totally ordered score, and the exhaustive search over
//! the two hole cards an unseen opponent may hold.

pub mod card;
pub mod order;
pub mod count;
pub mod histogram;
pub mod straight;
pub mod hand;
pub mod deck;
pub mod equity;
pub mod round;
pub mod laws;
pub mod ranking;
