//! Rules for small turn-based games: a three-by-three grid game with
//! win and draw detection, blackjack hand scoring with flexible aces, and
//! the line-sum-to-21 variant played with numbered cards.
pub mod blackjack;
pub mod grid;
pub mod hand;
pub mod line21;
