//! A text file goes up in flames. The fire spreads from cell to cell over a
//! grid, burns each cell down to ash, and gives off smoke that rises and
//! drifts; text, border, fire and smoke are layers that a compositor merges
//! into one frame.
//!
//! Every function here is verified against its contract but for two things
//! taken on trust: what the dice give, stated in `chance`, and how a colour
//! is written for the terminal, stated in `paint`.

mod chance;
pub mod border;
pub mod layers;
pub mod paint;
pub mod state;
pub mod tally;
