//! A training assistant for competitive programmers: it classifies catalog
//! problems, filters them by difficulty and division, and keeps an Elo-style
//! estimate of the user's skill that it uses to recommend the next problem.

pub mod text;
pub mod dtos;
pub mod problem;
pub mod elo;
pub mod filter;
pub mod recommender;
pub mod cli;
