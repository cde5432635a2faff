//! A double-dummy solver and perfect-information Monte Carlo engine for the card game Skat.
pub mod consts;
pub mod cards;
pub mod augen;
pub mod convert;
pub mod defs;
pub mod rules;
pub mod context;
pub mod position;
pub mod counters;
pub mod tt;
pub mod search;
pub mod engine;
pub mod solver;
pub mod skat_solving;
pub mod playout;
pub mod all_games;
pub mod facts;
pub mod builder;
pub mod pimc_problem;
pub mod pimc_problem_builder;
pub mod signature;
pub mod pimc_search;
pub mod pimc_playout;
pub mod formatter;
pub mod input;
pub mod analysis;
pub mod best_game;
pub mod skat_game;
pub mod cli_playout;
pub mod move_order;
