//! League standings: team records, match results, ranking and the
//! semicolon-separated text form of a table.

pub mod commands;
pub mod standings;
