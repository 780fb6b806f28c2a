//! Balanced grouping of people by a genetic search.
//!
//! A fixed list of records, each with five categorical attributes, is split
//! into a number of groups. Candidate splits are scored either by how well
//! every group mirrors the whole list or by how varied every group is, and a
//! population of candidates is improved by selection, crossover and mutation.
//!
//! All scores are fixed-point integers that count millionths.

pub mod breeding;
pub mod fitness;
pub mod generation;
pub mod histogram;
pub mod params;
pub mod profile;
pub mod random;
pub mod record;
pub mod selection;
