//! Commit activity across many repositories.
//!
//! The library reads repository descriptors, decides which queries a probe
//! of a repository puts to the version-control tool, turns the answers into
//! statistics, and rolls the statistics of repositories up into categories,
//! projects and a grand total. It performs no query itself: the caller asks
//! what a [`probe::Probe`] waits for and hands the answer back.
//!
//! - [`text`]: trimming, splitting, words, lines and decimal numbers.
//! - [`histogram`], [`textmap`]: counts and values keyed by text.
//! - [`models`]: the data, each with its mathematical model.
//! - [`parser`], [`config`]: descriptors, identities and the configuration.
//! - [`hours`]: times of day and working hours.
//! - [`analyzer`], [`utils`]: the statistics of one repository.
//! - [`probe`]: the queries of a probe and what each answer adds.
//! - [`aggregate`]: merging statistics, and the laws of merging.
//! - [`cache`], [`grouping`], [`summary`]: categories, projects and totals
//!   from the repositories that were probed, each probed once.
//! - [`ranking`], [`dates`], [`period`]: the order of listings, and relative
//!   periods of time.

pub mod aggregate;
pub mod analyzer;
pub mod cache;
pub mod config;
pub mod dates;
pub mod grouping;
pub mod histogram;
pub mod hours;
pub mod models;
pub mod parser;
pub mod period;
pub mod probe;
pub mod ranking;
pub mod summary;
pub mod text;
pub mod textmap;
pub mod utils;
