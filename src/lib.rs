//! Core of a feed aggregator: the entity model, the merge and retention
//! policy, the filter and sorter engine, the cache projection and the feed
//! manager's update protocol.

pub mod text;
pub mod models;
pub mod config;
pub mod feed;
pub mod filter;
pub mod sorter;
pub mod cache;
pub mod feed_manager;
