//! Wiki Game: find a shortest chain of article links between two wiki pages.
pub mod config;
pub mod coordinator;
pub mod explorer;
pub mod graph;
pub mod links;
pub mod wiki;
