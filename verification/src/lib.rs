use vstd::prelude::*;

pub mod text;
pub mod numbers;
pub mod youtube;
pub mod models;
pub mod cli;
pub mod history;
pub mod config;
pub mod cache;
pub mod itunes;
pub mod metadata_provider;
pub mod chat;
pub mod review;
pub mod tagger;
pub mod proxy;
pub mod desktop;

verus! {

} // verus!
