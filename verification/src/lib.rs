//! Parcel tracking: what a dashboard knows, decides and shows.
pub mod app;
pub mod clock;
pub mod enrich;
pub mod geo;
pub mod journey;
pub mod keys;
pub mod laws;
pub mod numerals;
pub mod order;
pub mod poller;
pub mod provider;
pub mod store;
pub mod text;
pub mod text_map;
pub mod translate;
pub mod worker;
pub mod ui;
