//! What the library promises, said of what goes in and what comes out.
pub mod dashboard;
pub mod polling;
pub mod readings;
pub mod screen;
pub mod strip;
pub mod texts;
