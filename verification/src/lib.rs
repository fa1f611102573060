//! The history of a GitHub repository as rows: reading the feeds, filtering,
//! expanding, navigating and laying out the screen.
pub mod app;
pub mod chart_laws;
pub mod cli;
pub mod event;
pub mod feed;
pub mod gh;
pub mod input;
pub mod json;
pub mod laws;
pub mod layout;
pub mod load;
pub mod screen;
pub mod text;
