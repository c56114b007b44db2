//! Turns the data behind a Last Epoch build planner page into a plain-text
//! build summary.
pub mod json;
pub mod page_text;
pub mod text;
pub mod sub_logic;
pub mod sorting;
