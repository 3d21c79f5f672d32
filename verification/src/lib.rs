//! Search index and static page generation for a catalogue of crates.

pub mod text;
pub mod name_order;
pub mod paths;
pub mod page_generator;
pub mod search;
pub mod letters;
pub mod crates_io_client;
pub mod engine;
pub mod errors;
pub mod index;
pub mod site;
pub mod walk;
