//! Logic behind a desktop note-taking application: naming and listing pasted
//! images, decoding image payloads, rendering a note as a printable HTML page
//! and sequencing the steps of a PDF export.

pub mod decimal;
pub mod image;
pub mod listing;
pub mod markdown;
pub mod page;
pub mod payload;
pub mod pdf;
pub mod store;
pub mod text;
