//! PDF generation.

pub mod builder;
pub mod content;
pub mod document;
pub mod file_laws;
pub mod font_laws;
pub mod graph;
pub mod laws;
pub mod layout;
pub mod page_laws;
pub mod points;
pub mod quick;
pub mod sheet;
pub mod winansi;

pub use builder::PdfBuilder;
pub use layout::{FontSize, Margins, Orientation, PageSize, TextAlign};
