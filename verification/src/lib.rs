pub mod crawl;
pub mod extractor;
pub mod html;
pub mod json;
pub mod laws;
pub mod manifest;
pub mod text;
pub mod utils;
