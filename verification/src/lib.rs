pub mod base;
pub mod bp;
pub mod browse;
pub mod cc;
pub mod codecs;
pub mod fp;
pub mod kw;
pub mod laws;
pub mod names;
pub mod op;
pub mod pages;
pub mod parse_laws;
pub mod pretty;
pub mod preview;
pub mod reader;
pub mod tk;
pub mod utils;
