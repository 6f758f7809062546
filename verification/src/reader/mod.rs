pub mod base;
pub mod entries;
pub mod esr;
pub mod full;
pub mod simple;
