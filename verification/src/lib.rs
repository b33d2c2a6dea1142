pub mod catalog;
pub mod content;
pub mod entry;
pub mod finder;
pub mod removal;
