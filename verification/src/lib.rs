//! Sorting and renaming of media files by the date they were taken.
pub mod text;
pub mod paths;
pub mod date;
pub mod file;
pub mod sorter;
pub mod cli;
