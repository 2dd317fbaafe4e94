//! Shared utilities: structured table names, decimal text, clock
//! access, and file-name conventions for segment and sstable files.

pub mod file_utils;
pub mod table_name;
pub mod text;
pub mod time_utils;
