//! The built-in procedures that compute on their arguments alone, and those that write.
pub mod nums;
pub mod data;
pub mod strings;
pub mod chars;
pub mod output;
