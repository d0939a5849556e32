//! Turns a structured update log — a list of source files, each with a list
//! of update records — into one table per update category: the header is
//! derived from the first record seen for the category, and every record
//! contributes one row, in source-file-then-record order.

pub mod model;
pub mod records;
pub mod tables;
pub mod csvout;
pub mod parse;
pub mod laws;
