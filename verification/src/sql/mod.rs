//! Statements over collections: filters as queries, tables and their rows,
//! the search functions, and how a result is cut.

pub mod args;
pub mod call_laws;
pub mod calls;
pub mod descriptor;
pub mod expr_laws;
pub mod exprs;
pub mod json_path;
pub mod json_rows;
pub mod path_laws;
pub mod row_laws;
pub mod rows;
pub mod statement;
pub mod table_scan;
