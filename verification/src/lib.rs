//! A small SQL-like data tool: a pattern-based query parser, a column-type
//! resolver, an in-memory table storage engine and a database catalog, all
//! with verified contracts. Persistence and the interactive front end live
//! outside the library and exchange plain values with it.
pub mod database;
pub mod datatype;
pub mod query_parser;
pub mod table;
pub mod text;
pub mod utils;
