//! A tokenizer and record reader for semicolon-separated, quote-aware text,
//! and a header-driven mapping of its rows onto typed records.
//!
//! The reader works line by line. [`csv_parser`] holds the line buffer, the
//! tokenizer and the record reader, [`csv_model`] says as mathematics what
//! each of them does, and [`csv_deserialize`] binds the fields of a record
//! type to the columns of a header and parses the rows. The laws that follow
//! from these definitions stand in [`record_laws`], [`well_formed`],
//! [`final_break`], [`line_numbers`] and [`deserialize_laws`].
//!
//! [`projects_loader`] is the record type of the project import, with
//! [`number`] and [`date`] for its columns; [`options`] reads the command
//! line; [`clockify`] holds what a client of the time-tracking service
//! needs around its connection.

pub mod clockify;
pub mod csv_deserialize;
pub mod csv_model;
pub mod csv_parser;
pub mod date;
pub mod deserialize_laws;
pub mod error;
pub mod final_break;
pub mod line_numbers;
pub mod number;
pub mod options;
pub mod projects_loader;
pub mod record_laws;
pub mod text;
pub mod well_formed;
