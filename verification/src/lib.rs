//! Building blocks of a small web and GUI application framework: request
//! parsing, routing and error responses for the HTTP side, value types for
//! the GUI side, and the schema rules behind the database record derive.
pub mod gui;
pub mod record;
pub mod text;
pub mod web;
