//! The rules behind the database record derive: which fields become
//! columns, of what type, under what name, nullable or not, and which
//! indexes a record declares. The derive itself only reads the struct's
//! syntax into these plain values and writes code from the result.
pub mod attrs;
pub mod laws;
pub mod schema;
pub mod types;
