//! Removal rules for a batch renamer: a rule deletes occurrences of a target
//! text from a file name, optionally leaving the extension untouched.

pub mod rules;
