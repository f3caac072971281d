//! A personal expense ledger: the line format of its file, and the records
//! held in memory between reading that file and writing it back.

pub mod codec;
pub mod date;
pub mod laws;
pub mod ledger;
pub mod number;
pub mod record;
pub mod text;
