//! An encrypted credential vault: records keyed by a unique name, each field
//! sealed on its own under a key derived from the master password and the
//! record's name.
//!
//! The vault works on a table in memory. Opening a database, prompting and
//! printing are the business of the program around it.

pub mod crypto;
pub mod encoding;
pub mod error;
pub mod generate;
pub mod password;
pub mod session;
pub mod table;
pub mod vault;
