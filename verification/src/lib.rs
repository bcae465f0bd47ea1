//! A verified core for an encrypted secret manager.
//!
//! Secrets live in a `KEY=value` text that is encrypted with age. The library
//! holds everything that is decided or computed: the text format, the map of
//! secrets, shell quoting, the commands and what each of them reads, writes
//! and prints, and the steps by which a store is copied to a remote. Reading
//! and writing files, prompting and running programs is left to the caller,
//! which hands in what it found and carries out what it is told.
//!
//! The modules whose names start with `law` hold what is true of the commands
//! as a whole, in the model of the world that `world` gives.

pub mod text;
pub mod secrets;
pub mod format;
pub mod shell;
pub mod path;
pub mod fault;
pub mod crypto;
pub mod remote;
pub mod plan;
pub mod store;
pub mod command;
pub mod sync;
mod reply;
mod steps;
mod sync_steps;
pub mod task;
pub mod world;
pub mod law_read;
pub mod law_write;
pub mod law_key;
pub mod law_edit;
pub mod law_vault;
pub mod law_sync;
pub mod law_text;
pub mod law_print;
pub mod law_blame;
pub mod law_success;
pub mod law_words;
pub mod law_wire;
pub mod law_remote;
