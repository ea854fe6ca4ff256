//! A typed knowledge graph built from a directory of plain-text notes.
//!
//! The crate has three layers:
//!
//! - [`dcom`]: the format-agnostic object model (cognitive objects, their
//!   properties and their physical sources);
//! - [`adapters`]: format bridges between raw bytes and cognitive objects,
//!   with the Obsidian-style Markdown dialect as the built-in adapter;
//! - [`sync`]: deterministic identities, link resolution and the storage
//!   actions that a full or a single-file synchronisation performs.
//!
//! Below them stand the routines they share: [`text`] for characters,
//! lines and searching, [`numeral`] for hexadecimal and decimal renderings,
//! [`paths`] for the names of files, [`fingerprint`] for digests and
//! [`seqs`] for facts about sequences.
//!
//! The crate reads no file and calls no storage. It is handed bytes and
//! answers with objects and with the actions that a store has to perform.
//! Every function states what it returns, and the statements are proved;
//! what other crates compute (regular expressions, YAML, CommonMark,
//! digests) enters the statements under a name.
pub mod adapters;
pub mod dcom;
pub mod fingerprint;
pub mod numeral;
pub mod paths;
pub mod seqs;
pub mod sync;
pub mod text;
