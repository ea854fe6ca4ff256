//! Synchronisation of a vault with its storage projection.
//!
//! The synchroniser decides; it performs neither file access nor storage
//! calls. It is handed the files of the vault and answers with the storage
//! actions to perform, in order.
pub mod identity;
pub mod store;
pub mod syncer;

pub use identity::{calculate_hash, path_to_uuid};
pub use store::{Edge, Node, StoreAction, SyncResult};
pub use syncer::{sync_vault, FileSync, FilenameIndex, VaultFile, VaultSyncer};
