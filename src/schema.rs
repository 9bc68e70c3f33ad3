//! The relational form of the store: its tables and the statements that give
//! the same identity and merge rules as `CloneStore`.

use vstd::prelude::*;
use crate::store::SCHEMA_VERSION;

verus! {

/// The table that records the schema version.
pub const METADATA_TABLE_SQL: &'static str = "CREATE TABLE IF NOT EXISTS metadata (schema_version INTEGER PRIMARY KEY);";

/// Reads the recorded schema version.
pub const SCHEMA_VERSION_SQL: &'static str = "SELECT schema_version FROM metadata";

/// The repository and download tables, and the version that records them.
pub const TABLES_SQL: &'static str = "CREATE TABLE IF NOT EXISTS repos (id INTEGER PRIMARY KEY, repo TEXT NOT NULL, owner TEXT NOT NULL, UNIQUE(repo, owner)); CREATE TABLE IF NOT EXISTS downloads (download_id INTEGER PRIMARY KEY, repo_id INTEGER REFERENCES repos(id), date TIMESTAMP NOT NULL, total_downloads INTEGER NOT NULL, unique_downloads INTEGER NOT NULL, UNIQUE(repo_id, date)); INSERT OR IGNORE INTO metadata(schema_version) VALUES (1);";

/// Registers (repo, owner) unless it is known; binds repo, then owner.
pub const INSERT_REPOSITORY_SQL: &'static str = "INSERT OR IGNORE INTO repos(repo, owner) VALUES (?, ?)";

/// Reads the identifier of (repo, owner); binds repo, then owner.
pub const REPOSITORY_ID_SQL: &'static str = "SELECT id FROM repos WHERE repo = ? AND owner = ?";

/// Inserts a day's counters or merges them by maximum per column; binds the
/// repository identifier, the day's canonical text, total, unique.
pub const MERGE_DOWNLOADS_SQL: &'static str = "INSERT INTO downloads(repo_id, date, total_downloads, unique_downloads) VALUES (?, ?, ?, ?) ON CONFLICT(repo_id, date) DO UPDATE SET total_downloads = max(total_downloads, excluded.total_downloads), unique_downloads = max(unique_downloads, excluded.unique_downloads)";

/// Whether the tables must be set up, given the recorded version (`None`
/// where none could be read).
pub fn needs_bootstrap(stored: Option<i64>) -> (r: bool)
    ensures
        r == match stored {
            Some(v) => v < SCHEMA_VERSION,
            None => true,
        },
{
    match stored {
        Some(v) => v < SCHEMA_VERSION as i64,
        None => true,
    }
}

} // verus!
