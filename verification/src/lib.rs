//! The files of SQLite databases in a flat directory of files that are opened
//! ahead of time, and the blocks of a graph in such a database.
//!
//! The library decides: what is asked of the host's files and of a database
//! comes out of it as values, and what came of that goes back in as values.

pub mod backing_file;
pub mod blocks;
pub mod blocks_laws;
pub mod codes;
pub mod connections;
pub mod encoding;
pub mod error;
pub mod file_action;
pub mod flat_folder;
pub mod init;
pub mod init_laws;
pub mod io_methods;
pub mod metadata;
pub mod name_table;
pub mod opfs_vfs;
pub mod pool;
pub mod pool_laws;
pub mod query_laws;
mod random;
pub mod row;
pub mod statement;
pub mod support;
pub mod table;
pub mod table_laws;
mod text;
pub mod trials;
