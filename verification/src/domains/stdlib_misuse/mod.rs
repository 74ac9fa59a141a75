//! Standard-library misuse detectors.

pub mod copies_and_compress;
pub mod header_allowlist;
pub mod common;
pub mod strings_bytes;
pub mod hot_path_misc;
pub mod ranges_and_types;
pub mod maps_and_slices;
pub mod sort_and_search;
pub mod sync_and_locks;
pub mod db_and_sql;
pub mod fanout_and_buffers;
pub mod caching_and_allocation;
pub mod cli_and_orm;
pub mod io_runtime;
pub mod http_client;
pub mod http_server;
