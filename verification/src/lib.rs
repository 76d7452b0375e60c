//! Content-based change detection for a directory tree.
//!
//! A [`directory_watcher::DirectoryWatcher`] owns a registry that maps each
//! file path it has ever reported to the last state observed for it: either
//! the CRC-32 (IEEE) checksum of the file's whole content, or the fact that
//! the file could not be read. One poll cycle classifies every entry of a
//! directory listing as new, changed or unchanged, updates the registry, and
//! returns the paths of the new and changed files.
//!
//! All file and directory I/O stays with the caller: the engine here works on
//! the plain values an embedding layer hands it (paths, read outcomes, and
//! the listing of one traversal), so every classification rule is stated in
//! a contract and proved.

pub mod checksum;
pub mod directory_watcher;
pub mod error;
pub mod registry;
