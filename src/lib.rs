//! A photo gallery kept in step with a directory tree of source images.
//!
//! The library holds the gallery's logic: the layout of a gallery on disk,
//! the picture records and the names of their derived artifacts, the scan
//! filters, the reconciliation of records against the scanned files, the
//! search for the gallery root and the data handed to the page renderer.
//! Reading and writing files, decoding images and rendering templates are
//! left to the caller.

pub mod common;
pub mod gallery;
pub mod reconcile;
pub mod root;
pub mod scan;
pub mod config;
pub mod render;
pub mod sync;
