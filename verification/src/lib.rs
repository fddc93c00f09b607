//! Core logic of a live-reloading static file server: root-confined
//! request-path resolution, directory-listing rendering, response
//! construction with reload-script injection, filesystem-event
//! classification, and the registry that fans reload signals out to
//! connected clients.
//!
//! The surrounding process wires these parts to its sockets and
//! filesystem: it hands request paths, directory children and read
//! outcomes in as plain values and sends the computed responses back out.
pub mod listing;
pub mod paths;
pub mod registry;
pub mod server;
pub mod static_files;
pub mod strutil;
pub mod watcher;
