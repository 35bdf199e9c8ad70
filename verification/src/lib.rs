//! Verified core logic of the HyprFile file manager: directory listing
//! order and filters, desktop-entry parsing, trash metadata, XDG paths,
//! search matching, preview classification and job bookkeeping.

pub mod config;
pub mod entry;
pub mod fs;
pub mod integrations;
pub mod jobs;
pub mod mime;
pub mod paths;
pub mod preview;
pub mod search;
pub mod text;
pub mod theme;
pub mod trash;
