//! Organises a tree of numbered chapter directories of page images into
//! volumes: listing and validating entries, ordering names, detecting volume
//! starts from cover colours, turning boundaries into per-volume chapter counts,
//! and planning one output job per volume.

pub mod analysis;
pub mod collector;
pub mod covers;
pub mod decimal;
pub mod entries;
pub mod error;
pub mod media;
pub mod naming;
pub mod orchestrate;
pub mod sorting;
pub mod state;
pub mod text;
pub mod volumes;
