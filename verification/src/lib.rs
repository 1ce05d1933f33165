//! ise keeps storage buckets usable as drives: it maps virtual paths to object
//! keys, stages file contents per open handle, and keeps the drive
//! configuration.
//!
//! Every function here is a decision on plain values. The program around the
//! library talks to the storage service, the volume driver and the disk, and
//! hands what came back to the next decision.

pub mod buckets;
pub mod bytes;
pub mod config;
pub mod fs_laws;
pub mod fs_mapping;
pub mod handle;
pub mod listing;
pub mod s3_fs;
pub mod service;
pub mod text;
pub mod wide;
