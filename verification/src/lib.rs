//! Decision and data-shaping logic of a live-migration tool for cloud
//! instances and Docker containers.
pub mod archive;
pub mod aws;
pub mod container_map;
pub mod docker;
mod entropy;
pub mod gcp;
pub mod ssh;
pub mod text;
pub mod transfer;
pub mod pricing;
