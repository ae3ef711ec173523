//! Planning and rendering logic for `el`, the ElasticLab command line tool
//! that controls AWS data analytics infrastructure through Terraform.
//!
//! - `text`: searching, replacing and decimal formatting over characters.
//! - `order`: the lexicographic order of strings and sorting by it.
//! - `infra`: the services, options and locations, with their parsing.
//! - `lockfile`: the planned resources, their names and their listing.
//! - `stage`: the files staged for Terraform and the stage listing.
//! - `terraform`: decisions around the `terraform` runs.
//! - `paths`: where the tool keeps its files.
//! - `laws`: properties that hold across these operations.

pub mod text;
pub mod order;
pub mod infra;
pub mod lockfile;
pub mod stage;
pub mod terraform;
pub mod paths;
pub mod laws;
