//! The documents that the servers publish.

use vstd::prelude::*;

verus! {

/// The current versions of the resources and of the client.
#[derive(Debug, Clone)]
pub struct VersionInfo {
    pub res_version: String,
    pub client_version: String,
}

/// The list of files of a resource version: the packs and the bundles.
#[derive(Debug, Clone)]
pub struct HotUpdateList {
    pub pack_infos: Vec<PackInfo>,
    pub ab_infos: Vec<AbInfo>,
}

/// A pack of files.
#[derive(Debug, Clone)]
pub struct PackInfo {
    pub name: String,
    pub total_size: Option<u32>,
}

/// A bundle file: its name, sizes, checksum and the pack it belongs to.
#[derive(Debug, Clone)]
pub struct AbInfo {
    pub name: String,
    pub total_size: u32,
    pub ab_size: u32,
    pub md5: String,
    pub pid: Option<String>,
}

} // verus!
