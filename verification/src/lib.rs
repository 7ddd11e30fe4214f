//! Verified core of the Arknights asset tools: parsing Unity asset bundles,
//! LZ4 block decoding and the URL/naming rules of the downloader.

use vstd::prelude::*;

pub mod error;

pub mod unpacker;
pub mod downloader;
pub mod cli;
