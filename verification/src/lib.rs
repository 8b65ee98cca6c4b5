//! Verified core of an interactive media downloader: URL and command
//! handling, platform detection, format classification and ranking,
//! download planning and the naming of output files.
pub mod text;
pub mod url;
pub mod format;
pub mod command;
pub mod plan;
pub mod disk;
pub mod paths;
pub mod progress;
pub mod laws;

use vstd::prelude::*;

verus! {

} // verus!
