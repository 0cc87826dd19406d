//! Verified core of a desktop developer tool for iPhone and iPad.
use vstd::prelude::*;

pub mod error;
pub mod seqs;
pub mod sorting;
pub mod text;
pub mod paths;
pub mod plist_data;
pub mod device_version;
pub mod types;
pub mod discovery;
pub mod ipa;
pub mod crash_reports;
pub mod files;
pub mod device;
pub mod state;
pub mod developer;
pub mod apps;
pub mod provider;
pub mod logs;
pub mod screenshot;
pub mod tunnel;
pub mod overview;
pub mod location;

verus! {

} // verus!
