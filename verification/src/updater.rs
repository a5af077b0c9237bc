//! Data reported by the auto-update checker.
//!
//! Checking a release feed and downloading an update are network work
//! done by the caller; this module fixes what is reported to the front
//! end for each possible outcome of a check.

use vstd::prelude::*;

verus! {

/// What a completed update check tells the front end.
#[derive(Debug)]
pub struct UpdateInfo {
    pub has_update: bool,
    pub update_version: String,
}

impl UpdateInfo {
    pub fn new(has_update: bool, update_version: String) -> (r: Self)
        ensures
            r.has_update == has_update,
            r.update_version == update_version,
    {
        Self { has_update, update_version }
    }

    /// The report for a check that found `found` (the available version,
    /// if any): an update with its version string, or no update and an
    /// empty version.
    pub fn from_check(found: Option<String>) -> (r: Self)
        ensures
            match found {
                Some(v) => r.has_update && r.update_version == v,
                None => !r.has_update && r.update_version@ == Seq::<char>::empty(),
            },
    {
        match found {
            Some(v) => Self { has_update: true, update_version: v },
            None => Self { has_update: false, update_version: String::new() },
        }
    }
}

/// Progress of an update download, for the front end's progress bar.
#[derive(Debug)]
pub struct DownloadProgress {
    pub downloaded: usize,
    pub total: u64,
}

impl DownloadProgress {
    /// Progress after one more chunk of `chunk` bytes arrived, against a
    /// total that is reported as zero while unknown.
    pub fn advanced(&self, chunk: usize, content_length: Option<u64>) -> (r: Self)
        requires
            self.downloaded + chunk <= usize::MAX,
        ensures
            r.downloaded == self.downloaded + chunk,
            r.total == content_length.unwrap_or(0),
    {
        DownloadProgress {
            downloaded: self.downloaded + chunk,
            total: match content_length {
                Some(t) => t,
                None => 0,
            },
        }
    }
}

} // verus!
