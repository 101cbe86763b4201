//! Small requests of the user interface.
use vstd::prelude::*;

use crate::text::{begins_with, without_prefix};

verus! {

/// What the watch folder is doing.
#[derive(Debug, Clone, Copy, PartialEq, Eq, Structural)]
pub struct WatchFolderStatusResponse {
    pub active: bool,
    pub files_detected: u64,
}

/// What the watch folder is doing.
pub fn watch_folder_status(active: bool, files_detected: u64) -> (status: WatchFolderStatusResponse)
    ensures
        status == (WatchFolderStatusResponse { active, files_detected }),
{
    WatchFolderStatusResponse { active, files_detected }
}

/// The folder that is watched, by the settings.
pub fn watch_folder_start(path: String) -> (folder: Result<String, String>)
    ensures
        match folder {
            Ok(folder) => path@.len() > 0 && folder == path,
            Err(text) => path@.len() == 0 && text@ == "No watch folder path configured"@,
        },
{
    if path.as_str().is_empty() {
        Err("No watch folder path configured".to_owned())
    } else {
        Ok(path)
    }
}

/// Whether hotkeys have to be registered anew after a setting has changed.
pub fn is_hotkey_setting(key: &str) -> (hotkey: bool)
    ensures
        hotkey == begins_with(key@, "hotkey"@),
{
    without_prefix(key, "hotkey").is_some()
}

/// The smaller file that is uploaded in place of a clip: there is none, clips
/// are uploaded as they were recorded.
pub fn compress_for_upload(file_path: &str) -> (compressed: Option<String>)
    ensures
        compressed is None,
{
    None
}

} // verus!
