//! The values that flow between downloading, tagging and the history.
use vstd::prelude::*;

verus! {

/// The official metadata of a track.
#[derive(Clone, Debug)]
pub struct Metadata {
    pub artist_name: String,
    pub collection_name: String,
    pub track_name: String,
    pub artwork_url: String,
    pub primary_genre: String,
}

/// A finished download: the channel and title that yt-dlp reported, and
/// where the audio file was written.
#[derive(Clone, Debug)]
pub struct AudioDownload {
    pub channel: String,
    pub title: String,
    pub file_path: String,
}

/// What a running download reports.
#[derive(Debug)]
pub enum DownloadEvent {
    Progress {
        downloaded_bytes: u64,
        total_bytes: u64,
        speed_bytes_per_sec: u64,
        eta_seconds: u64,
    },
    Finished(AudioDownload),
    Error(String),
}

} // verus!
