//! The decisions of the interactive download: reviewing the proposed
//! metadata, reading answers, and cleaning up what yt-dlp left behind.
use vstd::prelude::*;
use crate::models::{AudioDownload, Metadata};
use crate::text::{chars_of, same_text, string_of_range, trim, trim_bounds};

verus! {

broadcast use vstd::string::group_string_axioms;

/// The metadata used when the search found nothing: the channel as the
/// artist, the title as the track, `404` as album and genre, and the
/// default cover.
pub fn default_metadata(download: &AudioDownload) -> (m: Metadata)
    ensures
        m.artist_name@ == download.channel@,
        m.track_name@ == download.title@,
        m.collection_name@ == "404"@,
        m.primary_genre@ == "404"@,
        m.artwork_url@ == "default_cover_art.jpg"@,
{
    Metadata {
        artist_name: download.channel.clone(),
        track_name: download.title.clone(),
        collection_name: String::from_str("404"),
        primary_genre: String::from_str("404"),
        artwork_url: String::from_str("default_cover_art.jpg"),
    }
}

/// The user's answer to "Is this correct?".
#[derive(Clone, Copy, Debug, PartialEq, Eq, Structural)]
pub enum ReviewAnswer {
    /// Keep the proposed metadata.
    Accept,
    /// Search again with a query of the user's.
    NewSearch,
    /// Type the metadata in.
    Manual,
    /// Anything else: ask again.
    Invalid,
}

/// The answer that a line means: its trimmed text, lower-cased, starting
/// with `y`, `n` or `m`.  (Only `Y`, `N` and `M` lower-case to a text that
/// starts with these letters, so lower-casing the first character as ASCII
/// decides the same answers.)
pub open spec fn answer_for(input: Seq<char>) -> ReviewAnswer {
    let t = trim(input);
    if t.len() == 0 {
        ReviewAnswer::Invalid
    } else {
        let c = crate::config::ascii_lower(t[0]);
        if c == 'y' {
            ReviewAnswer::Accept
        } else if c == 'n' {
            ReviewAnswer::NewSearch
        } else if c == 'm' {
            ReviewAnswer::Manual
        } else {
            ReviewAnswer::Invalid
        }
    }
}

/// Reads the answer to the metadata review (see `answer_for`).
pub fn review_answer(input: &str) -> (r: ReviewAnswer)
    ensures
        r == answer_for(input@),
{
    let v = chars_of(input);
    let (a, b) = trim_bounds(&v);
    if a == b {
        return ReviewAnswer::Invalid;
    }
    assert(trim(input@)[0] == v@[a as int]);
    let c0 = v[a];
    let c = if 'A' <= c0 && c0 <= 'Z' {
        ((c0 as u32 + 32) as u8) as char
    } else {
        c0
    };
    if c == 'y' {
        ReviewAnswer::Accept
    } else if c == 'n' {
        ReviewAnswer::NewSearch
    } else if c == 'm' {
        ReviewAnswer::Manual
    } else {
        ReviewAnswer::Invalid
    }
}

/// What a prompt accepts from a line: the line trimmed, unless it is empty
/// and empty answers are not allowed, in which case the prompt asks again.
pub fn accept_input(input: &str, allow_empty: bool) -> (r: Option<String>)
    ensures
        trim(input@).len() > 0 || allow_empty ==> (r matches Some(s) && s@ == trim(input@)),
        trim(input@).len() == 0 && !allow_empty ==> r is None,
{
    let v = chars_of(input);
    let (a, b) = trim_bounds(&v);
    if a < b || allow_empty {
        Some(string_of_range(&v, a, b))
    } else {
        None
    }
}

/// The artwork of manually typed metadata: the typed URL, trimmed, or the
/// default cover when nothing was typed.
pub fn manual_artwork_url(input: &str) -> (r: String)
    ensures
        trim(input@).len() == 0 ==> r@ == "default_cover_art.jpg"@,
        trim(input@).len() > 0 ==> r@ == trim(input@),
{
    let v = chars_of(input);
    let (a, b) = trim_bounds(&v);
    if a == b {
        String::from_str("default_cover_art.jpg")
    } else {
        string_of_range(&v, a, b)
    }
}

/// Whether a file with this extension is a leftover of an interrupted
/// download (`part`, `webm`, `ytdl`).
pub open spec fn is_leftover_ext(ext: Option<Seq<char>>) -> bool {
    match ext {
        Some(e) => e == "part"@ || e == "webm"@ || e == "ytdl"@,
        None => false,
    }
}

/// Whether a file is a leftover of an interrupted download.
pub fn is_leftover_file(ext: Option<&str>) -> (r: bool)
    ensures
        r == is_leftover_ext(
            match ext {
                Some(e) => Some(e@),
                None => None,
            },
        ),
{
    match ext {
        Some(e) => same_text(e, "part") || same_text(e, "webm") || same_text(e, "ytdl"),
        None => false,
    }
}

/// Whether a progress report shows the whole file downloaded, after which
/// yt-dlp converts the audio.
pub fn download_complete(downloaded_bytes: u64, total_bytes: u64) -> (r: bool)
    ensures
        r == (total_bytes == downloaded_bytes && total_bytes > 0),
{
    total_bytes == downloaded_bytes && total_bytes > 0
}

} // verus!
