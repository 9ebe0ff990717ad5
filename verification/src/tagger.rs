//! Names used when tagging a download: the cover art file, the high
//! resolution artwork address, and the final name of the audio file.
use vstd::prelude::*;
use crate::models::Metadata;
use crate::text::{replace, replace_all};

verus! {

broadcast use vstd::string::group_string_axioms;

/// `<artist>_<track>.jpg`, where the cover art of a track is saved.
pub open spec fn cover_art_name(m: Metadata) -> Seq<char> {
    m.artist_name@ + "_"@ + m.track_name@ + ".jpg"@
}

/// Where the cover art of a track is saved (see `cover_art_name`).
pub fn cover_art_file_name(m: &Metadata) -> (r: String)
    ensures
        r@ == cover_art_name(*m),
{
    let mut r = m.artist_name.clone();
    r.append("_");
    r.append(m.track_name.as_str());
    r.append(".jpg");
    r
}

/// The address of the artwork in high resolution: every `100` of the
/// address becomes `2000` (`100x100` becomes `2000x2000`).
pub fn high_res_artwork_url(url: &str) -> (r: String)
    ensures
        r@ == replace(url@, "100"@, "2000"@),
{
    replace_all(url, "100", "2000")
}

/// `<artist> - <track> - (<album>).mp3`, the name a tagged file gets.
pub fn tagged_file_name(m: &Metadata) -> (r: String)
    ensures
        r@ == m.artist_name@ + " - "@ + m.track_name@ + " - ("@ + m.collection_name@ + ").mp3"@,
{
    let mut r = m.artist_name.clone();
    r.append(" - ");
    r.append(m.track_name.as_str());
    r.append(" - (");
    r.append(m.collection_name.as_str());
    r.append(").mp3");
    r
}

} // verus!
