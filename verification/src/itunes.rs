//! Metadata from the iTunes search API.
use vstd::prelude::*;
use crate::models::Metadata;

verus! {

broadcast use vstd::string::group_string_axioms;

/// Searches the iTunes catalogue for songs.
#[derive(Clone, Copy, Debug)]
pub struct ItunesProvider;

/// A song as the iTunes search API describes it (`artistName`,
/// `collectionName`, `trackName`, `artworkUrl100`, `primaryGenreName`).
#[derive(Clone, Debug)]
pub struct ItunesTrack {
    pub artist_name: String,
    pub collection_name: String,
    pub track_name: String,
    pub artwork_url100: String,
    pub primary_genre: String,
}

impl From<ItunesTrack> for Metadata {
    fn from(track: ItunesTrack) -> (m: Metadata) {
        Metadata {
            artist_name: track.artist_name,
            collection_name: track.collection_name,
            track_name: track.track_name,
            artwork_url: track.artwork_url100,
            primary_genre: track.primary_genre,
        }
    }
}

impl vstd::std_specs::convert::FromSpecImpl<ItunesTrack> for Metadata {
    open spec fn obeys_from_spec() -> bool {
        true
    }

    open spec fn from_spec(track: ItunesTrack) -> Metadata {
        Metadata {
            artist_name: track.artist_name,
            collection_name: track.collection_name,
            track_name: track.track_name,
            artwork_url: track.artwork_url100,
            primary_genre: track.primary_genre,
        }
    }
}

/// The metadata that an iTunes song gives: the same fields, the artwork
/// being the 100x100 one.
pub open spec fn metadata_of(t: ItunesTrack) -> Metadata {
    Metadata {
        artist_name: t.artist_name,
        collection_name: t.collection_name,
        track_name: t.track_name,
        artwork_url: t.artwork_url100,
        primary_genre: t.primary_genre,
    }
}

impl ItunesProvider {
    /// The search request for up to five songs matching `query`.
    pub fn search_url(&self, query: &str) -> (r: String)
        ensures
            r@ == "https://itunes.apple.com/search?media=music&entity=song&limit=5&term="@ + query@,
    {
        let mut r = String::from_str(
            "https://itunes.apple.com/search?media=music&entity=song&limit=5&term=",
        );
        r.append(query);
        r
    }

    /// The metadata of the songs that a search returned, in order.
    pub fn results_to_metadata(&self, tracks: Vec<ItunesTrack>) -> (r: Vec<Metadata>)
        ensures
            r@ == tracks@.map_values(|t: ItunesTrack| metadata_of(t)),
    {
        let ghost all = tracks@.map_values(|t: ItunesTrack| metadata_of(t));
        let mut rest = tracks;
        let mut out: Vec<Metadata> = Vec::new();
        assert(out@ + rest@.map_values(|t: ItunesTrack| metadata_of(t)) =~= all);
        while rest.len() > 0
            invariant
                out@ + rest@.map_values(|t: ItunesTrack| metadata_of(t)) == all,
            decreases rest@.len(),
        {
            let ghost before = rest@;
            let t = rest.remove(0);
            assert(before.map_values(|t: ItunesTrack| metadata_of(t)) =~= seq![metadata_of(t)]
                + rest@.map_values(|t: ItunesTrack| metadata_of(t)));
            let ghost old_out = out@;
            out.push(Metadata::from(t));
            assert(out@ + rest@.map_values(|t: ItunesTrack| metadata_of(t)) =~= old_out + before.map_values(
                |t: ItunesTrack| metadata_of(t),
            ));
        }
        assert(out@ =~= all);
        out
    }
}

} // verus!
