use echotag::itunes::{ItunesProvider, ItunesTrack};
use echotag::metadata_provider::{shorten_query, MetadataProvider, ProviderError, QuerySearch};
use echotag::models::{AudioDownload, Metadata};
use std::cell::RefCell;

fn track(artist: &str, title: &str) -> ItunesTrack {
    ItunesTrack {
        artist_name: artist.to_string(),
        collection_name: "Album".to_string(),
        track_name: title.to_string(),
        artwork_url100: "https://a/100x100bb.jpg".to_string(),
        primary_genre: "Rap".to_string(),
    }
}

#[test]
fn itunes_requests_and_results() {
    assert_eq!(
        ItunesProvider.search_url("Yeat Nvr Again"),
        "https://itunes.apple.com/search?media=music&entity=song&limit=5&term=Yeat Nvr Again"
    );
    let m = ItunesProvider.results_to_metadata(vec![track("Yeat", "1"), track("Yeat", "2")]);
    assert_eq!(m.len(), 2);
    assert_eq!(m[1].track_name, "2");
    assert_eq!(m[0].artwork_url, "https://a/100x100bb.jpg");
    assert_eq!(m[0].primary_genre, "Rap");
    let one: Metadata = Metadata::from(track("A", "B"));
    assert_eq!(one.collection_name, "Album");
}

#[test]
fn queries_lose_their_last_word() {
    assert_eq!(shorten_query("Yeat Nvr Again"), Some("Yeat Nvr".to_string()));
    assert_eq!(shorten_query("Yeat  Nvr"), Some("Yeat".to_string()));
    assert_eq!(shorten_query("Yeat"), None);
    assert_eq!(shorten_query(" x"), Some(String::new()));
}

struct Fake {
    asked: RefCell<Vec<String>>,
    answer_at: Option<String>,
    fail: bool,
}

impl MetadataProvider for Fake {
    fn search(&self, query: &str) -> Result<Vec<Metadata>, ProviderError> {
        self.asked.borrow_mut().push(query.to_string());
        if self.fail {
            return Err(ProviderError { message: "down".to_string() });
        }
        if self.answer_at.as_deref() == Some(query) {
            Ok(vec![Metadata::from(track("A", query))])
        } else {
            Ok(Vec::new())
        }
    }
}

fn download(channel: &str, title: &str) -> AudioDownload {
    AudioDownload { channel: channel.to_string(), title: title.to_string(), file_path: "f.mp3".to_string() }
}

#[test]
fn find_metadata_shortens_until_found() {
    let p = Fake { asked: RefCell::new(Vec::new()), answer_at: Some("Yeat Nvr".to_string()), fail: false };
    let found = p.find_metadata(&download("Yeat", "Nvr Again (Official)")).unwrap();
    assert_eq!(found[0].track_name, "Yeat Nvr");
    assert_eq!(*p.asked.borrow(), vec!["Yeat Nvr Again (Official)", "Yeat Nvr Again", "Yeat Nvr"]);
}

#[test]
fn find_metadata_gives_up_after_seven_searches() {
    let p = Fake { asked: RefCell::new(Vec::new()), answer_at: None, fail: false };
    let found = p.find_metadata(&download("a", "b c d e f g h i j")).unwrap();
    assert!(found.is_empty());
    assert_eq!(p.asked.borrow().len(), 7);
    let p = Fake { asked: RefCell::new(Vec::new()), answer_at: None, fail: false };
    assert!(p.find_metadata(&download("a", "b")).unwrap().is_empty());
    assert_eq!(*p.asked.borrow(), vec!["a b", "a"]);
}

#[test]
fn find_metadata_stops_on_errors() {
    let p = Fake { asked: RefCell::new(Vec::new()), answer_at: None, fail: true };
    assert_eq!(p.find_metadata(&download("a", "b")).unwrap_err().message, "down");
    assert_eq!(p.asked.borrow().len(), 1);
}

#[test]
fn query_search_steps() {
    let mut s = QuerySearch::new(&download("Chan", "Song Name"));
    assert_eq!(s.next_query(), Some("Chan Song Name".to_string()));
    assert!(s.on_results(Vec::new()).is_none());
    assert_eq!(s.next_query(), Some("Chan Song".to_string()));
    let hit = vec![Metadata::from(track("x", "y"))];
    assert_eq!(s.on_results(hit).unwrap().len(), 1);
    assert_eq!(s.next_query(), None);
}
