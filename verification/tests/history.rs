use echotag::history::{history_prompt_of, no_history_prompt, should_append};
use echotag::models::Metadata;

fn make_test_metadata(artist: &str, track: &str) -> Metadata {
    Metadata {
        artist_name: artist.to_string(),
        track_name: track.to_string(),
        collection_name: "Test Album".to_string(),
        artwork_url: "http://example.com/art.jpg".to_string(),
        primary_genre: "Test Genre".to_string(),
    }
}

#[test]
fn append_to_history_writes_and_prevents_duplicates() {
    let metadata = make_test_metadata("Yeat", "Nvr Again");
    let mut history: Vec<Metadata> = Vec::new();
    assert!(should_append(&history, &metadata), "First append failed");
    history.push(metadata.clone());
    assert!(!should_append(&history, &metadata), "A duplicate entry was written!");
    let other_artist = make_test_metadata("Someone", "Nvr Again");
    assert!(should_append(&history, &other_artist));
}

#[test]
fn get_history_prompt_returns_default_when_no_file() {
    let prompt = no_history_prompt();
    assert!(prompt.contains("no listening history yet"), "Default prompt was wrong");
}

#[test]
fn get_history_prompt_counts_artists_and_tracks_correctly() {
    let entries = vec![
        make_test_metadata("Yeat", "2093"),
        make_test_metadata("Yeat", "Pulled In First"),
        make_test_metadata("Yeat", "Nvr Again"),
    ];
    let prompt = history_prompt_of(&entries);
    assert!(prompt.contains("3 song(s) total"), "Wrong total song count");
    assert!(prompt.contains("Yeat"), "Top artist missing from prompt");
    assert!(prompt.contains("2093"), "Track missing from prompt");
    assert_eq!(
        prompt,
        "You are a helpful music recommendation engine. The user has downloaded 3 song(s) total. \
         Their most listened to artist is: Yeat. Here are the last 3 tracks they downloaded:\n\
         Yeat - Nvr Again\nYeat - Pulled In First\nYeat - 2093 \
         Based on their taste, suggest 3 new songs they might like."
    );
}

#[test]
fn single_track_prompt() {
    let prompt = history_prompt_of(&vec![make_test_metadata("A", "x")]);
    assert_eq!(
        prompt,
        "You are a helpful music recommendation engine. The user has downloaded 1 song(s) total. \
         Their most listened to artist is: A. Here is the last track they downloaded:\nA - x \
         Based on their taste, suggest 3 new songs they might like."
    );
}

#[test]
fn artists_are_ranked_by_count_ties_in_order_of_appearance() {
    let entries = vec![
        make_test_metadata("B", "1"),
        make_test_metadata("A", "2"),
        make_test_metadata("C", "3"),
        make_test_metadata("A", "4"),
        make_test_metadata("C", "5"),
        make_test_metadata("A", "6"),
    ];
    let prompt = history_prompt_of(&entries);
    assert!(prompt.contains("Their top 3 most listened to artists are: A, C, B."));
    assert!(prompt.contains("Here are the last 6 tracks they downloaded:\nA - 6\nC - 5\nA - 4\nC - 3\nA - 2\nB - 1 "));
}

#[test]
fn prompt_keeps_fifteen_artists_and_ten_tracks() {
    let mut entries = Vec::new();
    for i in 0..20 {
        entries.push(make_test_metadata(&format!("artist{}", i), &format!("t{}", i)));
    }
    let prompt = history_prompt_of(&entries);
    assert!(prompt.contains("20 song(s) total"));
    assert!(prompt.contains("Their top 15 most listened to artists are: artist0, artist1,"));
    assert!(prompt.contains("artist14."));
    assert!(!prompt.contains("artist15,"));
    assert!(prompt.contains("Here are the last 10 tracks they downloaded:\nartist19 - t19\n"));
    assert!(prompt.contains("artist10 - t10 Based"));
    assert!(!prompt.contains("artist9 - t9"));
}

#[test]
fn empty_history_file_prompt() {
    let prompt = history_prompt_of(&Vec::new());
    assert!(prompt.contains("downloaded 0 song(s) total. Their top 0 most listened to artists are: . Here are the last 0 tracks they downloaded:\n Based"));
}
