use echotag::cache::{
    cache_action_url, cache_url, claim_status, classify_lookup, content_disposition,
    filename_from_disposition, is_success, pick_mp3, server_url, upload_status, CacheLookup, after_poll, poll_interval_secs, PollOutcome, WaitAction,
};

#[test]
fn cache_addresses() {
    let server = server_url("10.0.0.2");
    assert_eq!(server, "http://10.0.0.2:3000");
    assert_eq!(cache_url(&server, "abc"), "http://10.0.0.2:3000/cache/abc");
    assert_eq!(cache_action_url(&server, "abc", "claim"), "http://10.0.0.2:3000/cache/abc/claim");
}

#[test]
fn lookup_statuses() {
    assert_eq!(classify_lookup(404), CacheLookup::Missing);
    assert_eq!(classify_lookup(200), CacheLookup::Found);
    assert_eq!(classify_lookup(204), CacheLookup::Found);
    assert_eq!(classify_lookup(500), CacheLookup::Failed(500));
    assert_eq!(classify_lookup(301), CacheLookup::Failed(301));
    assert!(is_success(299) && !is_success(300) && !is_success(199));
}

#[test]
fn file_names_survive_the_header() {
    let h = content_disposition("Yeat - Nvr Again.mp3");
    assert_eq!(h, "attachment; filename=\"Yeat - Nvr Again.mp3\"");
    assert_eq!(filename_from_disposition(Some(&h)), "Yeat - Nvr Again.mp3");
    assert_eq!(filename_from_disposition(None), "cached_song.mp3");
    assert_eq!(filename_from_disposition(Some("attachment")), "cached_song.mp3");
    assert_eq!(filename_from_disposition(Some("attachment; filename=\"x.mp3")), "cached_song.mp3");
}

#[test]
fn the_server_serves_the_first_mp3() {
    let names = vec![None, Some("cover.jpg".to_string()), Some("a.mp3".to_string()), Some("b.mp3".to_string())];
    assert_eq!(pick_mp3(&names), Some("a.mp3".to_string()));
    assert_eq!(pick_mp3(&vec![Some("x.mp3.part".to_string())]), None);
    assert_eq!(claim_status(true), 200);
    assert_eq!(claim_status(false), 409);
    assert_eq!(upload_status(1), 200);
    assert_eq!(upload_status(0), 404);
}

#[test]
fn waiting_for_another_download() {
    assert_eq!(poll_interval_secs(), 5);
    assert_eq!(after_poll(3, PollOutcome::Ready), WaitAction::UseCache);
    assert_eq!(after_poll(3, PollOutcome::Failed), WaitAction::Download);
    assert_eq!(
        after_poll(3, PollOutcome::NotReady),
        WaitAction::Pending { remind: false, look_again: true }
    );
    assert_eq!(
        after_poll(4, PollOutcome::NotReady),
        WaitAction::Pending { remind: true, look_again: true }
    );
    assert_eq!(
        after_poll(12, PollOutcome::NotReady),
        WaitAction::Pending { remind: true, look_again: false }
    );
}
