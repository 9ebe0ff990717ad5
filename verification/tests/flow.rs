use echotag::chat::{
    chat_action, download_tool_args, download_tool_result, opening_request,
    select_chat_provider, youtube_search_query, ChatAction, ChatError,
};
use echotag::config::Provider;
use echotag::desktop::{get_project_info, greet, resolve_artwork, ArtFile};
use echotag::models::{AudioDownload, Metadata};
use echotag::proxy::{proxy_candidates, proxy_url, working_proxies_text};
use echotag::review::{
    accept_input, default_metadata, download_complete, is_leftover_file, manual_artwork_url,
    review_answer, ReviewAnswer,
};
use echotag::tagger::{cover_art_file_name, high_res_artwork_url, tagged_file_name};

fn meta() -> Metadata {
    Metadata {
        artist_name: "Yeat".to_string(),
        collection_name: "2093".to_string(),
        track_name: "Nvr Again".to_string(),
        artwork_url: "https://x/100x100bb.jpg".to_string(),
        primary_genre: "Rap".to_string(),
    }
}

#[test]
fn chat_providers_and_models() {
    assert!(matches!(select_chat_provider("openai"), Ok(Provider::OpenAi)));
    assert!(matches!(select_chat_provider("ollama"), Ok(Provider::Ollama)));
    match select_chat_provider("OpenAI") {
        Err(ChatError::UnsupportedProvider(p)) => assert_eq!(p, "OpenAI"),
        other => panic!("unexpected {:?}", other),
    }
    assert!(opening_request().starts_with("Please introduce yourself"));
}

#[test]
fn chat_lines() {
    assert!(matches!(chat_action(""), ChatAction::Stop));
    assert!(matches!(chat_action("  EXIT\n"), ChatAction::Exit));
    assert!(matches!(chat_action("Quit\n"), ChatAction::Exit));
    assert!(matches!(chat_action("   \n"), ChatAction::Skip));
    match chat_action("  exits now \n") {
        ChatAction::Ask(s) => assert_eq!(s, "exits now"),
        other => panic!("unexpected {:?}", other),
    }
}

#[test]
fn chat_tools() {
    assert_eq!(youtube_search_query("Yeat", "Nvr Again"), "Yeat - Nvr Again");
    assert_eq!(download_tool_args("u"), vec!["download", "-c", "cookies.txt", "u"]);
    assert_eq!(download_tool_result("u", true).unwrap(), "Successfully finished downloading u.");
    assert_eq!(download_tool_result("u", false).unwrap_err(), "The download process failed.");
}

#[test]
fn review_answers_and_inputs() {
    assert_eq!(review_answer(" Yes\n"), ReviewAnswer::Accept);
    assert_eq!(review_answer("n"), ReviewAnswer::NewSearch);
    assert_eq!(review_answer("Manual"), ReviewAnswer::Manual);
    assert_eq!(review_answer("ok"), ReviewAnswer::Invalid);
    assert_eq!(review_answer("\n"), ReviewAnswer::Invalid);
    assert_eq!(accept_input("  Yeat \n", false), Some("Yeat".to_string()));
    assert_eq!(accept_input(" \n", false), None);
    assert_eq!(accept_input(" \n", true), Some(String::new()));
    assert_eq!(manual_artwork_url("\n"), "default_cover_art.jpg");
    assert_eq!(manual_artwork_url(" http://a/b.jpg\n"), "http://a/b.jpg");
}

#[test]
fn defaults_and_leftovers() {
    let d = AudioDownload { channel: "Chan".to_string(), title: "Song".to_string(), file_path: "f".to_string() };
    let m = default_metadata(&d);
    assert_eq!(m.artist_name, "Chan");
    assert_eq!(m.track_name, "Song");
    assert_eq!(m.collection_name, "404");
    assert_eq!(m.primary_genre, "404");
    assert_eq!(m.artwork_url, "default_cover_art.jpg");
    assert!(is_leftover_file(Some("part")) && is_leftover_file(Some("webm")) && is_leftover_file(Some("ytdl")));
    assert!(!is_leftover_file(Some("mp3")) && !is_leftover_file(None));
    assert!(download_complete(10, 10) && !download_complete(0, 0) && !download_complete(5, 10));
}

#[test]
fn tagging_names() {
    assert_eq!(cover_art_file_name(&meta()), "Yeat_Nvr Again.jpg");
    assert_eq!(tagged_file_name(&meta()), "Yeat - Nvr Again - (2093).mp3");
    assert_eq!(high_res_artwork_url("https://x/100x100bb.jpg"), "https://x/2000x2000bb.jpg");
    assert_eq!(high_res_artwork_url("https://x/1001.jpg"), "https://x/20001.jpg");
}

#[test]
fn proxy_lists() {
    assert_eq!(proxy_candidates(" 1.1.1.1:80 \r\n\n2.2.2.2:8080\n  \n"), vec!["1.1.1.1:80", "2.2.2.2:8080"]);
    assert_eq!(proxy_url("1.1.1.1:80"), "http://1.1.1.1:80");
    assert_eq!(working_proxies_text(&vec!["a".to_string(), "b".to_string()]), "a\nb");
    assert_eq!(working_proxies_text(&Vec::new()), "");
}

#[test]
fn desktop_texts_and_artwork() {
    assert_eq!(greet("Ana"), "Hello, Ana! You've been greeted from Rust!");
    assert_eq!(get_project_info(), "EchoTag Desktop - Built with Rust and Tauri!");
    let url = "https://x/100x100bb.jpg";
    assert_eq!(resolve_artwork(url, ArtFile::Bytes(b"hello".to_vec()), ArtFile::Missing), "data:image/jpeg;base64,aGVsbG8=");
    assert_eq!(resolve_artwork(url, ArtFile::Bytes(b"hi".to_vec()), ArtFile::Missing), "data:image/jpeg;base64,aGk=");
    assert_eq!(resolve_artwork(url, ArtFile::Missing, ArtFile::Bytes(vec![1])), "https://x/2000x2000bb.jpg");
    assert_eq!(resolve_artwork(url, ArtFile::Unreadable, ArtFile::Missing), url);
    assert_eq!(resolve_artwork("default_cover_art.jpg", ArtFile::Missing, ArtFile::Bytes(b"abc".to_vec())), "data:image/jpeg;base64,YWJj");
    assert_eq!(resolve_artwork("default_cover_art.jpg", ArtFile::Missing, ArtFile::Unreadable), "default_cover_art.jpg");
}
