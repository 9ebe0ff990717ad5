use echotag::models::AudioDownload;
use echotag::youtube::{
    finish_download, parse_eta, parse_eta_checked, parse_size, parse_speed, progress_from_captures,
    extract_video_id, progress_of_line, ytdlp_args, DownloadError, SizeText, YtdlpOutput,
};

fn parts(z: SizeText) -> (String, u64) {
    (z.number, z.multiplier)
}

// What the program makes of a size: the number parsed as a float, times
// the multiplier, cut to an integer.
fn bytes(z: SizeText) -> u64 {
    let number: f64 = z.number.parse().unwrap_or(0.0);
    (number * z.multiplier as f64) as u64
}

#[test]
fn sizes_are_scaled_by_their_unit() {
    assert_eq!(parts(parse_size("3.45MiB")), ("3.45".to_string(), 1048576));
    assert_eq!(parts(parse_size("1.5GiB")), ("1.5".to_string(), 1073741824));
    assert_eq!(parts(parse_size("512KiB")), ("512".to_string(), 1024));
    assert_eq!(parts(parse_size("12")), ("12".to_string(), 1));
    assert_eq!(parts(parse_size("12B")), ("12".to_string(), 1));
    assert_eq!(parts(parse_size("5 KiB")), ("5".to_string(), 1024));
    assert_eq!(bytes(parse_size("3.45MiB")), 3617587);
    assert_eq!(bytes(parse_size("1.5GiB")), 1610612736);
    assert_eq!(bytes(parse_size("512KiB")), 524288);
    assert_eq!(bytes(parse_size("0.5KiB")), 512);
    assert_eq!(bytes(parse_size("12")), 12);
    assert_eq!(bytes(parse_size("12B")), 12);
    assert_eq!(bytes(parse_size("5 KiB")), 5120);
    assert_eq!(bytes(parse_size(".5KiB")), 512);
    assert_eq!(bytes(parse_size("5.KiB")), 5120);
}

#[test]
fn sizes_are_computed_in_floating_point() {
    assert_eq!(parts(parse_size("9007199254740993B")), ("9007199254740993".to_string(), 1));
    assert_eq!(bytes(parse_size("9007199254740993B")), 9007199254740992);
    assert_eq!(bytes(parse_size("2.9999999999999999999B")), 3);
}

#[test]
fn sizes_without_a_number_are_zero() {
    assert_eq!(parts(parse_size("abcKiB")), (String::new(), 1));
    assert_eq!(parts(parse_size("KiB")), (String::new(), 1024));
    assert_eq!(parts(parse_size(" 5KiB")), (String::new(), 1));
    assert_eq!(parts(parse_size("5 ")), ("5 ".to_string(), 1));
    assert_eq!(bytes(parse_size("abcKiB")), 0);
    assert_eq!(bytes(parse_size("1.2.3MiB")), 0);
    assert_eq!(bytes(parse_size(".KiB")), 0);
    assert_eq!(bytes(parse_size(" 5KiB")), 0);
    assert_eq!(bytes(parse_size("5 ")), 0);
    assert_eq!(bytes(parse_size("")), 0);
}

#[test]
fn huge_sizes_saturate() {
    assert_eq!(bytes(parse_size("99999999999999999999999GiB")), u64::MAX);
    assert_eq!(bytes(parse_size("18446744073709551615")), u64::MAX);
}

#[test]
fn speeds_drop_the_per_second_mark() {
    // 58.90KiB/s -> 60313 bytes/sec
    assert_eq!(parts(parse_speed("58.90KiB/s")), ("58.90".to_string(), 1024));
    assert_eq!(bytes(parse_speed("58.90KiB/s")), 60313);
    assert_eq!(bytes(parse_speed("1.00MiB/s")), 1048576);
    assert_eq!(parts(parse_speed("7/s/s")), ("7".to_string(), 1));
    assert_eq!(bytes(parse_speed("7")), 7);
}

#[test]
fn etas_count_seconds() {
    // 01:20 -> 80 seconds
    assert_eq!(parse_eta("01:20"), 80);
    assert_eq!(parse_eta("1:02:03"), 3723);
    assert_eq!(parse_eta("aa:10"), 10);
    assert_eq!(parse_eta("+5:00"), 300);
    assert_eq!(parse_eta("1:2:3:4"), 0);
    assert_eq!(parse_eta("90"), 0);
    assert_eq!(parse_eta_checked("18446744073709551615:00"), None);
    assert_eq!(parse_eta_checked("02:00"), Some(120));
}

#[test]
fn progress_lines_are_read() {
    let p = progress_of_line("[download]  42.0% of ~3.45MiB at 58.90KiB/s ETA 01:20").unwrap();
    assert_eq!(p.percent, "42.0");
    assert_eq!(bytes(p.total), 3617587);
    assert_eq!(bytes(p.speed), 60313);
    assert_eq!(p.eta_seconds, 80);
    let p = progress_of_line("[download] 100% of 4.00MiB at 1.00MiB/s ETA 00:00").unwrap();
    assert_eq!(p.percent, "100");
    assert_eq!(bytes(p.total), 4194304);
    assert!(progress_of_line("Yeat").is_none());
    assert!(progress_of_line("[download] Destination: a.webm").is_none());
}

#[test]
fn captures_with_leading_whitespace_give_no_reading() {
    let caps = vec![
        Some("x".to_string()),
        Some("1".to_string()),
        Some(" 5KiB".to_string()),
        Some("1KiB/s".to_string()),
        Some("00:01".to_string()),
    ];
    assert!(progress_from_captures(&caps).is_none());
    let caps = vec![
        Some("x".to_string()),
        Some("1".to_string()),
        Some("5KiB".to_string()),
        Some("1KiB/s".to_string()),
        Some("00:01".to_string()),
    ];
    let p = progress_from_captures(&caps).unwrap();
    assert_eq!(parts(p.total), ("5".to_string(), 1024));
    assert_eq!(parts(p.speed), ("1".to_string(), 1024));
    assert_eq!(p.eta_seconds, 1);
}

#[test]
fn ytdlp_gets_cookies_proxy_and_url_last() {
    let args = ytdlp_args("https://youtu.be/x", Some("cookies.txt"), Some("1.2.3.4:80"));
    assert_eq!(args[0], "-x");
    assert_eq!(args.len(), 26);
    assert_eq!(args[21], "--cookies");
    assert_eq!(args[22], "cookies.txt");
    assert_eq!(args[23], "--proxy");
    assert_eq!(args[24], "1.2.3.4:80");
    assert_eq!(args[25], "https://youtu.be/x");
    let plain = ytdlp_args("u", None, None);
    assert_eq!(plain.len(), 22);
    assert_eq!(plain[20], "after_move:filepath");
    assert_eq!(plain[21], "u");
}

#[test]
fn output_lines_fill_channel_title_then_path() {
    let mut out = YtdlpOutput::new();
    out.record_line("Yeat, Official".to_string());
    out.record_line("Yeat - Nvr Again".to_string());
    out.record_line("/tmp/old.mp3".to_string());
    out.record_line("/tmp/Yeat - Nvr Again.mp3".to_string());
    assert_eq!(out.channel, "Yeat, Official");
    assert_eq!(out.title, "Yeat - Nvr Again");
    assert_eq!(out.file_path, "/tmp/Yeat - Nvr Again.mp3");
    let d: AudioDownload = finish_download(true, Some(0), String::new(), out).unwrap();
    assert_eq!(d.channel, "Yeat");
    assert_eq!(d.title, "Nvr Again");
    assert_eq!(d.file_path, "/tmp/Yeat - Nvr Again.mp3");
}

#[test]
fn titles_lose_the_channel_and_separators() {
    let out = YtdlpOutput {
        channel: "  Artist ".to_string(),
        title: "Artist | Song (Official)".to_string(),
        file_path: "f.mp3".to_string(),
    };
    let d = finish_download(true, None, String::new(), out).unwrap();
    assert_eq!(d.channel, "Artist");
    assert_eq!(d.title, "Song (Official)");
    let out = YtdlpOutput { channel: String::new(), title: " - Song".to_string(), file_path: "f".to_string() };
    let d = finish_download(true, None, String::new(), out).unwrap();
    assert_eq!(d.channel, "");
    assert_eq!(d.title, "Song");
}

#[test]
fn failed_runs_are_errors() {
    let out = YtdlpOutput::new();
    match finish_download(false, None, "boom".to_string(), out) {
        Err(DownloadError::ToolFailed { code, stderr }) => {
            assert_eq!(code, -1);
            assert_eq!(stderr, "boom");
        }
        other => panic!("unexpected {:?}", other),
    }
    let out = YtdlpOutput::new();
    assert!(matches!(
        finish_download(true, Some(0), String::new(), out),
        Err(DownloadError::MissingFilePath)
    ));
}

#[test]
fn video_ids_come_from_the_v_parameter_or_short_links() {
    assert_eq!(extract_video_id("https://youtube.com/watch?v=123"), Some("123".to_string()));
    assert_eq!(
        extract_video_id("https://www.youtube.com/watch?list=PL1&v=dQw4w9WgXcQ&t=42"),
        Some("dQw4w9WgXcQ".to_string())
    );
    assert_eq!(extract_video_id("https://youtu.be/abc_DEF-1?si=x"), Some("abc_DEF-1".to_string()));
    assert_eq!(extract_video_id("https://youtube.com/watch?v="), None);
    assert_eq!(extract_video_id("https://example.com/video"), None);
}
