use echotag::cli::{Cli, CliError, Command};
use std::path::PathBuf;

#[test]
fn parse_download_command_with_urls_and_cookies() {
    let args = vec![
        "echotag",
        "download",
        "-c",
        "cookies.txt",
        "https://youtube.com/watch?v=123",
        "https://youtube.com/watch?v=456",
    ];

    let cli = Cli::try_parse_from(args).expect("Parsing valid download command should succeed");

    match cli.command {
        Command::Download { urls, cookies, skip_metadata_verification } => {
            assert_eq!(urls.len(), 2, "Should have parsed 2 URLs");
            assert_eq!(urls[0], "https://youtube.com/watch?v=123");
            assert_eq!(PathBuf::from(cookies), PathBuf::from("cookies.txt"));
            assert!(!skip_metadata_verification);
        }
        _ => panic!("Expected Download command, got something else"),
    }
}

#[test]
fn parse_config_command_with_flags() {
    let args = vec!["echotag", "config", "--setup-model"];

    let cli = Cli::try_parse_from(args).expect("Parsing valid config command should succeed");

    match cli.command {
        Command::Config { setup_model, setup_cache_server } => {
            assert!(setup_model, "setup_model should be true");
            assert!(!setup_cache_server, "setup_cache_server should be false");
        }
        _ => panic!("Expected Config command, got something else"),
    }
}

#[test]
fn parse_download_fails_without_urls() {
    let args = vec!["echotag", "download", "-c", "cookies.txt"];

    let result = Cli::try_parse_from(args);

    assert!(result.is_err(), "Parsing should fail when required URLs are missing");
}

#[test]
fn download_accepts_grouped_and_attached_options() {
    let cli = Cli::try_parse_from(vec!["echotag", "download", "-sc", "c.txt", "u1"]).unwrap();
    match cli.command {
        Command::Download { urls, cookies, skip_metadata_verification } => {
            assert_eq!(urls, vec!["u1".to_string()]);
            assert_eq!(cookies, "c.txt");
            assert!(skip_metadata_verification);
        }
        _ => panic!("expected download"),
    }
    let cli = Cli::try_parse_from(vec!["echotag", "download", "u1", "--cookies=k.txt", "u2"]).unwrap();
    match cli.command {
        Command::Download { urls, cookies, .. } => {
            assert_eq!(urls, vec!["u1".to_string(), "u2".to_string()]);
            assert_eq!(cookies, "k.txt");
        }
        _ => panic!("expected download"),
    }
    let cli = Cli::try_parse_from(vec!["echotag", "download", "-ck.txt", "--", "-x"]).unwrap();
    match cli.command {
        Command::Download { urls, cookies, .. } => {
            assert_eq!(urls, vec!["-x".to_string()]);
            assert_eq!(cookies, "k.txt");
        }
        _ => panic!("expected download"),
    }
}

#[test]
fn command_line_errors() {
    let e = |args: Vec<&str>| Cli::try_parse_from(args).err();
    assert_eq!(e(vec!["echotag"]), Some(CliError::MissingSubcommand));
    assert_eq!(e(vec!["echotag", "play"]), Some(CliError::InvalidSubcommand));
    assert_eq!(e(vec!["echotag", "--verbose"]), Some(CliError::UnknownArgument));
    assert_eq!(e(vec!["echotag", "--help"]), Some(CliError::DisplayHelp));
    assert_eq!(e(vec!["echotag", "help"]), Some(CliError::DisplayHelp));
    assert_eq!(e(vec!["echotag", "download", "-c"]), Some(CliError::MissingValue));
    assert_eq!(e(vec!["echotag", "download", "-c", "--", "u"]), Some(CliError::MissingValue));
    assert_eq!(e(vec!["echotag", "download", "-c", "a", "-c", "b", "u"]), Some(CliError::ArgumentRepeated));
    assert_eq!(e(vec!["echotag", "download", "--cookies=", "u"]), Some(CliError::InvalidValue));
    assert_eq!(e(vec!["echotag", "download", "-x", "u"]), Some(CliError::UnknownArgument));
    assert_eq!(e(vec!["echotag", "download", "u"]), Some(CliError::MissingRequired));
    assert_eq!(e(vec!["echotag", "update"]), Some(CliError::MissingRequired));
    assert_eq!(e(vec!["echotag", "update", ""]), Some(CliError::InvalidValue));
    assert_eq!(e(vec!["echotag", "config", "extra"]), Some(CliError::UnknownArgument));
    assert_eq!(e(vec!["echotag", "config", "--setup-model", "--setup-model"]), Some(CliError::ArgumentRepeated));
    assert_eq!(e(vec!["echotag", "chat", "now"]), Some(CliError::UnknownArgument));
    assert_eq!(e(vec!["echotag", "chat", "-h"]), Some(CliError::DisplayHelp));
}

#[test]
fn update_and_chat_commands() {
    match Cli::try_parse_from(vec!["echotag", "update", "a.mp3", "b.mp3"]).unwrap().command {
        Command::Update { paths } => assert_eq!(paths, vec!["a.mp3".to_string(), "b.mp3".to_string()]),
        _ => panic!("expected update"),
    }
    assert!(matches!(Cli::try_parse_from(vec!["echotag", "chat"]).unwrap().command, Command::Chat));
    match Cli::try_parse_from(vec!["echotag", "config"]).unwrap().command {
        Command::Config { setup_model, setup_cache_server } => assert!(!setup_model && !setup_cache_server),
        _ => panic!("expected config"),
    }
}
