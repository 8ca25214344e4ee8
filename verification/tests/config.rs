use patchview::config::{
    config_path, config_text, default_mono_family, default_mono_text_size, fc_match, mono_family,
    Config, ConfigFile, FontConfig,
};
use patchview::git::Outcome;

#[test]
fn defaults_match_current_hardcoded_values() {
    // Sanity: if someone changes the defaults, the diff pane shouldn't
    // silently look different. Test pinning it down.
    assert_eq!(default_mono_text_size() as f32, 13.0);
    assert_eq!(default_mono_family(true), "Menlo");
    assert_eq!(default_mono_family(false), "DejaVu Sans Mono");
}

#[test]
fn a_file_that_cannot_be_used_gives_the_default() {
    let cases = vec![
        (ConfigFile::NoPath, None),
        (ConfigFile::Missing, None),
        (
            ConfigFile::Unreadable("denied".into()),
            Some("viewer: could not read /c.toml: denied"),
        ),
        (
            ConfigFile::NotText("byte 3".into()),
            Some("viewer: /c.toml is not valid UTF-8: byte 3"),
        ),
        (
            ConfigFile::Malformed("line 1".into()),
            Some("viewer: could not parse /c.toml: line 1"),
        ),
    ];
    for (file, expected) in cases {
        let (config, warning) = Config::load("viewer", "/c.toml", file);
        assert_eq!(config, Config::default());
        assert_eq!(config.font.mono_family, "");
        assert_eq!(config.font.mono_text_size, None);
        assert_eq!(warning.as_deref(), expected);
    }
}

#[test]
fn a_parsed_file_is_used() {
    let font = FontConfig {
        mono_family: "JetBrains Mono".into(),
        mono_text_size: Some(14.0f32.to_bits()),
    };
    let (config, warning) = Config::load("viewer", "/c.toml", ConfigFile::Parsed(Config { font }));
    assert_eq!(config.font.mono_family, "JetBrains Mono");
    assert_eq!(config.font.mono_text_size.map(f32::from_bits), Some(14.0));
    assert_eq!(warning, None);
}

#[test]
fn the_configuration_directory_comes_before_the_home_directory() {
    let path = config_path("viewer", Some("/xdg"), Some("/home/me")).unwrap();
    assert_eq!(path.base, "/xdg");
    assert_eq!(path.names, vec!["viewer", "config.toml"]);
    let path = config_path("viewer", None, Some("/home/me")).unwrap();
    assert_eq!(path.base, "/home/me");
    assert_eq!(path.names, vec![".config", "viewer", "config.toml"]);
    assert!(config_path::<&str>("viewer", None, None).is_none());
}

#[test]
fn an_empty_family_means_that_of_the_system() {
    let mut config = Config::default();
    assert_eq!(mono_family(&config, true), "Menlo");
    assert_eq!(mono_family(&config, false), "DejaVu Sans Mono");
    config.font.mono_family = "Iosevka".into();
    assert_eq!(mono_family(&config, true), "Iosevka");
}

#[test]
fn configuration_files_are_text() {
    assert_eq!(config_text("a = 'é'".into()).as_deref(), Some("a = 'é'"));
    assert_eq!(config_text(vec![0x61, 0xff]), None);
}

fn printed(code: i32, stdout: &[u8]) -> Outcome {
    Outcome::Ran {
        success: code == 0,
        code: Some(code),
        stdout: stdout.to_vec(),
        stderr: Vec::new(),
    }
}

#[test]
fn fontconfig_names_the_family_before_the_colon() {
    assert_eq!(
        fc_match(printed(0, b"DejaVu Sans Mono:style=Book\n")).as_deref(),
        Some("DejaVu Sans Mono")
    );
    assert_eq!(fc_match(printed(0, b"  Menlo \n")).as_deref(), Some("Menlo"));
    assert_eq!(fc_match(printed(0, b"")).as_deref(), Some(""));
    assert_eq!(fc_match(printed(1, b"Menlo")), None);
    assert_eq!(fc_match(printed(0, b"\xff:x")), None);
    assert_eq!(fc_match(Outcome::NotRun(vec!["no such file".into()])), None);
}
