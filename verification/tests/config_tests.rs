use wenfox::config::{detect_format, parse_format, ConfigError, ConfigFormat};

#[test]
fn detect_format_known_extensions() {
    assert_eq!(detect_format("settings.yaml"), Some("yaml"));
    assert_eq!(detect_format("settings.yml"), Some("yaml"));
    assert_eq!(detect_format("settings.json"), Some("json"));
    assert_eq!(detect_format("settings.toml"), Some("toml"));
}

#[test]
fn detect_format_ignores_ascii_case() {
    assert_eq!(detect_format("Settings.YML"), Some("yaml"));
    assert_eq!(detect_format("a.YaMl"), Some("yaml"));
    assert_eq!(detect_format("a.JSON"), Some("json"));
    assert_eq!(detect_format("a.Toml"), Some("toml"));
}

#[test]
fn detect_format_uses_last_extension() {
    assert_eq!(detect_format("backup.yaml.json"), Some("json"));
    assert_eq!(detect_format("archive.json.bak"), None);
    assert_eq!(detect_format("dir.d/config.toml"), Some("toml"));
}

#[test]
fn detect_format_name_without_dot_is_its_own_extension() {
    assert_eq!(detect_format("yaml"), Some("yaml"));
    assert_eq!(detect_format("JSON"), Some("json"));
    assert_eq!(detect_format("settings"), None);
}

#[test]
fn detect_format_unknown_or_empty() {
    assert_eq!(detect_format(""), None);
    assert_eq!(detect_format("."), None);
    assert_eq!(detect_format("config.json."), None);
    assert_eq!(detect_format("config.txt"), None);
    assert_eq!(detect_format("config.jsonx"), None);
    assert_eq!(detect_format("config.ymll"), None);
    assert_eq!(detect_format("配置.json"), Some("json"));
    assert_eq!(detect_format("配置.ｊｓｏｎ"), None);
}

#[test]
fn parse_format_accepts_known_names() {
    assert_eq!(parse_format("yaml").unwrap(), ConfigFormat::Yaml);
    assert_eq!(parse_format("YML").unwrap(), ConfigFormat::Yaml);
    assert_eq!(parse_format("Json").unwrap(), ConfigFormat::Json);
    assert_eq!(parse_format("TOML").unwrap(), ConfigFormat::Toml);
}

#[test]
fn parse_format_rejects_unknown_names() {
    assert!(matches!(parse_format("xml"), Err(ConfigError::UnknownFormat)));
    assert!(matches!(parse_format(""), Err(ConfigError::UnknownFormat)));
    assert!(matches!(parse_format("config.json"), Err(ConfigError::UnknownFormat)));
    assert!(matches!(parse_format(" json"), Err(ConfigError::UnknownFormat)));
}

#[test]
fn detected_format_is_always_accepted() {
    for name in ["a.yml", "b.YAML", "c.json", "d.Toml", "json", "x.y.z.yml"] {
        let detected = detect_format(name).unwrap();
        assert!(parse_format(detected).is_ok());
    }
    assert_eq!(parse_format(detect_format("a.yml").unwrap()).unwrap(), ConfigFormat::Yaml);
    assert_eq!(parse_format(detect_format("a.JSON").unwrap()).unwrap(), ConfigFormat::Json);
}

#[test]
fn parse_failure_messages() {
    match ConfigError::parse_failure(ConfigFormat::Yaml, "bad indent") {
        ConfigError::Parse(m) => assert_eq!(m, "YAML解析错误: bad indent"),
        _ => panic!("expected a parse error"),
    }
    match ConfigError::parse_failure(ConfigFormat::Json, "eof") {
        ConfigError::Parse(m) => assert_eq!(m, "JSON解析错误: eof"),
        _ => panic!("expected a parse error"),
    }
    match ConfigError::parse_failure(ConfigFormat::Toml, "missing key") {
        ConfigError::Parse(m) => assert_eq!(m, "missing key"),
        _ => panic!("expected a parse error"),
    }
}

#[test]
fn detection_ignores_case_of_whole_name() {
    for name in ["Config.YAML", "DATA.Json", "x.TOML", "NOTES.TXT", "YML"] {
        let lower = name.to_ascii_lowercase();
        assert_eq!(detect_format(name), detect_format(&lower));
    }
}
