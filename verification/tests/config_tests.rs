use ua_mask::config::{parse_comma_list, Args, Config};

fn args() -> Args {
    Args {
        user_agent: "FFF".to_string(),
        port: 12032,
        loglevel: "info".to_string(),
        version: false,
        log: String::new(),
        whitelist: String::new(),
        force: false,
        enable_regex: false,
        keywords: "iPhone,iPad,Android,Macintosh,Windows".to_string(),
        pattern: "(iPhone|iPad|Android|Macintosh|Windows|Linux|Apple|Mac OS X|Mobile)".to_string(),
        partial_replace: false,
        cache_size: 1000,
        buffer_size: 8192,
        pool_size: 0,
    }
}

#[test]
fn test_parse_comma_list() {
    assert_eq!(parse_comma_list(""), Vec::<String>::new());
    assert_eq!(
        parse_comma_list("a,b,c"),
        vec!["a".to_string(), "b".to_string(), "c".to_string()]
    );
    assert_eq!(
        parse_comma_list("a, b , c"),
        vec!["a".to_string(), "b".to_string(), "c".to_string()]
    );
}

#[test]
fn parse_comma_list_drops_empty_and_blank_pieces() {
    assert_eq!(parse_comma_list(",, ,x,\t,"), vec!["x".to_string()]);
    assert_eq!(parse_comma_list(" \u{3000}a b\u{a0} "), vec!["a b".to_string()]);
    assert_eq!(parse_comma_list(","), Vec::<String>::new());
}

#[test]
fn test_validate_port() {
    let cfg = Config {
        port: 0,
        buffer_size: 8192,
        cache_size: 1000,
        ..Default::default()
    };
    assert!(cfg.validate().is_err());

    let cfg = Config {
        port: 8080,
        buffer_size: 8192,
        cache_size: 1000,
        ..Default::default()
    };
    assert!(cfg.validate().is_ok());
}

#[test]
fn test_validate_buffer_size() {
    let cfg = Config {
        port: 8080,
        buffer_size: 512,
        cache_size: 1000,
        ..Default::default()
    };
    assert!(cfg.validate().is_err());

    let cfg = Config {
        port: 8080,
        buffer_size: 100000,
        cache_size: 1000,
        ..Default::default()
    };
    assert!(cfg.validate().is_err());

    let cfg = Config {
        port: 8080,
        buffer_size: 8192,
        cache_size: 1000,
        ..Default::default()
    };
    assert!(cfg.validate().is_ok());
}

#[test]
fn test_validate_cache_size() {
    let cfg = Config {
        port: 8080,
        buffer_size: 8192,
        cache_size: -1,
        ..Default::default()
    };
    assert!(cfg.validate().is_err());

    let cfg = Config {
        port: 8080,
        buffer_size: 8192,
        cache_size: 0,
        ..Default::default()
    };
    assert!(cfg.validate().is_ok());
}

#[test]
fn validate_error_messages() {
    let cfg = Config { port: 0, ..Default::default() };
    assert_eq!(cfg.validate().unwrap_err(), "invalid port: 0");
    let cfg = Config { buffer_size: 1023, ..Default::default() };
    assert_eq!(cfg.validate().unwrap_err(), "invalid buffer size: 1023");
    let cfg = Config { buffer_size: 65537, ..Default::default() };
    assert_eq!(cfg.validate().unwrap_err(), "invalid buffer size: 65537");
    let cfg = Config { cache_size: -42, ..Default::default() };
    assert_eq!(cfg.validate().unwrap_err(), "invalid cache size: -42");
    let cfg = Config { buffer_size: 1024, ..Default::default() };
    assert!(cfg.validate().is_ok());
    let cfg = Config { buffer_size: 65536, ..Default::default() };
    assert!(cfg.validate().is_ok());
}

#[test]
fn from_args_keyword_mode() {
    let mut a = args();
    a.whitelist = "Bot/1.0, curl ".to_string();
    let cfg = Config::from_args(a).unwrap();
    assert_eq!(cfg.whitelist, vec!["Bot/1.0".to_string(), "curl".to_string()]);
    assert_eq!(
        cfg.keywords_list,
        vec!["iPhone", "iPad", "Android", "Macintosh", "Windows"]
            .into_iter()
            .map(String::from)
            .collect::<Vec<_>>()
    );
    assert!(cfg.ua_regexp.is_none());
    assert_eq!(cfg.ua_pattern, "");
    assert_eq!(cfg.port, 12032);
    assert_eq!(cfg.user_agent, "FFF");
}

#[test]
fn from_args_force_mode_has_no_keywords() {
    let mut a = args();
    a.force = true;
    let cfg = Config::from_args(a).unwrap();
    assert!(cfg.keywords_list.is_empty());
    assert!(cfg.force_replace);
}

#[test]
fn from_args_regex_mode() {
    let mut a = args();
    a.enable_regex = true;
    a.pattern = "(iPhone|Android)".to_string();
    let cfg = Config::from_args(a).unwrap();
    assert_eq!(cfg.ua_pattern, "(?i)(iPhone|Android)");
    assert_eq!(cfg.ua_regexp.as_ref().unwrap().pattern(), "(?i)(iPhone|Android)");
    assert!(cfg.keywords_list.is_empty());
}

#[test]
fn from_args_rejects_bad_pattern() {
    let mut a = args();
    a.enable_regex = true;
    a.pattern = "(unclosed".to_string();
    let err = Config::from_args(a).err().unwrap();
    assert!(err.starts_with("invalid User-Agent Regex Pattern: "));
    assert!(err.len() > "invalid User-Agent Regex Pattern: ".len());
}

#[test]
fn from_args_rejects_bad_port_first() {
    let mut a = args();
    a.port = 0;
    a.enable_regex = true;
    a.pattern = "(unclosed".to_string();
    assert_eq!(Config::from_args(a).err().unwrap(), "invalid port: 0");
}

#[test]
fn default_config() {
    let cfg = Config::default();
    assert_eq!(cfg.user_agent, "FFF");
    assert_eq!(cfg.port, 12032);
    assert_eq!(cfg.log_level, "info");
    assert_eq!(cfg.cache_size, 1000);
    assert_eq!(cfg.buffer_size, 8192);
    assert_eq!(cfg.pool_size, 0);
}
