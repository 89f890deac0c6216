use uwgit::config::{config_from_toml, config_from_vars, parse_port, ConfigError};

#[test]
fn ports_parse_as_std_does() {
    let samples = ["0", "80", "3000", "65535", "65536", "+8080", "-1", "", "+", "08080", " 80", "80 ", "8o", "99999999999999999999", "00000000000000000000001"];
    for s in samples {
        assert_eq!(parse_port(s), s.parse::<u16>().ok(), "port {:?}", s);
    }
    for p in 0..=u16::MAX {
        assert_eq!(parse_port(&p.to_string()), Some(p));
    }
}

fn some(s: &str) -> Option<String> {
    Some(s.to_string())
}

#[test]
fn settings_from_variables() {
    let c = config_from_vars(some("/srv/git"), some("git.example.dev"), some("Me"), some("0.0.0.0"), some("3000")).unwrap();
    assert_eq!(c.repos_path, "/srv/git");
    assert_eq!(c.site_title, "git.example.dev");
    assert_eq!(c.owner, "Me");
    assert_eq!(c.host, "0.0.0.0");
    assert_eq!(c.port, 3000);
    let e = config_from_vars(None, None, some("Me"), None, some("x")).unwrap_err();
    assert!(matches!(e, ConfigError::Missing("REPOS_PATH")));
    assert_eq!(e.message(), "missing required env var: REPOS_PATH");
    let e = config_from_vars(some("/r"), some("t"), some("o"), None, None).unwrap_err();
    assert!(matches!(e, ConfigError::Missing("HOST")));
    let e = config_from_vars(some("/r"), some("t"), some("o"), some("h"), some("70000")).unwrap_err();
    assert!(matches!(e, ConfigError::BadPort));
    assert_eq!(e.message(), "failed to parse PORT as an integer");
}

#[test]
fn settings_file_from_the_readme() {
    let text = "repos_path = \"/path/to/repos\"\nsite_title = \"git.example.dev\"\nowner = \"Your Name\"\nhost = \"0.0.0.0\"\nport = 3000\n";
    let c = config_from_toml(text).unwrap();
    assert_eq!(c.repos_path, "/path/to/repos");
    assert_eq!(c.site_title, "git.example.dev");
    assert_eq!(c.owner, "Your Name");
    assert_eq!(c.host, "0.0.0.0");
    assert_eq!(c.port, 3000);
}

#[test]
fn settings_file_layout_and_errors() {
    let text = "# uwgit\r\n\n  port=8080  \r\nhost = \"::\"\nowner=\"o\"\nsite_title = \"a = b\"\nrepos_path = \"/r\"\nextra = whatever\n";
    let c = config_from_toml(text).unwrap();
    assert_eq!((c.port, c.host.as_str(), c.site_title.as_str()), (8080, "::", "a = b"));
    assert!(matches!(config_from_toml("port = 1\nnot a setting\n"), Err(ConfigError::BadLine(2))));
    assert!(matches!(config_from_toml("= 1\n"), Err(ConfigError::BadLine(1))));
    assert!(matches!(config_from_toml("a b = 1"), Err(ConfigError::BadLine(1))));
    assert!(matches!(config_from_toml("key =\n"), Err(ConfigError::BadLine(1))));
    match config_from_toml("owner = \"a\"\nport = 1\nowner = \"b\"\n") {
        Err(ConfigError::DuplicateKey(k)) => assert_eq!(k, "owner"),
        _ => panic!("a key set twice is an error"),
    }
    assert!(matches!(config_from_toml(""), Err(ConfigError::MissingKey("repos_path"))));
    assert!(matches!(config_from_toml("repos_path = 1"), Err(ConfigError::WrongType("repos_path"))));
    let no_port = "repos_path = \"/r\"\nsite_title = \"t\"\nowner = \"o\"\nhost = \"h\"\n";
    assert!(matches!(config_from_toml(no_port), Err(ConfigError::MissingKey("port"))));
    let quoted_port = format!("{}port = \"3000\"\n", no_port);
    assert!(matches!(config_from_toml(&quoted_port), Err(ConfigError::WrongType("port"))));
    let big_port = format!("{}port = 70000\n", no_port);
    let e = config_from_toml(&big_port).unwrap_err();
    assert_eq!(e.message(), "config.toml: wrong type for port");
    assert_eq!(ConfigError::BadLine(7).message(), "config.toml: invalid line 7");
    let escaped = "repos_path = \"a\\\"b\"\n";
    assert!(matches!(config_from_toml(escaped), Err(ConfigError::WrongType("repos_path"))));
}
