use filite::bootstrap::{exit_status, resolve, Boot};
use filite::config::{inflated_limit, parse_config, render_config, Config, ConfigError};

fn bytes(s: &str) -> Vec<u8> {
    s.as_bytes().to_vec()
}

#[test]
fn default_render_is_expected_file() {
    let c = Config::default_config();
    let file = render_config(&c);
    assert_eq!(
        file,
        bytes("url = filite.db\nport = 8080\npool = 4\nmax = 10000000\n")
    );
}

#[test]
fn render_then_parse_round_trips() {
    let c = Config {
        database_url: bytes("/var/lib/data.db"),
        port: 9090,
        pool_size: 16,
        max_filesize: 123456789,
    };
    let file = render_config(&c);
    let parsed = parse_config(&file).expect("rendered file must parse");
    assert_eq!(parsed.database_url, c.database_url);
    assert_eq!(parsed.port, c.port);
    assert_eq!(parsed.pool_size, c.pool_size);
    assert_eq!(parsed.max_filesize, c.max_filesize);
}

#[test]
fn parse_accepts_exact_file() {
    let file = bytes("url = test.db\nport = 8080\npool = 4\nmax = 10000000\n");
    let c = parse_config(&file).expect("valid file must parse");
    assert_eq!(c.database_url, bytes("test.db"));
    assert_eq!(c.port, 8080);
    assert_eq!(c.pool_size, 4);
    assert_eq!(c.max_filesize, 10000000);
}

#[test]
fn parse_rejects_bad_key() {
    let file = bytes("uri = test.db\nport = 8080\npool = 4\nmax = 10000000\n");
    assert_eq!(parse_config(&file).unwrap_err(), ConfigError::BadKey);
}

#[test]
fn parse_rejects_empty_file() {
    assert!(parse_config(&Vec::new()).is_err());
}

#[test]
fn parse_rejects_leading_zero() {
    let file = bytes("url = test.db\nport = 08080\npool = 4\nmax = 10000000\n");
    assert_eq!(parse_config(&file).unwrap_err(), ConfigError::BadNumber);
}

#[test]
fn parse_rejects_port_out_of_range() {
    let file = bytes("url = test.db\nport = 65536\npool = 4\nmax = 10000000\n");
    assert_eq!(parse_config(&file).unwrap_err(), ConfigError::BadNumber);
}

#[test]
fn parse_rejects_zero_pool() {
    let file = bytes("url = test.db\nport = 8080\npool = 0\nmax = 10000000\n");
    assert_eq!(parse_config(&file).unwrap_err(), ConfigError::BadNumber);
}

#[test]
fn parse_rejects_trailing_bytes() {
    let file = bytes("url = test.db\nport = 8080\npool = 4\nmax = 10000000\nx");
    assert!(parse_config(&file).is_err());
}

#[test]
fn parse_rejects_missing_final_newline() {
    let file = bytes("url = test.db\nport = 8080\npool = 4\nmax = 10000000");
    assert_eq!(parse_config(&file).unwrap_err(), ConfigError::BadShape);
}

#[test]
fn inflated_limit_is_exact() {
    assert_eq!(inflated_limit(10000000), 13700000);
    assert_eq!(inflated_limit(100), 137);
    assert_eq!(inflated_limit(0), 0);
    assert_eq!(inflated_limit(1), 1);
    assert_eq!(inflated_limit(u64::MAX), u64::MAX);
}

#[test]
fn first_run_writes_defaults_and_exits_zero() {
    let boot = resolve(false, false, None);
    match &boot {
        Boot::FirstRun { config_file } => {
            let written = parse_config(config_file).expect("written defaults must parse");
            let d = Config::default_config();
            assert_eq!(written.database_url, d.database_url);
            assert_eq!(written.port, d.port);
            assert_eq!(written.pool_size, d.pool_size);
            assert_eq!(written.max_filesize, d.max_filesize);
        }
        _ => panic!("first run must bootstrap"),
    }
    assert_eq!(exit_status(&boot), Some(0));
}

#[test]
fn subsequent_run_loads_config_and_serves() {
    let c = Config {
        database_url: bytes("prod.db"),
        port: 3000,
        pool_size: 8,
        max_filesize: 5000,
    };
    let file = render_config(&c);
    let boot = resolve(false, true, Some(file));
    match &boot {
        Boot::Ready { config } => {
            assert_eq!(config.port, 3000);
            assert_eq!(config.pool_size, 8);
            assert_eq!(config.max_filesize, 5000);
            assert_eq!(config.database_url, bytes("prod.db"));
        }
        _ => panic!("valid config must start the server"),
    }
    assert_eq!(exit_status(&boot), None);
}

#[test]
fn unreadable_file_is_fatal() {
    let boot = resolve(false, true, None);
    assert!(matches!(boot, Boot::Fatal));
    assert_eq!(exit_status(&boot), Some(1));
}

#[test]
fn unparsable_file_is_fatal() {
    let boot = resolve(false, true, Some(bytes("garbage")));
    assert!(matches!(boot, Boot::Fatal));
    assert_eq!(exit_status(&boot), Some(1));
}

#[test]
fn debug_mode_never_touches_disk() {
    let boot = resolve(true, false, None);
    match &boot {
        Boot::Ready { config } => {
            assert_eq!(config.database_url, bytes("test.db"));
            assert_eq!(config.port, 8080);
        }
        _ => panic!("debug mode must resolve to a ready configuration"),
    }
}
