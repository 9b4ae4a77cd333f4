use vulngrep::config::{clock_parts, AppConfig, File, Notification, Repository};

fn config_with(interval: Option<&str>) -> AppConfig {
    AppConfig::new(interval.map(|s| s.to_string()), "token".to_string(), vec![])
}

#[test]
fn parse_interval_minutes_and_hours() {
    let c = config_with(None);
    assert_eq!(c.parse_interval("30m"), Ok(1800));
    assert_eq!(c.parse_interval("2h"), Ok(7200));
    assert_eq!(c.parse_interval("0m"), Ok(0));
    assert_eq!(c.parse_interval("+5m"), Ok(300));
}

#[test]
fn parse_interval_invalid_unit() {
    let c = config_with(None);
    assert_eq!(
        c.parse_interval("5x"),
        Err("Invalid time unit: x. Use 'h' for hours or 'm' for minutes.".to_string())
    );
}

#[test]
fn parse_interval_invalid_number() {
    let c = config_with(None);
    assert_eq!(
        c.parse_interval("abm"),
        Err("Invalid numeric value in interval: ab".to_string())
    );
    assert_eq!(
        c.parse_interval("m"),
        Err("Invalid numeric value in interval: ".to_string())
    );
    assert_eq!(
        c.parse_interval("-5m"),
        Err("Invalid numeric value in interval: -5".to_string())
    );
    assert_eq!(
        c.parse_interval(""),
        Err("Invalid numeric value in interval: ".to_string())
    );
}

#[test]
fn parse_interval_overflow_is_invalid_number() {
    let c = config_with(None);
    assert_eq!(
        c.parse_interval("18446744073709551616m"),
        Err("Invalid numeric value in interval: 18446744073709551616".to_string())
    );
    assert_eq!(
        c.parse_interval("18446744073709551615h"),
        Err("Invalid numeric value in interval: 18446744073709551615".to_string())
    );
    assert_eq!(
        c.parse_interval("18446744073709551615"),
        Err("Invalid time unit: 5. Use 'h' for hours or 'm' for minutes.".to_string())
    );
}

#[test]
fn interval_defaults() {
    assert_eq!(config_with(None).interval(), None);
    assert_eq!(config_with(Some("10m")).interval(), Some(600));
    assert_eq!(config_with(Some("10s")).interval(), Some(60));
    assert_eq!(config_with(Some("")).interval(), Some(60));
}

#[test]
fn default_config() {
    let c = AppConfig::default();
    assert_eq!(c.interval(), None);
    assert_eq!(c.token(), "GITHUB_TOKEN");
    assert!(c.notifications().is_empty());
    assert!(c.interval_setting().is_none());
}

#[test]
fn notification_getters() {
    let n = Notification::new(
        Repository { name: "repo".to_string(), owner: "me".to_string() },
        vec![File { path: "auth".to_string(), pattern: None }],
        Some(vec!["CVE-".to_string()]),
    );
    let r = n.repository();
    assert_eq!(r.name, "repo");
    assert_eq!(r.owner, "me");
    assert_eq!(n.files().len(), 1);
    assert_eq!(n.files()[0].path, "auth");
    assert_eq!(n.patterns(), Some(vec!["CVE-".to_string()]));
    let c = AppConfig::new(Some("1h".to_string()), "tok".to_string(), vec![n]);
    assert_eq!(c.token(), "tok");
    assert_eq!(c.notifications().len(), 1);
    assert_eq!(c.interval_setting(), &Some("1h".to_string()));
}

#[test]
fn clock_parts_split_seconds() {
    assert_eq!(clock_parts(0), (0, 0, 0));
    assert_eq!(clock_parts(3661), (1, 1, 1));
    assert_eq!(clock_parts(7199), (1, 59, 59));
}
