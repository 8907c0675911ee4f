use dek::expand::expand_vars;
use dek::service::parse_service_config;
use dek::util::{
    go_bin_name, go_bin_from_path, go_parse_spec, parse_fetch_value,
    format_bytes, format_duration, is_tar_gz, parse_duration, parse_spec, DurationError, FetchTarget, Shell,
    SysPkgManager,
};

#[test]
fn package_specs() {
    assert_eq!(parse_spec("ripgrep:rg"), ("ripgrep".to_string(), "rg".to_string()));
    assert_eq!(parse_spec("curl"), ("curl".to_string(), "curl".to_string()));
    assert_eq!(parse_spec("a:b:c"), ("a".to_string(), "b:c".to_string()));
}

#[test]
fn durations() {
    assert!(matches!(parse_duration("1h30m"), Ok(5400)));
    assert!(matches!(parse_duration("2d"), Ok(172800)));
    assert!(matches!(parse_duration("90"), Ok(90)));
    assert!(matches!(parse_duration("1m30"), Ok(90)));
    assert!(matches!(parse_duration(""), Ok(0)));
    assert!(matches!(parse_duration("h"), Err(DurationError::MissingNumber)));
    assert!(matches!(parse_duration("5x"), Err(DurationError::UnknownUnit('x'))));
    assert!(matches!(parse_duration("99999999999999999999s"), Err(DurationError::TooLarge)));
    assert!(matches!(parse_duration("18446744073709551615s1s"), Err(DurationError::TooLarge)));
}

#[test]
fn formatting() {
    assert_eq!(format_duration(125_000), "2m5s");
    assert_eq!(format_duration(7_400), "7s");
    assert_eq!(format_duration(250), "250ms");
    assert_eq!(format_bytes(512), "512B");
    assert_eq!(format_bytes(2048), "2K");
    assert_eq!(format_bytes(1_572_864), "1.5M");
    assert_eq!(format_bytes(10 * 1_048_576 + 100_000), format!("{:.1}M", (10 * 1_048_576 + 100_000) as f64 / 1_048_576.0));
}

#[test]
fn archives() {
    assert!(is_tar_gz("conf.tar.gz"));
    assert!(is_tar_gz("conf.tgz"));
    assert!(!is_tar_gz("conf.tar"));
    assert!(!is_tar_gz("gz"));
}

#[test]
fn shells() {
    assert_eq!(Shell::detect(Some("/usr/bin/zsh")), Shell::Zsh);
    assert_eq!(Shell::detect(Some("/usr/local/bin/fish")), Shell::Fish);
    assert_eq!(Shell::detect(Some("/bin/sh")), Shell::Bash);
    assert_eq!(Shell::detect(None), Shell::Bash);
    assert_eq!(Shell::Fish.rc_file(), "~/.config/fish/config.fish");
    assert_eq!(Shell::Zsh.name(), "zsh");
}

#[test]
fn package_manager_preference() {
    assert_eq!(SysPkgManager::pick(true, true, true), Some(SysPkgManager::Pacman));
    assert_eq!(SysPkgManager::pick(false, true, true), Some(SysPkgManager::Apt));
    assert_eq!(SysPkgManager::pick(false, false, true), Some(SysPkgManager::Brew));
    assert_eq!(SysPkgManager::pick(false, false, false), None);
}

#[test]
fn fetch_targets() {
    let t = FetchTarget::WithOptions { path: "/tmp/x".to_string(), ttl: Some("1h".to_string()) };
    assert_eq!((t.path(), t.ttl()), ("/tmp/x", Some("1h")));
    let p = FetchTarget::Path("/tmp/y".to_string());
    assert_eq!((p.path(), p.ttl()), ("/tmp/y", None));
}

#[test]
fn service_settings() {
    let d = parse_service_config(None);
    assert_eq!((d.state.as_str(), d.enabled, d.scope.as_str()), ("active", false, "system"));
    let c = parse_service_config(Some("state=inactive, enabled = true ,scope=user,bogus,color=red"));
    assert_eq!((c.state.as_str(), c.enabled, c.scope.as_str()), ("inactive", true, "user"));
    assert!(c.is_user());
    let later = parse_service_config(Some("enabled=true,enabled=yes"));
    assert!(!later.enabled);
    assert!(!later.is_user());
}

fn env() -> Vec<(String, String)> {
    vec![("HOME".to_string(), "/home/u".to_string()), ("X_1".to_string(), "one".to_string())]
}

#[test]
fn variable_expansion() {
    assert_eq!(expand_vars("$HOME/bin", &env()), "/home/u/bin");
    assert_eq!(expand_vars("${HOME}x", &env()), "/home/ux");
    assert_eq!(expand_vars("$X_1-$X_1", &env()), "one-one");
    assert_eq!(expand_vars("$NOPE and ${NOPE}", &env()), "$NOPE and ${NOPE}");
    assert_eq!(expand_vars("$(date) $$ $1 $", &env()), "$(date) $$ $1 $");
    assert_eq!(expand_vars("${HOME", &env()), "/home/u");
    assert_eq!(expand_vars("${NOPE", &env()), "${NOPE}");
    assert_eq!(expand_vars("plain", &Vec::new()), "plain");
}

#[test]
fn go_package_specs() {
    assert_eq!(go_bin_from_path("golang.org/x/tools/gopls@latest"), "gopls");
    assert_eq!(go_bin_from_path("github.com/a/b"), "b");
    assert_eq!(go_bin_from_path("tool"), "tool");
    assert_eq!(go_bin_name("github.com/x/y@v1:yy"), "yy");
    assert_eq!(go_bin_name("github.com/x/y@v1.2/z"), "y");
    assert_eq!(go_parse_spec("github.com/x/y@v1"), ("github.com/x/y@v1".to_string(), "y".to_string()));
    assert_eq!(go_parse_spec("m:b"), ("m".to_string(), "b".to_string()));
}

#[test]
fn fetch_values() {
    assert_eq!(parse_fetch_value(Some("/tmp/f\u{0}1h")), ("/tmp/f".to_string(), Some(3600)));
    assert_eq!(parse_fetch_value(Some("/tmp/f\u{0}")), ("/tmp/f".to_string(), None));
    assert_eq!(parse_fetch_value(Some("/tmp/f\u{0}soon")), ("/tmp/f".to_string(), None));
    assert_eq!(parse_fetch_value(Some("/tmp/f")), ("/tmp/f".to_string(), None));
    assert_eq!(parse_fetch_value(None), ("".to_string(), None));
}

#[test]
fn service_values_trim_unicode_space() {
    let c = parse_service_config(Some("state=\u{3000}inactive\u{a0},scope=\tuser\n"));
    assert_eq!((c.state.as_str(), c.scope.as_str()), ("inactive", "user"));
}
