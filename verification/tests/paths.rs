use niri_dynamic_workspaces::loading::absolutize;
use niri_dynamic_workspaces::theme::{expand_tilde, expand_tilde_with};

#[test]
fn absolutize_relative_uses_caller_cwd() {
    assert_eq!(absolutize("cfg.toml", Some("/home/u")), "/home/u/cfg.toml");
}

#[test]
fn absolutize_keeps_absolute() {
    assert_eq!(absolutize("/etc/cfg.toml", Some("/home/u")), "/etc/cfg.toml");
}

#[test]
fn absolutize_without_cwd_is_unchanged() {
    assert_eq!(absolutize("cfg.toml", None), "cfg.toml");
}

#[test]
fn absolutize_adds_no_second_separator() {
    assert_eq!(absolutize("a/b.toml", Some("/")), "/a/b.toml");
    assert_eq!(absolutize("b.toml", Some("/home/u/")), "/home/u/b.toml");
    assert_eq!(absolutize("b.toml", Some("")), "b.toml");
}

#[test]
fn config_expand_tilde_with_home() {
    let result = expand_tilde("~/dev");
    assert!(!result.starts_with('~'));
    assert!(result.ends_with("/dev"));
}

#[test]
fn config_expand_tilde_no_tilde() {
    assert_eq!(expand_tilde("/tmp/foo"), "/tmp/foo");
}

#[test]
fn config_expand_tilde_only_tilde_slash() {
    let result = expand_tilde("~/");
    assert!(!result.starts_with('~'));
}

#[test]
fn ui_expand_tilde_with_home() {
    let result = expand_tilde("~/dev");
    assert!(!result.starts_with('~'));
    assert!(result.ends_with("/dev"));
}

#[test]
fn ui_expand_tilde_no_tilde() {
    assert_eq!(expand_tilde("/tmp/foo"), "/tmp/foo");
}

#[test]
fn ui_expand_tilde_only_tilde_slash() {
    let result = expand_tilde("~/");
    assert!(!result.starts_with('~'));
}

#[test]
fn expand_tilde_with_uses_the_given_home() {
    assert_eq!(expand_tilde_with("~/dev", Some("/home/u")), "/home/u/dev");
    assert_eq!(expand_tilde_with("~/dev", None), "~/dev");
    assert_eq!(expand_tilde_with("~dev", Some("/home/u")), "~dev");
}
