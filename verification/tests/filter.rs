use repocopy::policy::apply_overrides;
use repocopy::policy::default_exclude_dirs;
use repocopy::policy::default_exclude_files;
use repocopy::policy::should_skip_path;
use repocopy::policy::Config;
use repocopy::policy::MatchMode;

fn mk(parts: &[&str]) -> Vec<String> {
    parts.iter().map(|s| s.to_string()).collect()
}

#[test]
fn cargo_lock_excluded_at_any_depth() {
    let c = Config::default();
    assert!(should_skip_path(&mk(&["Cargo.lock"]), &c));
    assert!(should_skip_path(&mk(&["a", "b", "Cargo.lock"]), &c));
    assert!(should_skip_path(&mk(&["a", "poetry.lock"]), &c));
    assert!(should_skip_path(&mk(&["x", "package-lock.json"]), &c));
    assert!(!should_skip_path(&mk(&["a", "b", "Cargo.toml"]), &c));
}

#[test]
fn nested_node_modules_excluded() {
    let c = Config::default();
    assert!(should_skip_path(&mk(&["a", "node_modules", "b", "c.txt"]), &c));
    assert!(should_skip_path(&mk(&["node_modules", "left-pad", "index.js"]), &c));
    assert!(should_skip_path(&mk(&["deep", "er", "est", ".git", "HEAD"]), &c));
}

#[test]
fn node_modules_backup_not_excluded_exact_mode() {
    let c = Config::default();
    assert!(!should_skip_path(&mk(&["node_modules_backup", "x.txt"]), &c));
    assert!(!should_skip_path(&mk(&["a", "targetoid", "y.txt"]), &c));
}

#[test]
fn substring_mode_catches_containment() {
    let mut c = Config::default();
    c.match_mode = MatchMode::Substring;
    assert!(should_skip_path(&mk(&["node_modules_backup", "x.txt"]), &c));
    assert!(should_skip_path(&mk(&["a", "targetoid", "y.txt"]), &c));
    assert!(!should_skip_path(&mk(&["plain", "file.txt"]), &c));
}

#[test]
fn hidden_file_toggle() {
    let mut c = Config::default();
    assert!(!should_skip_path(&mk(&["src", ".env"]), &c));
    c.skip_hidden = true;
    assert!(should_skip_path(&mk(&["src", ".env"]), &c));
    assert!(!should_skip_path(&mk(&["src", "env"]), &c));
}

#[test]
fn default_lists_contents() {
    let dirs = default_exclude_dirs();
    let files = default_exclude_files();
    assert_eq!(
        dirs,
        mk(&[
            "target",
            ".git",
            "node_modules",
            ".venv",
            "__pycache__",
            ".cache",
            "build",
            "zig-out",
            ".zig-cache"
        ])
    );
    assert_eq!(files, mk(&["Cargo.lock", "poetry.lock", "package-lock.json"]));
    let c = Config::default();
    assert_eq!(c.exclude_dirs, dirs);
    assert_eq!(c.exclude_files, files);
}

#[test]
fn overrides_replace_wholesale() {
    let c = apply_overrides(Config::default(), Some(mk(&["foo"])), None);
    assert_eq!(c.exclude_dirs, mk(&["foo"]));
    assert_eq!(c.exclude_files, mk(&["Cargo.lock", "poetry.lock", "package-lock.json"]));
    // the default-excluded .git is no longer filtered once overridden away
    assert!(!should_skip_path(&mk(&[".git", "f.txt"]), &c));
    assert!(should_skip_path(&mk(&["foo", "f.txt"]), &c));
}

#[test]
fn override_files_replaces_defaults() {
    let c = apply_overrides(Config::default(), None, Some(mk(&["data.bin"])));
    assert_eq!(c.exclude_files, mk(&["data.bin"]));
    assert!(!should_skip_path(&mk(&["a", "Cargo.lock"]), &c));
    assert!(should_skip_path(&mk(&["a", "data.bin"]), &c));
    assert!(should_skip_path(&mk(&["a", "node_modules", "data.txt"]), &c));
}
