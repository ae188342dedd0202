use seaf_loop::patch::{parse_unified_diff, PatchParseError};
use seaf_loop::policy::{default_exclude_patterns, matching_pattern, normalize_repo_path};

#[test]
fn git_diff_names_its_files_once_each() {
    let patch = "diff --git a/src/lib.rs b/src/lib.rs\n--- a/src/lib.rs\n+++ b/src/lib.rs\n@@ -1 +1 @@\n-a\n+b\n";
    let parsed = parse_unified_diff(patch).unwrap();
    assert_eq!(parsed.changed_paths, vec!["src/lib.rs".to_string()]);
    assert_eq!(parsed.files.len(), 1);
    assert_eq!(parsed.files[0].old_path.as_deref(), Some("src/lib.rs"));
    assert_eq!(parsed.files[0].new_path.as_deref(), Some("src/lib.rs"));
    assert!(!parsed.contains_binary_patch);
}

#[test]
fn new_files_and_renames_collect_every_path() {
    let patch = "diff --git a/old.txt b/new.txt\n--- a/old.txt\n+++ b/new.txt\ndiff --git a/added.bin b/added.bin\n--- /dev/null\n+++ b/added.bin\nGIT binary patch\n";
    let parsed = parse_unified_diff(patch).unwrap();
    assert_eq!(
        parsed.changed_paths,
        vec!["old.txt".to_string(), "new.txt".to_string(), "added.bin".to_string()]
    );
    assert_eq!(parsed.files[1].old_path, None);
    assert!(parsed.files[1].contains_binary_patch);
    assert!(parsed.contains_binary_patch);
}

#[test]
fn unsafe_and_empty_patches_are_refused() {
    assert_eq!(parse_unified_diff(""), Err(PatchParseError::EmptyPatch));
    assert_eq!(parse_unified_diff("just text\n"), Err(PatchParseError::EmptyPatch));
    assert_eq!(
        parse_unified_diff("diff --git a/../etc/passwd b/../etc/passwd\n"),
        Err(PatchParseError::UnsafePath("../etc/passwd".to_string()))
    );
    assert!(matches!(
        parse_unified_diff("diff --git onlyone\n"),
        Err(PatchParseError::MalformedGitHeader(_))
    ));
    assert!(matches!(
        parse_unified_diff("--- \n"),
        Err(PatchParseError::MissingPath(_))
    ));
}

#[test]
fn repository_paths_are_normalized_or_refused() {
    assert_eq!(normalize_repo_path("./src//lib.rs"), Some("src/lib.rs".to_string()));
    assert_eq!(normalize_repo_path("src/./a/"), Some("src/a".to_string()));
    assert_eq!(normalize_repo_path("../x"), None);
    assert_eq!(normalize_repo_path("/etc/passwd"), None);
    assert_eq!(normalize_repo_path("a\\b"), None);
    assert_eq!(normalize_repo_path("   "), None);
    assert_eq!(normalize_repo_path("."), None);
}

#[test]
fn default_patterns_exclude_secrets_and_build_output() {
    let patterns = default_exclude_patterns();
    assert_eq!(patterns.len(), 11);
    assert_eq!(matching_pattern(".env.local", &patterns), Some(".env*"));
    assert_eq!(matching_pattern("config/secrets/api.txt", &patterns), Some("secrets/**"));
    assert_eq!(matching_pattern("certs/server.pem", &patterns), Some("*.pem"));
    assert_eq!(matching_pattern("target/debug/app", &patterns), Some("target/**"));
    assert_eq!(matching_pattern("src/main.rs", &patterns), None);
}

#[test]
fn unsupported_wildcards_exclude_conservatively() {
    let patterns = vec!["src/*/mod.rs".to_string()];
    assert_eq!(matching_pattern("anything", &patterns), Some("src/*/mod.rs"));
    let exact = vec!["docs/README.md".to_string()];
    assert_eq!(matching_pattern("docs/README.md", &exact), Some("docs/README.md"));
    assert_eq!(matching_pattern("docs/other.md", &exact), None);
}

#[test]
fn changed_paths_list_each_named_path_once() {
    let patch = "diff --git a/src/a.rs b/src/b.rs\n--- a/src/a.rs\n+++ b/src/b.rs\n@@ -1 +1 @@\n-x\n+y\ndiff --git a/src/b.rs b/src/b.rs\n--- a/src/b.rs\n+++ b/src/b.rs\n";
    let parsed = parse_unified_diff(patch).unwrap();
    assert_eq!(parsed.changed_paths, vec!["src/a.rs".to_string(), "src/b.rs".to_string()]);
    assert_eq!(parsed.files.len(), 2);
    for file in &parsed.files {
        for path in &file.paths {
            assert!(parsed.changed_paths.contains(path));
        }
    }
}
