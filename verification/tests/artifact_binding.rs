use seaf_loop::immutable_artifact::{validate_relative_path, ImmutableArtifactError};
use seaf_loop::migration::{
    check_source_run_digest, check_source_tree_digest, digest_run_tree_inventory,
    validate_projected_staged_inventory, RunTreeEntry,
};

fn inventory() -> Vec<(Vec<u8>, RunTreeEntry)> {
    vec![
        (b"artifacts".to_vec(), RunTreeEntry::Directory),
        (b"run.json".to_vec(), RunTreeEntry::File { len: 2, digest: vec![7; 32] }),
    ]
}

#[test]
fn relative_paths_must_be_plain_names() {
    for safe in ["run.json", "artifacts/07-testing.json", "a//b", "a/./b", "a/", ".hidden/x"] {
        assert!(validate_relative_path(safe).is_ok(), "{safe}");
    }
    for unsafe_path in ["", "/etc/passwd", ".", "./run.json", "..", "a/../b", "a/.."] {
        let error = validate_relative_path(unsafe_path).unwrap_err();
        assert_eq!(
            error,
            ImmutableArtifactError::Safety("artifact reference is not a safe relative path".to_string()),
            "{unsafe_path}"
        );
    }
}

#[test]
fn immutable_artifact_errors_display_their_kind() {
    assert_eq!(
        ImmutableArtifactError::Safety("x".to_string()).to_string(),
        "immutable artifact safety error: x"
    );
    assert_eq!(ImmutableArtifactError::Collision("y".to_string()).to_string(), "immutable artifact collision: y");
    assert_eq!(ImmutableArtifactError::Io("z".to_string()).to_string(), "immutable artifact I/O error: z");
}

#[test]
fn staged_tree_must_match_the_projected_digest() {
    let tree = inventory();
    let digest = digest_run_tree_inventory(&tree);
    assert!(validate_projected_staged_inventory(&tree, &digest).is_ok());
    let error = validate_projected_staged_inventory(&tree, "00").unwrap_err();
    assert_eq!(
        error.message,
        format!(
            "actual staged migration inventory does not match the intent-bound projection: expected 00, got {digest}"
        )
    );
}

#[test]
fn source_binding_checks_run_and_tree_digests() {
    let abc = "ba7816bf8f01cfea414140de5dae2223b00361a396177a9cb410ff61f20015ad";
    assert!(check_source_run_digest("completed migration", abc, b"abc").is_ok());
    assert_eq!(
        check_source_run_digest("completed migration", "ff", b"abc").unwrap_err().message,
        format!("completed migration source run digest mismatch: expected ff, got {abc}")
    );
    let tree = inventory();
    let digest = digest_run_tree_inventory(&tree);
    assert!(check_source_tree_digest("recovery", &digest, &tree).is_ok());
    assert_eq!(
        check_source_tree_digest("recovery", "ee", &tree).unwrap_err().message,
        format!("recovery source tree digest mismatch: expected ee, got {digest}")
    );
}
