use seaf_loop::migrated_artifacts::{bytes_less, check_changed_artifacts, migrated_artifact_changes};
use seaf_loop::migration::RunTreeEntry;

const RESULT: &str = "migration-v0-v1.result.json";
const OWNER: &str = ".migration-v0-v1.owner.json";

fn file(byte: u8) -> RunTreeEntry {
    RunTreeEntry::File { len: 1, digest: vec![byte; 32] }
}

fn tree(entries: Vec<(&str, RunTreeEntry)>) -> Vec<(Vec<u8>, RunTreeEntry)> {
    let mut tree: Vec<(Vec<u8>, RunTreeEntry)> =
        entries.into_iter().map(|(path, entry)| (path.as_bytes().to_vec(), entry)).collect();
    tree.sort_by(|left, right| left.0.cmp(&right.0));
    tree
}

fn paths(changed: Vec<Vec<u8>>) -> Vec<String> {
    changed.into_iter().map(|path| String::from_utf8(path).unwrap()).collect()
}

fn strings(items: &[&str]) -> Vec<String> {
    items.iter().map(|item| item.to_string()).collect()
}

#[test]
fn byte_order_puts_prefixes_first() {
    assert!(bytes_less(&b"a".to_vec(), &b"ab".to_vec()));
    assert!(bytes_less(&b"ab".to_vec(), &b"b".to_vec()));
    assert!(!bytes_less(&b"b".to_vec(), &b"ab".to_vec()));
    assert!(!bytes_less(&b"ab".to_vec(), &b"ab".to_vec()));
}

#[test]
fn rewritten_regular_files_are_the_changes() {
    let original = tree(vec![("a.json", file(1)), ("artifacts", RunTreeEntry::Directory), ("b.json", file(2))]);
    let migrated = tree(vec![
        ("a.json", file(9)),
        ("artifacts", RunTreeEntry::Directory),
        ("b.json", file(2)),
        (RESULT, file(3)),
        (OWNER, file(4)),
    ]);
    let (changed, kind_changed) = migrated_artifact_changes(&original, &migrated).unwrap();
    assert_eq!(paths(changed), strings(&["a.json"]));
    assert!(!kind_changed);
}

#[test]
fn changes_stop_at_the_first_change_of_kind() {
    let original = tree(vec![("a.json", file(1)), ("c.json", file(2))]);
    let migrated = tree(vec![
        ("a.json", file(8)),
        ("b", RunTreeEntry::Directory),
        ("c.json", file(9)),
        (RESULT, file(3)),
    ]);
    let (changed, kind_changed) = migrated_artifact_changes(&original, &migrated).unwrap();
    assert_eq!(paths(changed), strings(&["a.json"]));
    assert!(kind_changed);
    let removed = tree(vec![(RESULT, file(3)), ("c.json", file(9))]);
    let (changed, kind_changed) = migrated_artifact_changes(&original, &removed).unwrap();
    assert!(changed.is_empty());
    assert!(kind_changed);
}

#[test]
fn result_file_must_be_the_only_new_regular_file() {
    let original = tree(vec![("a.json", file(1))]);
    let message = "migration result path must be the only new regular file in the migrated tree";
    let missing = tree(vec![("a.json", file(1))]);
    assert_eq!(migrated_artifact_changes(&original, &missing).unwrap_err().message, message);
    let directory = tree(vec![("a.json", file(1)), (RESULT, RunTreeEntry::Directory)]);
    assert_eq!(migrated_artifact_changes(&original, &directory).unwrap_err().message, message);
    let preexisting = tree(vec![("a.json", file(1)), (RESULT, file(2))]);
    let migrated = tree(vec![("a.json", file(1)), (RESULT, file(2))]);
    assert_eq!(migrated_artifact_changes(&preexisting, &migrated).unwrap_err().message, message);
    let marked = tree(vec![("a.json", file(1)), (OWNER, file(5))]);
    assert_eq!(
        migrated_artifact_changes(&marked, &migrated).unwrap_err().message,
        "original migration authority contains the reserved staged ownership marker"
    );
}

#[test]
fn reported_list_must_be_the_changed_set() {
    assert!(check_changed_artifacts(false, &strings(&["a", "b"]), &strings(&["a", "b"])).is_ok());
    assert_eq!(
        check_changed_artifacts(false, &strings(&["x"]), &strings(&["a", "b"])).unwrap_err().message,
        "migration result artifact list does not match the deterministic changed set: reported=[\"x\"], actual=[\"a\", \"b\"]"
    );
    assert_eq!(
        check_changed_artifacts(true, &strings(&["a"]), &strings(&["a"])).unwrap_err().message,
        "migration changed the source/backup artifact set or an entry type"
    );
}
