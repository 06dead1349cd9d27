use oxen::commit::Commit;
use oxen::commit_reader::CommitReader;
use oxen::error::OxenError;

fn commit(id: &str, parent: Option<&str>, message: &str) -> Commit {
    Commit {
        id: id.to_string(),
        parent_id: parent.map(|p| p.to_string()),
        message: message.to_string(),
        author: String::from("ox"),
        timestamp: 1_650_000_000,
    }
}

const INITIAL_COMMIT_MSG: &str = "Initialized Repo";

#[test]
fn test_get_root_commit() {
    let mut store = CommitReader::new();
    store.add_commit(commit("c0", None, INITIAL_COMMIT_MSG));
    store.add_commit(commit("c1", Some("c0"), "adding train data"));
    store.add_commit(commit("c2", Some("c1"), "adding test data"));
    let root_commit = store.root_commit().unwrap();
    assert_eq!(root_commit.message, INITIAL_COMMIT_MSG);
    assert!(root_commit.parent_id.is_none());
}

#[test]
fn history_of_two_commits_is_newest_first() {
    let mut store = CommitReader::new();
    store.add_commit(commit("a", None, "first commit"));
    store.add_commit(commit("b", Some("a"), "second commit"));
    let history = store.history_from_commit_id("b").unwrap();
    let ids: Vec<&str> = history.iter().map(|c| c.id.as_str()).collect();
    assert_eq!(ids, vec!["b", "a"]);
    assert_eq!(history[0].message, "second commit");
    assert_eq!(history[1].message, "first commit");
    assert_eq!(store.history_from_head().unwrap().len(), 2);
}

#[test]
fn history_ends_at_root_in_a_valid_store() {
    let mut store = CommitReader::new();
    store.add_commit(commit("a", None, "one"));
    store.add_commit(commit("b", Some("a"), "two"));
    store.add_commit(commit("c", Some("b"), "three"));
    let history = store.history_from_head().unwrap();
    let root = store.root_commit().unwrap();
    assert_eq!(history.last().unwrap().id, root.id);
    assert_eq!(history[0].id, store.head_commit().unwrap().id);
    assert!(root.parent_id.is_none());
}

#[test]
fn empty_store_has_no_head_or_root() {
    let store = CommitReader::new();
    assert_eq!(store.head_commit().unwrap_err(), OxenError::NotFound);
    assert_eq!(store.root_commit().unwrap_err(), OxenError::NotFound);
    assert_eq!(store.history_from_head().unwrap_err(), OxenError::NotFound);
}

#[test]
fn unknown_commit_is_absent_not_an_error() {
    let mut store = CommitReader::new();
    store.add_commit(commit("a", None, "one"));
    assert!(store.get_commit_by_id("zzz").is_none());
    assert!(!store.commit_id_exists("zzz"));
    assert!(store.commit_id_exists("a"));
    assert_eq!(store.get_commit_by_id("a").unwrap().message, "one");
    assert!(store.history_from_commit_id("zzz").unwrap().is_empty());
}

#[test]
fn history_stops_at_a_missing_parent() {
    let mut store = CommitReader::new();
    store.add_commit(commit("b", Some("gone"), "orphan"));
    let history = store.history_from_commit_id("b").unwrap();
    assert_eq!(history.len(), 1);
    assert_eq!(history[0].id, "b");
}

#[test]
fn looping_chain_is_reported_corrupt() {
    let mut store = CommitReader::new();
    store.put_commit(commit("a", Some("b"), "one"));
    store.put_commit(commit("b", Some("a"), "two"));
    store.set_head(String::from("a"));
    assert_eq!(store.history_from_commit_id("a").unwrap_err(), OxenError::IndexCorrupt);
    assert_eq!(store.root_commit().unwrap_err(), OxenError::IndexCorrupt);
}

#[test]
fn putting_an_existing_id_replaces_the_record() {
    let mut store = CommitReader::new();
    store.put_commit(commit("a", None, "old"));
    store.put_commit(commit("a", None, "new"));
    assert_eq!(store.get_commit_by_id("a").unwrap().message, "new");
    store.set_head(String::from("a"));
    assert_eq!(store.history_from_head().unwrap().len(), 1);
}

#[test]
fn head_pointing_at_unknown_commit_is_not_found() {
    let mut store = CommitReader::new();
    store.put_commit(commit("a", None, "one"));
    store.set_head(String::from("b"));
    assert_eq!(store.head_commit().unwrap_err(), OxenError::NotFound);
}
