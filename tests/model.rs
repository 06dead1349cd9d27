use oxen::commit_entry::CommitEntry;
use oxen::error::OxenError;
use oxen::local_repository::LocalRepository;
use oxen::paths::{extension, file_name};
use oxen::text::{decimal, text_less};

fn entry(path: &str) -> CommitEntry {
    CommitEntry {
        commit_id: String::from("abc123"),
        path: path.to_string(),
        hash: String::from("deadbeef"),
        num_bytes: 10,
        last_modified_seconds: 100,
        last_modified_nanoseconds: 7,
    }
}

#[test]
fn test_get_dirname_from_url() {
    let url = "http://0.0.0.0:3000/repositories/OxenData";
    let dirname = LocalRepository::dirname_from_url(url).unwrap();
    assert_eq!(dirname, "OxenData");
}

#[test]
fn dirname_of_an_unparsable_url_is_an_error() {
    assert_eq!(LocalRepository::dirname_from_url("http://[::1").unwrap_err(), OxenError::InvalidUrl);
}

#[test]
fn commit_entry_filename_uses_extension() {
    let e = entry("annotations/train/bounding_box.csv");
    assert_eq!(e.extension(), "csv");
    assert_eq!(e.filename(), "abc123.csv");
    assert_eq!(e.filename_from_commit_id("xyz"), "xyz.csv");
}

#[test]
fn extension_edge_cases() {
    assert_eq!(extension("README"), "");
    assert_eq!(extension(".bashrc"), "");
    assert_eq!(extension("dir.d/file"), "");
    assert_eq!(extension("archive.tar.gz"), "gz");
    assert_eq!(extension("dir/photo.jpg/"), "jpg");
    assert_eq!(file_name("a/b/c.txt"), "c.txt");
    assert_eq!(file_name("a/b/"), "b");
}

#[test]
fn commit_entries_are_equal_by_path() {
    let a = entry("x.txt");
    let mut b = entry("x.txt");
    b.hash = String::from("other");
    assert!(a == b);
    assert!(a != entry("y.txt"));
    let probe = CommitEntry::from_path("x.txt");
    assert!(probe == a);
    assert_eq!(probe.num_bytes, 0);
    assert_eq!(probe.hash, "");
}

#[test]
fn synced_and_remote_forms() {
    let e = entry("x.txt");
    let s = e.to_synced();
    assert_eq!(s.hash, e.hash);
    assert_eq!(s.num_bytes, e.num_bytes);
    let r = e.to_remote();
    assert_eq!(r.filename, "x.txt");
    assert_eq!(r.hash, "deadbeef");
}

#[test]
fn modification_time_comparison() {
    let e = entry("x.txt");
    assert!(!e.has_different_modification_time(100, 7));
    assert!(e.has_different_modification_time(100, 8));
    assert!(e.has_different_modification_time(101, 7));
}

#[test]
fn set_remote_adds_then_replaces() {
    let mut repo = LocalRepository::new("/tmp/Mini-Dogs-Vs-Cats");
    assert_eq!(repo.name, "Mini-Dogs-Vs-Cats");
    assert_eq!(repo.id.len(), 36);
    assert!(repo.remote().is_none());
    repo.set_remote("origin", "http://localhost:3000/a");
    assert!(repo.has_remote("origin"));
    assert!(!repo.has_remote("upstream"));
    assert_eq!(repo.remote().unwrap().value, "http://localhost:3000/a");
    repo.set_remote("origin", "http://localhost:3000/b");
    assert_eq!(repo.remotes.len(), 1);
    assert_eq!(repo.remote().unwrap().value, "http://localhost:3000/b");
    repo.set_remote("upstream", "http://other/c");
    assert_eq!(repo.remotes.len(), 2);
    assert_eq!(repo.remote().unwrap().name, "upstream");
}

#[test]
fn new_repositories_get_distinct_ids() {
    let a = LocalRepository::new("x");
    let b = LocalRepository::new("x");
    assert_ne!(a.id, b.id);
}

#[test]
fn decimal_numerals() {
    assert_eq!(decimal(0), "0");
    assert_eq!(decimal(7), "7");
    assert_eq!(decimal(1234567890), "1234567890");
    assert_eq!(decimal(usize::MAX), usize::MAX.to_string());
}

#[test]
fn strings_order_by_code_point() {
    assert!(text_less("a", "b"));
    assert!(text_less("ab", "abc"));
    assert!(!text_less("abc", "ab"));
    assert!(!text_less("same", "same"));
    assert!(text_less("", "x"));
    assert!(text_less("Z", "a"));
}

#[test]
fn dirname_ignores_the_query() {
    let dirname = LocalRepository::dirname_from_url("http://localhost:3000/repositories/Name?shallow=1").unwrap();
    assert_eq!(dirname, "Name");
}
