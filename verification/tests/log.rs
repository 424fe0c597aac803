use rgit::checkout::{checkout_target, CheckoutError};
use rgit::files::Files;
use rgit::logscreen::{
    display_log, read_author_date, read_author_name, DateLine, LogError, LogWalk,
};
use rgit::objects::{Blob, Commit, Object};
use rgit::repository::Repository;
use rgit::store::ObjectError;
use rgit::kvlm::KvlmError;

const TREE: &str = "4b825dc642cb6eb9a060e54bf8d69288fbee4904";

fn repo() -> (Repository, Files) {
    let mut files = Files::new();
    let repository = Repository::init(&mut files, Some("/work".to_string()), "/").unwrap();
    (repository, files)
}

fn commit(repository: &Repository, files: &mut Files, parents: &[&str], message: &str) -> String {
    let mut text = format!("tree {}\n", TREE);
    for parent in parents {
        text.push_str(&format!("parent {}\n", parent));
    }
    text.push_str("author Alice <alice@example.org> 1700000000 +0100\n\n");
    text.push_str(message);
    Object::Commit(Commit::from_bytes(text.into_bytes())).save(repository, files)
}

fn load(repository: &Repository, files: &Files, hash: &str) -> Commit {
    match Object::load(repository, files, hash).unwrap() {
        Object::Commit(c) => c,
        _ => panic!("a commit was saved"),
    }
}

fn raw(hash: &str) -> Vec<u8> {
    (0..20).map(|i| u8::from_str_radix(&hash[2 * i..2 * i + 2], 16).unwrap()).collect()
}

fn entry(mode: &str, name: &str, hash: &str) -> Vec<u8> {
    let mut out = Vec::new();
    out.extend_from_slice(mode.as_bytes());
    out.push(b' ');
    out.extend_from_slice(name.as_bytes());
    out.push(0);
    out.extend_from_slice(&raw(hash));
    out
}

fn save_tree(repository: &Repository, files: &mut Files, payload: &[u8]) -> String {
    let mut framed = format!("tree {}\0", payload.len()).into_bytes();
    framed.extend_from_slice(payload);
    let depth = files.len();
    Object::deserialize(framed, repository, files, depth).unwrap().save(repository, files)
}

#[test]
fn merge_log_visits_both_parents_and_the_shared_ancestor_twice() {
    let (repository, mut files) = repo();
    let root = commit(&repository, &mut files, &[], "root\n");
    let left = commit(&repository, &mut files, &[&root], "left\n");
    let right = commit(&repository, &mut files, &[&root], "right\n");
    let merge = commit(&repository, &mut files, &[&left, &right], "merge\n");
    let start = load(&repository, &files, &merge);
    let report = display_log(start, &repository, &files, 100).unwrap();
    assert!(report.complete);
    let hashes: Vec<&str> = report.entries.iter().map(|e| e.hash.as_str()).collect();
    assert_eq!(hashes, vec![&merge[..], &left[..], &right[..], &root[..], &root[..]]);
    assert_eq!(report.entries[0].merge, Some((left.clone(), right.clone())));
    assert_eq!(report.entries[1].merge, None);
    assert_eq!(report.entries[0].message, "merge\n");
    assert_eq!(report.entries[3].message, "root\n");
}

#[test]
fn log_entry_shows_author_and_date() {
    let (repository, mut files) = repo();
    let root = commit(&repository, &mut files, &[], "first\n");
    let report = display_log(load(&repository, &files, &root), &repository, &files, 10).unwrap();
    assert_eq!(report.entries.len(), 1);
    let entry = &report.entries[0];
    assert_eq!(entry.author, Some("Alice <alice@example.org>".to_string()));
    assert!(matches!(&entry.date, DateLine::At(d) if d == "Tue, 14 Nov 2023 23:13:20 +01:00"));
    assert_eq!(
        entry.render(),
        format!(
            "commit {}\nAuthor: Alice <alice@example.org>\nDate: Tue, 14 Nov 2023 23:13:20 +01:00\n\n    first\n\n\n",
            root
        )
    );
}

#[test]
fn merge_entry_shows_its_first_two_parents() {
    let (repository, mut files) = repo();
    let a = commit(&repository, &mut files, &[], "a");
    let b = commit(&repository, &mut files, &[], "b");
    let m = commit(&repository, &mut files, &[&a, &b], "m");
    let mut walk = LogWalk::start(load(&repository, &files, &m));
    let entry = walk.next(&repository, &files).unwrap().unwrap();
    assert!(entry.render().contains(&format!("Merge: {} -> {}\n", a, b)));
    assert!(!walk.is_done());
    assert!(walk.next(&repository, &files).unwrap().is_some());
    assert!(walk.next(&repository, &files).unwrap().is_some());
    assert!(walk.is_done());
    assert!(walk.next(&repository, &files).unwrap().is_none());
}

#[test]
fn log_stops_at_the_limit() {
    let (repository, mut files) = repo();
    let a = commit(&repository, &mut files, &[], "a");
    let b = commit(&repository, &mut files, &[&a], "b");
    let c = commit(&repository, &mut files, &[&b], "c");
    let report = display_log(load(&repository, &files, &c), &repository, &files, 2).unwrap();
    assert!(!report.complete);
    assert_eq!(report.entries.len(), 2);
    let report = display_log(load(&repository, &files, &c), &repository, &files, 3).unwrap();
    assert!(report.complete);
    assert_eq!(report.entries.len(), 3);
    let report = display_log(load(&repository, &files, &c), &repository, &files, 0).unwrap();
    assert!(!report.complete);
    assert!(report.entries.is_empty());
}

#[test]
fn log_fails_on_a_missing_parent() {
    let (repository, mut files) = repo();
    let c = commit(&repository, &mut files, &["9db7df02b6026626607ed9643ea24af9dc09c2c9"], "c");
    let r = display_log(load(&repository, &files, &c), &repository, &files, 10);
    assert!(matches!(r, Err(LogError::Store(ObjectError::MissingObject))));
}

#[test]
fn log_fails_on_a_parent_that_is_no_commit() {
    let (repository, mut files) = repo();
    let blob = Blob::from_bytes(b"data".to_vec()).save(&repository, &mut files);
    let c = commit(&repository, &mut files, &[&blob], "c");
    let r = display_log(load(&repository, &files, &c), &repository, &files, 10);
    assert!(matches!(r, Err(LogError::NotACommit)));
}

#[test]
fn log_fails_on_a_commit_without_separator() {
    let (repository, mut files) = repo();
    let c = Object::Commit(Commit::from_bytes(b"tree T".to_vec())).save(&repository, &mut files);
    let r = display_log(load(&repository, &files, &c), &repository, &files, 10);
    assert!(matches!(r, Err(LogError::Payload(KvlmError::MissingSeparator))));
}

#[test]
fn author_header_is_taken_apart() {
    assert_eq!(read_author_name("A 1700000000 +0000"), "A 1700000000");
    assert_eq!(read_author_name("Solo"), "Solo");
    assert!(matches!(read_author_date("A 1700000000 +0000"), DateLine::Absent));
    assert!(matches!(
        read_author_date("Bob <b@x> 0 +0000"),
        DateLine::At(d) if d == "Thu, 1 Jan 1970 00:00:00 +00:00"
    ));
    assert!(matches!(
        read_author_date("Bob <b@x> 1700000000 -0500"),
        DateLine::At(d) if d == "Tue, 14 Nov 2023 17:13:20 -05:00"
    ));
    assert!(matches!(
        read_author_date("Bob <b@x> 1700000000 zone"),
        DateLine::At(d) if d == "Tue, 14 Nov 2023 22:13:20 +00:00"
    ));
    assert!(matches!(read_author_date("Bob <b@x> soon +0000"), DateLine::Unknown));
    assert!(matches!(read_author_date("Bob <b@x> 1700000000 +9900"), DateLine::Unknown));
    assert!(matches!(read_author_date("Bob <b@x> 9223372036854775807 +0000"), DateLine::Unknown));
}

#[test]
fn commit_without_author_has_an_unknown_date() {
    let (repository, mut files) = repo();
    let c = Object::Commit(Commit::from_bytes(b"tree T\n\nmsg".to_vec())).save(&repository, &mut files);
    let report = display_log(load(&repository, &files, &c), &repository, &files, 10).unwrap();
    assert_eq!(report.entries[0].author, None);
    assert!(matches!(report.entries[0].date, DateLine::Unknown));
    assert_eq!(report.entries[0].render(), format!("commit {}\nDate: unknown\n\n    msg\n\n", c));
}

#[test]
fn checkout_writes_the_blobs_below_the_target() {
    let (repository, mut files) = repo();
    let a = Blob::from_bytes(b"a".to_vec()).save(&repository, &mut files);
    let b = Blob::from_bytes(b"b".to_vec()).save(&repository, &mut files);
    let sub = save_tree(&repository, &mut files, &entry("100644", "b.txt", &b));
    let mut payload = entry("100644", "a.txt", &a);
    payload.extend(entry("40000", "sub", &sub));
    let root = save_tree(&repository, &mut files, &payload);
    let tree = match Object::load(&repository, &files, &root).unwrap() {
        Object::Tree(t) => t,
        _ => panic!("a tree was saved"),
    };

    let all = tree.checkout("/work".to_string(), "/work/".to_string()).unwrap();
    let paths: Vec<&str> = all.iter().map(|f| f.path.as_str()).collect();
    assert_eq!(paths, vec!["/work/a.txt", "/work/sub/b.txt"]);
    assert_eq!(all[0].data, b"a".to_vec());
    assert_eq!(all[1].data, b"b".to_vec());

    let one = tree.checkout("/work".to_string(), "/work/sub/".to_string()).unwrap();
    let paths: Vec<&str> = one.iter().map(|f| f.path.as_str()).collect();
    assert_eq!(paths, vec!["/work/sub/b.txt"]);

    let file = tree.checkout("/work".to_string(), "/work/a.txt".to_string()).unwrap();
    assert_eq!(file.len(), 1);
    assert_eq!(file[0].path, "/work/a.txt");

    let none = tree.checkout("/work".to_string(), "/elsewhere/".to_string()).unwrap();
    assert!(none.is_empty());
}

#[test]
fn checkout_refuses_a_commit_among_the_entries() {
    let (repository, mut files) = repo();
    let c = commit(&repository, &mut files, &[], "c");
    let root = save_tree(&repository, &mut files, &entry("160000", "module", &c));
    let tree = match Object::load(&repository, &files, &root).unwrap() {
        Object::Tree(t) => t,
        _ => panic!("a tree was saved"),
    };
    let r = tree.checkout("/work".to_string(), "/work/".to_string());
    assert!(matches!(r, Err(CheckoutError::UnsupportedEntry)));
    assert!(tree.checkout("/work".to_string(), "/other".to_string()).unwrap().is_empty());
}

#[test]
fn checkout_target_marks_a_directory() {
    assert_eq!(checkout_target("/work", Some("src".to_string()), true), "/work/src/");
    assert_eq!(checkout_target("/work", Some("src/".to_string()), true), "/work/src/");
    assert_eq!(checkout_target("/work", Some("a.txt".to_string()), false), "/work/a.txt");
    assert_eq!(checkout_target("/work", None, true), "/work/");
    assert_eq!(checkout_target("/work", None, false), "/work/");
}

#[test]
fn objects_are_shown_as_text() {
    let (repository, mut files) = repo();
    let a = Blob::from_bytes(b"a".to_vec()).save(&repository, &mut files);
    let sub = save_tree(&repository, &mut files, &entry("100644", "b.txt", &a));
    let mut payload = entry("100644", "a.txt", &a);
    payload.extend(entry("40000", "sub", &sub));
    let root = save_tree(&repository, &mut files, &payload);
    let loaded = Object::load(&repository, &files, &root).unwrap();
    assert_eq!(loaded.cat(), format!("100644\tblob\t{}\ta.txt\n40000\ttree\t{}\tsub\n", a, sub));
    match &loaded {
        Object::Tree(t) => {
            assert_eq!(t.display_objects(), format!("100644 {} a.txt\n40000 {} sub\n", a, sub));
        },
        _ => panic!("a tree was saved"),
    }
    assert_eq!(Blob::from_bytes("héllo".as_bytes().to_vec()).cat(), "héllo");
    assert_eq!(
        Blob::from_bytes(vec![0xff, 0, 17, 200]).cat(),
        "failed to decode content: [255, 0, 17, 200]"
    );
    assert_eq!(Object::Commit(Commit::from_bytes(b"tree T\n\nm".to_vec())).cat(), "tree T\n\nm");
}
