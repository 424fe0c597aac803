use rgit::codec::ObjectKind;
use rgit::files::{Files, Node};
use rgit::objects::{Blob, Commit, Object, Tag};
use rgit::repository::Repository;
use rgit::store::ObjectError;
use rgit::tree::read_entries;

fn repo() -> (Repository, Files) {
    let mut files = Files::new();
    let repository = Repository::init(&mut files, Some("/work".to_string()), "/").unwrap();
    (repository, files)
}

fn raw(hash: &str) -> Vec<u8> {
    (0..20).map(|i| u8::from_str_radix(&hash[2 * i..2 * i + 2], 16).unwrap()).collect()
}

fn entry(mode: &str, name: &str, hash: &str) -> Vec<u8> {
    let mut out = Vec::new();
    out.extend_from_slice(mode.as_bytes());
    out.push(b' ');
    out.extend_from_slice(name.as_bytes());
    out.push(0);
    out.extend_from_slice(&raw(hash));
    out
}

fn save_tree(repository: &Repository, files: &mut Files, payload: &[u8]) -> String {
    let mut framed = format!("tree {}\0", payload.len()).into_bytes();
    framed.extend_from_slice(payload);
    let depth = files.len();
    let tree = Object::deserialize(framed, repository, files, depth).unwrap();
    tree.save(repository, files)
}

#[test]
fn object_path_splits_the_hash() {
    let (repository, _) = repo();
    assert_eq!(
        repository.get_object_path("9db7df02b6026626607ed9643ea24af9dc09c2c9"),
        "/work/.git/objects/9d/b7df02b6026626607ed9643ea24af9dc09c2c9"
    );
    assert_eq!(repository.get_object_dir("9db7df02"), "/work/.git/objects/9d");
    assert_eq!(repository.get_workdir(), "/work");
    assert_eq!(repository.get_gitdir(), "/work/.git");
}

#[test]
fn saved_blob_is_loaded_back() {
    let (repository, mut files) = repo();
    let blob = Blob::from_bytes(b"hello\nworld".to_vec());
    let hash = blob.save(&repository, &mut files);
    assert_eq!(hash, "9db7df02b6026626607ed9643ea24af9dc09c2c9");
    assert!(files.is_dir("/work/.git/objects/9d"));
    let stored = files.read("/work/.git/objects/9d/b7df02b6026626607ed9643ea24af9dc09c2c9").unwrap();
    assert_ne!(stored, &b"blob 11\0hello\nworld".to_vec());
    assert_eq!(Object::read(&repository, &files, &hash), Ok(b"blob 11\0hello\nworld".to_vec()));
    let loaded = Object::load(&repository, &files, &hash).unwrap();
    assert_eq!(loaded.kind(), ObjectKind::Blob);
    assert_eq!(loaded.get_type(), "blob");
    assert_eq!(loaded.get_data(), &b"hello\nworld".to_vec());
    assert_eq!(loaded.get_size(), 11);
    assert_eq!(loaded.hash(), hash);
}

#[test]
fn each_kind_is_loaded_back() {
    let (repository, mut files) = repo();
    let commit = Object::Commit(Commit::from_bytes(b"tree T\n\nm".to_vec()));
    let tag = Object::Tag(Tag::from_bytes(b"object O\n\nt".to_vec()));
    let c = commit.save(&repository, &mut files);
    let t = tag.save(&repository, &mut files);
    let loaded = Object::load(&repository, &files, &c).unwrap();
    assert_eq!(loaded.get_type(), "commit");
    assert_eq!(loaded.get_data(), &b"tree T\n\nm".to_vec());
    let loaded = Object::load(&repository, &files, &t).unwrap();
    assert_eq!(loaded.get_type(), "tag");
    assert_eq!(loaded.get_data(), &b"object O\n\nt".to_vec());
}

#[test]
fn saving_twice_leaves_the_store_as_saving_once() {
    let (repository, mut files) = repo();
    let blob = Blob::from_bytes(b"same".to_vec());
    let first = blob.save(&repository, &mut files);
    let path = repository.get_object_path(&first);
    let dir = repository.get_object_dir(&first);
    let content = files.read(&path).unwrap().clone();
    let second = blob.save(&repository, &mut files);
    assert_eq!(first, second);
    assert_eq!(files.read(&path), Some(&content));
    assert!(files.is_dir(&dir));
    assert_eq!(Object::load(&repository, &files, &first).unwrap().get_data(), &b"same".to_vec());
}

#[test]
fn hash_depends_on_kind_and_payload_alone() {
    let a = Blob::from_bytes(b"x".to_vec());
    let b = Blob::from_bytes(b"x".to_vec());
    let c = Object::Commit(Commit::from_bytes(b"x".to_vec()));
    let d = Blob::from_bytes(b"y".to_vec());
    assert_eq!(a.hash(), b.hash());
    assert_ne!(a.hash(), c.hash());
    assert_ne!(a.hash(), d.hash());
    assert_eq!(Blob::from_bytes(Vec::new()).hash(), "e69de29bb2d1d6434b8b29ae775ad8c2e48c5391");
    assert_eq!(Commit::from_bytes(b"x".to_vec()).hash(), c.hash());
}

#[test]
fn missing_object_is_reported() {
    let (repository, files) = repo();
    let r = Object::load(&repository, &files, "9db7df02b6026626607ed9643ea24af9dc09c2c9");
    assert!(matches!(r, Err(ObjectError::MissingObject)));
}

#[test]
fn hash_too_short_to_split_is_reported() {
    let (repository, files) = repo();
    assert!(matches!(Object::load(&repository, &files, "a"), Err(ObjectError::InvalidHash)));
    assert!(matches!(Object::load(&repository, &files, ""), Err(ObjectError::InvalidHash)));
}

#[test]
fn corrupt_stream_is_reported() {
    let (repository, mut files) = repo();
    files.write("/work/.git/objects/ab/cdef".to_string(), b"not a zlib stream".to_vec());
    assert!(matches!(Object::load(&repository, &files, "abcdef"), Err(ObjectError::CorruptStream)));
}

#[test]
fn framing_errors_are_reported() {
    let (repository, files) = repo();
    let r = Object::deserialize(b"blob 5\0abc".to_vec(), &repository, &files, 0);
    assert!(matches!(r, Err(ObjectError::MalformedFraming)));
    let r = Object::deserialize(b"thing 3\0abc".to_vec(), &repository, &files, 0);
    assert!(matches!(r, Err(ObjectError::UnrecognizedObjectKind)));
    let r = Object::deserialize(b"tree 3\0abc".to_vec(), &repository, &files, 0);
    assert!(matches!(r, Err(ObjectError::MalformedTree)));
}

#[test]
fn two_entry_tree_payload_parses_in_order() {
    let mut payload = entry("100644", "file.txt", "9db7df02b6026626607ed9643ea24af9dc09c2c9");
    payload.extend(entry("40000", "dir", "e69de29bb2d1d6434b8b29ae775ad8c2e48c5391"));
    let entries = read_entries(&payload).unwrap();
    assert_eq!(entries.len(), 2);
    assert_eq!(entries[0].mode, "100644");
    assert_eq!(entries[0].name, "file.txt");
    assert_eq!(entries[0].sha, "9db7df02b6026626607ed9643ea24af9dc09c2c9");
    assert_eq!(entries[1].mode, "40000");
    assert_eq!(entries[1].name, "dir");
    assert_eq!(entries[1].sha, "e69de29bb2d1d6434b8b29ae775ad8c2e48c5391");
}

#[test]
fn tree_payload_cut_short_is_refused() {
    let payload = entry("100644", "file.txt", "9db7df02b6026626607ed9643ea24af9dc09c2c9");
    assert!(read_entries(&payload[..payload.len() - 1]).is_none());
    assert!(read_entries(b"100644").is_none());
    assert!(read_entries(b"100644 name").is_none());
    assert_eq!(read_entries(b"").unwrap().len(), 0);
}

#[test]
fn tree_is_loaded_with_its_objects() {
    let (repository, mut files) = repo();
    let file = Blob::from_bytes(b"hello\nworld".to_vec()).save(&repository, &mut files);
    let inner_file = Blob::from_bytes(b"inner".to_vec()).save(&repository, &mut files);
    let inner = save_tree(&repository, &mut files, &entry("100644", "deep.txt", &inner_file));
    let mut payload = entry("100644", "file.txt", &file);
    payload.extend(entry("40000", "dir", &inner));
    let root = save_tree(&repository, &mut files, &payload);

    let loaded = Object::load(&repository, &files, &root).unwrap();
    assert_eq!(loaded.get_type(), "tree");
    assert_eq!(loaded.get_data(), &payload);
    let tree = match loaded {
        Object::Tree(t) => t,
        _ => panic!("a tree was saved"),
    };
    let entries = tree.get_objects();
    assert_eq!(entries.len(), 2);
    assert_eq!(entries[0].get_name(), "file.txt");
    assert_eq!(entries[0].get_mode(), "100644");
    assert_eq!(entries[0].get_hash(), file);
    assert_eq!(entries[0].get_object().get_type(), "blob");
    assert_eq!(entries[0].get_object().get_data(), &b"hello\nworld".to_vec());
    assert_eq!(entries[1].get_name(), "dir");
    assert_eq!(entries[1].get_object().get_type(), "tree");
    match entries[1].get_object() {
        Object::Tree(sub) => {
            assert_eq!(sub.get_objects().len(), 1);
            assert_eq!(sub.get_objects()[0].get_name(), "deep.txt");
        },
        _ => panic!("a tree was saved"),
    }
}

#[test]
fn tree_with_a_missing_object_cannot_be_loaded() {
    let (repository, mut files) = repo();
    let payload = entry("100644", "gone", "9db7df02b6026626607ed9643ea24af9dc09c2c9");
    let mut framed = format!("tree {}\0", payload.len()).into_bytes();
    framed.extend_from_slice(&payload);
    let r = Object::deserialize(framed.clone(), &repository, &files, 5);
    assert!(matches!(r, Err(ObjectError::MissingObject)));
    Blob::from_bytes(b"hello\nworld".to_vec()).save(&repository, &mut files);
    assert!(Object::deserialize(framed.clone(), &repository, &files, 5).is_ok());
    let r = Object::deserialize(framed, &repository, &files, 0);
    assert!(matches!(r, Err(ObjectError::NestingTooDeep)));
}

#[test]
fn blob_is_made_from_a_file_of_the_snapshot() {
    let mut files = Files::new();
    files.write("/work/a.txt".to_string(), b"content".to_vec());
    files.create_dir("/work/dir".to_string());
    let blob = Blob::from_file(&files, "/work/a.txt").unwrap();
    assert_eq!(blob.get_data(), &b"content".to_vec());
    assert_eq!(blob.get_type(), "blob");
    assert!(Blob::from_file(&files, "/work/dir").is_none());
    assert!(Blob::from_file(&files, "/work/none").is_none());
}

#[test]
fn snapshot_keeps_the_last_write_and_the_journal() {
    let mut files = Files::new();
    assert_eq!(files.len(), 0);
    files.write("/a".to_string(), b"1".to_vec());
    files.write("/a".to_string(), b"2".to_vec());
    files.create_dir("/d".to_string());
    assert_eq!(files.read("/a"), Some(&b"2".to_vec()));
    assert!(files.has_path("/a") && files.has_path("/d") && !files.has_path("/b"));
    assert!(files.is_dir("/d") && !files.is_dir("/a"));
    assert_eq!(files.read("/d"), None);
    assert_eq!(files.len(), 3);
    assert_eq!(files.path_at(0), "/a");
    assert!(matches!(files.node_at(0), Node::File(d) if d == &b"1".to_vec()));
    assert!(matches!(files.node_at(2), Node::Dir));
    assert_eq!(files.latest("/a"), Some(1));
    assert_eq!(files.latest("/zz"), None);
}
