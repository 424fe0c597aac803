use rgit::kvlm::{read_kvlm, KvlmError, KVLM};
use rgit::objects::{Commit, Tag};

const MERGE: &str = "tree T\nparent 1111111111111111111111111111111111111111\nparent 2222222222222222222222222222222222222222\nauthor A 1700000000 +0000\n\nhello\n";

#[test]
fn merge_commit_parses_to_its_parts() {
    let commit = Commit::from_bytes(MERGE.as_bytes().to_vec());
    assert_eq!(commit.get_tree(), Ok("T".to_string()));
    assert_eq!(commit.get_parents(), Ok(vec![
            "1111111111111111111111111111111111111111".to_string(),
            "2222222222222222222222222222222222222222".to_string()
        ]));
    assert_eq!(commit.get_author(), Ok("A 1700000000 +0000".to_string()));
    assert_eq!(commit.get_message(), Ok("hello\n".to_string()));
}

#[test]
fn root_commit_has_no_parents() {
    let commit = Commit::from_bytes(b"tree T\nauthor A 1 +0000\n\nfirst\n".to_vec());
    assert_eq!(commit.get_parents(), Ok(Vec::<String>::new()));
    assert_eq!(commit.get_tree(), Ok("T".to_string()));
}

#[test]
fn parent_lines_stay_out_of_the_headers() {
    let k = read_kvlm(MERGE.as_bytes()).unwrap();
    assert!(k.get("parent").is_none());
    assert!(k.get("").is_none());
    assert_eq!(k.get("tree"), Some(&"T".to_string()));
    assert_eq!(k.parents().len(), 2);
}

#[test]
fn continuation_lines_are_joined() {
    let commit = Commit::from_bytes(b"tree T\ngpgsig one\n two\n three\n\nmsg".to_vec());
    let k = commit.to_kvlm().unwrap();
    assert_eq!(k.get("gpgsig"), Some(&"onetwothree".to_string()));
    assert_eq!(commit.get_message(), Ok("msg".to_string()));
}

#[test]
fn message_runs_to_the_end_of_the_payload() {
    let commit = Commit::from_bytes(b"tree T\n\nfirst\n\nsecond\n".to_vec());
    assert_eq!(commit.get_message(), Ok("first\n\nsecond\n".to_string()));
}

#[test]
fn message_may_be_empty() {
    let commit = Commit::from_bytes(b"tree T\n\n".to_vec());
    assert_eq!(commit.get_message(), Ok(String::new()));
}

#[test]
fn later_header_replaces_earlier() {
    let commit = Commit::from_bytes(b"tree T\ntree U\n\nm".to_vec());
    assert_eq!(commit.get_tree(), Ok("U".to_string()));
}

#[test]
fn header_without_a_space_has_an_empty_value() {
    let k = read_kvlm(b"tree\nkey a b c\n\nm").unwrap();
    assert_eq!(k.get("tree"), Some(&String::new()));
    assert_eq!(k.get("key"), Some(&"a b c".to_string()));
}

#[test]
fn missing_header_is_reported() {
    let commit = Commit::from_bytes(b"author A 1 +0000\n\nm".to_vec());
    assert_eq!(commit.get_tree(), Err(KvlmError::MissingHeader));
    assert_eq!(commit.get_author(), Ok("A 1 +0000".to_string()));
    let other = Commit::from_bytes(b"tree T\n\nm".to_vec());
    assert_eq!(other.get_author(), Err(KvlmError::MissingHeader));
}

#[test]
fn missing_separator_is_reported() {
    let commit = Commit::from_bytes(b"tree T\nauthor A".to_vec());
    assert_eq!(commit.get_message(), Err(KvlmError::MissingSeparator));
    assert_eq!(commit.get_parents(), Err(KvlmError::MissingSeparator));
    assert!(matches!(commit.to_kvlm(), Err(KvlmError::MissingSeparator)));
}

#[test]
fn payload_that_is_not_text_is_reported() {
    let commit = Commit::from_bytes(vec![0xff, 0xfe, b'\n', b'\n']);
    assert_eq!(commit.get_tree(), Err(KvlmError::InvalidUtf8));
}

#[test]
fn tag_payload_is_read_the_same_way() {
    let tag = Tag::from_bytes(b"object O\ntype commit\ntag v1\n\nrelease\n".to_vec());
    let k = tag.to_kvlm().unwrap();
    assert_eq!(k.get("object"), Some(&"O".to_string()));
    assert_eq!(k.get("tag"), Some(&"v1".to_string()));
    assert_eq!(tag.get_message(), Ok("release\n".to_string()));
    assert_eq!(tag.get_data(), &b"object O\ntype commit\ntag v1\n\nrelease\n".to_vec());
}

#[test]
fn text_beyond_ascii_is_kept() {
    let commit = Commit::from_bytes("tree T\nauthor Zoë 5 +0000\n\nhéllo ✓".as_bytes().to_vec());
    assert_eq!(commit.get_author(), Ok("Zoë 5 +0000".to_string()));
    assert_eq!(commit.get_message(), Ok("héllo ✓".to_string()));
}
