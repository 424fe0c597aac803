use rgit::config::{Config, ConfigError};
use rgit::files::Files;
use rgit::refs::RepError;
use rgit::repository::{find_repository_root, parent_dir, Repository};

const HASH: &str = "9db7df02b6026626607ed9643ea24af9dc09c2c9";
const OTHER: &str = "e69de29bb2d1d6434b8b29ae775ad8c2e48c5391";

fn repo() -> (Repository, Files) {
    let mut files = Files::new();
    let repository = Repository::init(&mut files, Some("/work".to_string()), "/").unwrap();
    (repository, files)
}

fn put(files: &mut Files, path: &str, text: &str) {
    files.write(path.to_string(), text.as_bytes().to_vec());
}

#[test]
fn init_makes_the_database() {
    let mut files = Files::new();
    let repository = Repository::init(&mut files, Some("/work".to_string()), "/").unwrap();
    assert_eq!(repository.get_workdir(), "/work");
    assert_eq!(repository.get_gitdir(), "/work/.git");
    for dir in ["", "/objects", "/refs", "/refs/heads", "/refs/tags", "/branches"] {
        assert!(files.is_dir(&format!("/work/.git{}", dir)));
    }
    assert_eq!(files.read("/work/.git/HEAD"), Some(&b"ref: refs/heads/master\n".to_vec()));
    assert_eq!(
        files.read("/work/.git/description"),
        Some(
            &b"Unnamed repository; edit this file 'description' to name the repository.\n".to_vec()
        )
    );
    let config = String::from_utf8(files.read("/work/.git/config").unwrap().clone()).unwrap();
    assert_eq!(config, "[core]\nbare=false\nrepositoryformatversion=0\nfilemode=false\n");
    assert_eq!(files.len(), 9);
}

#[test]
fn init_refuses_a_populated_path() {
    let mut files = Files::new();
    files.create_dir("/work/.git".to_string());
    let before = files.len();
    let r = Repository::init(&mut files, Some("/work".to_string()), "/");
    assert!(matches!(r, Err(RepError::AlreadyExists)));
    assert_eq!(files.len(), before);
    assert!(!files.has_path("/work/.git/HEAD"));
    assert!(!files.has_path("/work/.git/objects"));
}

#[test]
fn init_without_a_path_takes_the_current_directory() {
    let mut files = Files::new();
    let repository = Repository::init(&mut files, None, "/here").unwrap();
    assert_eq!(repository.get_workdir(), "/here");
    assert!(files.is_dir("/here/.git/refs/tags"));
}

#[test]
fn second_init_changes_nothing() {
    let (_, mut files) = repo();
    let before = files.len();
    assert!(matches!(Repository::init(&mut files, Some("/work".to_string()), "/"), Err(RepError::AlreadyExists)));
    assert_eq!(files.len(), before);
}

#[test]
fn load_opens_what_init_made() {
    let (_, files) = repo();
    let repository = Repository::load(&files, Some("/work".to_string()), "/elsewhere").unwrap();
    assert_eq!(repository.get_workdir(), "/work");
    assert_eq!(repository.get_gitdir(), "/work/.git");
    assert!(!repository.get_config().is_bare());
    assert_eq!(repository.get_config().format_version(), 0);
    assert!(!repository.get_config().tracks_file_mode());
}

#[test]
fn load_finds_the_working_tree_from_below() {
    let (_, files) = repo();
    let repository = Repository::load(&files, None, "/work/src/deep").unwrap();
    assert_eq!(repository.get_workdir(), "/work");
    assert_eq!(find_repository_root(&files, "/work/src/deep"), "/work");
    assert_eq!(find_repository_root(&files, "/work"), "/work");
    assert_eq!(find_repository_root(&files, "/other/place"), "/");
    assert_eq!(find_repository_root(&files, "/"), "/");
}

#[test]
fn parent_of_a_path() {
    assert_eq!(parent_dir("/a/b"), "/a");
    assert_eq!(parent_dir("/a"), "/");
    assert_eq!(parent_dir("/"), "/");
    assert_eq!(parent_dir("name"), "");
}

#[test]
fn load_outside_a_repository_fails() {
    let files = Files::new();
    let r = Repository::load(&files, Some("/work".to_string()), "/");
    assert!(matches!(r, Err(RepError::NotARepository)));
    let r = Repository::load(&files, None, "/some/where");
    assert!(matches!(r, Err(RepError::NotARepository)));
}

#[test]
fn load_without_a_config_fails() {
    let mut files = Files::new();
    files.create_dir("/work/.git".to_string());
    let r = Repository::load(&files, Some("/work".to_string()), "/");
    assert!(matches!(r, Err(RepError::ConfigFileMissing)));
}

#[test]
fn load_refuses_another_format_version() {
    let mut files = Files::new();
    files.create_dir("/work/.git".to_string());
    put(
        &mut files,
        "/work/.git/config",
        "[core]\nbare=false\nrepositoryformatversion=1\nfilemode=false\n",
    );
    let r = Repository::load(&files, Some("/work".to_string()), "/");
    assert!(matches!(r, Err(RepError::ConfigError(ConfigError::UnsupportedRepositoryFormatVersion))));
}

#[test]
fn config_is_read_from_ini_text() {
    let c = Config::load(b"[core]\nrepositoryformatversion = 0\nbare = true\nfilemode = false\n")
        .unwrap();
    assert!(c.is_bare());
    assert!(!c.tracks_file_mode());
    assert_eq!(c.format_version(), 0);
    assert_eq!(Config::load(&Config::default().dump()).unwrap().is_bare(), false);
}

#[test]
fn config_with_a_missing_or_bad_setting_is_malformed() {
    let missing = Config::load(b"[core]\nrepositoryformatversion=0\nbare=false\n");
    assert!(matches!(missing, Err(ConfigError::Malformed)));
    let bad = Config::load(b"[core]\nrepositoryformatversion=0\nbare=yes\nfilemode=false\n");
    assert!(matches!(bad, Err(ConfigError::Malformed)));
    let version = Config::load(b"[core]\nrepositoryformatversion=x\nbare=false\nfilemode=false\n");
    assert!(matches!(version, Err(ConfigError::Malformed)));
    let section = Config::load(b"[other]\nrepositoryformatversion=0\n");
    assert!(matches!(section, Err(ConfigError::Malformed)));
    assert!(matches!(Config::load(&[0xff, 0xfe]), Err(ConfigError::Malformed)));
    let unsupported = Config::load(b"[core]\nrepositoryformatversion=2\n");
    assert!(matches!(unsupported, Err(ConfigError::UnsupportedRepositoryFormatVersion)));
}

#[test]
fn head_resolves_through_its_branch() {
    let (repository, mut files) = repo();
    put(&mut files, "/work/.git/refs/heads/master", &format!("{}\n", HASH));
    assert_eq!(repository.ref_resolve(&files, "HEAD").unwrap(), HASH);
    assert_eq!(repository.ref_resolve(&files, "HEAD~").unwrap(), HASH);
}

#[test]
fn branch_name_is_found_under_heads() {
    let (repository, mut files) = repo();
    put(&mut files, "/work/.git/refs/heads/feature", &format!("{}\n", HASH));
    put(&mut files, "/work/.git/refs/tags/v1", &format!("{}\n", OTHER));
    assert_eq!(repository.ref_resolve(&files, "feature").unwrap(), HASH);
    assert_eq!(repository.ref_resolve(&files, "heads/feature").unwrap(), HASH);
    assert_eq!(repository.ref_resolve(&files, "refs/heads/feature").unwrap(), HASH);
    assert_eq!(repository.ref_resolve(&files, "v1").unwrap(), OTHER);
    assert_eq!(repository.ref_resolve(&files, "tags/v1").unwrap(), OTHER);
}

#[test]
fn earlier_probe_wins() {
    let (repository, mut files) = repo();
    put(&mut files, "/work/.git/refs/heads/same", HASH);
    put(&mut files, "/work/.git/refs/tags/same", OTHER);
    assert_eq!(repository.ref_resolve(&files, "same").unwrap(), HASH);
    put(&mut files, "/work/.git/same", "top");
    assert_eq!(repository.ref_resolve(&files, "same").unwrap(), "top");
    assert_eq!(
        repository.probe_path(&files, "same"),
        Some("/work/.git/same".to_string())
    );
}

#[test]
fn raw_hash_is_returned_as_it_is() {
    let (repository, files) = repo();
    assert_eq!(repository.ref_resolve(&files, HASH).unwrap(), HASH);
    let forty = "zzzzzzzzzzzzzzzzzzzzzzzzzzzzzzzzzzzzzzzz";
    assert_eq!(repository.ref_resolve(&files, forty).unwrap(), forty);
}

#[test]
fn redirects_are_followed() {
    let (repository, mut files) = repo();
    put(&mut files, "/work/.git/refs/heads/master", &format!("{}\n", HASH));
    put(&mut files, "/work/.git/refs/heads/alias", "ref: refs/heads/master\n");
    put(&mut files, "/work/.git/refs/tags/again", "ref: refs/heads/alias\n");
    assert_eq!(repository.ref_resolve(&files, "alias").unwrap(), HASH);
    assert_eq!(repository.ref_resolve(&files, "again").unwrap(), HASH);
}

#[test]
fn unborn_branch_is_told_apart() {
    let (repository, files) = repo();
    match repository.ref_resolve(&files, "HEAD") {
        Err(RepError::NoCommitsInBranch(branch)) => assert_eq!(branch, "master"),
        _ => panic!("the branch has no commit"),
    }
}

#[test]
fn unknown_name_is_an_invalid_reference() {
    let (repository, mut files) = repo();
    match repository.ref_resolve(&files, "nothing") {
        Err(RepError::InvalidReference(name)) => assert_eq!(name, "nothing"),
        _ => panic!("no such reference"),
    }
    match repository.ref_resolve(&files, "refs") {
        Err(RepError::InvalidReference(name)) => assert_eq!(name, "refs"),
        _ => panic!("a directory holds no hash"),
    }
    put(&mut files, "/work/.git/refs/heads/dangling", "ref: refs/heads/gone\n");
    match repository.ref_resolve(&files, "dangling") {
        Err(RepError::InvalidReference(name)) => assert_eq!(name, "refs/heads/gone"),
        _ => panic!("the target is missing"),
    }
}

#[test]
fn circle_of_references_is_detected() {
    let (repository, mut files) = repo();
    put(&mut files, "/work/.git/refs/heads/a", "ref: refs/heads/b\n");
    put(&mut files, "/work/.git/refs/heads/b", "ref: refs/heads/a\n");
    assert!(matches!(repository.ref_resolve(&files, "a"), Err(RepError::CycleDetected)));
    put(&mut files, "/work/.git/refs/heads/master", "ref: refs/heads/master\n");
    assert!(matches!(repository.ref_resolve(&files, "HEAD"), Err(RepError::CycleDetected)));
}

#[test]
fn references_are_listed_branches_first() {
    let (repository, mut files) = repo();
    put(&mut files, "/work/.git/refs/tags/v1", &format!("{}\n", OTHER));
    put(&mut files, "/work/.git/refs/heads/master", "old\n");
    put(&mut files, "/work/.git/refs/heads/dev", &format!("  {}\n", OTHER));
    put(&mut files, "/work/.git/refs/heads/master", &format!("{}\n", HASH));
    files.create_dir("/work/.git/refs/heads/group".to_string());
    put(&mut files, "/work/.git/refs/heads/group/inner", HASH);
    let refs = repository.get_refs(&files);
    assert_eq!(
        refs,
        vec![
            ("refs/heads/dev".to_string(), OTHER.to_string()),
            ("refs/heads/master".to_string(), HASH.to_string()),
            ("refs/tags/v1".to_string(), OTHER.to_string()),
        ]
    );
    let (empty, files) = repo();
    assert!(empty.get_refs(&files).is_empty());
}
