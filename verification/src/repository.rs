//! The repository handle: where the working tree and the object and
//! reference database stand.
use vstd::prelude::*;
use vstd::string::StringExecFns;
use vstd::string::StrSliceExecFns;
use crate::config::{config_document, parse_config_bytes, Config, ConfigError, ConfigModel};
use crate::files::{Entry, Files};
use crate::refs::{below, RepError, RepFailure};
use crate::text::{chars_of, last_piece, piece_last, same_text, slice_of, text_of};

verus! {

/// The working tree root and, beside it, the database directory.
#[derive(Debug)]
pub struct Repository {
    workdir: String,
    gitdir: String,
    config: Config,
}

/// Whether a hash can be split into a two-character directory name and a
/// file name.
pub open spec fn splittable(sha: Seq<char>) -> bool {
    sha.len() >= 2 && (sha[0] as u32) < 128 && (sha[1] as u32) < 128
}

/// The path of the object file for a hash under a database directory.
pub open spec fn object_path(gitdir: Seq<char>, sha: Seq<char>) -> Seq<char> {
    gitdir + "/objects/"@ + sha.take(2) + seq!['/'] + sha.skip(2)
}

/// Whether a hash can be split into a directory name and a file name.
pub fn can_split(sha: &str) -> (r: bool)
    ensures
        r == splittable(sha@),
{
    let cs = chars_of(sha);
    cs.len() >= 2 && (cs[0] as u32) < 128 && (cs[1] as u32) < 128
}

impl Repository {
    /// The working tree root.
    pub closed spec fn workdir(&self) -> Seq<char> {
        self.workdir@
    }

    /// The database directory.
    pub closed spec fn gitdir(&self) -> Seq<char> {
        self.gitdir@
    }

    /// Whether the database directory is the `.git` directory of the
    /// working tree root.
    pub open spec fn wf(&self) -> bool {
        self.gitdir() == self.workdir() + "/.git"@
    }

    /// The working tree root.
    pub fn get_workdir(&self) -> (w: &String)
        ensures
            w@ == self.workdir(),
    {
        &self.workdir
    }

    /// The database directory.
    pub fn get_gitdir(&self) -> (g: &String)
        ensures
            g@ == self.gitdir(),
    {
        &self.gitdir
    }

    /// The path of the object file for a hash: under `objects`, a directory
    /// named by the first two characters, and in it a file named by the rest.
    pub fn get_object_path(&self, sha: &str) -> (path: String)
        requires
            splittable(sha@),
        ensures
            path@ == object_path(self.gitdir(), sha@),
    {
        let cs = chars_of(sha);
        let head = text_of(&slice_of(&cs, 0, 2));
        let tail = text_of(&slice_of(&cs, 2, cs.len()));
        let mut path = self.gitdir.clone();
        path.append("/objects/");
        path.append(head.as_str());
        path.push('/');
        path.append(tail.as_str());
        assert(path@ =~= object_path(self.gitdir(), sha@));
        path
    }
}

/// The settings of a fresh repository.
pub open spec fn fresh_config() -> ConfigModel {
    ConfigModel { bare: false, repository_format_version: 0, file_mode: false }
}

/// The text of the description file of a fresh repository.
pub open spec fn description_text() -> Seq<char> {
    "Unnamed repository; edit this file 'description' to name the repository.\n"@
}

/// The file tree after a repository was made in a working tree: the
/// database directory with `objects`, `refs`, `refs/heads`, `refs/tags`
/// and `branches` in it, the description, `HEAD` pointing to the branch
/// `master`, and the configuration of a fresh repository.
pub open spec fn initialized(files: Map<Seq<char>, Entry>, workdir: Seq<char>) -> Map<
    Seq<char>,
    Entry,
> {
    let gitdir = workdir + "/.git"@;
    files.insert(gitdir, Entry::Dir).insert(gitdir + "/objects"@, Entry::Dir).insert(
        gitdir + "/refs"@,
        Entry::Dir,
    ).insert(gitdir + "/refs/heads"@, Entry::Dir).insert(gitdir + "/refs/tags"@, Entry::Dir).insert(
        gitdir + "/branches"@,
        Entry::Dir,
    ).insert(
        gitdir + "/description"@,
        Entry::File(vstd::utf8::encode_utf8(description_text())),
    ).insert(
        gitdir + "/HEAD"@,
        Entry::File(vstd::utf8::encode_utf8("ref: refs/heads/master\n"@)),
    ).insert(gitdir + "/config"@, Entry::File(config_document(fresh_config())))
}

/// The settings of the repository in a working tree, or why it cannot be
/// opened.
pub open spec fn opened(files: Map<Seq<char>, Entry>, workdir: Seq<char>) -> Result<
    ConfigModel,
    RepFailure,
> {
    let gitdir = workdir + "/.git"@;
    let config = gitdir + "/config"@;
    if !files.contains_key(gitdir) {
        Err(RepFailure::NotARepository)
    } else if !files.contains_key(config) {
        Err(RepFailure::ConfigFileMissing)
    } else {
        match files[config] {
            Entry::Dir => Err(RepFailure::ConfigError(ConfigError::Malformed)),
            Entry::File(data) => match parse_config_bytes(data) {
                Err(e) => Err(RepFailure::ConfigError(e)),
                Ok(c) => Ok(c),
            },
        }
    }
}

/// The directory that holds a path: the path up to its last `/`, and the
/// root for a path directly below it.
pub open spec fn parent_of(path: Seq<char>) -> Seq<char> {
    let cut = path.len() - last_piece(path, '/').len() - 1;
    if cut < 0 {
        Seq::empty()
    } else if cut == 0 {
        seq!['/']
    } else {
        path.take(cut)
    }
}

/// The working tree root found from a directory: the first, going from the
/// directory up to the root, that holds a database directory, and otherwise
/// where the way up ends.
pub open spec fn discover(files: Map<Seq<char>, Entry>, dir: Seq<char>) -> Seq<char>
    decreases dir.len(),
{
    if dir == seq!['/'] || files.contains_key(dir + "/.git"@) || parent_of(dir).len() >= dir.len() {
        dir
    } else {
        discover(files, parent_of(dir))
    }
}

/// The directory that holds a path.
pub fn parent_dir(path: &str) -> (dir: String)
    ensures
        dir@ == parent_of(path@),
{
    let cs = chars_of(path);
    let last = piece_last(&cs, '/');
    if last.len() >= cs.len() {
        proof {
            lemma_last_piece_len(cs@, '/');
        }
        let dir = String::new();
        dir
    } else {
        let cut: usize = cs.len() - last.len() - 1;
        if cut == 0 {
            let mut dir = String::new();
            dir.push('/');
            assert(dir@ =~= seq!['/']);
            dir
        } else {
            text_of(&slice_of(&cs, 0, cut))
        }
    }
}

/// The last piece of a text is no longer than the text.
pub proof fn lemma_last_piece_len(s: Seq<char>, sep: char)
    ensures
        last_piece(s, sep).len() <= s.len(),
    decreases s.len(),
{
    if s.len() > 0 && s.last() != sep {
        lemma_last_piece_len(s.drop_last(), sep);
    }
}

/// Finds the working tree root from a directory.
pub fn find_repository_root(files: &Files, start: &str) -> (root: String)
    ensures
        root@ == discover(files@, start@),
{
    let mut dir = start.to_owned();
    loop
        invariant
            discover(files@, start@) == discover(files@, dir@),
        decreases dir@.len(),
    {
        proof {
            reveal_strlit("/");
            assert("/"@ =~= seq!['/']);
        }
        if same_text(dir.as_str(), "/") {
            return dir;
        }
        if files.has_path(below(dir.as_str(), "/.git").as_str()) {
            return dir;
        }
        let parent = parent_dir(dir.as_str());
        if parent.as_str().unicode_len() >= dir.as_str().unicode_len() {
            return dir;
        }
        dir = parent;
    }
}

impl Repository {
    /// The settings.
    pub closed spec fn config(&self) -> ConfigModel {
        self.config@
    }

    /// The settings.
    pub fn get_config(&self) -> (c: &Config)
        ensures
            c@ == self.config(),
    {
        &self.config
    }

    /// Makes a repository in a working tree: the one at the path, or
    /// without a path the given directory. Where a database directory
    /// already stands, nothing is changed.
    pub fn init(files: &mut Files, path: Option<String>, current_dir: &str) -> (r: Result<
        Repository,
        RepError,
    >)
        ensures
            ({
                let workdir = match path {
                    Some(p) => p@,
                    None => current_dir@,
                };
                match r {
                    Ok(repository) => {
                        &&& !old(files)@.contains_key(workdir + "/.git"@)
                        &&& repository.workdir() == workdir
                        &&& repository.wf()
                        &&& repository.config() == fresh_config()
                        &&& final(files)@ == initialized(old(files)@, workdir)
                    },
                    Err(e) => {
                        &&& e@ == RepFailure::AlreadyExists
                        &&& old(files)@.contains_key(workdir + "/.git"@)
                        &&& final(files)@ == old(files)@
                        &&& final(files).journal() == old(files).journal()
                    },
                }
            }),
    {
        let workdir = match path {
            Some(p) => p,
            None => current_dir.to_owned(),
        };
        let gitdir = below(workdir.as_str(), "/.git");
        if files.has_path(gitdir.as_str()) {
            return Err(RepError::AlreadyExists);
        }
        let repository = Repository { workdir, gitdir, config: Config::default() };
        let g = repository.gitdir.as_str();
        files.create_dir(g.to_owned());
        files.create_dir(below(g, "/objects"));
        files.create_dir(below(g, "/refs"));
        files.create_dir(below(g, "/refs/heads"));
        files.create_dir(below(g, "/refs/tags"));
        files.create_dir(below(g, "/branches"));
        files.write(
            below(g, "/description"),
            "Unnamed repository; edit this file 'description' to name the repository.\n".as_bytes_vec(),
        );
        files.write(below(g, "/HEAD"), "ref: refs/heads/master\n".as_bytes_vec());
        files.write(below(g, "/config"), repository.config.dump());
        assert(files@ =~= initialized(old(files)@, repository.workdir@));
        Ok(repository)
    }

    /// Opens the repository of a working tree. Without a path, the working
    /// tree is found from the given directory, going up.
    pub fn load(files: &Files, path: Option<String>, current_dir: &str) -> (r: Result<
        Repository,
        RepError,
    >)
        ensures
            ({
                let workdir = match path {
                    Some(p) => p@,
                    None => discover(files@, current_dir@),
                };
                match r {
                    Ok(repository) => {
                        &&& repository.workdir() == workdir
                        &&& repository.wf()
                        &&& opened(files@, workdir) == Ok::<ConfigModel, RepFailure>(
                            repository.config(),
                        )
                    },
                    Err(e) => opened(files@, workdir) == Err::<ConfigModel, RepFailure>(e@),
                }
            }),
    {
        let workdir = match path {
            Some(p) => p,
            None => find_repository_root(files, current_dir),
        };
        let gitdir = below(workdir.as_str(), "/.git");
        let config_path = below(gitdir.as_str(), "/config");
        if !files.has_path(gitdir.as_str()) {
            return Err(RepError::NotARepository);
        }
        if !files.has_path(config_path.as_str()) {
            return Err(RepError::ConfigFileMissing);
        }
        let config = match files.read(config_path.as_str()) {
            None => { return Err(RepError::ConfigError(ConfigError::Malformed)); },
            Some(data) => match Config::load(data.as_slice()) {
                Err(e) => { return Err(RepError::ConfigError(e)); },
                Ok(c) => c,
            },
        };
        Ok(Repository { workdir, gitdir, config })
    }
}

} // verus!
