//! References: names that lead, directly or through other references, to
//! a hash.
use vstd::prelude::*;
use vstd::string::StringExecFns;
use vstd::utf8::{decode_utf8, valid_utf8};
use crate::config::ConfigError;
use crate::files::{Entry, Files};
use crate::repository::Repository;
use crate::files::Node;
use crate::text::{
    chars_of, find_char, find_from, last_piece, piece_after, piece_last, same_text,
    second_piece, slice_of, starts_with, text_of, trim, trimmed, utf8_text,
};

verus! {

/// Why a repository could not be made or opened, or a reference not be
/// resolved.
#[derive(Debug)]
pub enum RepError {
    /// A database directory already stands in the working tree.
    AlreadyExists,
    /// No database directory stands in the working tree.
    NotARepository,
    /// The database directory has no configuration file.
    ConfigFileMissing,
    /// The configuration is refused.
    ConfigError(ConfigError),
    /// The branch that `HEAD` points to has no commit yet.
    NoCommitsInBranch(String),
    /// The name leads to no reference file.
    InvalidReference(String),
    /// The references lead from one to another without end.
    CycleDetected,
}

/// A failure, as a value.
pub enum RepFailure {
    AlreadyExists,
    NotARepository,
    ConfigFileMissing,
    ConfigError(ConfigError),
    NoCommitsInBranch(Seq<char>),
    InvalidReference(Seq<char>),
    CycleDetected,
}

impl View for RepError {
    type V = RepFailure;

    open spec fn view(&self) -> RepFailure {
        match self {
            RepError::AlreadyExists => RepFailure::AlreadyExists,
            RepError::NotARepository => RepFailure::NotARepository,
            RepError::ConfigFileMissing => RepFailure::ConfigFileMissing,
            RepError::ConfigError(e) => RepFailure::ConfigError(*e),
            RepError::NoCommitsInBranch(b) => RepFailure::NoCommitsInBranch(b@),
            RepError::InvalidReference(n) => RepFailure::InvalidReference(n@),
            RepError::CycleDetected => RepFailure::CycleDetected,
        }
    }
}

/// The text of the file at a path, if a file of UTF-8 text stands there.
pub open spec fn text_at(files: Map<Seq<char>, Entry>, path: Seq<char>) -> Option<Seq<char>> {
    if files.contains_key(path) {
        match files[path] {
            Entry::File(data) => if valid_utf8(data) {
                Some(decode_utf8(data))
            } else {
                None
            },
            Entry::Dir => None,
        }
    } else {
        None
    }
}

/// Whether a name stands for the current position.
pub open spec fn is_head(name: Seq<char>) -> bool {
    name == "HEAD"@ || name == "HEAD~"@
}

/// Whether a name is taken as a hash: forty characters that do not begin
/// with `refs/`.
pub open spec fn is_direct(name: Seq<char>) -> bool {
    !is_head(name) && !"refs/"@.is_prefix_of(name) && name.len() == 40
}

/// The path that a short name is found at: the first that exists of the
/// name itself, the name under `refs`, under `refs/heads` and under
/// `refs/tags`, all below the database directory.
pub open spec fn probe(files: Map<Seq<char>, Entry>, gitdir: Seq<char>, name: Seq<char>) -> Option<
    Seq<char>,
> {
    if files.contains_key(gitdir + "/"@ + name) {
        Some(gitdir + "/"@ + name)
    } else if files.contains_key(gitdir + "/refs/"@ + name) {
        Some(gitdir + "/refs/"@ + name)
    } else if files.contains_key(gitdir + "/refs/heads/"@ + name) {
        Some(gitdir + "/refs/heads/"@ + name)
    } else if files.contains_key(gitdir + "/refs/tags/"@ + name) {
        Some(gitdir + "/refs/tags/"@ + name)
    } else {
        None
    }
}

/// The trimmed content of the file that a name leads to. For the current
/// position that is the file that `HEAD` redirects to.
pub open spec fn pointed(files: Map<Seq<char>, Entry>, gitdir: Seq<char>, name: Seq<char>) -> Result<
    Seq<char>,
    RepFailure,
> {
    if is_head(name) {
        match text_at(files, gitdir + "/HEAD"@) {
            None => Err(RepFailure::InvalidReference(name)),
            Some(head) => match second_piece(trim(head), ':') {
                None => Err(RepFailure::InvalidReference(name)),
                Some(target) => {
                    let path = gitdir + "/"@ + trim(target);
                    match text_at(files, path) {
                        None => Err(RepFailure::NoCommitsInBranch(last_piece(path, '/'))),
                        Some(text) => Ok(trim(text)),
                    }
                },
            },
        }
    } else {
        match probe(files, gitdir, name) {
            None => Err(RepFailure::InvalidReference(name)),
            Some(path) => match text_at(files, path) {
                None => Err(RepFailure::InvalidReference(name)),
                Some(text) => Ok(trim(text)),
            },
        }
    }
}

/// The hash that a name leads to, following at most `fuel` redirects.
pub open spec fn resolve(
    files: Map<Seq<char>, Entry>,
    gitdir: Seq<char>,
    name: Seq<char>,
    fuel: nat,
) -> Result<Seq<char>, RepFailure>
    decreases fuel,
{
    if is_direct(name) {
        Ok(name)
    } else {
        match pointed(files, gitdir, name) {
            Err(e) => Err(e),
            Ok(content) => if "ref: "@.is_prefix_of(content) {
                if fuel == 0 {
                    Err(RepFailure::CycleDetected)
                } else {
                    resolve(
                        files,
                        gitdir,
                        trim(second_piece(content, ':').unwrap()),
                        (fuel - 1) as nat,
                    )
                }
            } else {
                Ok(content)
            },
        }
    }
}

/// The text of the file at a path, as characters.
pub fn read_text(files: &Files, path: &str) -> (r: Option<Vec<char>>)
    ensures
        match r {
            Some(t) => text_at(files@, path@) == Some(t@),
            None => text_at(files@, path@) is None,
        },
{
    match files.read(path) {
        None => None,
        Some(data) => match utf8_text(data.as_slice()) {
            None => None,
            Some(text) => Some(chars_of(text.as_str())),
        },
    }
}

/// The path made of a directory, a joint and a name.
pub fn join(dir: &str, joint: &str, name: &str) -> (path: String)
    ensures
        path@ == dir@ + joint@ + name@,
{
    let mut path = dir.to_owned();
    path.append(joint);
    path.append(name);
    path
}

/// The path made of a directory and what follows it.
pub fn below(dir: &str, rest: &str) -> (path: String)
    ensures
        path@ == dir@ + rest@,
{
    let mut path = dir.to_owned();
    path.append(rest);
    path
}

impl Repository {
    /// The path that a short name is found at.
    pub fn probe_path(&self, files: &Files, name: &str) -> (r: Option<String>)
        ensures
            match r {
                Some(p) => probe(files@, self.gitdir(), name@) == Some(p@),
                None => probe(files@, self.gitdir(), name@) is None,
            },
    {
        let gitdir = self.get_gitdir().as_str();
        let plain = join(gitdir, "/", name);
        if files.has_path(plain.as_str()) {
            return Some(plain);
        }
        let under_refs = join(gitdir, "/refs/", name);
        if files.has_path(under_refs.as_str()) {
            return Some(under_refs);
        }
        let under_heads = join(gitdir, "/refs/heads/", name);
        if files.has_path(under_heads.as_str()) {
            return Some(under_heads);
        }
        let under_tags = join(gitdir, "/refs/tags/", name);
        if files.has_path(under_tags.as_str()) {
            return Some(under_tags);
        }
        None
    }

    /// The trimmed content of the file that a name leads to.
    pub fn read_pointed(&self, files: &Files, name: &str) -> (r: Result<Vec<char>, RepError>)
        ensures
            match r {
                Ok(c) => pointed(files@, self.gitdir(), name@) == Ok::<Seq<char>, RepFailure>(c@),
                Err(e) => pointed(files@, self.gitdir(), name@) == Err::<Seq<char>, RepFailure>(
                    e@,
                ),
            },
    {
        let gitdir = self.get_gitdir().as_str();
        if same_text(name, "HEAD") || same_text(name, "HEAD~") {
            let head = match read_text(files, below(gitdir, "/HEAD").as_str()) {
                Some(h) => h,
                None => { return Err(RepError::InvalidReference(name.to_owned())); },
            };
            let target = match piece_after(&trimmed(&head), ':') {
                Some(t) => t,
                None => { return Err(RepError::InvalidReference(name.to_owned())); },
            };
            let path = join(gitdir, "/", text_of(&trimmed(&target)).as_str());
            match read_text(files, path.as_str()) {
                Some(text) => Ok(trimmed(&text)),
                None => Err(
                    RepError::NoCommitsInBranch(text_of(&piece_last(&chars_of(path.as_str()), '/'))),
                ),
            }
        } else {
            let path = match self.probe_path(files, name) {
                Some(p) => p,
                None => { return Err(RepError::InvalidReference(name.to_owned())); },
            };
            match read_text(files, path.as_str()) {
                Some(text) => Ok(trimmed(&text)),
                None => Err(RepError::InvalidReference(name.to_owned())),
            }
        }
    }

    /// Resolves a name to a hash. `HEAD` and `HEAD~` go through the file
    /// that `HEAD` redirects to; a name of forty characters that does not
    /// begin with `refs/` is taken as a hash; any other name is looked up
    /// under the database directory. A reference that redirects is followed,
    /// for at most as many redirects as the snapshot has entries: more
    /// can only be met where references lead in a circle.
    pub fn ref_resolve(&self, files: &Files, reference: &str) -> (r: Result<String, RepError>)
        ensures
            match r {
                Ok(h) => resolve(files@, self.gitdir(), reference@, files.journal().len()) == Ok::<
                    Seq<char>,
                    RepFailure,
                >(h@),
                Err(e) => resolve(files@, self.gitdir(), reference@, files.journal().len())
                    == Err::<Seq<char>, RepFailure>(e@),
            },
    {
        let mut name = reference.to_owned();
        let mut fuel: usize = files.len();
        let redirect = chars_of("ref: ");
        let refs_prefix = chars_of("refs/");
        loop
            invariant
                redirect@ == "ref: "@,
                refs_prefix@ == "refs/"@,
                resolve(files@, self.gitdir(), reference@, files.journal().len()) == resolve(
                    files@,
                    self.gitdir(),
                    name@,
                    fuel as nat,
                ),
            decreases fuel,
        {
            let cs = chars_of(name.as_str());
            let head = same_text(name.as_str(), "HEAD") || same_text(name.as_str(), "HEAD~");
            if !head && !starts_with(&cs, &refs_prefix) && cs.len() == 40 {
                return Ok(name);
            }
            let content = match self.read_pointed(files, name.as_str()) {
                Ok(c) => c,
                Err(e) => { return Err(e); },
            };
            if !starts_with(&content, &redirect) {
                return Ok(text_of(&content));
            }
            if fuel == 0 {
                return Err(RepError::CycleDetected);
            }
            let first = find_char(&content, ':', 0);
            proof {
                reveal_strlit("ref: ");
                assert("ref: "@[3] == ':');
                assert(content@.subrange(0, 5)[3] == ':');
                crate::text::lemma_find_from(content@, ':', 0);
                crate::text::lemma_find_from(content@, ':', first + 1);
            }
            let next = find_char(&content, ':', first + 1);
            name = text_of(&trimmed(&slice_of(&content, first + 1, next)));
            fuel = fuel - 1;
        }
    }
}

/// The name of a path directly below a directory, if it stands there: the
/// path is the directory, a `/` and a name without a `/`.
pub open spec fn child_name(dir: Seq<char>, path: Seq<char>) -> Option<Seq<char>> {
    let name = path.skip(dir.len() as int + 1);
    if (dir + seq!['/']).is_prefix_of(path) && name.len() > 0 && find_from(name, '/', 0)
        >= name.len() {
        Some(name)
    } else {
        None
    }
}

/// Whether the change at index `i` of a journal is the last for its path.
pub open spec fn is_latest(journal: Seq<(Seq<char>, Entry)>, i: int) -> bool {
    forall|j: int| i < j < journal.len() ==> (#[trigger] journal[j]).0 != journal[i].0
}

/// The references directly below a directory among the first `upto`
/// changes of a journal, in the order in which their files were last
/// written: for each file of UTF-8 text, the label followed by the name of
/// the file, and the trimmed content.
pub open spec fn listed(
    journal: Seq<(Seq<char>, Entry)>,
    dir: Seq<char>,
    label: Seq<char>,
    upto: int,
) -> Seq<(Seq<char>, Seq<char>)>
    decreases upto,
{
    if upto <= 0 || upto > journal.len() {
        Seq::empty()
    } else {
        let before = listed(journal, dir, label, upto - 1);
        let (path, entry) = journal[upto - 1];
        match (child_name(dir, path), entry) {
            (Some(name), Entry::File(data)) => if is_latest(journal, upto - 1) && valid_utf8(data) {
                before.push((label + name, trim(decode_utf8(data))))
            } else {
                before
            },
            _ => before,
        }
    }
}

/// All references: the branches, then the tags.
pub open spec fn all_refs(journal: Seq<(Seq<char>, Entry)>, gitdir: Seq<char>) -> Seq<
    (Seq<char>, Seq<char>),
> {
    listed(journal, gitdir + "/refs/heads"@, "refs/heads/"@, journal.len() as int) + listed(
        journal,
        gitdir + "/refs/tags"@,
        "refs/tags/"@,
        journal.len() as int,
    )
}

/// Pairs of texts, as values.
pub open spec fn pairs(list: Seq<(String, String)>) -> Seq<(Seq<char>, Seq<char>)> {
    Seq::new(list.len(), |i: int| (list[i].0@, list[i].1@))
}

/// The name of a path directly below a directory.
pub fn name_below(dir: &Vec<char>, path: &Vec<char>) -> (r: Option<Vec<char>>)
    ensures
        match r {
            Some(n) => child_name(dir@, path@) == Some(n@),
            None => child_name(dir@, path@) is None,
        },
{
    if dir.len() >= path.len() {
        return None;
    }
    if !starts_with(path, dir) || path[dir.len()] != '/' {
        proof {
            if (dir@ + seq!['/']).is_prefix_of(path@) {
                let joined = dir@ + seq!['/'];
                assert(joined =~= path@.subrange(0, joined.len() as int));
                assert(path@[dir@.len() as int] == joined[dir@.len() as int]);
                assert(dir@ =~= path@.subrange(0, dir@.len() as int)) by {
                    assert forall|k: int| 0 <= k < dir@.len() implies dir@[k] == path@[k] by {
                        assert(joined[k] == path@.subrange(0, joined.len() as int)[k]);
                    }
                }
            }
        }
        return None;
    }
    proof {
        let joined = dir@ + seq!['/'];
        assert(joined =~= path@.subrange(0, joined.len() as int)) by {
            assert(dir@ =~= path@.subrange(0, dir@.len() as int));
            assert forall|k: int| 0 <= k < joined.len() implies joined[k] == path@[k] by {
                if k < dir@.len() {
                    assert(dir@[k] == path@.subrange(0, dir@.len() as int)[k]);
                }
            }
        }
    }
    let name = slice_of(path, dir.len() + 1, path.len());
    assert(name@ =~= path@.skip(dir@.len() as int + 1));
    if name.len() == 0 || find_char(&name, '/', 0) < name.len() {
        return None;
    }
    Some(name)
}

impl Repository {
    /// The references directly below a directory of the database.
    pub fn list_refs(&self, files: &Files, dir: &str, label: &str) -> (refs: Vec<(String, String)>)
        ensures
            pairs(refs@) == listed(files.journal(), dir@, label@, files.journal().len() as int),
    {
        let mut refs: Vec<(String, String)> = Vec::new();
        let dir_chars = chars_of(dir);
        let mut i: usize = 0;
        assert(pairs(refs@) =~= listed(files.journal(), dir@, label@, 0));
        while i < files.len()
            invariant
                i <= files.journal().len(),
                dir_chars@ == dir@,
                pairs(refs@) == listed(files.journal(), dir@, label@, i as int),
            decreases files.journal().len() - i,
        {
            let path = files.path_at(i);
            let ghost before = pairs(refs@);
            match name_below(&dir_chars, &chars_of(path.as_str())) {
                None => {},
                Some(name) => match files.node_at(i) {
                    Node::Dir => {},
                    Node::File(data) => {
                        let latest = files.latest(path.as_str());
                        let is_last = match latest {
                            Some(k) => k == i,
                            None => false,
                        };
                        assert(is_last == is_latest(files.journal(), i as int));
                        if is_last {
                            match utf8_text(data.as_slice()) {
                                None => {},
                                Some(text) => {
                                    let mut full = label.to_owned();
                                    full.append(text_of(&name).as_str());
                                    let hash = text_of(&trimmed(&chars_of(text.as_str())));
                                    refs.push((full, hash));
                                    assert(pairs(refs@) =~= before.push(
                                        (label@ + name@, trim(decode_utf8(data@))),
                                    ));
                                },
                            }
                        }
                    },
                },
            }
            i = i + 1;
        }
        refs
    }

    /// All references with what they hold: the branches, then the tags.
    pub fn get_refs(&self, files: &Files) -> (refs: Vec<(String, String)>)
        ensures
            pairs(refs@) == all_refs(files.journal(), self.gitdir()),
    {
        let gitdir = self.get_gitdir().as_str();
        let heads_dir = below(gitdir, "/refs/heads");
        let tags_dir = below(gitdir, "/refs/tags");
        let mut refs = self.list_refs(files, heads_dir.as_str(), "refs/heads/");
        let mut tags = self.list_refs(files, tags_dir.as_str(), "refs/tags/");
        let ghost heads = pairs(refs@);
        let ghost rest = pairs(tags@);
        refs.append(&mut tags);
        assert(pairs(refs@) =~= heads + rest);
        refs
    }
}

} // verus!
