//! The object store: objects kept as zlib streams of their framed form, in
//! files named by their hash.
use vstd::prelude::*;
use vstd::string::StringExecFns;
use crate::codec::{decode_frame, frame, unframe, FrameError, ObjectKind};
use crate::digest::{deflate, inflate, zlib_deflated, zlib_inflated};
use crate::files::{Entry, Files};
use crate::hex::{hex_digit, hex_of};
use crate::objects::{
    entry_views, hash_of, lemma_object_model, Blob, EntryModel, Object, ObjectModel, Tree,
    TreeEntry,
};
use crate::repository::{can_split, object_path, splittable, Repository};
use crate::text::{chars_of, slice_of, text_of};
use crate::tree::{parse_entries, raw_models, read_entries, RawEntry, RawEntryModel};

verus! {

/// Why an object could not be read.
#[derive(Clone, Copy, Debug, PartialEq, Eq, Structural)]
pub enum ObjectError {
    /// The hash cannot be split into a directory name and a file name.
    InvalidHash,
    /// No file stands where the hash points.
    MissingObject,
    /// The file is not a well-formed zlib stream.
    CorruptStream,
    /// The framing of the decompressed bytes is ill-formed.
    MalformedFraming,
    /// The kind tag names none of the four kinds.
    UnrecognizedObjectKind,
    /// An entry of a tree payload is cut short or is not text.
    MalformedTree,
    /// Trees are nested deeper than the bound.
    NestingTooDeep,
}

/// The directory of the object file for a hash.
pub open spec fn object_dir(gitdir: Seq<char>, sha: Seq<char>) -> Seq<char> {
    gitdir + "/objects/"@ + sha.take(2)
}

/// The framed bytes stored under a hash.
pub open spec fn stored(files: Map<Seq<char>, Entry>, gitdir: Seq<char>, sha: Seq<char>) -> Result<
    Seq<u8>,
    ObjectError,
> {
    let path = object_path(gitdir, sha);
    if !splittable(sha) {
        Err(ObjectError::InvalidHash)
    } else if !files.contains_key(path) {
        Err(ObjectError::MissingObject)
    } else {
        match files[path] {
            Entry::Dir => Err(ObjectError::MissingObject),
            Entry::File(stream) => match zlib_inflated(stream) {
                None => Err(ObjectError::CorruptStream),
                Some(raw) => Ok(raw),
            },
        }
    }
}

/// The entries of the tree with the given payload. They are read from the
/// payload, all of them first; then the object of each is loaded from the
/// store, in order, each at most `depth - 1` trees deep.
pub open spec fn tree_entries(
    files: Map<Seq<char>, Entry>,
    gitdir: Seq<char>,
    data: Seq<u8>,
    depth: nat,
) -> Result<Seq<EntryModel>, ObjectError>
    decreases depth, 0nat,
{
    match parse_entries(data) {
        None => Err(ObjectError::MalformedTree),
        Some(raws) => if raws.len() == 0 {
            Ok(Seq::empty())
        } else if depth == 0 {
            Err(ObjectError::NestingTooDeep)
        } else {
            load_entries(files, gitdir, raws, (depth - 1) as nat)
        },
    }
}

/// The object that framed bytes hold; the objects of a tree's entries are
/// loaded from the store.
pub open spec fn deserialize_model(
    files: Map<Seq<char>, Entry>,
    gitdir: Seq<char>,
    raw: Seq<u8>,
    depth: nat,
) -> Result<ObjectModel, ObjectError>
    decreases depth, 1nat,
{
    match unframe(raw) {
        Err(FrameError::MalformedFraming) => Err(ObjectError::MalformedFraming),
        Err(FrameError::UnrecognizedObjectKind) => Err(ObjectError::UnrecognizedObjectKind),
        Ok((kind, data)) => if kind != ObjectKind::Tree {
            Ok(ObjectModel { kind, data, entries: Seq::empty() })
        } else {
            match tree_entries(files, gitdir, data, depth) {
                Err(e) => Err(e),
                Ok(entries) => Ok(ObjectModel { kind, data, entries }),
            }
        },
    }
}

/// The entries of a tree with their objects loaded, in order; the first
/// object that cannot be loaded decides the error.
pub open spec fn load_entries(
    files: Map<Seq<char>, Entry>,
    gitdir: Seq<char>,
    raws: Seq<RawEntryModel>,
    depth: nat,
) -> Result<Seq<EntryModel>, ObjectError>
    decreases depth, raws.len() + 2,
{
    if raws.len() == 0 {
        Ok(Seq::empty())
    } else {
        match load_model(files, gitdir, raws[0].sha, depth) {
            Err(e) => Err(e),
            Ok(object) => match load_entries(files, gitdir, raws.skip(1), depth) {
                Err(e) => Err(e),
                Ok(rest) => Ok(
                    seq![
                        EntryModel {
                            mode: raws[0].mode,
                            name: raws[0].name,
                            sha: raws[0].sha,
                            object,
                        },
                    ] + rest,
                ),
            },
        }
    }
}

/// The object stored under a hash.
pub open spec fn load_model(
    files: Map<Seq<char>, Entry>,
    gitdir: Seq<char>,
    sha: Seq<char>,
    depth: nat,
) -> Result<ObjectModel, ObjectError>
    decreases depth, 2nat,
{
    match stored(files, gitdir, sha) {
        Err(e) => Err(e),
        Ok(raw) => deserialize_model(files, gitdir, raw, depth),
    }
}

/// The store after an object of the given kind and payload was saved: its
/// directory stands, and its file holds the zlib stream of the framed form.
pub open spec fn saved(
    files: Map<Seq<char>, Entry>,
    gitdir: Seq<char>,
    kind: ObjectKind,
    data: Seq<u8>,
) -> Map<Seq<char>, Entry> {
    let sha = hash_of(kind, data);
    let dir = object_dir(gitdir, sha);
    let with_file = files.insert(
        object_path(gitdir, sha),
        Entry::File(zlib_deflated(frame(kind, data))),
    );
    if with_file.contains_key(dir) {
        with_file
    } else {
        with_file.insert(dir, Entry::Dir)
    }
}

/// Saving an object a second time changes nothing.
pub proof fn lemma_save_idempotent(
    files: Map<Seq<char>, Entry>,
    gitdir: Seq<char>,
    kind: ObjectKind,
    data: Seq<u8>,
)
    ensures
        saved(saved(files, gitdir, kind, data), gitdir, kind, data) == saved(
            files,
            gitdir,
            kind,
            data,
        ),
{
    let once = saved(files, gitdir, kind, data);
    let path = object_path(gitdir, hash_of(kind, data));
    assert(once.insert(path, once[path]) =~= once);
    assert(saved(once, gitdir, kind, data) =~= once);
}

/// An object that is no tree is built back from its framed form, whatever
/// the store holds.
pub proof fn lemma_deserialize_frame(
    files: Map<Seq<char>, Entry>,
    gitdir: Seq<char>,
    kind: ObjectKind,
    data: Seq<u8>,
    depth: nat,
)
    requires
        data.len() <= usize::MAX,
        kind != ObjectKind::Tree,
    ensures
        deserialize_model(files, gitdir, frame(kind, data), depth) == Ok::<
            ObjectModel,
            ObjectError,
        >(ObjectModel { kind, data, entries: Seq::empty() }),
{
    crate::codec::lemma_unframe_frame(kind, data);
}

/// A hash in hexadecimal can be split into directory and file name.
pub proof fn lemma_hex_splittable(bytes: Seq<u8>)
    requires
        bytes.len() >= 1,
    ensures
        splittable(hex_of(bytes)),
{
    let h = hex_of(bytes);
    assert(h[0] == hex_digit(bytes[0] as int / 16));
    assert(h[1] == hex_digit(bytes[0] as int % 16));
}


/// The entries loaded so far, followed by those still to load.
pub open spec fn loaded_then(
    done: Seq<EntryModel>,
    rest: Result<Seq<EntryModel>, ObjectError>,
) -> Result<Seq<EntryModel>, ObjectError> {
    match rest {
        Err(e) => Err(e),
        Ok(r) => Ok(done + r),
    }
}

impl Repository {
    /// The directory of the object file for a hash.
    pub fn get_object_dir(&self, sha: &str) -> (dir: String)
        requires
            splittable(sha@),
        ensures
            dir@ == object_dir(self.gitdir(), sha@),
    {
        let cs = chars_of(sha);
        let head = text_of(&slice_of(&cs, 0, 2));
        let mut dir = self.get_gitdir().clone();
        dir.append("/objects/");
        dir.append(head.as_str());
        dir
    }
}

impl Blob {
    /// The blob that holds the content of the file at the path, if a file
    /// stands there.
    pub fn from_file(files: &Files, path: &str) -> (r: Option<Object>)
        ensures
            match r {
                Some(o) => files@.contains_key(path@) && files@[path@] == Entry::File(o@.data)
                    && o@.kind == ObjectKind::Blob && o@.entries.len() == 0,
                None => !files.has_file(path@),
            },
    {
        match files.read(path) {
            Some(data) => {
                let copy = data.clone();
                assert(copy@ =~= data@);
                Some(Blob::from_bytes(copy))
            },
            None => None,
        }
    }
}

impl Tree {
    /// Builds the tree of a payload: reads its entries and loads the object
    /// of each from the store, at most `depth - 1` trees deep. A tree whose
    /// entries cannot all be loaded cannot be built.
    pub fn from_data(data: Vec<u8>, repository: &Repository, files: &Files, depth: usize) -> (r:
        Result<Tree, ObjectError>)
        ensures
            match r {
                Ok(t) => t@ == data@ && tree_entries(
                    files@,
                    repository.gitdir(),
                    data@,
                    depth as nat,
                ) == Ok::<Seq<EntryModel>, ObjectError>(t.entries()),
                Err(e) => tree_entries(files@, repository.gitdir(), data@, depth as nat) == Err::<
                    Seq<EntryModel>,
                    ObjectError,
                >(e),
            },
        decreases depth, 0nat,
    {
        let mut objects: Vec<TreeEntry> = Vec::new();
        let raws = match read_entries(data.as_slice()) {
            Some(raws) => raws,
            None => { return Err(ObjectError::MalformedTree); },
        };
        assert(entry_views(objects@) =~= Seq::<EntryModel>::empty());
        if raws.len() == 0 {
            return Ok(Tree::assemble(data, objects));
        }
        if depth == 0 {
            return Err(ObjectError::NestingTooDeep);
        }
        let ghost all = raw_models(raws@);
        let ghost gitdir = repository.gitdir();
        let ghost below = (depth - 1) as nat;
        let count: usize = raws.len();
        let mut i: usize = 0;
        assert(all.skip(0) =~= all);
        while i < count
            invariant
                i <= count,
                count == raws@.len(),
                depth > 0,
                below == (depth - 1) as nat,
                gitdir == repository.gitdir(),
                all == raw_models(raws@),
                tree_entries(files@, gitdir, data@, depth as nat) == load_entries(
                    files@,
                    gitdir,
                    all,
                    below,
                ),
                load_entries(files@, gitdir, all, below) == loaded_then(
                    entry_views(objects@),
                    load_entries(files@, gitdir, all.skip(i as int), below),
                ),
            decreases count - i,
        {
            let raw = RawEntry {
                mode: raws[i].mode.clone(),
                name: raws[i].name.clone(),
                sha: raws[i].sha.clone(),
            };
            let ghost rest = all.skip(i as int);
            proof {
                assert(raw@ == rest[0]);
                assert(rest.skip(1) =~= all.skip(i + 1));
            }
            let object = match Object::load_within(repository, files, raw.sha.as_str(), depth - 1) {
                Ok(o) => o,
                Err(e) => { return Err(e); },
            };
            let ghost before = entry_views(objects@);
            let entry = TreeEntry::new(raw, object);
            objects.push(entry);
            proof {
                assert(entry_views(objects@) =~= before.push(entry@));
                let tail = load_entries(files@, gitdir, all.skip(i + 1), below);
                if tail is Ok {
                    assert(before + (seq![entry@] + tail.unwrap()) =~= entry_views(objects@)
                        + tail.unwrap());
                }
            }
            i = i + 1;
        }
        assert(entry_views(objects@) + Seq::<EntryModel>::empty() =~= entry_views(objects@));
        Ok(Tree::assemble(data, objects))
    }
}

impl Object {
    /// Reads and decompresses the file that a hash points to.
    pub fn read(repository: &Repository, files: &Files, sha: &str) -> (r: Result<
        Vec<u8>,
        ObjectError,
    >)
        ensures
            match r {
                Ok(raw) => stored(files@, repository.gitdir(), sha@) == Ok::<Seq<u8>, ObjectError>(
                    raw@,
                ),
                Err(e) => stored(files@, repository.gitdir(), sha@) == Err::<Seq<u8>, ObjectError>(
                    e,
                ),
            },
    {
        if !can_split(sha) {
            return Err(ObjectError::InvalidHash);
        }
        let path = repository.get_object_path(sha);
        match files.read(path.as_str()) {
            None => Err(ObjectError::MissingObject),
            Some(stream) => match inflate(stream.as_slice()) {
                None => Err(ObjectError::CorruptStream),
                Some(raw) => Ok(raw),
            },
        }
    }

    /// Builds the object that framed bytes hold, loading the objects of a
    /// tree's entries from the store, at most `depth` trees deep.
    pub fn deserialize(data: Vec<u8>, repository: &Repository, files: &Files, depth: usize) -> (r:
        Result<Object, ObjectError>)
        ensures
            match r {
                Ok(o) => deserialize_model(files@, repository.gitdir(), data@, depth as nat)
                    == Ok::<ObjectModel, ObjectError>(o@),
                Err(e) => deserialize_model(files@, repository.gitdir(), data@, depth as nat)
                    == Err::<ObjectModel, ObjectError>(e),
            },
        decreases depth, 1nat,
    {
        let (kind, payload) = match decode_frame(data.as_slice()) {
            Ok(parts) => parts,
            Err(FrameError::MalformedFraming) => { return Err(ObjectError::MalformedFraming); },
            Err(FrameError::UnrecognizedObjectKind) => {
                return Err(ObjectError::UnrecognizedObjectKind);
            },
        };
        match kind {
            ObjectKind::Tree => match Tree::from_data(payload, repository, files, depth) {
                Err(e) => Err(e),
                Ok(tree) => {
                    let o = Object::Tree(tree);
                    proof {
                        lemma_object_model(o);
                    }
                    Ok(o)
                },
            },
            _ => Ok(Object::assemble(kind, payload, Vec::new())),
        }
    }

    /// Loads the object stored under a hash, with trees at most `depth`
    /// deep.
    pub fn load_within(repository: &Repository, files: &Files, sha: &str, depth: usize) -> (r:
        Result<Object, ObjectError>)
        ensures
            match r {
                Ok(o) => load_model(files@, repository.gitdir(), sha@, depth as nat) == Ok::<
                    ObjectModel,
                    ObjectError,
                >(o@),
                Err(e) => load_model(files@, repository.gitdir(), sha@, depth as nat) == Err::<
                    ObjectModel,
                    ObjectError,
                >(e),
            },
        decreases depth, 2nat,
    {
        match Object::read(repository, files, sha) {
            Err(e) => Err(e),
            Ok(raw) => Object::deserialize(raw, repository, files, depth),
        }
    }

    /// Loads the object stored under a hash. Trees may be nested as deep as
    /// the store has entries, which is as deep as a store without a tree
    /// that contains itself can nest them.
    pub fn load(repository: &Repository, files: &Files, sha: &str) -> (r: Result<
        Object,
        ObjectError,
    >)
        ensures
            match r {
                Ok(o) => load_model(files@, repository.gitdir(), sha@, files.journal().len())
                    == Ok::<ObjectModel, ObjectError>(o@),
                Err(e) => load_model(files@, repository.gitdir(), sha@, files.journal().len())
                    == Err::<ObjectModel, ObjectError>(e),
            },
    {
        Object::load_within(repository, files, sha, files.len())
    }

    /// Saves the object: makes its directory if nothing stands there, and
    /// writes the zlib stream of its framed form to the file that its hash
    /// names. Returns the hash. What was saved can be read back, and an
    /// object that is no tree is loaded back as it was.
    pub fn save(&self, repository: &Repository, files: &mut Files) -> (h: String)
        ensures
            h@ == hash_of(self@.kind, self@.data),
            final(files)@ == saved(old(files)@, repository.gitdir(), self@.kind, self@.data),
            stored(final(files)@, repository.gitdir(), h@) == Ok::<Seq<u8>, ObjectError>(
                frame(self@.kind, self@.data),
            ),
            forall|depth: nat|
                self@.kind != ObjectKind::Tree ==> #[trigger] load_model(
                    final(files)@,
                    repository.gitdir(),
                    h@,
                    depth,
                ) == Ok::<ObjectModel, ObjectError>(self@),
    {
        let data = self.serialize();
        let hash = self.hash();
        let size: usize = self.get_size();
        proof {
            lemma_object_model(*self);
            assert(splittable(hash@)) by {
                let digest = crate::digest::sha1_digest(frame(self@.kind, self@.data));
                assert(hex_of(digest).len() == 2 * digest.len());
                lemma_hex_splittable(digest);
            }
        }
        let path = repository.get_object_path(hash.as_str());
        let dir = repository.get_object_dir(hash.as_str());
        let stream = deflate(data.as_slice());
        assert(path@ =~= dir@ + seq!['/'] + hash@.skip(2));
        assert(path@ != dir@) by {
            assert(path@.len() == dir@.len() + 1 + hash@.skip(2).len());
        }
        if !files.has_path(dir.as_str()) {
            files.create_dir(dir);
        }
        files.write(path, stream);
        assert(files@ =~= saved(old(files)@, repository.gitdir(), self@.kind, self@.data));
        proof {
            if self@.kind != ObjectKind::Tree {
                assert forall|depth: nat|
                    #[trigger] load_model(files@, repository.gitdir(), hash@, depth) == Ok::<
                        ObjectModel,
                        ObjectError,
                    >(self@) by {
                    assert(self@.data.len() == size);
                    lemma_deserialize_frame(
                        files@,
                        repository.gitdir(),
                        self@.kind,
                        self@.data,
                        depth,
                    );
                }
            }
        }
        hash
    }
}

} // verus!
