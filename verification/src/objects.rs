//! The four kinds of object, their wire form and their hash.
use vstd::prelude::*;
use crate::codec::{encode_frame, frame, ObjectKind};
use crate::digest::{sha1_digest, sha1_of};
use crate::hex::{hex_chars, hex_of};
use crate::text::text_of;
use crate::tree::RawEntry;

verus! {

/// What an object is, as a value: its kind, its payload and, for a tree,
/// its entries in payload order.
pub struct ObjectModel {
    pub kind: ObjectKind,
    pub data: Seq<u8>,
    pub entries: Seq<EntryModel>,
}

/// What a tree entry is, as a value.
pub struct EntryModel {
    pub mode: Seq<char>,
    pub name: Seq<char>,
    pub sha: Seq<char>,
    pub object: ObjectModel,
}

/// A commit: its payload holds headers and a message.
pub struct Commit {
    data: Vec<u8>,
    size: usize,
}

/// Raw file content.
pub struct Blob {
    data: Vec<u8>,
    size: usize,
}

/// A tag: its payload holds headers and a message.
pub struct Tag {
    data: Vec<u8>,
    size: usize,
}

/// A directory listing, with the object of each entry loaded.
pub struct Tree {
    data: Vec<u8>,
    size: usize,
    objects: Vec<TreeEntry>,
}

/// One entry of a directory listing.
pub struct TreeEntry {
    mode: String,
    name: String,
    sha: String,
    object: Object,
}

/// A stored object.
pub enum Object {
    Commit(Commit),
    Blob(Blob),
    Tree(Tree),
    Tag(Tag),
}

/// What an object is, as a value.
pub closed spec fn object_model(o: Object) -> ObjectModel
    decreases o,
{
    match o {
        Object::Commit(c) => ObjectModel {
            kind: ObjectKind::Commit,
            data: c.data@,
            entries: Seq::empty(),
        },
        Object::Blob(b) => ObjectModel {
            kind: ObjectKind::Blob,
            data: b.data@,
            entries: Seq::empty(),
        },
        Object::Tag(t) => ObjectModel { kind: ObjectKind::Tag, data: t.data@, entries: Seq::empty() },
        Object::Tree(t) => ObjectModel {
            kind: ObjectKind::Tree,
            data: t.data@,
            entries: entries_model(t.objects@),
        },
    }
}

/// What the entries of a tree are, as values.
pub closed spec fn entries_model(entries: Seq<TreeEntry>) -> Seq<EntryModel>
    decreases entries,
{
    if entries.len() == 0 {
        Seq::empty()
    } else {
        entries_model(entries.drop_last()).push(entry_model(entries.last()))
    }
}

/// What a tree entry is, as a value.
pub closed spec fn entry_model(entry: TreeEntry) -> EntryModel
    decreases entry,
{
    EntryModel {
        mode: entry.mode@,
        name: entry.name@,
        sha: entry.sha@,
        object: object_model(entry.object),
    }
}

/// The hash of an object of the given kind and payload: the SHA-1 digest of
/// its framed form, in lowercase hexadecimal.
pub open spec fn hash_of(kind: ObjectKind, data: Seq<u8>) -> Seq<char> {
    hex_of(sha1_digest(frame(kind, data)))
}

/// The name of a kind.
pub open spec fn kind_name(kind: ObjectKind) -> Seq<char> {
    match kind {
        ObjectKind::Blob => "blob"@,
        ObjectKind::Commit => "commit"@,
        ObjectKind::Tree => "tree"@,
        ObjectKind::Tag => "tag"@,
    }
}

impl View for Object {
    type V = ObjectModel;

    open spec fn view(&self) -> ObjectModel {
        object_model(*self)
    }
}

impl View for TreeEntry {
    type V = EntryModel;

    open spec fn view(&self) -> EntryModel {
        entry_model(*self)
    }
}

impl Blob {
    #[verifier::type_invariant]
    spec fn inv(self) -> bool {
        self.size == self.data@.len()
    }

    /// The content.
    pub closed spec fn view(&self) -> Seq<u8> {
        self.data@
    }

    /// The content.
    pub fn as_bytes(&self) -> (d: &Vec<u8>)
        ensures
            d@ == self@,
    {
        &self.data
    }

    /// The blob that holds the given bytes.
    pub fn from_bytes(data: Vec<u8>) -> (o: Object)
        ensures
            o@ == (ObjectModel { kind: ObjectKind::Blob, data: data@, entries: Seq::empty() }),
    {
        let size = data.len();
        Object::Blob(Blob { data, size })
    }
}

impl Commit {
    #[verifier::type_invariant]
    spec fn inv(self) -> bool {
        self.size == self.data@.len()
    }

    /// The payload.
    pub closed spec fn view(&self) -> Seq<u8> {
        self.data@
    }

    /// The commit that holds the given payload.
    pub fn from_bytes(data: Vec<u8>) -> (c: Commit)
        ensures
            c@ == data@,
    {
        let size = data.len();
        Commit { data, size }
    }

    /// The payload.
    pub fn as_bytes(&self) -> (d: &Vec<u8>)
        ensures
            d@ == self@,
    {
        &self.data
    }

    /// The hash of the commit.
    pub fn hash(&self) -> (h: String)
        ensures
            h@ == hash_of(ObjectKind::Commit, self@),
    {
        hash_payload(ObjectKind::Commit, self.data.as_slice())
    }
}

impl Clone for Commit {
    fn clone(&self) -> (c: Self)
        ensures
            c@ == self@,
    {
        proof {
            use_type_invariant(self);
        }
        let data = self.data.clone();
        assert(data@ =~= self.data@);
        Commit { data, size: self.size }
    }
}

impl Tag {
    #[verifier::type_invariant]
    spec fn inv(self) -> bool {
        self.size == self.data@.len()
    }

    /// The payload.
    pub closed spec fn view(&self) -> Seq<u8> {
        self.data@
    }

    /// The tag that holds the given payload.
    pub fn from_bytes(data: Vec<u8>) -> (t: Tag)
        ensures
            t@ == data@,
    {
        let size = data.len();
        Tag { data, size }
    }

    /// The payload.
    pub fn as_bytes(&self) -> (d: &Vec<u8>)
        ensures
            d@ == self@,
    {
        &self.data
    }
}

impl Tree {
    #[verifier::type_invariant]
    spec fn inv(self) -> bool {
        self.size == self.data@.len()
    }

    /// The entries, as values.
    pub closed spec fn entries(&self) -> Seq<EntryModel> {
        entries_model(self.objects@)
    }

    /// The payload.
    pub closed spec fn view(&self) -> Seq<u8> {
        self.data@
    }

    /// The payload.
    pub fn as_bytes(&self) -> (d: &Vec<u8>)
        ensures
            d@ == self@,
    {
        &self.data
    }

    /// The entries, in payload order.
    pub fn get_objects(&self) -> (entries: &Vec<TreeEntry>)
        ensures
            entries@.len() == self.entries().len(),
            forall|i: int| 0 <= i < entries@.len() ==> (#[trigger] entries@[i])@ == self.entries()[i],
    {
        proof {
            lemma_entries_model(self.objects@);
        }
        &self.objects
    }
}

impl TreeEntry {
    /// The object that the entry names.
    pub fn get_object(&self) -> (o: &Object)
        ensures
            o@ == self@.object,
    {
        &self.object
    }

    /// The name of the entry.
    pub fn get_name(&self) -> (n: &str)
        ensures
            n@ == self@.name,
    {
        self.name.as_str()
    }

    /// The hash of the object that the entry names.
    pub fn get_hash(&self) -> (h: &str)
        ensures
            h@ == self@.sha,
    {
        self.sha.as_str()
    }

    /// The mode of the entry.
    pub fn get_mode(&self) -> (m: &str)
        ensures
            m@ == self@.mode,
    {
        self.mode.as_str()
    }
}

/// The views of a list of entries, in order.
pub open spec fn entry_views(entries: Seq<TreeEntry>) -> Seq<EntryModel> {
    Seq::new(entries.len(), |i: int| entries[i]@)
}

impl TreeEntry {
    /// The entry that names the given object.
    pub(crate) fn new(raw: RawEntry, object: Object) -> (e: TreeEntry)
        ensures
            e@ == (EntryModel { mode: raw.mode@, name: raw.name@, sha: raw.sha@, object: object@ }),
    {
        TreeEntry { mode: raw.mode, name: raw.name, sha: raw.sha, object }
    }
}

impl Tree {
    /// The tree of the given payload and entries.
    pub(crate) fn assemble(data: Vec<u8>, entries: Vec<TreeEntry>) -> (t: Tree)
        ensures
            t@ == data@,
            t.entries() == entry_views(entries@),
    {
        let size = data.len();
        proof {
            lemma_entries_model(entries@);
            assert(entries_model(entries@) =~= entry_views(entries@));
        }
        Tree { data, size, objects: entries }
    }
}

impl Object {
    /// The object of the given kind and payload; a tree holds the given
    /// entries, another kind none.
    pub(crate) fn assemble(kind: ObjectKind, data: Vec<u8>, entries: Vec<TreeEntry>) -> (o: Object)
        ensures
            o@ == (ObjectModel {
                kind,
                data: data@,
                entries: if kind == ObjectKind::Tree {
                    entry_views(entries@)
                } else {
                    Seq::empty()
                },
            }),
    {
        let size = data.len();
        proof {
            lemma_entries_model(entries@);
            assert(entries_model(entries@) =~= entry_views(entries@));
        }
        match kind {
            ObjectKind::Blob => Object::Blob(Blob { data, size }),
            ObjectKind::Commit => Object::Commit(Commit { data, size }),
            ObjectKind::Tag => Object::Tag(Tag { data, size }),
            ObjectKind::Tree => Object::Tree(Tree { data, size, objects: entries }),
        }
    }
}

/// The model of a list of entries holds the model of each, in order.
pub proof fn lemma_entries_model(entries: Seq<TreeEntry>)
    ensures
        entries_model(entries).len() == entries.len(),
        forall|i: int| 0 <= i < entries.len() ==> entries_model(entries)[i] == entry_model(#[trigger] entries[i]),
    decreases entries.len(),
{
    if entries.len() > 0 {
        lemma_entries_model(entries.drop_last());
        assert forall|i: int| 0 <= i < entries.len() implies entries_model(entries)[i]
            == entry_model(#[trigger] entries[i]) by {
            if i < entries.len() - 1 {
                assert(entries.drop_last()[i] == entries[i]);
            }
        }
    }
}

/// The hash of the framed form of a payload.
pub fn hash_payload(kind: ObjectKind, data: &[u8]) -> (h: String)
    ensures
        h@ == hash_of(kind, data@),
        h@.len() == 40,
{
    let framed = encode_frame(kind, data);
    let digest = sha1_of(framed.as_slice());
    text_of(&hex_chars(digest.as_slice()))
}

impl Object {
    /// The kind of the object.
    pub fn kind(&self) -> (k: ObjectKind)
        ensures
            k == self@.kind,
    {
        match self {
            Object::Commit(_) => ObjectKind::Commit,
            Object::Blob(_) => ObjectKind::Blob,
            Object::Tree(_) => ObjectKind::Tree,
            Object::Tag(_) => ObjectKind::Tag,
        }
    }

    /// The payload.
    pub fn get_data(&self) -> (d: &Vec<u8>)
        ensures
            d@ == self@.data,
    {
        match self {
            Object::Commit(c) => &c.data,
            Object::Blob(b) => &b.data,
            Object::Tree(t) => &t.data,
            Object::Tag(t) => &t.data,
        }
    }

    /// The name of the kind.
    pub fn get_type(&self) -> (t: &str)
        ensures
            t@ == kind_name(self@.kind),
    {
        match self {
            Object::Commit(_) => "commit",
            Object::Blob(_) => "blob",
            Object::Tree(_) => "tree",
            Object::Tag(_) => "tag",
        }
    }

    /// The length of the payload.
    pub fn get_size(&self) -> (n: usize)
        ensures
            n == self@.data.len(),
    {
        match self {
            Object::Commit(c) => {
                proof { use_type_invariant(c); }
                c.size
            },
            Object::Blob(b) => {
                proof { use_type_invariant(b); }
                b.size
            },
            Object::Tree(t) => {
                proof { use_type_invariant(t); }
                t.size
            },
            Object::Tag(t) => {
                proof { use_type_invariant(t); }
                t.size
            },
        }
    }

    /// The framed form: the kind's tag, a space, the payload length in
    /// decimal, a zero byte, and the payload.
    pub fn serialize(&self) -> (out: Vec<u8>)
        ensures
            out@ == frame(self@.kind, self@.data),
    {
        encode_frame(self.kind(), self.get_data().as_slice())
    }

    /// The hash: the SHA-1 digest of the framed form, in lowercase
    /// hexadecimal. It depends on the kind and the payload alone.
    pub fn hash(&self) -> (h: String)
        ensures
            h@ == hash_of(self@.kind, self@.data),
            h@.len() == 40,
    {
        hash_payload(self.kind(), self.get_data().as_slice())
    }
}

/// What the model of an object holds, by variant.
pub proof fn lemma_object_model(o: Object)
    ensures
        o matches Object::Commit(c) ==> o@ == (ObjectModel {
            kind: ObjectKind::Commit,
            data: c@,
            entries: Seq::empty(),
        }),
        o matches Object::Blob(b) ==> o@ == (ObjectModel {
            kind: ObjectKind::Blob,
            data: b@,
            entries: Seq::empty(),
        }),
        o matches Object::Tag(t) ==> o@ == (ObjectModel {
            kind: ObjectKind::Tag,
            data: t@,
            entries: Seq::empty(),
        }),
        o matches Object::Tree(t) ==> o@ == (ObjectModel {
            kind: ObjectKind::Tree,
            data: t@,
            entries: t.entries(),
        }),
{
}

/// Two objects of one kind with one payload have one hash.
pub proof fn lemma_hash_by_content(a: ObjectModel, b: ObjectModel)
    requires
        a.kind == b.kind,
        a.data == b.data,
    ensures
        hash_of(a.kind, a.data) == hash_of(b.kind, b.data),
{
}

} // verus!
