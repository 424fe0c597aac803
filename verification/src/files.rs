//! A snapshot of a file tree held in memory: what stands at each path.
use vstd::prelude::*;
use crate::table::Table;

verus! {

/// What stands at a path on disk.
pub enum Node {
    Dir,
    File(Vec<u8>),
}

/// What stands at a path, as a value.
pub enum Entry {
    Dir,
    File(Seq<u8>),
}

impl View for Node {
    type V = Entry;

    open spec fn view(&self) -> Entry {
        match self {
            Node::Dir => Entry::Dir,
            Node::File(data) => Entry::File(data@),
        }
    }
}

/// A file tree: directories and files under the exact text of their paths.
/// Changes are kept in order, so that they can be replayed elsewhere.
pub struct Files {
    nodes: Table<Node>,
}

impl Files {
    /// The changes made so far, oldest first.
    pub closed spec fn journal(&self) -> Seq<(Seq<char>, Entry)> {
        Seq::new(self.nodes.log().len(), |i: int| (self.nodes.log()[i].0, self.nodes.log()[i].1@))
    }

    /// What stands at each path.
    pub closed spec fn view(&self) -> Map<Seq<char>, Entry> {
        self.nodes@.map_values(|n: Node| n@)
    }

    /// Whether a file stands at the path.
    pub open spec fn has_file(&self, path: Seq<char>) -> bool {
        self@.contains_key(path) && self@[path] is File
    }

    /// An empty tree.
    pub fn new() -> (f: Self)
        ensures
            f@ == Map::<Seq<char>, Entry>::empty(),
            f.journal().len() == 0,
    {
        let f = Files { nodes: Table::new() };
        assert(f@ =~= Map::<Seq<char>, Entry>::empty());
        f
    }

    /// The number of changes made so far.
    pub fn len(&self) -> (n: usize)
        ensures
            n == self.journal().len(),
    {
        self.nodes.len()
    }

    /// The path of the change at index `i`.
    pub fn path_at(&self, i: usize) -> (p: &String)
        requires
            i < self.journal().len(),
        ensures
            p@ == self.journal()[i as int].0,
    {
        self.nodes.key_at(i)
    }

    /// What the change at index `i` put at its path.
    pub fn node_at(&self, i: usize) -> (n: &Node)
        requires
            i < self.journal().len(),
        ensures
            n@ == self.journal()[i as int].1,
    {
        self.nodes.value_at(i)
    }

    /// The index of the change that decides what stands at the path.
    pub fn latest(&self, path: &str) -> (r: Option<usize>)
        ensures
            match r {
                Some(i) => i < self.journal().len() && self.journal()[i as int].0 == path@
                    && self@.contains_key(path@) && self@[path@] == self.journal()[i as int].1
                    && forall|j: int|
                    i < j < self.journal().len() ==> (#[trigger] self.journal()[j]).0 != path@,
                None => !self@.contains_key(path@) && forall|j: int|
                    0 <= j < self.journal().len() ==> (#[trigger] self.journal()[j]).0 != path@,
            },
    {
        let r = self.nodes.position(path);
        proof {
            if r is None {
                assert forall|j: int| 0 <= j < self.journal().len() implies (
                #[trigger] self.journal()[j]).0 != path@ by {
                    if self.journal()[j].0 == path@ {
                        crate::table::lemma_replay_present(self.nodes.log(), j);
                    }
                }
            }
        }
        r
    }

    /// Whether anything stands at the path.
    pub fn has_path(&self, path: &str) -> (r: bool)
        ensures
            r == self@.contains_key(path@),
    {
        self.nodes.contains_key(path)
    }

    /// Whether a directory stands at the path.
    pub fn is_dir(&self, path: &str) -> (r: bool)
        ensures
            r == (self@.contains_key(path@) && self@[path@] is Dir),
    {
        match self.nodes.get(path) {
            Some(Node::Dir) => true,
            _ => false,
        }
    }

    /// The content of the file at the path, if a file stands there.
    pub fn read(&self, path: &str) -> (r: Option<&Vec<u8>>)
        ensures
            match r {
                Some(data) => self@.contains_key(path@) && self@[path@] == Entry::File(data@),
                None => !self.has_file(path@),
            },
    {
        match self.nodes.get(path) {
            Some(Node::File(data)) => Some(data),
            _ => None,
        }
    }

    /// Puts a file at the path, replacing what stood there.
    pub fn write(&mut self, path: String, data: Vec<u8>)
        ensures
            final(self)@ == old(self)@.insert(path@, Entry::File(data@)),
            final(self).journal() == old(self).journal().push((path@, Entry::File(data@))),
    {
        let ghost node = Node::File(data);
        self.nodes.insert(path, Node::File(data));
        assert(self@ =~= old(self)@.insert(path@, node@));
        assert(self.journal() =~= old(self).journal().push((path@, node@)));
    }

    /// Puts a directory at the path, replacing what stood there.
    pub fn create_dir(&mut self, path: String)
        ensures
            final(self)@ == old(self)@.insert(path@, Entry::Dir),
            final(self).journal() == old(self).journal().push((path@, Entry::Dir)),
    {
        self.nodes.insert(path, Node::Dir);
        assert(self@ =~= old(self)@.insert(path@, Entry::Dir));
        assert(self.journal() =~= old(self).journal().push((path@, Entry::Dir)));
    }
}

} // verus!
