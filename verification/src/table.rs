//! A map from text keys to values, kept as the log of its insertions.
use vstd::prelude::*;
use crate::text::same_text;

verus! {

/// The map that a log of insertions amounts to: a later insertion under a
/// key replaces an earlier one.
pub open spec fn replay<T>(log: Seq<(Seq<char>, T)>) -> Map<Seq<char>, T>
    decreases log.len(),
{
    if log.len() == 0 {
        Map::empty()
    } else {
        replay(log.drop_last()).insert(log.last().0, log.last().1)
    }
}

/// A key that no insertion of a log names is not in its map.
pub proof fn lemma_replay_absent<T>(log: Seq<(Seq<char>, T)>, key: Seq<char>)
    requires
        forall|i: int| 0 <= i < log.len() ==> (#[trigger] log[i]).0 != key,
    ensures
        !replay(log).contains_key(key),
    decreases log.len(),
{
    if log.len() > 0 {
        assert(log.last() == log[log.len() - 1]);
        lemma_replay_absent(log.drop_last(), key);
    }
}

/// A key that an insertion of a log names is in its map.
pub proof fn lemma_replay_present<T>(log: Seq<(Seq<char>, T)>, at: int)
    requires
        0 <= at < log.len(),
    ensures
        replay(log).contains_key(log[at].0),
    decreases log.len(),
{
    if at < log.len() - 1 {
        lemma_replay_present(log.drop_last(), at);
    }
}

/// The last insertion under a key decides what the map holds there.
pub proof fn lemma_replay_last<T>(log: Seq<(Seq<char>, T)>, key: Seq<char>, at: int)
    requires
        0 <= at < log.len(),
        log[at].0 == key,
        forall|i: int| at < i < log.len() ==> (#[trigger] log[i]).0 != key,
    ensures
        replay(log).contains_key(key),
        replay(log)[key] == log[at].1,
    decreases log.len(),
{
    if at < log.len() - 1 {
        assert(log.last() == log[log.len() - 1]);
        lemma_replay_last(log.drop_last(), key, at);
    }
}

/// A map from text keys to values.
pub struct Table<T> {
    entries: Vec<(String, T)>,
}

impl<T> Table<T> {
    /// The insertions made so far, oldest first.
    pub closed spec fn log(&self) -> Seq<(Seq<char>, T)> {
        Seq::new(self.entries@.len(), |i: int| (self.entries@[i].0@, self.entries@[i].1))
    }

    /// The map that the table holds.
    pub open spec fn view(&self) -> Map<Seq<char>, T> {
        replay(self.log())
    }

    /// The empty table.
    pub fn new() -> (t: Self)
        ensures
            t.log() == Seq::<(Seq<char>, T)>::empty(),
            t.view() == Map::<Seq<char>, T>::empty(),
    {
        let t = Table { entries: Vec::new() };
        assert(t.log() =~= Seq::<(Seq<char>, T)>::empty());
        t
    }

    /// The number of insertions made so far.
    pub fn len(&self) -> (n: usize)
        ensures
            n == self.log().len(),
    {
        self.entries.len()
    }

    /// The key of the insertion at index `i` of the log.
    pub fn key_at(&self, i: usize) -> (k: &String)
        requires
            i < self.log().len(),
        ensures
            k@ == self.log()[i as int].0,
    {
        &self.entries[i].0
    }

    /// The value of the insertion at index `i` of the log.
    pub fn value_at(&self, i: usize) -> (v: &T)
        requires
            i < self.log().len(),
        ensures
            *v == self.log()[i as int].1,
    {
        &self.entries[i].1
    }

    /// Inserts a value under a key, replacing what the key held.
    pub fn insert(&mut self, key: String, value: T)
        ensures
            final(self).log() == old(self).log().push((key@, value)),
            final(self).view() == old(self).view().insert(key@, value),
    {
        self.entries.push((key, value));
        assert(self.log() =~= old(self).log().push((key@, value)));
        assert(self.log().drop_last() =~= old(self).log());
    }

    /// The index in the log of the insertion that decides what a key holds.
    pub fn position(&self, key: &str) -> (r: Option<usize>)
        ensures
            match r {
                Some(i) => i < self.log().len() && self.log()[i as int].0 == key@
                    && self.view().contains_key(key@) && self.view()[key@] == self.log()[i as int].1
                    && forall|j: int| i < j < self.log().len() ==> (#[trigger] self.log()[j]).0
                    != key@,
                None => !self.view().contains_key(key@),
            },
    {
        let mut i: usize = self.entries.len();
        while i > 0
            invariant
                i <= self.entries.len(),
                forall|j: int| i <= j < self.log().len() ==> (#[trigger] self.log()[j]).0 != key@,
            decreases i,
        {
            i = i - 1;
            if same_text(self.entries[i].0.as_str(), key) {
                proof {
                    lemma_replay_last(self.log(), key@, i as int);
                }
                return Some(i);
            }
        }
        proof {
            lemma_replay_absent(self.log(), key@);
        }
        None
    }

    /// What a key holds, if anything.
    pub fn get(&self, key: &str) -> (r: Option<&T>)
        ensures
            match r {
                Some(v) => self.view().contains_key(key@) && *v == self.view()[key@],
                None => !self.view().contains_key(key@),
            },
    {
        match self.position(key) {
            Some(i) => Some(&self.entries[i].1),
            None => None,
        }
    }

    /// Whether a key holds anything.
    pub fn contains_key(&self, key: &str) -> (r: bool)
        ensures
            r == self.view().contains_key(key@),
    {
        self.position(key).is_some()
    }
}

} // verus!
