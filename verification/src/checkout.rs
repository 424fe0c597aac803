//! Checkout: which blobs of a tree are written where.
use vstd::prelude::*;
use vstd::string::StringExecFns;
use crate::codec::ObjectKind;
use crate::objects::{lemma_object_model, EntryModel, Object, Tree};
use crate::text::{chars_of, contains, contains_sub};

verus! {

/// Why a tree cannot be checked out.
#[derive(Clone, Copy, Debug, PartialEq, Eq, Structural)]
pub enum CheckoutError {
    /// An entry names a commit or a tag.
    UnsupportedEntry,
}

/// A file to write: its path and its content.
pub struct CheckoutFile {
    pub path: String,
    pub data: Vec<u8>,
}

/// Files to write, as values.
pub open spec fn file_views(files: Seq<CheckoutFile>) -> Seq<(Seq<char>, Seq<u8>)> {
    Seq::new(files.len(), |i: int| (files[i].path@, files[i].data@))
}

/// Whether a tree at `path` is left out: neither the target occurs in the
/// path nor the path in the target.
pub open spec fn pruned(path: Seq<char>, target: Seq<char>) -> bool {
    !contains_sub(target, path) && !contains_sub(path, target)
}

/// The files that the checkout of a tree at `path` writes for a target, in
/// order: the tree is walked entry by entry, subtrees that are not left out
/// are entered, and a blob is written where the target occurs in its path.
pub open spec fn planned(entries: Seq<EntryModel>, path: Seq<char>, target: Seq<char>) -> Result<
    Seq<(Seq<char>, Seq<u8>)>,
    CheckoutError,
>
    decreases entries, entries.len() + 1,
{
    if pruned(path, target) {
        Ok(Seq::empty())
    } else {
        planned_upto(entries, path, target, entries.len() as int)
    }
}

/// The files that the first `upto` entries of a tree at `path` give.
pub open spec fn planned_upto(
    entries: Seq<EntryModel>,
    path: Seq<char>,
    target: Seq<char>,
    upto: int,
) -> Result<Seq<(Seq<char>, Seq<u8>)>, CheckoutError>
    decreases entries, upto,
{
    if upto <= 0 || upto > entries.len() {
        Ok(Seq::empty())
    } else {
        let entry = entries[upto - 1];
        let below = path + seq!['/'] + entry.name;
        match planned_upto(entries, path, target, upto - 1) {
            Err(e) => Err(e),
            Ok(before) => match entry.object.kind {
                ObjectKind::Tree => match planned(entry.object.entries, below, target) {
                    Err(e) => Err(e),
                    Ok(inner) => Ok(before + inner),
                },
                ObjectKind::Blob => if contains_sub(below, target) {
                    Ok(before.push((below, entry.object.data)))
                } else {
                    Ok(before)
                },
                _ => Err(CheckoutError::UnsupportedEntry),
            },
        }
    }
}

/// An entry that cannot be checked out fails the whole tree.
pub proof fn lemma_planned_error(
    entries: Seq<EntryModel>,
    path: Seq<char>,
    target: Seq<char>,
    k: int,
    m: int,
)
    requires
        0 <= k <= m <= entries.len(),
        planned_upto(entries, path, target, k) is Err,
    ensures
        planned_upto(entries, path, target, m) == planned_upto(entries, path, target, k),
    decreases m - k,
{
    if k < m {
        lemma_planned_error(entries, path, target, k, m - 1);
    }
}

/// The target of a checkout: the folder below the current directory, with
/// a `/` at its end where a directory stands there.
pub open spec fn target_of(current_dir: Seq<char>, folder: Option<Seq<char>>, is_dir: bool) -> Seq<
    char,
> {
    let joined = current_dir + seq!['/'] + match folder {
        Some(f) => f,
        None => Seq::empty(),
    };
    if is_dir && joined.last() != '/' {
        joined.push('/')
    } else {
        joined
    }
}

/// The target of a checkout.
pub fn checkout_target(current_dir: &str, folder: Option<String>, is_dir: bool) -> (target: String)
    ensures
        target@ == target_of(
            current_dir@,
            match folder {
                Some(f) => Some(f@),
                None => None,
            },
            is_dir,
        ),
{
    let mut target = current_dir.to_owned();
    target.push('/');
    match folder {
        Some(f) => {
            target.append(f.as_str());
        },
        None => {
            assert(target@ + Seq::<char>::empty() =~= target@);
        },
    }
    let cs = chars_of(target.as_str());
    if is_dir && cs[cs.len() - 1] != '/' {
        target.push('/');
    }
    target
}

impl Tree {
    /// The files that checking out the tree at `path` writes for the
    /// target, in order.
    pub fn checkout(&self, path: String, path_to_checkout: String) -> (r: Result<
        Vec<CheckoutFile>,
        CheckoutError,
    >)
        ensures
            match r {
                Ok(files) => planned(self.entries(), path@, path_to_checkout@) == Ok::<
                    Seq<(Seq<char>, Seq<u8>)>,
                    CheckoutError,
                >(file_views(files@)),
                Err(e) => planned(self.entries(), path@, path_to_checkout@) == Err::<
                    Seq<(Seq<char>, Seq<u8>)>,
                    CheckoutError,
                >(e),
            },
        decreases self.entries(),
    {
        let mut files: Vec<CheckoutFile> = Vec::new();
        let here = chars_of(path.as_str());
        let target = chars_of(path_to_checkout.as_str());
        if !contains(&target, &here) && !contains(&here, &target) {
            assert(file_views(files@) =~= Seq::<(Seq<char>, Seq<u8>)>::empty());
            return Ok(files);
        }
        let entries = self.get_objects();
        let ghost models = self.entries();
        let mut i: usize = 0;
        assert(file_views(files@) =~= Seq::<(Seq<char>, Seq<u8>)>::empty());
        while i < entries.len()
            invariant
                i <= entries.len(),
                models == self.entries(),
                entries@.len() == models.len(),
                target@ == path_to_checkout@,
                !pruned(path@, path_to_checkout@),
                forall|k: int| 0 <= k < entries@.len() ==> (#[trigger] entries@[k])@ == models[k],
                planned_upto(models, path@, path_to_checkout@, i as int) == Ok::<
                    Seq<(Seq<char>, Seq<u8>)>,
                    CheckoutError,
                >(file_views(files@)),
            decreases entries.len() - i,
        {
            let entry = &entries[i];
            let mut below = path.clone();
            below.push('/');
            below.append(entry.get_name());
            let ghost before = file_views(files@);
            let object = entry.get_object();
            proof {
                lemma_object_model(*object);
                assert(entry@ == models[i as int]);
                assert(below@ =~= path@ + seq!['/'] + models[i as int].name);
            }
            match object {
                Object::Tree(subtree) => {
                    assert(subtree.entries() == models[i as int].object.entries);
                    let mut inner = match subtree.checkout(below, path_to_checkout.clone()) {
                        Ok(inner) => inner,
                        Err(e) => {
                            proof {
                                lemma_planned_error(
                                    models,
                                    path@,
                                    path_to_checkout@,
                                    i + 1,
                                    models.len() as int,
                                );
                            }
                            return Err(e);
                        },
                    };
                    let ghost added = file_views(inner@);
                    files.append(&mut inner);
                    assert(file_views(files@) =~= before + added);
                },
                Object::Blob(blob) => {
                    if contains(&chars_of(below.as_str()), &target) {
                        let data = blob.as_bytes().clone();
                        assert(data@ =~= blob@);
                        let ghost item = (below@, data@);
                        files.push(CheckoutFile { path: below, data });
                        assert(file_views(files@) =~= before.push(item));
                    }
                },
                _ => {
                    proof {
                        lemma_planned_error(
                            models,
                            path@,
                            path_to_checkout@,
                            i + 1,
                            models.len() as int,
                        );
                    }
                    return Err(CheckoutError::UnsupportedEntry);
                },
            }
            i = i + 1;
        }
        Ok(files)
    }
}

} // verus!
