//! Objects as text: the listing of a tree and the content of the others.
use vstd::prelude::*;
use vstd::string::StringExecFns;
use vstd::utf8::{decode_utf8, valid_utf8};
use crate::codec::{decimal, decimal_bytes, ObjectKind};
use crate::config::ascii_chars;
use crate::objects::{kind_name, lemma_object_model, EntryModel, Object, ObjectModel, Tree};
use crate::text::utf8_text;

verus! {

/// One line of a tree listing: mode, hash and name, with spaces between.
pub open spec fn plain_line(e: EntryModel) -> Seq<char> {
    e.mode + seq![' '] + e.sha + seq![' '] + e.name + seq!['\n']
}

/// The listing of a tree: one line for each entry, in order.
pub open spec fn plain_listing(entries: Seq<EntryModel>) -> Seq<char>
    decreases entries.len(),
{
    if entries.len() == 0 {
        Seq::empty()
    } else {
        plain_listing(entries.drop_last()) + plain_line(entries.last())
    }
}

/// One line of a detailed tree listing: mode, kind of the object, hash
/// and name, with tabs between.
pub open spec fn detailed_line(e: EntryModel) -> Seq<char> {
    e.mode + seq!['\t'] + kind_name(e.object.kind) + seq!['\t'] + e.sha + seq!['\t'] + e.name
        + seq!['\n']
}

/// The detailed listing of a tree: one line for each entry, in order.
pub open spec fn detailed_listing(entries: Seq<EntryModel>) -> Seq<char>
    decreases entries.len(),
{
    if entries.len() == 0 {
        Seq::empty()
    } else {
        detailed_listing(entries.drop_last()) + detailed_line(entries.last())
    }
}

/// The first `upto` bytes as decimal numbers with `, ` between.
pub open spec fn byte_items(data: Seq<u8>, upto: int) -> Seq<char>
    decreases upto,
{
    if upto <= 0 {
        Seq::empty()
    } else if upto == 1 {
        ascii_chars(decimal(data[0] as nat))
    } else {
        byte_items(data, upto - 1) + seq![',', ' '] + ascii_chars(decimal(data[upto - 1] as nat))
    }
}

/// Bytes as a bracketed list of decimal numbers.
pub open spec fn byte_list(data: Seq<u8>) -> Seq<char> {
    seq!['['] + byte_items(data, data.len() as int) + seq![']']
}

/// What an object shows: the detailed listing of a tree, the text of any
/// other object, or a note with its bytes where they are not UTF-8.
pub open spec fn shown(o: ObjectModel) -> Seq<char> {
    if o.kind == ObjectKind::Tree {
        detailed_listing(o.entries)
    } else if valid_utf8(o.data) {
        decode_utf8(o.data)
    } else {
        "failed to decode content: "@ + byte_list(o.data)
    }
}

/// Appends ASCII bytes to a string as characters.
fn push_ascii(s: &mut String, bytes: &Vec<u8>)
    ensures
        final(s)@ == old(s)@ + ascii_chars(bytes@),
{
    let mut i: usize = 0;
    assert(s@ + ascii_chars(bytes@).take(0) =~= s@);
    while i < bytes.len()
        invariant
            i <= bytes.len(),
            s@ == old(s)@ + ascii_chars(bytes@).take(i as int),
        decreases bytes.len() - i,
    {
        s.push(bytes[i] as char);
        i = i + 1;
        assert(old(s)@ + ascii_chars(bytes@).take(i as int) =~= (old(s)@ + ascii_chars(bytes@).take(
            i - 1,
        )).push(bytes@[i - 1] as char));
    }
    assert(ascii_chars(bytes@).take(i as int) =~= ascii_chars(bytes@));
}

/// Writes bytes as a bracketed list of decimal numbers.
pub fn write_byte_list(data: &[u8]) -> (s: String)
    ensures
        s@ == byte_list(data@),
{
    let mut s = String::new();
    s.push('[');
    let mut i: usize = 0;
    assert(s@ =~= seq!['['] + byte_items(data@, 0));
    while i < data.len()
        invariant
            i <= data.len(),
            s@ == seq!['['] + byte_items(data@, i as int),
        decreases data.len() - i,
    {
        let ghost before = s@;
        if i > 0 {
            s.push(',');
            s.push(' ');
        }
        push_ascii(&mut s, &decimal_bytes(data[i] as usize));
        i = i + 1;
        assert(s@ =~= seq!['['] + byte_items(data@, i as int));
    }
    s.push(']');
    s
}

impl Tree {
    /// The listing of the tree: for each entry a line of mode, hash and
    /// name.
    pub fn display_objects(&self) -> (s: String)
        ensures
            s@ == plain_listing(self.entries()),
    {
        let entries = self.get_objects();
        let ghost models = self.entries();
        let mut s = String::new();
        let mut i: usize = 0;
        assert(models.take(0) =~= Seq::<EntryModel>::empty());
        while i < entries.len()
            invariant
                i <= entries.len(),
                entries@.len() == models.len(),
                forall|k: int| 0 <= k < entries@.len() ==> (#[trigger] entries@[k])@ == models[k],
                s@ == plain_listing(models.take(i as int)),
            decreases entries.len() - i,
        {
            let ghost before = s@;
            let entry = &entries[i];
            s.append(entry.get_mode());
            s.push(' ');
            s.append(entry.get_hash());
            s.push(' ');
            s.append(entry.get_name());
            s.push('\n');
            i = i + 1;
            proof {
                assert(models.take(i as int).drop_last() =~= models.take(i - 1));
                assert(models.take(i as int).last() == entry@);
                assert(s@ =~= before + plain_line(entry@));
            }
        }
        assert(models.take(i as int) =~= models);
        s
    }

    /// The detailed listing of the tree: for each entry a line of mode,
    /// kind, hash and name.
    pub fn display_detailed(&self) -> (s: String)
        ensures
            s@ == detailed_listing(self.entries()),
    {
        let entries = self.get_objects();
        let ghost models = self.entries();
        let mut s = String::new();
        let mut i: usize = 0;
        assert(models.take(0) =~= Seq::<EntryModel>::empty());
        while i < entries.len()
            invariant
                i <= entries.len(),
                entries@.len() == models.len(),
                forall|k: int| 0 <= k < entries@.len() ==> (#[trigger] entries@[k])@ == models[k],
                s@ == detailed_listing(models.take(i as int)),
            decreases entries.len() - i,
        {
            let ghost before = s@;
            let entry = &entries[i];
            s.append(entry.get_mode());
            s.push('\t');
            s.append(entry.get_object().get_type());
            s.push('\t');
            s.append(entry.get_hash());
            s.push('\t');
            s.append(entry.get_name());
            s.push('\n');
            i = i + 1;
            proof {
                assert(models.take(i as int).drop_last() =~= models.take(i - 1));
                assert(models.take(i as int).last() == entry@);
                assert(s@ =~= before + detailed_line(entry@));
            }
        }
        assert(models.take(i as int) =~= models);
        s
    }
}

impl Object {
    /// What the object shows: the detailed listing of a tree, the text of
    /// any other object, or a note with its bytes where they are not UTF-8.
    pub fn cat(&self) -> (s: String)
        ensures
            s@ == shown(self@),
    {
        proof {
            lemma_object_model(*self);
        }
        match self {
            Object::Tree(tree) => tree.display_detailed(),
            _ => {
                let data = self.get_data();
                match utf8_text(data.as_slice()) {
                    Some(text) => text,
                    None => {
                        let mut s = "failed to decode content: ".to_owned();
                        s.append(write_byte_list(data.as_slice()).as_str());
                        s
                    },
                }
            },
        }
    }
}

} // verus!
