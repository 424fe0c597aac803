//! The payload of a commit or a tag: header lines of a key, a space and a
//! value, a blank line, and a message.
use vstd::prelude::*;
use vstd::utf8::{decode_utf8, valid_utf8};
use crate::objects::{Commit, Tag};
use crate::table::Table;
use crate::text::{
    chars_of, find_char, find_from, find_sub, find_sub_from, lemma_find_from,
    lemma_find_sub_from, same_text, slice_of, text_of, utf8_text,
};

verus! {

/// Why a payload could not be read, or a header not be given.
#[derive(Clone, Copy, Debug, PartialEq, Eq, Structural)]
pub enum KvlmError {
    /// The payload is not UTF-8.
    InvalidUtf8,
    /// No blank line parts the headers from the message.
    MissingSeparator,
    /// The payload has no header of the key asked for.
    MissingHeader,
}

/// What a payload says: the headers by key, with the message under
/// `message`, and the values of the `parent` lines in order.
pub struct KvlmModel {
    pub headers: Map<Seq<char>, Seq<char>>,
    pub parents: Seq<Seq<char>>,
}

/// A parsed payload.
pub struct Kvlm {
    headers: Table<String>,
    parents: Vec<String>,
}

/// The text from `pos` on with every continuation joined to its line: each
/// line break that a space follows is dropped together with the space.
pub open spec fn unfold_from(s: Seq<char>, pos: int) -> Seq<char>
    decreases s.len() - pos,
{
    if pos < 0 || pos >= s.len() {
        Seq::empty()
    } else if s[pos] == '\n' && pos + 1 < s.len() && s[pos + 1] == ' ' {
        unfold_from(s, pos + 2)
    } else {
        seq![s[pos]] + unfold_from(s, pos + 1)
    }
}

/// The text with every continuation joined to its line.
pub open spec fn unfold(s: Seq<char>) -> Seq<char> {
    unfold_from(s, 0)
}

/// The pieces between the separators of `s`, from `pos` on.
pub open spec fn split_from(s: Seq<char>, sep: char, pos: int) -> Seq<Seq<char>>
    decreases s.len() - pos,
{
    let next = find_from(s, sep, pos);
    if pos < 0 || pos > s.len() {
        Seq::empty()
    } else if next < pos || next >= s.len() {
        seq![s.subrange(pos, s.len() as int)]
    } else {
        seq![s.subrange(pos, next)] + split_from(s, sep, next + 1)
    }
}

/// The key of a header line: what stands before its first space.
pub open spec fn header_key(line: Seq<char>) -> Seq<char> {
    line.take(find_from(line, ' ', 0))
}

/// The value of a header line: what stands after its first space.
pub open spec fn header_value(line: Seq<char>) -> Seq<char> {
    let space = find_from(line, ' ', 0);
    if space < line.len() {
        line.skip(space + 1)
    } else {
        Seq::empty()
    }
}

/// What header lines say, read in order: a `parent` line adds to the
/// parents, any other line sets its key, replacing an earlier value.
pub open spec fn fold_headers(lines: Seq<Seq<char>>) -> KvlmModel
    decreases lines.len(),
{
    if lines.len() == 0 {
        KvlmModel { headers: Map::empty(), parents: Seq::empty() }
    } else {
        let before = fold_headers(lines.drop_last());
        let key = header_key(lines.last());
        let value = header_value(lines.last());
        if key == "parent"@ {
            KvlmModel { headers: before.headers, parents: before.parents.push(value) }
        } else {
            KvlmModel { headers: before.headers.insert(key, value), parents: before.parents }
        }
    }
}

/// What a payload text says, if a blank line parts headers and message.
pub open spec fn kvlm_of_text(text: Seq<char>) -> Option<KvlmModel> {
    let unfolded = unfold(text);
    let blank = find_sub_from(unfolded, seq!['\n', '\n'], 0);
    if 0 <= blank < unfolded.len() {
        let read = fold_headers(split_from(unfolded.take(blank), '\n', 0));
        Some(
            KvlmModel {
                headers: read.headers.insert("message"@, unfolded.skip(blank + 2)),
                parents: read.parents,
            },
        )
    } else {
        None
    }
}

/// What a payload says.
pub open spec fn parse_kvlm(data: Seq<u8>) -> Result<KvlmModel, KvlmError> {
    if !valid_utf8(data) {
        Err(KvlmError::InvalidUtf8)
    } else {
        match kvlm_of_text(decode_utf8(data)) {
            None => Err(KvlmError::MissingSeparator),
            Some(model) => Ok(model),
        }
    }
}

/// The header of a key in a payload.
pub open spec fn header_of(data: Seq<u8>, key: Seq<char>) -> Result<Seq<char>, KvlmError> {
    match parse_kvlm(data) {
        Err(e) => Err(e),
        Ok(model) => if model.headers.contains_key(key) {
            Ok(model.headers[key])
        } else {
            Err(KvlmError::MissingHeader)
        },
    }
}

/// The parents that a payload names.
pub open spec fn parents_of(data: Seq<u8>) -> Result<Seq<Seq<char>>, KvlmError> {
    match parse_kvlm(data) {
        Err(e) => Err(e),
        Ok(model) => Ok(model.parents),
    }
}

/// The texts of a list of strings.
pub open spec fn texts(list: Seq<String>) -> Seq<Seq<char>> {
    Seq::new(list.len(), |i: int| list[i]@)
}

/// The texts of a list of character vectors.
pub open spec fn lines_of(list: Seq<Vec<char>>) -> Seq<Seq<char>> {
    Seq::new(list.len(), |i: int| list[i]@)
}

/// Joins every continuation to its line.
pub fn unfold_text(s: &Vec<char>) -> (out: Vec<char>)
    ensures
        out@ == unfold(s@),
{
    let mut out: Vec<char> = Vec::new();
    let mut i: usize = 0;
    assert(out@ + unfold_from(s@, 0) =~= unfold_from(s@, 0));
    while i < s.len()
        invariant
            i <= s.len(),
            unfold(s@) == out@ + unfold_from(s@, i as int),
        decreases s.len() - i,
    {
        if s[i] == '\n' && i + 1 < s.len() && s[i + 1] == ' ' {
            i = i + 2;
        } else {
            let ghost before = out@;
            out.push(s[i]);
            assert(before + (seq![s@[i as int]] + unfold_from(s@, i + 1)) =~= out@ + unfold_from(
                s@,
                i + 1,
            ));
            i = i + 1;
        }
    }
    assert(out@ + Seq::<char>::empty() =~= out@);
    out
}

/// Splits at every occurrence of a separator.
pub fn split_on(s: &Vec<char>, sep: char) -> (out: Vec<Vec<char>>)
    ensures
        lines_of(out@) == split_from(s@, sep, 0),
{
    let mut out: Vec<Vec<char>> = Vec::new();
    let mut pos: usize = 0;
    assert(lines_of(out@) + split_from(s@, sep, 0) =~= split_from(s@, sep, 0));
    loop
        invariant
            pos <= s.len(),
            split_from(s@, sep, 0) == lines_of(out@) + split_from(s@, sep, pos as int),
        decreases s.len() - pos,
    {
        let next = find_char(s, sep, pos);
        proof {
            lemma_find_from(s@, sep, pos as int);
        }
        let ghost before = lines_of(out@);
        if next >= s.len() {
            let piece = slice_of(s, pos, s.len());
            out.push(piece);
            assert(lines_of(out@) =~= before + seq![s@.subrange(pos as int, s@.len() as int)]);
            return out;
        }
        let piece = slice_of(s, pos, next);
        out.push(piece);
        assert(before + (seq![s@.subrange(pos as int, next as int)] + split_from(s@, sep, next + 1))
            =~= lines_of(out@) + split_from(s@, sep, next + 1));
        pos = next + 1;
    }
}

impl Kvlm {
    /// What the payload says.
    pub closed spec fn view(&self) -> KvlmModel {
        KvlmModel {
            headers: self.headers@.map_values(|s: String| s@),
            parents: texts(self.parents@),
        }
    }

    /// The header of a key, if the payload has one.
    pub fn get(&self, key: &str) -> (r: Option<&String>)
        ensures
            match r {
                Some(v) => self@.headers.contains_key(key@) && v@ == self@.headers[key@],
                None => !self@.headers.contains_key(key@),
            },
    {
        self.headers.get(key)
    }

    /// The values of the `parent` lines, in order.
    pub fn parents(&self) -> (p: &Vec<String>)
        ensures
            texts(p@) == self@.parents,
    {
        &self.parents
    }
}

/// Reads what header lines say.
fn read_headers(lines: &Vec<Vec<char>>) -> (k: Kvlm)
    ensures
        k@ == fold_headers(lines_of(lines@)),
{
    let mut k = Kvlm { headers: Table::new(), parents: Vec::new() };
    let mut i: usize = 0;
    assert(k@.headers =~= Map::<Seq<char>, Seq<char>>::empty());
    assert(k@.parents =~= Seq::<Seq<char>>::empty());
    assert(lines_of(lines@).take(0) =~= Seq::<Seq<char>>::empty());
    while i < lines.len()
        invariant
            i <= lines.len(),
            k@ == fold_headers(lines_of(lines@).take(i as int)),
        decreases lines.len() - i,
    {
        let line = &lines[i];
        let space = find_char(line, ' ', 0);
        proof {
            lemma_find_from(line@, ' ', 0);
        }
        let key = text_of(&slice_of(line, 0, space));
        let value = if space < line.len() {
            text_of(&slice_of(line, space + 1, line.len()))
        } else {
            String::new()
        };
        let ghost old_k = k@;
        proof {
            let upto = lines_of(lines@).take(i + 1);
            assert(upto.drop_last() =~= lines_of(lines@).take(i as int));
            assert(upto.last() == line@);
            assert(key@ == header_key(line@));
            assert(value@ =~= header_value(line@));
        }
        if same_text(key.as_str(), "parent") {
            let ghost before = k.parents@;
            k.parents.push(value);
            assert(texts(k.parents@) =~= texts(before).push(value@));
        } else {
            k.headers.insert(key, value);
            assert(k@.headers =~= old_k.headers.insert(key@, value@));
        }
        i = i + 1;
    }
    assert(lines_of(lines@).take(i as int) =~= lines_of(lines@));
    k
}

/// Reads a payload.
pub fn read_kvlm(data: &[u8]) -> (r: Result<Kvlm, KvlmError>)
    ensures
        match r {
            Ok(k) => parse_kvlm(data@) == Ok::<KvlmModel, KvlmError>(k@),
            Err(e) => parse_kvlm(data@) == Err::<KvlmModel, KvlmError>(e),
        },
{
    let text = match utf8_text(data) {
        Some(t) => t,
        None => { return Err(KvlmError::InvalidUtf8); },
    };
    let unfolded = unfold_text(&chars_of(text.as_str()));
    let blank_line: Vec<char> = vec!['\n', '\n'];
    assert(blank_line@ =~= seq!['\n', '\n']);
    let blank = find_sub(&unfolded, &blank_line, 0);
    if blank >= unfolded.len() {
        return Err(KvlmError::MissingSeparator);
    }
    proof {
        lemma_find_sub_from(unfolded@, blank_line@, 0);
    }
    let header = slice_of(&unfolded, 0, blank);
    let message = text_of(&slice_of(&unfolded, blank + 2, unfolded.len()));
    let mut k = read_headers(&split_on(&header, '\n'));
    let ghost read = k@;
    k.headers.insert("message".to_owned(), message);
    assert(k@.headers =~= read.headers.insert("message"@, message@));
    Ok(k)
}


/// A copy of a list of strings.
pub fn copy_texts(list: &Vec<String>) -> (out: Vec<String>)
    ensures
        texts(out@) == texts(list@),
{
    let mut out: Vec<String> = Vec::new();
    let mut i: usize = 0;
    while i < list.len()
        invariant
            i <= list.len(),
            texts(out@) == texts(list@).take(i as int),
        decreases list.len() - i,
    {
        let ghost before = texts(out@);
        out.push(list[i].clone());
        assert(texts(out@) =~= before.push(list@[i as int]@));
        i = i + 1;
        assert(texts(list@).take(i as int) =~= before.push(list@[i - 1]@));
    }
    assert(texts(list@).take(i as int) =~= texts(list@));
    out
}

/// Reads the header of a key from a payload.
pub fn read_header(data: &[u8], key: &str) -> (r: Result<String, KvlmError>)
    ensures
        match r {
            Ok(v) => header_of(data@, key@) == Ok::<Seq<char>, KvlmError>(v@),
            Err(e) => header_of(data@, key@) == Err::<Seq<char>, KvlmError>(e),
        },
{
    match read_kvlm(data) {
        Err(e) => Err(e),
        Ok(k) => match k.get(key) {
            Some(v) => Ok(v.clone()),
            None => Err(KvlmError::MissingHeader),
        },
    }
}

/// An object whose payload is made of headers and a message.
pub trait KVLM {
    /// The payload.
    spec fn payload(&self) -> Seq<u8>;

    /// The payload.
    fn get_data(&self) -> (d: &Vec<u8>)
        ensures
            d@ == self.payload(),
    ;

    /// The values of the `parent` headers, in order.
    fn get_parents(&self) -> (r: Result<Vec<String>, KvlmError>)
        ensures
            match r {
                Ok(p) => parents_of(self.payload()) == Ok::<Seq<Seq<char>>, KvlmError>(texts(p@)),
                Err(e) => parents_of(self.payload()) == Err::<Seq<Seq<char>>, KvlmError>(e),
            },
    {
        match read_kvlm(self.get_data().as_slice()) {
            Err(e) => Err(e),
            Ok(k) => Ok(copy_texts(k.parents())),
        }
    }

    /// The `tree` header.
    fn get_tree(&self) -> (r: Result<String, KvlmError>)
        ensures
            match r {
                Ok(v) => header_of(self.payload(), "tree"@) == Ok::<Seq<char>, KvlmError>(v@),
                Err(e) => header_of(self.payload(), "tree"@) == Err::<Seq<char>, KvlmError>(e),
            },
    {
        read_header(self.get_data().as_slice(), "tree")
    }

    /// The message.
    fn get_message(&self) -> (r: Result<String, KvlmError>)
        ensures
            match r {
                Ok(v) => header_of(self.payload(), "message"@) == Ok::<Seq<char>, KvlmError>(v@),
                Err(e) => header_of(self.payload(), "message"@) == Err::<Seq<char>, KvlmError>(e),
            },
    {
        read_header(self.get_data().as_slice(), "message")
    }

    /// The `author` header.
    fn get_author(&self) -> (r: Result<String, KvlmError>)
        ensures
            match r {
                Ok(v) => header_of(self.payload(), "author"@) == Ok::<Seq<char>, KvlmError>(v@),
                Err(e) => header_of(self.payload(), "author"@) == Err::<Seq<char>, KvlmError>(e),
            },
    {
        read_header(self.get_data().as_slice(), "author")
    }

    /// What the payload says.
    fn to_kvlm(&self) -> (r: Result<Kvlm, KvlmError>)
        ensures
            match r {
                Ok(k) => parse_kvlm(self.payload()) == Ok::<KvlmModel, KvlmError>(k@),
                Err(e) => parse_kvlm(self.payload()) == Err::<KvlmModel, KvlmError>(e),
            },
    {
        read_kvlm(self.get_data().as_slice())
    }
}

impl KVLM for Commit {
    open spec fn payload(&self) -> Seq<u8> {
        self@
    }

    fn get_data(&self) -> (d: &Vec<u8>) {
        self.as_bytes()
    }
}

impl KVLM for Tag {
    open spec fn payload(&self) -> Seq<u8> {
        self@
    }

    fn get_data(&self) -> (d: &Vec<u8>) {
        self.as_bytes()
    }
}

} // verus!
