//! The payload of a tree: entries of a mode, a space, a name, a zero byte
//! and twenty raw hash bytes, one after another.
use vstd::prelude::*;
use vstd::utf8::{decode_utf8, valid_utf8};
use crate::hex::{hex_chars, hex_of};
use crate::text::{bytes_of, find_byte, find_from, lemma_find_from, text_of, utf8_text};

verus! {

/// One entry of a tree payload, before its object is loaded.
pub struct RawEntry {
    pub mode: String,
    pub name: String,
    pub sha: String,
}

/// One entry of a tree payload, as a value.
pub struct RawEntryModel {
    pub mode: Seq<char>,
    pub name: Seq<char>,
    pub sha: Seq<char>,
}

impl View for RawEntry {
    type V = RawEntryModel;

    open spec fn view(&self) -> RawEntryModel {
        RawEntryModel { mode: self.mode@, name: self.name@, sha: self.sha@ }
    }
}

/// The views of a list of entries.
pub open spec fn raw_models(entries: Seq<RawEntry>) -> Seq<RawEntryModel> {
    Seq::new(entries.len(), |i: int| entries[i]@)
}

/// The entries that a payload holds from `pos` on. The mode runs to the next
/// space and the name to the next zero byte, both in UTF-8; the twenty bytes
/// after it are the hash, written in hexadecimal. There is no result when an
/// entry is cut short or its text is not UTF-8.
pub open spec fn entries_from(data: Seq<u8>, pos: int) -> Option<Seq<RawEntryModel>>
    decreases data.len() - pos,
{
    if pos < 0 || pos >= data.len() {
        Some(Seq::empty())
    } else {
        let space = find_from(data, 32u8, pos);
        let zero = find_from(data, 0u8, space + 1);
        let end = zero + 21;
        if pos <= space < data.len() && space < zero < data.len() && end <= data.len()
            && valid_utf8(data.subrange(pos, space)) && valid_utf8(data.subrange(space + 1, zero)) {
            match entries_from(data, end) {
                None => None,
                Some(rest) => Some(
                    seq![
                        RawEntryModel {
                            mode: decode_utf8(data.subrange(pos, space)),
                            name: decode_utf8(data.subrange(space + 1, zero)),
                            sha: hex_of(data.subrange(zero + 1, end)),
                        },
                    ] + rest,
                ),
            }
        } else {
            None
        }
    }
}

/// The entries that a tree payload holds.
pub open spec fn parse_entries(data: Seq<u8>) -> Option<Seq<RawEntryModel>> {
    entries_from(data, 0)
}

/// The entries read so far, followed by those that the rest holds.
pub open spec fn entries_then(
    done: Seq<RawEntryModel>,
    rest: Option<Seq<RawEntryModel>>,
) -> Option<Seq<RawEntryModel>> {
    match rest {
        None => None,
        Some(r) => Some(done + r),
    }
}

/// Reads the entries of a tree payload.
pub fn read_entries(data: &[u8]) -> (r: Option<Vec<RawEntry>>)
    ensures
        match r {
            Some(entries) => parse_entries(data@) == Some(raw_models(entries@)),
            None => parse_entries(data@) is None,
        },
{
    let mut entries: Vec<RawEntry> = Vec::new();
    let mut pos: usize = 0;
    assert(raw_models(entries@) + entries_from(data@, 0).unwrap() =~= entries_from(
        data@,
        0,
    ).unwrap());
    while pos < data.len()
        invariant
            parse_entries(data@) == entries_then(raw_models(entries@), entries_from(data@, pos as int)),
        decreases data.len() - pos,
    {
        let space = find_byte(data, 32u8, pos);
        if space >= data.len() {
            return None;
        }
        let zero = find_byte(data, 0u8, space + 1);
        proof {
            lemma_find_from(data@, 32u8, pos as int);
            lemma_find_from(data@, 0u8, space + 1);
        }
        if zero >= data.len() || data.len() - zero < 21 {
            return None;
        }
        let end: usize = zero + 21;
        let mode = match utf8_text(bytes_of(data, pos, space).as_slice()) {
            Some(m) => m,
            None => { return None; },
        };
        let name = match utf8_text(bytes_of(data, space + 1, zero).as_slice()) {
            Some(n) => n,
            None => { return None; },
        };
        let sha = text_of(&hex_chars(bytes_of(data, zero + 1, end).as_slice()));
        let ghost before = raw_models(entries@);
        let entry = RawEntry { mode, name, sha };
        entries.push(entry);
        proof {
            let rest = entries_from(data@, end as int);
            assert(raw_models(entries@) =~= before.push(entry@));
            if rest is Some {
                assert(before + (seq![entry@] + rest.unwrap()) =~= raw_models(entries@)
                    + rest.unwrap());
            }
        }
        pos = end;
    }
    assert(raw_models(entries@) + Seq::<RawEntryModel>::empty() =~= raw_models(entries@));
    Some(entries)
}

} // verus!
