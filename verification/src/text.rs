//! Text as sequences of characters: conversions between `String`, characters
//! and UTF-8 bytes, and the searching and trimming the parsers are built on.
use vstd::prelude::*;
use vstd::utf8::{decode_utf8, valid_utf8};

verus! {

/// `String::push` appends one character to the end of the string.
pub assume_specification[ String::push ](s: &mut String, c: char)
    ensures
        final(s)@ == old(s)@.push(c),
;

/// Decodes UTF-8 with `String::from_utf8`: the string holds exactly the
/// characters that the bytes encode, and there is none when the bytes are
/// not valid UTF-8.
#[verifier::external_body]
pub(crate) fn utf8_text(bytes: &[u8]) -> (r: Option<String>)
    ensures
        r is Some <==> valid_utf8(bytes@),
        r matches Some(s) ==> s@ == decode_utf8(bytes@),
{
    String::from_utf8(bytes.to_vec()).ok()
}

/// Whether two strings hold the same characters.
pub fn same_text(a: &str, b: &str) -> (r: bool)
    ensures
        r == (a@ == b@),
{
    let x = a.to_owned();
    let y = b.to_owned();
    x == y
}

/// The characters of a string, in order.
pub fn chars_of(s: &str) -> (out: Vec<char>)
    ensures
        out@ == s@,
{
    let mut out: Vec<char> = Vec::new();
    let it = s.chars();
    for c in iter: it
        invariant
            iter.seq() == s@,
            out@ == s@.take(iter.index()),
    {
        out.push(c);
    }
    out
}

/// The string made of the given characters.
pub fn text_of(chars: &Vec<char>) -> (s: String)
    ensures
        s@ == chars@,
{
    let mut s = String::new();
    let mut i: usize = 0;
    while i < chars.len()
        invariant
            i <= chars.len(),
            s@ == chars@.take(i as int),
        decreases chars.len() - i,
    {
        s.push(chars[i]);
        i = i + 1;
    }
    s
}


/// The least index at or after `from` at which `x` stands in `s`, or the
/// length of `s` when there is none.
pub open spec fn find_from<T>(s: Seq<T>, x: T, from: int) -> int
    decreases s.len() - from,
{
    if from < 0 || from >= s.len() {
        s.len() as int
    } else if s[from] == x {
        from
    } else {
        find_from(s, x, from + 1)
    }
}

/// What `find_from` returns is the first occurrence at or after `from`.
pub proof fn lemma_find_from<T>(s: Seq<T>, x: T, from: int)
    requires
        0 <= from <= s.len(),
    ensures
        from <= find_from(s, x, from) <= s.len(),
        find_from(s, x, from) < s.len() ==> s[find_from(s, x, from)] == x,
        forall|j: int| from <= j < find_from(s, x, from) ==> s[j] != x,
    decreases s.len() - from,
{
    if from < s.len() && s[from] != x {
        lemma_find_from(s, x, from + 1);
    }
}

/// Whether `pat` stands in `s` at index `i`.
pub open spec fn has_at<T>(s: Seq<T>, pat: Seq<T>, i: int) -> bool {
    0 <= i && i + pat.len() <= s.len() && s.subrange(i, i + pat.len()) == pat
}

/// The least index at or after `from` at which `pat` stands in `s`, or the
/// length of `s` when there is none.
pub open spec fn find_sub_from<T>(s: Seq<T>, pat: Seq<T>, from: int) -> int
    decreases s.len() + 1 - from,
{
    if from < 0 || from + pat.len() > s.len() {
        s.len() as int
    } else if has_at(s, pat, from) {
        from
    } else {
        find_sub_from(s, pat, from + 1)
    }
}

/// Whether `pat` occurs somewhere in `s`.
pub open spec fn contains_sub<T>(s: Seq<T>, pat: Seq<T>) -> bool {
    exists|i: int| has_at(s, pat, i)
}

/// What `find_sub_from` returns is the first occurrence at or after `from`,
/// and the length of `s` when there is none.
pub proof fn lemma_find_sub_from<T>(s: Seq<T>, pat: Seq<T>, from: int)
    requires
        0 <= from,
    ensures
        find_sub_from(s, pat, from) == s.len() || (from <= find_sub_from(s, pat, from) < s.len()
            && has_at(s, pat, find_sub_from(s, pat, from))),
        forall|j: int|
            from <= j && #[trigger] has_at(s, pat, j) ==> find_sub_from(s, pat, from) <= j
                && has_at(s, pat, find_sub_from(s, pat, from)),
    decreases s.len() + 1 - from,
{
    if from + pat.len() <= s.len() && !has_at(s, pat, from) {
        lemma_find_sub_from(s, pat, from + 1);
    }
}

/// Whether the characters of `pat` stand at index `i` of `s`.
pub fn matches_at(s: &Vec<char>, pat: &Vec<char>, i: usize) -> (r: bool)
    ensures
        r == has_at(s@, pat@, i as int),
{
    if pat.len() > s.len() || i > s.len() - pat.len() {
        return false;
    }
    let mut k: usize = 0;
    while k < pat.len()
        invariant
            k <= pat.len(),
            i + pat.len() <= s.len(),
            forall|j: int| 0 <= j < k ==> s@[i + j] == pat@[j],
        decreases pat.len() - k,
    {
        if s[i + k] != pat[k] {
            assert(s@.subrange(i as int, i + pat.len())[k as int] != pat@[k as int]);
            return false;
        }
        k = k + 1;
    }
    assert(s@.subrange(i as int, i + pat.len()) =~= pat@);
    true
}

/// The index of the first occurrence of `pat` in `s` at or after `from`, or
/// the length of `s`.
pub fn find_sub(s: &Vec<char>, pat: &Vec<char>, from: usize) -> (r: usize)
    ensures
        r == find_sub_from(s@, pat@, from as int),
        r <= s.len(),
{
    if pat.len() > s.len() || from > s.len() - pat.len() {
        return s.len();
    }
    if pat.len() == 0 {
        assert(s@.subrange(from as int, from as int) =~= pat@);
        return from;
    }
    let mut i: usize = from;
    while i <= s.len() - pat.len()
        invariant
            0 < pat.len() <= s.len(),
            from <= i,
            find_sub_from(s@, pat@, from as int) == find_sub_from(s@, pat@, i as int),
        decreases s.len() - i,
    {
        if matches_at(s, pat, i) {
            return i;
        }
        i = i + 1;
    }
    s.len()
}

/// Whether `pat` occurs somewhere in `s`.
pub fn contains(s: &Vec<char>, pat: &Vec<char>) -> (r: bool)
    ensures
        r == contains_sub(s@, pat@),
{
    let at: usize = find_sub(s, pat, 0);
    let r = matches_at(s, pat, at);
    proof {
        lemma_find_sub_from(s@, pat@, 0);
        if !r {
            assert forall|i: int| !#[trigger] has_at(s@, pat@, i) by {}
        }
    }
    r
}

/// Whether `s` begins with `pat`.
pub fn starts_with(s: &Vec<char>, pat: &Vec<char>) -> (r: bool)
    ensures
        r == pat@.is_prefix_of(s@),
{
    let r = matches_at(s, pat, 0);
    proof {
        if r {
            assert(s@.subrange(0, pat@.len() as int) == pat@);
        } else if pat@.is_prefix_of(s@) {
            assert(s@.subrange(0, pat@.len() as int) =~= pat@);
        }
    }
    r
}

/// The copy of `s` from `from` to `to`.
pub fn slice_of(s: &Vec<char>, from: usize, to: usize) -> (out: Vec<char>)
    requires
        from <= to <= s.len(),
    ensures
        out@ == s@.subrange(from as int, to as int),
{
    let mut out: Vec<char> = Vec::new();
    let mut i: usize = from;
    while i < to
        invariant
            from <= i <= to <= s.len(),
            out@ == s@.subrange(from as int, i as int),
        decreases to - i,
    {
        out.push(s[i]);
        i = i + 1;
        assert(s@.subrange(from as int, i as int) =~= s@.subrange(from as int, i - 1).push(
            s@[i - 1],
        ));
    }
    out
}

/// The copy of the bytes of `s` from `from` to `to`.
pub fn bytes_of(s: &[u8], from: usize, to: usize) -> (out: Vec<u8>)
    requires
        from <= to <= s.len(),
    ensures
        out@ == s@.subrange(from as int, to as int),
{
    let mut out: Vec<u8> = Vec::new();
    let mut i: usize = from;
    while i < to
        invariant
            from <= i <= to <= s.len(),
            out@ == s@.subrange(from as int, i as int),
        decreases to - i,
    {
        out.push(s[i]);
        i = i + 1;
        assert(s@.subrange(from as int, i as int) =~= s@.subrange(from as int, i - 1).push(
            s@[i - 1],
        ));
    }
    out
}

/// The index of the first byte equal to `x` at or after `from`, or the length.
pub fn find_byte(s: &[u8], x: u8, from: usize) -> (r: usize)
    ensures
        r == find_from(s@, x, from as int),
        r <= s.len(),
{
    let mut i: usize = from;
    while i < s.len()
        invariant
            from <= i,
            find_from(s@, x, from as int) == find_from(s@, x, i as int),
        decreases s.len() - i,
    {
        if s[i] == x {
            return i;
        }
        i = i + 1;
    }
    s.len()
}

/// The index of the first character equal to `x` at or after `from`, or the
/// length.
pub fn find_char(s: &Vec<char>, x: char, from: usize) -> (r: usize)
    ensures
        r == find_from(s@, x, from as int),
        r <= s.len(),
{
    let mut i: usize = from;
    while i < s.len()
        invariant
            from <= i,
            find_from(s@, x, from as int) == find_from(s@, x, i as int),
        decreases s.len() - i,
    {
        if s[i] == x {
            return i;
        }
        i = i + 1;
    }
    s.len()
}

/// Whether a character is white space, as Unicode counts it.
pub open spec fn is_space(c: char) -> bool {
    ||| '\u{9}' <= c <= '\u{d}'
    ||| c == ' '
    ||| c == '\u{85}'
    ||| c == '\u{a0}'
    ||| c == '\u{1680}'
    ||| '\u{2000}' <= c <= '\u{200a}'
    ||| c == '\u{2028}'
    ||| c == '\u{2029}'
    ||| c == '\u{202f}'
    ||| c == '\u{205f}'
    ||| c == '\u{3000}'
}

/// The text without the white space at its start.
pub open spec fn trim_start(s: Seq<char>) -> Seq<char>
    decreases s.len(),
{
    if s.len() > 0 && is_space(s[0]) {
        trim_start(s.skip(1))
    } else {
        s
    }
}

/// The text without the white space at its end.
pub open spec fn trim_end(s: Seq<char>) -> Seq<char>
    decreases s.len(),
{
    if s.len() > 0 && is_space(s.last()) {
        trim_end(s.drop_last())
    } else {
        s
    }
}

/// The text without the white space at its start and at its end.
pub open spec fn trim(s: Seq<char>) -> Seq<char> {
    trim_end(trim_start(s))
}

/// What stands between the first occurrence of a separator and the next
/// one, or the end; nothing when the separator does not occur.
pub open spec fn second_piece(s: Seq<char>, sep: char) -> Option<Seq<char>> {
    let first = find_from(s, sep, 0);
    if 0 <= first < s.len() {
        Some(s.subrange(first + 1, find_from(s, sep, first + 1)))
    } else {
        None
    }
}

/// What stands after the last occurrence of a separator, or the whole text
/// when the separator does not occur.
pub open spec fn last_piece(s: Seq<char>, sep: char) -> Seq<char>
    decreases s.len(),
{
    if s.len() == 0 || s.last() == sep {
        Seq::empty()
    } else {
        last_piece(s.drop_last(), sep).push(s.last())
    }
}

/// Whether a character is white space.
pub fn is_white_space(c: char) -> (r: bool)
    ensures
        r == is_space(c),
{
    ('\u{9}' <= c && c <= '\u{d}') || c == ' ' || c == '\u{85}' || c == '\u{a0}' || c
        == '\u{1680}' || ('\u{2000}' <= c && c <= '\u{200a}') || c == '\u{2028}' || c
        == '\u{2029}' || c == '\u{202f}' || c == '\u{205f}' || c == '\u{3000}'
}

/// The text without the white space at its start and at its end.
pub fn trimmed(s: &Vec<char>) -> (out: Vec<char>)
    ensures
        out@ == trim(s@),
{
    let mut from: usize = 0;
    assert(s@.skip(0) =~= s@);
    while from < s.len() && is_white_space(s[from])
        invariant
            from <= s.len(),
            trim_start(s@) == trim_start(s@.skip(from as int)),
        decreases s.len() - from,
    {
        assert(s@.skip(from as int).skip(1) =~= s@.skip(from + 1));
        from = from + 1;
    }
    let mut to: usize = s.len();
    let ghost rest = s@.skip(from as int);
    assert(trim_start(s@) == rest);
    assert(rest.take(rest.len() as int) =~= rest);
    while to > from && is_white_space(s[to - 1])
        invariant
            from <= to <= s.len(),
            rest == s@.skip(from as int),
            trim_end(rest) == trim_end(rest.take(to - from)),
        decreases to,
    {
        assert(rest.take(to - from).drop_last() =~= rest.take(to - from - 1));
        to = to - 1;
    }
    assert(rest.take(to - from) =~= s@.subrange(from as int, to as int));
    slice_of(s, from, to)
}

/// What stands between the first occurrence of a separator and the next.
pub fn piece_after(s: &Vec<char>, sep: char) -> (r: Option<Vec<char>>)
    ensures
        match r {
            Some(p) => second_piece(s@, sep) == Some(p@),
            None => second_piece(s@, sep) is None,
        },
{
    let first = find_char(s, sep, 0);
    if first >= s.len() {
        return None;
    }
    let next = find_char(s, sep, first + 1);
    proof {
        lemma_find_from(s@, sep, first + 1);
    }
    Some(slice_of(s, first + 1, next))
}

/// What stands after the last occurrence of a separator.
pub fn piece_last(s: &Vec<char>, sep: char) -> (out: Vec<char>)
    ensures
        out@ == last_piece(s@, sep),
{
    let mut from: usize = s.len();
    assert(s@.take(from as int) =~= s@);
    assert(s@.subrange(from as int, s@.len() as int) =~= Seq::<char>::empty());
    while from > 0 && s[from - 1] != sep
        invariant
            from <= s.len(),
            last_piece(s@, sep) == last_piece(s@.take(from as int), sep) + s@.subrange(
                from as int,
                s@.len() as int,
            ),
        decreases from,
    {
        let ghost head = s@.take(from as int);
        assert(head.drop_last() =~= s@.take(from - 1));
        assert(last_piece(head.drop_last(), sep).push(head.last()) + s@.subrange(
            from as int,
            s@.len() as int,
        ) =~= last_piece(head.drop_last(), sep) + s@.subrange(from - 1, s@.len() as int));
        from = from - 1;
    }
    assert(last_piece(s@.take(from as int), sep) =~= Seq::<char>::empty()) by {
        if from > 0 {
            assert(s@.take(from as int).last() == sep);
        }
    }
    assert(Seq::<char>::empty() + s@.subrange(from as int, s@.len() as int) =~= s@.subrange(
        from as int,
        s@.len() as int,
    ));
    slice_of(s, from, s.len())
}

} // verus!
