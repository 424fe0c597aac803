//! The object wire format: a kind tag, a space, the payload length in
//! decimal, a zero byte, and the payload.
use vstd::prelude::*;
use crate::text::{bytes_of, find_byte, find_from};

verus! {

/// The four kinds of stored object.
#[derive(Clone, Copy, Debug, PartialEq, Eq, Structural)]
pub enum ObjectKind {
    Blob,
    Commit,
    Tree,
    Tag,
}

/// Why framed bytes could not be taken apart.
#[derive(Clone, Copy, Debug, PartialEq, Eq, Structural)]
pub enum FrameError {
    /// The space, the zero byte or the size field is missing or ill-formed,
    /// or the declared size exceeds the bytes that follow.
    MalformedFraming,
    /// The tag before the space names none of the four kinds.
    UnrecognizedObjectKind,
}

/// The ASCII tag of a kind.
pub open spec fn kind_tag(kind: ObjectKind) -> Seq<u8> {
    match kind {
        ObjectKind::Blob => seq![98u8, 108u8, 111u8, 98u8],
        ObjectKind::Commit => seq![99u8, 111u8, 109u8, 109u8, 105u8, 116u8],
        ObjectKind::Tree => seq![116u8, 114u8, 101u8, 101u8],
        ObjectKind::Tag => seq![116u8, 97u8, 103u8],
    }
}

/// The kind that a tag names, if any.
pub open spec fn kind_of_tag(tag: Seq<u8>) -> Option<ObjectKind> {
    if tag == kind_tag(ObjectKind::Blob) {
        Some(ObjectKind::Blob)
    } else if tag == kind_tag(ObjectKind::Commit) {
        Some(ObjectKind::Commit)
    } else if tag == kind_tag(ObjectKind::Tree) {
        Some(ObjectKind::Tree)
    } else if tag == kind_tag(ObjectKind::Tag) {
        Some(ObjectKind::Tag)
    } else {
        None
    }
}

/// Whether a byte is an ASCII decimal digit.
pub open spec fn is_digit(b: u8) -> bool {
    48 <= b <= 57
}

/// The decimal text of a number, without leading zeros.
pub open spec fn decimal(n: nat) -> Seq<u8>
    decreases n,
{
    if n < 10 {
        seq![(48 + n) as u8]
    } else {
        decimal(n / 10).push((48 + n % 10) as u8)
    }
}

/// The number that a string of decimal digits denotes.
pub open spec fn digits_value(s: Seq<u8>) -> nat
    decreases s.len(),
{
    if s.len() == 0 {
        0
    } else {
        (digits_value(s.drop_last()) * 10 + (s.last() - 48)) as nat
    }
}

/// Whether every byte is a decimal digit.
pub open spec fn all_digits(s: Seq<u8>) -> bool {
    forall|i: int| 0 <= i < s.len() ==> is_digit(#[trigger] s[i])
}

/// The size that a size field denotes: an optional plus sign, then at least
/// one decimal digit, with a value that fits the machine word.
pub open spec fn parse_size(s: Seq<u8>) -> Option<nat> {
    let digits = if s.len() > 0 && s[0] == 43 {
        s.skip(1)
    } else {
        s
    };
    if digits.len() > 0 && all_digits(digits) && digits_value(digits) <= usize::MAX {
        Some(digits_value(digits))
    } else {
        None
    }
}

/// The framed form of a payload of the given kind.
pub open spec fn frame(kind: ObjectKind, payload: Seq<u8>) -> Seq<u8> {
    kind_tag(kind) + seq![32u8] + decimal(payload.len()) + seq![0u8] + payload
}

/// Takes framed bytes apart: the tag ends at the first space, the size field
/// at the first zero byte after it, and the payload is as long as the size
/// field says; bytes after it are ignored.
pub open spec fn unframe(data: Seq<u8>) -> Result<(ObjectKind, Seq<u8>), FrameError> {
    let space = find_from(data, 32u8, 0);
    let rest = data.skip(space + 1);
    let zero = find_from(rest, 0u8, 0);
    let body = rest.skip(zero + 1);
    if space >= data.len() || zero >= rest.len() {
        Err(FrameError::MalformedFraming)
    } else {
        match parse_size(rest.take(zero)) {
            None => Err(FrameError::MalformedFraming),
            Some(size) => if size > body.len() {
                Err(FrameError::MalformedFraming)
            } else {
                match kind_of_tag(data.take(space)) {
                    None => Err(FrameError::UnrecognizedObjectKind),
                    Some(kind) => Ok((kind, body.take(size as int))),
                }
            },
        }
    }
}

/// The decimal text of a number is made of digits and denotes that number.
pub proof fn lemma_decimal(n: nat)
    ensures
        decimal(n).len() > 0,
        all_digits(decimal(n)),
        digits_value(decimal(n)) == n,
    decreases n,
{
    if n >= 10 {
        lemma_decimal(n / 10);
        let d = decimal(n / 10);
        assert(decimal(n).drop_last() =~= d);
        assert(decimal(n).last() == (48 + n % 10) as u8);
        assert forall|i: int| 0 <= i < decimal(n).len() implies is_digit(
            #[trigger] decimal(n)[i],
        ) by {
            if i < d.len() {
                assert(decimal(n)[i] == d[i]);
            }
        }
    } else {
        assert(decimal(n).drop_last() =~= Seq::<u8>::empty());
        assert(digits_value(Seq::<u8>::empty()) == 0);
        assert(decimal(n).last() == (48 + n) as u8);
    }
}

/// A prefix of a digit string denotes no more than the whole string.
pub proof fn lemma_digits_prefix(s: Seq<u8>, k: int)
    requires
        0 <= k <= s.len(),
        all_digits(s),
    ensures
        digits_value(s.take(k)) <= digits_value(s),
    decreases s.len() - k,
{
    if k < s.len() {
        lemma_digits_prefix(s, k + 1);
        assert(s.take(k + 1).drop_last() =~= s.take(k));
        assert(is_digit(s[k]));
    } else {
        assert(s.take(k) =~= s);
    }
}

/// Where `x` first stands in `a + [x] + b`, when it does not stand in `a`.
pub proof fn lemma_find_after_prefix(a: Seq<u8>, x: u8, b: Seq<u8>, from: int)
    requires
        0 <= from <= a.len(),
        forall|i: int| 0 <= i < a.len() ==> a[i] != x,
    ensures
        find_from(a + seq![x] + b, x, from) == a.len(),
    decreases a.len() - from,
{
    let s = a + seq![x] + b;
    if from < a.len() {
        assert(s[from] == a[from]);
        lemma_find_after_prefix(a, x, b, from + 1);
    } else {
        assert(s[from] == x);
    }
}

/// Framing and then taking apart gives back the kind and the payload.
pub proof fn lemma_unframe_frame(kind: ObjectKind, payload: Seq<u8>)
    requires
        payload.len() <= usize::MAX,
    ensures
        unframe(frame(kind, payload)) == Ok::<(ObjectKind, Seq<u8>), FrameError>((kind, payload)),
{
    let tag = kind_tag(kind);
    let size = decimal(payload.len());
    let data = frame(kind, payload);
    lemma_decimal(payload.len());
    assert(data =~= tag + seq![32u8] + (size + seq![0u8] + payload));
    lemma_find_after_prefix(tag, 32u8, size + seq![0u8] + payload, 0);
    let rest = data.skip(tag.len() as int + 1);
    assert(rest =~= size + seq![0u8] + payload);
    lemma_find_after_prefix(size, 0u8, payload, 0);
    assert(rest.take(size.len() as int) =~= size);
    assert(size[0] != 43);
    assert(rest.skip(size.len() as int + 1) =~= payload);
    assert(payload.take(payload.len() as int) =~= payload);
    assert(data.take(tag.len() as int) =~= tag);
    assert(kind_tag(ObjectKind::Blob).len() == 4 && kind_tag(ObjectKind::Blob)[0] == 98);
    assert(kind_tag(ObjectKind::Commit).len() == 6);
    assert(kind_tag(ObjectKind::Tree).len() == 4 && kind_tag(ObjectKind::Tree)[0] == 116);
    assert(kind_tag(ObjectKind::Tag).len() == 3);
}

/// The tag of a kind, as bytes.
pub fn tag_bytes(kind: ObjectKind) -> (out: Vec<u8>)
    ensures
        out@ == kind_tag(kind),
{
    let out: Vec<u8> = match kind {
        ObjectKind::Blob => vec![98u8, 108u8, 111u8, 98u8],
        ObjectKind::Commit => vec![99u8, 111u8, 109u8, 109u8, 105u8, 116u8],
        ObjectKind::Tree => vec![116u8, 114u8, 101u8, 101u8],
        ObjectKind::Tag => vec![116u8, 97u8, 103u8],
    };
    assert(out@ =~= kind_tag(kind));
    out
}

/// Whether two byte strings are equal.
pub fn same_bytes(a: &[u8], b: &[u8]) -> (r: bool)
    ensures
        r == (a@ == b@),
{
    if a.len() != b.len() {
        return false;
    }
    let mut i: usize = 0;
    while i < a.len()
        invariant
            a.len() == b.len(),
            i <= a.len(),
            forall|j: int| 0 <= j < i ==> a@[j] == b@[j],
        decreases a.len() - i,
    {
        if a[i] != b[i] {
            return false;
        }
        i = i + 1;
    }
    assert(a@ =~= b@);
    true
}

/// The kind that a tag names, if any.
pub fn tag_kind(tag: &[u8]) -> (r: Option<ObjectKind>)
    ensures
        r == kind_of_tag(tag@),
{
    if same_bytes(tag, tag_bytes(ObjectKind::Blob).as_slice()) {
        Some(ObjectKind::Blob)
    } else if same_bytes(tag, tag_bytes(ObjectKind::Commit).as_slice()) {
        Some(ObjectKind::Commit)
    } else if same_bytes(tag, tag_bytes(ObjectKind::Tree).as_slice()) {
        Some(ObjectKind::Tree)
    } else if same_bytes(tag, tag_bytes(ObjectKind::Tag).as_slice()) {
        Some(ObjectKind::Tag)
    } else {
        None
    }
}

/// Writes a number in decimal.
pub fn decimal_bytes(n: usize) -> (out: Vec<u8>)
    ensures
        out@ == decimal(n as nat),
    decreases n,
{
    if n < 10 {
        let d: u8 = 48 + n as u8;
        let out: Vec<u8> = vec![d];
        assert(out@ =~= decimal(n as nat));
        out
    } else {
        let mut out = decimal_bytes(n / 10);
        let d: u8 = 48 + (n % 10) as u8;
        out.push(d);
        out
    }
}

/// Reads a size field.
pub fn read_size(field: &[u8]) -> (r: Option<usize>)
    ensures
        match r {
            Some(n) => parse_size(field@) == Some(n as nat),
            None => parse_size(field@) is None,
        },
{
    let start: usize = if field.len() > 0 && field[0] == 43 {
        1
    } else {
        0
    };
    let ghost digits = field@.skip(start as int);
    let ghost chosen = if field@.len() > 0 && field@[0] == 43 {
        field@.skip(1)
    } else {
        field@
    };
    assert(digits =~= chosen);
    if start >= field.len() {
        return None;
    }
    let mut acc: usize = 0;
    let mut i: usize = start;
    while i < field.len()
        invariant
            start <= i <= field.len(),
            digits == field@.skip(start as int),
            digits == chosen,
            chosen == if field@.len() > 0 && field@[0] == 43 {
                field@.skip(1)
            } else {
                field@
            },
            all_digits(digits.take(i - start)),
            acc == digits_value(digits.take(i - start)),
        decreases field.len() - i,
    {
        let b: u8 = field[i];
        let ghost next = digits.take(i - start + 1);
        proof {
            assert(next.drop_last() =~= digits.take(i - start));
            assert(next.last() == b);
        }
        if b < 48 || b > 57 {
            assert(!is_digit(digits[i - start]));
            return None;
        }
        assert(all_digits(next)) by {
            assert forall|j: int| 0 <= j < next.len() implies is_digit(#[trigger] next[j]) by {
                if j < i - start {
                    assert(digits.take(i - start)[j] == next[j]);
                }
            }
        }
        let value: Option<usize> = match acc.checked_mul(10) {
            Some(m) => m.checked_add((b - 48) as usize),
            None => None,
        };
        match value {
            Some(v) => {
                acc = v;
            },
            None => {
                proof {
                    assert(digits_value(next) > usize::MAX);
                    if all_digits(digits) {
                        lemma_digits_prefix(digits, i - start + 1);
                    }
                }
                return None;
            },
        }
        i = i + 1;
    }
    assert(digits.take(i - start) =~= digits);
    Some(acc)
}

/// Frames a payload.
pub fn encode_frame(kind: ObjectKind, payload: &[u8]) -> (out: Vec<u8>)
    ensures
        out@ == frame(kind, payload@),
{
    let mut out = tag_bytes(kind);
    out.push(32u8);
    let mut size = decimal_bytes(payload.len());
    out.append(&mut size);
    out.push(0u8);
    let mut i: usize = 0;
    let ghost head = out@;
    while i < payload.len()
        invariant
            i <= payload.len(),
            out@ == head + payload@.take(i as int),
        decreases payload.len() - i,
    {
        out.push(payload[i]);
        i = i + 1;
        assert(payload@.take(i as int) =~= payload@.take(i - 1).push(payload@[i - 1]));
    }
    assert(payload@.take(i as int) =~= payload@);
    out
}

/// Takes framed bytes apart.
pub fn decode_frame(data: &[u8]) -> (r: Result<(ObjectKind, Vec<u8>), FrameError>)
    ensures
        match r {
            Ok((kind, payload)) => unframe(data@) == Ok::<(ObjectKind, Seq<u8>), FrameError>(
                (kind, payload@),
            ),
            Err(e) => unframe(data@) == Err::<(ObjectKind, Seq<u8>), FrameError>(e),
        },
{
    let space = find_byte(data, 32u8, 0);
    if space >= data.len() {
        return Err(FrameError::MalformedFraming);
    }
    let rest = bytes_of(data, space + 1, data.len());
    assert(rest@ =~= data@.skip(space + 1));
    let zero = find_byte(rest.as_slice(), 0u8, 0);
    if zero >= rest.len() {
        return Err(FrameError::MalformedFraming);
    }
    let field = bytes_of(rest.as_slice(), 0, zero);
    assert(field@ =~= rest@.take(zero as int));
    let size = match read_size(field.as_slice()) {
        Some(n) => n,
        None => { return Err(FrameError::MalformedFraming); },
    };
    if size > rest.len() - (zero + 1) {
        return Err(FrameError::MalformedFraming);
    }
    let tag = bytes_of(data, 0, space);
    assert(tag@ =~= data@.take(space as int));
    let kind = match tag_kind(tag.as_slice()) {
        Some(k) => k,
        None => { return Err(FrameError::UnrecognizedObjectKind); },
    };
    let payload = bytes_of(rest.as_slice(), zero + 1, zero + 1 + size);
    assert(payload@ =~= rest@.skip(zero + 1).take(size as int));
    Ok((kind, payload))
}

} // verus!
