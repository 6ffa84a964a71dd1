//! Byte-level text helpers.

use vstd::prelude::*;
use vstd::utf8::{
    decode_utf8, encode_utf8, encode_utf8_decode_utf8, encode_utf8_valid_utf8, partial_valid_utf8,
    partial_valid_utf8_extend_ascii_block, valid_utf8, valid_utf8_concat,
};

verus! {

/// The lower-case form of an ASCII upper-case letter; every other byte is itself.
pub open spec fn lower_byte(b: u8) -> u8 {
    if 0x41 <= b <= 0x5a {
        (b + 0x20) as u8
    } else {
        b
    }
}

/// A text with its ASCII upper-case letters replaced by lower-case ones.
pub open spec fn lower_bytes(text: Seq<u8>) -> Seq<u8> {
    text.map_values(|b: u8| lower_byte(b))
}

/// Tells whether a text has no ASCII upper-case letter.
pub open spec fn is_lower(text: Seq<u8>) -> bool {
    forall|i: int| 0 <= i < text.len() ==> !(0x41 <= #[trigger] text[i] <= 0x5a)
}

/// Lower-cases one byte.
pub fn to_lower_byte(b: u8) -> (lower: u8)
    ensures
        lower == lower_byte(b),
{
    if 0x41 <= b && b <= 0x5a {
        b + 0x20
    } else {
        b
    }
}

/// Lower-cases the ASCII letters of a text.
pub fn to_lower_bytes(text: &[u8]) -> (lower: Vec<u8>)
    ensures
        lower@ == lower_bytes(text@),
{
    let mut lower: Vec<u8> = Vec::with_capacity(text.len());
    let mut i: usize = 0;
    while i < text.len()
        invariant
            i <= text.len(),
            lower@ == lower_bytes(text@.take(i as int)),
        decreases text.len() - i,
    {
        lower.push(to_lower_byte(text[i]));
        assert(text@.take(i + 1) == text@.take(i as int).push(text@[i as int]));
        assert(lower@ == lower_bytes(text@.take(i + 1)));
        i += 1;
    }
    assert(text@.take(text.len() as int) == text@);
    lower
}

/// Texts with the same bytes are the same text.
pub proof fn lemma_same_bytes_same_text(a: Seq<char>, b: Seq<char>)
    requires
        encode_utf8(a) == encode_utf8(b),
    ensures
        a == b,
{
    encode_utf8_decode_utf8(a);
    encode_utf8_decode_utf8(b);
    assert(decode_utf8(encode_utf8(a)) == a);
    assert(decode_utf8(encode_utf8(b)) == b);
}

/// Tells whether two byte strings are equal.
pub fn same_bytes(a: &[u8], b: &[u8]) -> (same: bool)
    ensures
        same == (a@ == b@),
{
    if a.len() != b.len() {
        return false;
    }
    let mut i: usize = 0;
    while i < a.len()
        invariant
            i <= a.len(),
            a.len() == b.len(),
            forall|k: int| 0 <= k < i ==> a@[k] == b@[k],
        decreases a.len() - i,
    {
        if a[i] != b[i] {
            return false;
        }
        i += 1;
    }
    assert(a@ =~= b@);
    true
}

/// Tells whether two texts are equal.
pub fn same_text(a: &str, b: &str) -> (same: bool)
    ensures
        same == (a@ == b@),
{
    let same = same_bytes(a.as_bytes(), b.as_bytes());
    proof {
        if same {
            lemma_same_bytes_same_text(a@, b@);
        }
    }
    same
}

/// Tells whether `a` comes before `b` in the order of a dictionary: at the
/// first place where they differ `a` has the smaller byte, or `a` ends there
/// and `b` goes on.
pub open spec fn bytes_lt(a: Seq<u8>, b: Seq<u8>) -> bool
    decreases a.len(),
{
    if b.len() == 0 {
        false
    } else if a.len() == 0 {
        true
    } else if a[0] != b[0] {
        a[0] < b[0]
    } else {
        bytes_lt(a.drop_first(), b.drop_first())
    }
}

/// Tells whether the text `a` comes before the text `b`, by their bytes.
pub open spec fn text_lt(a: Seq<char>, b: Seq<char>) -> bool {
    bytes_lt(encode_utf8(a), encode_utf8(b))
}

/// No byte string comes before itself.
pub proof fn lemma_bytes_lt_irreflexive(a: Seq<u8>)
    ensures
        !bytes_lt(a, a),
    decreases a.len(),
{
    if a.len() > 0 {
        lemma_bytes_lt_irreflexive(a.drop_first());
    }
}

/// The order of byte strings is transitive.
pub proof fn lemma_bytes_lt_transitive(a: Seq<u8>, b: Seq<u8>, c: Seq<u8>)
    requires
        bytes_lt(a, b),
        bytes_lt(b, c),
    ensures
        bytes_lt(a, c),
    decreases a.len(),
{
    if a.len() > 0 && a[0] == b[0] && b[0] == c[0] {
        lemma_bytes_lt_transitive(a.drop_first(), b.drop_first(), c.drop_first());
    }
}

/// Of two different byte strings one comes before the other.
pub proof fn lemma_bytes_lt_total(a: Seq<u8>, b: Seq<u8>)
    ensures
        bytes_lt(a, b) || bytes_lt(b, a) || a == b,
    decreases a.len(),
{
    if a.len() > 0 && b.len() > 0 && a[0] == b[0] {
        lemma_bytes_lt_total(a.drop_first(), b.drop_first());
        if a.drop_first() == b.drop_first() {
            assert(a =~= seq![a[0]] + a.drop_first());
            assert(b =~= seq![b[0]] + b.drop_first());
        }
    } else if a.len() == 0 && b.len() == 0 {
        assert(a =~= b);
    }
}

/// The order of texts is strict and total: no text comes before itself, the
/// order is transitive, and of two different texts one comes before the other.
pub proof fn lemma_text_order(a: Seq<char>, b: Seq<char>, c: Seq<char>)
    ensures
        !text_lt(a, a),
        text_lt(a, b) && text_lt(b, c) ==> text_lt(a, c),
        text_lt(a, b) || text_lt(b, a) || a == b,
        text_lt(a, b) ==> !text_lt(b, a),
{
    lemma_bytes_lt_irreflexive(encode_utf8(a));
    if text_lt(a, b) && text_lt(b, c) {
        lemma_bytes_lt_transitive(encode_utf8(a), encode_utf8(b), encode_utf8(c));
    }
    lemma_bytes_lt_total(encode_utf8(a), encode_utf8(b));
    if encode_utf8(a) == encode_utf8(b) {
        lemma_same_bytes_same_text(a, b);
    }
    if text_lt(a, b) && text_lt(b, a) {
        lemma_bytes_lt_transitive(encode_utf8(a), encode_utf8(b), encode_utf8(a));
    }
}

/// Tells whether `a` comes before `b` in the order of a dictionary.
pub fn bytes_before(a: &[u8], b: &[u8]) -> (before: bool)
    ensures
        before == bytes_lt(a@, b@),
{
    let mut i: usize = 0;
    assert(a@.skip(0) == a@ && b@.skip(0) == b@);
    while i < a.len() && i < b.len()
        invariant
            i <= a.len(),
            i <= b.len(),
            bytes_lt(a@, b@) == bytes_lt(a@.skip(i as int), b@.skip(i as int)),
        decreases a.len() - i,
    {
        proof {
            let x = a@.skip(i as int);
            let y = b@.skip(i as int);
            assert(x[0] == a@[i as int]);
            assert(y[0] == b@[i as int]);
            assert(x.drop_first() == a@.skip(i + 1));
            assert(y.drop_first() == b@.skip(i + 1));
        }
        if a[i] != b[i] {
            return a[i] < b[i];
        }
        i += 1;
    }
    proof {
        assert(a@.skip(i as int).len() == a.len() - i);
        assert(b@.skip(i as int).len() == b.len() - i);
    }
    i < b.len()
}

/// Tells whether the text `a` comes before the text `b`.
pub fn text_before(a: &str, b: &str) -> (before: bool)
    ensures
        before == text_lt(a@, b@),
{
    bytes_before(a.as_bytes(), b.as_bytes())
}

/// Lower-casing is idempotent.
pub proof fn lemma_lower_bytes_idempotent(text: Seq<u8>)
    ensures
        lower_bytes(lower_bytes(text)) == lower_bytes(text),
        is_lower(lower_bytes(text)),
{
    assert(lower_bytes(lower_bytes(text)) =~= lower_bytes(text));
}

/// A text without upper-case letters is its own lower-case form.
pub proof fn lemma_lower_bytes_of_lower(text: Seq<u8>)
    requires
        is_lower(text),
    ensures
        lower_bytes(text) == text,
{
    assert(lower_bytes(text) =~= text);
}

/// The place of the first `b` in `s`; the length of `s` where it has none.
pub open spec fn first_index(s: Seq<u8>, b: u8) -> int
    decreases s.len(),
{
    if s.len() == 0 {
        0
    } else if s[0] == b {
        0
    } else {
        1 + first_index(s.drop_first(), b)
    }
}

/// The place of the last `b` in `s`; -1 where it has none.
pub open spec fn last_index(s: Seq<u8>, b: u8) -> int
    decreases s.len(),
{
    if s.len() == 0 {
        -1
    } else if s.last() == b {
        s.len() - 1
    } else {
        last_index(s.drop_last(), b)
    }
}

/// The first `b` of `s` stands where no `b` stands before it.
pub proof fn lemma_first_index(s: Seq<u8>, b: u8)
    ensures
        0 <= first_index(s, b) <= s.len(),
        forall|k: int| 0 <= k < first_index(s, b) ==> s[k] != b,
        first_index(s, b) < s.len() ==> s[first_index(s, b)] == b,
    decreases s.len(),
{
    if s.len() > 0 && s[0] != b {
        let rest = s.drop_first();
        lemma_first_index(rest, b);
        assert forall|k: int| 0 <= k < first_index(s, b) implies s[k] != b by {
            if k > 0 {
                assert(rest[k - 1] == s[k]);
            }
        }
    }
}

/// A place with `b`, or the end, before which no `b` stands, is that of the
/// first `b`.
pub proof fn lemma_first_index_is(s: Seq<u8>, b: u8, i: int)
    requires
        0 <= i <= s.len(),
        forall|k: int| 0 <= k < i ==> s[k] != b,
        i < s.len() ==> s[i] == b,
    ensures
        first_index(s, b) == i,
{
    lemma_first_index(s, b);
}

/// The last `b` of `s` stands where no `b` stands behind it.
pub proof fn lemma_last_index(s: Seq<u8>, b: u8)
    ensures
        -1 <= last_index(s, b) < s.len(),
        forall|k: int| last_index(s, b) < k < s.len() ==> s[k] != b,
        last_index(s, b) >= 0 ==> s[last_index(s, b)] == b,
    decreases s.len(),
{
    if s.len() > 0 && s.last() != b {
        let rest = s.drop_last();
        lemma_last_index(rest, b);
        assert forall|k: int| last_index(s, b) < k < s.len() implies s[k] != b by {
            if k < s.len() - 1 {
                assert(rest[k] == s[k]);
            }
        }
    }
}

/// A place with `b`, or -1, behind which no `b` stands, is that of the last
/// `b`.
pub proof fn lemma_last_index_is(s: Seq<u8>, b: u8, i: int)
    requires
        -1 <= i < s.len(),
        forall|k: int| i < k < s.len() ==> s[k] != b,
        i >= 0 ==> s[i] == b,
    ensures
        last_index(s, b) == i,
{
    lemma_last_index(s, b);
}

/// Finds the first `b` in `s`.
pub fn find_first(s: &[u8], b: u8) -> (i: usize)
    ensures
        i == first_index(s@, b),
{
    let mut i: usize = 0;
    while i < s.len() && s[i] != b
        invariant
            i <= s.len(),
            forall|k: int| 0 <= k < i ==> s@[k] != b,
        decreases s.len() - i,
    {
        i += 1;
    }
    proof {
        lemma_first_index_is(s@, b, i as int);
    }
    i
}

/// Finds the last `b` in `s`.
pub fn find_last(s: &[u8], b: u8) -> (i: Option<usize>)
    ensures
        match i {
            Some(k) => k == last_index(s@, b),
            None => last_index(s@, b) == -1,
        },
{
    let mut i: usize = s.len();
    while i > 0 && s[i - 1] != b
        invariant
            i <= s.len(),
            forall|k: int| i <= k < s.len() ==> s@[k] != b,
        decreases i,
    {
        i -= 1;
    }
    proof {
        lemma_last_index_is(s@, b, i as int - 1);
    }
    if i == 0 {
        None
    } else {
        Some(i - 1)
    }
}

/// Tells whether every byte of a text is an ASCII character.
pub open spec fn is_ascii_bytes(s: Seq<u8>) -> bool {
    forall|i: int| 0 <= i < s.len() ==> #[trigger] s[i] < 0x80
}

/// A text of ASCII characters is well-formed UTF-8.
pub proof fn lemma_ascii_is_utf8(s: Seq<u8>)
    requires
        is_ascii_bytes(s),
    ensures
        valid_utf8(s),
{
    assert(s.subrange(0, 0) == Seq::<u8>::empty());
    assert(partial_valid_utf8(s, 0));
    partial_valid_utf8_extend_ascii_block(s, 0, s.len() as int);
    assert(s.subrange(0, s.len() as int) == s);
}

/// ASCII characters behind a well-formed text leave it well formed.
pub proof fn lemma_utf8_then_ascii(text: Seq<u8>, more: Seq<u8>)
    requires
        valid_utf8(text),
        is_ascii_bytes(more),
    ensures
        valid_utf8(text + more),
{
    lemma_ascii_is_utf8(more);
    valid_utf8_concat(text, more);
}

/// Appends one ASCII character to a text.
pub fn push_ascii(out: &mut Vec<u8>, b: u8)
    requires
        b < 0x80,
    ensures
        final(out)@ == old(out)@.push(b),
        valid_utf8(old(out)@) ==> valid_utf8(final(out)@),
{
    proof {
        if valid_utf8(out@) {
            assert(is_ascii_bytes(seq![b]));
            lemma_utf8_then_ascii(out@, seq![b]);
            assert(out@ + seq![b] == out@.push(b));
        }
    }
    out.push(b);
}

/// Appends a text to a text.
pub fn push_text(out: &mut Vec<u8>, text: &str)
    ensures
        final(out)@ == old(out)@ + encode_utf8(text@),
        valid_utf8(old(out)@) ==> valid_utf8(final(out)@),
{
    proof {
        encode_utf8_valid_utf8(text@);
        if valid_utf8(out@) {
            valid_utf8_concat(out@, encode_utf8(text@));
        }
    }
    let bytes = text.as_bytes();
    let mut i: usize = 0;
    assert(bytes@.take(0) == Seq::<u8>::empty());
    while i < bytes.len()
        invariant
            i <= bytes.len(),
            out@ == old(out)@ + bytes@.take(i as int),
        decreases bytes.len() - i,
    {
        out.push(bytes[i]);
        assert(bytes@.take(i + 1) == bytes@.take(i as int).push(bytes@[i as int]));
        assert(out@ == old(out)@ + bytes@.take(i + 1));
        i += 1;
    }
    assert(bytes@.take(bytes.len() as int) == bytes@);
}

/// Calls `String::from_utf8`.
///
/// The standard library documents that the call succeeds exactly when the
/// bytes are well-formed UTF-8, and that the string then holds these bytes.
#[verifier::external_body]
pub(crate) fn string_from_utf8(bytes: Vec<u8>) -> (text: Option<String>)
    ensures
        text is Some <==> valid_utf8(bytes@),
        text matches Some(t) ==> encode_utf8(t@) == bytes@,
{
    String::from_utf8(bytes).ok()
}

/// Makes a text of ASCII characters.
pub fn ascii_text(bytes: Vec<u8>) -> (text: String)
    requires
        is_ascii_bytes(bytes@),
    ensures
        encode_utf8(text@) == bytes@,
{
    proof {
        lemma_ascii_is_utf8(bytes@);
    }
    match string_from_utf8(bytes) {
        Some(text) => text,
        None => String::new(),
    }
}

} // verus!
