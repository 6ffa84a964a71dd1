//! Reading undoes writing: the text of a canonical package, read back, gives
//! the package.

use vstd::prelude::*;
use vstd::utf8::{encode_utf8_valid_utf8, valid_utf8};
use crate::identity::parse::{
    decoded_text, described, outcome, qualifier_of, qualifiers_of, scheme, split_last, strip_back,
    strip_front,
};
use crate::identity::path::{
    clean_path, is_clean, is_spaced, lemma_clean_path_is_clean, lemma_clean_path_of_clean,
};
use crate::identity::percent::{
    decoded, decoding_undoes_encoding, encoded, encoded_byte, hex_digit, is_unreserved,
    lemma_decoded_after_encoded,
};
use crate::identity::purl::{
    canonical_form_is_unique, canonical_qualifiers, is_key_byte, is_type_byte,
    same_package_is_an_equivalence, tidy, valid_key, valid_type, InvalidIdentity, Purl, PurlView,
};
use crate::identity::render::{encoded_path, rendered, rendered_qualifiers};
use crate::text::{bytes_lt, is_ascii_bytes, is_lower, lemma_ascii_is_utf8, lower_bytes};
use crate::text::{
    first_index, last_index, lemma_first_index, lemma_first_index_is, lemma_last_index,
    lemma_last_index_is,
};

verus! {

/// Tells whether the byte `b` stands somewhere in `s`.
pub open spec fn occurs(s: Seq<u8>, b: u8) -> bool {
    exists|i: int| 0 <= i < s.len() && #[trigger] s[i] == b
}

/// A byte that stands in neither of two texts stands in neither order of
/// them put together.
pub proof fn lemma_occurs_concat(a: Seq<u8>, c: Seq<u8>, b: u8)
    ensures
        occurs(a + c, b) <==> occurs(a, b) || occurs(c, b),
{
    let s = a + c;
    if occurs(s, b) {
        let i = choose|i: int| 0 <= i < s.len() && #[trigger] s[i] == b;
        if i < a.len() {
            assert(a[i] == b);
        } else {
            assert(c[i - a.len()] == b);
        }
    }
    if occurs(a, b) {
        let i = choose|i: int| 0 <= i < a.len() && #[trigger] a[i] == b;
        assert(s[i] == b);
    }
    if occurs(c, b) {
        let i = choose|i: int| 0 <= i < c.len() && #[trigger] c[i] == b;
        assert(s[i + a.len()] == b);
    }
}

/// A text in which `b` does not stand is not split at `b`.
pub proof fn lemma_split_last_none(s: Seq<u8>, b: u8)
    requires
        !occurs(s, b),
    ensures
        split_last(s, b) == (s, None::<Seq<u8>>),
        first_index(s, b) == s.len(),
{
    lemma_last_index(s, b);
    lemma_first_index(s, b);
    if last_index(s, b) >= 0 {
        assert(s[last_index(s, b)] == b);
    }
    if first_index(s, b) < s.len() {
        assert(s[first_index(s, b)] == b);
    }
}

/// A text is split at its last `b`: at the `b` behind which no `b` stands.
pub proof fn lemma_split_last_at(head: Seq<u8>, b: u8, tail: Seq<u8>)
    requires
        !occurs(tail, b),
    ensures
        split_last(head + seq![b] + tail, b) == (head, Some(tail)),
{
    let s = head + seq![b] + tail;
    let at = head.len() as int;
    assert(s[at] == b);
    assert forall|k: int| at < k < s.len() implies s[k] != b by {
        assert(s[k] == tail[k - at - 1]);
    }
    lemma_last_index_is(s, b, at);
    assert(s.take(at) == head);
    assert(s.skip(at + 1) == tail);
}

/// The first `b` of a text is the `b` before which no `b` stands.
pub proof fn lemma_first_index_at(head: Seq<u8>, b: u8, tail: Seq<u8>)
    requires
        !occurs(head, b),
    ensures
        first_index(head + seq![b] + tail, b) == head.len(),
        (head + seq![b] + tail).take(head.len() as int) == head,
        (head + seq![b] + tail).skip(head.len() as int + 1) == tail,
{
    let s = head + seq![b] + tail;
    let at = head.len() as int;
    assert(s[at] == b);
    assert forall|k: int| 0 <= k < at implies s[k] != b by {
        assert(s[k] == head[k]);
    }
    lemma_first_index_is(s, b, at);
    assert(s.take(at) == head);
    assert(s.skip(at + 1) == tail);
}

/// A text that neither starts nor ends with `b` has no `b` to take off its
/// ends.
pub proof fn lemma_strip_nothing(s: Seq<u8>, b: u8)
    requires
        s.len() > 0 ==> s[0] != b && s.last() != b,
    ensures
        strip_back(strip_front(s, b), b) == s,
{
}

/// Tells whether a byte parts a package URL: one of `# ? @ / : & =`.
pub open spec fn is_delimiter(b: u8) -> bool {
    b == 0x23 || b == 0x3f || b == 0x40 || b == 0x2f || b == 0x3a || b == 0x26 || b == 0x3d
}

/// Tells whether a text is made of bytes that stand in encoded texts: the
/// unreserved bytes and the percent sign.
pub open spec fn is_plain(s: Seq<u8>) -> bool {
    forall|i: int| 0 <= i < s.len() ==> is_unreserved(#[trigger] s[i]) || s[i] == 0x25
}

/// An encoded text is made of unreserved bytes and percent signs.
pub proof fn lemma_encoded_is_plain(text: Seq<u8>)
    ensures
        is_plain(encoded(text)),
        text.len() > 0 ==> encoded(text).len() > 0,
    decreases text.len(),
{
    if text.len() > 0 {
        lemma_encoded_is_plain(text.drop_last());
        let b = text.last();
        assert(is_unreserved(hex_digit(b / 16)));
        assert(is_unreserved(hex_digit(b % 16)));
    }
}

/// No delimiter stands in a text of unreserved bytes and percent signs.
pub proof fn lemma_plain_has_no_delimiter(s: Seq<u8>, b: u8)
    requires
        is_plain(s),
        is_delimiter(b),
    ensures
        !occurs(s, b),
{
    if occurs(s, b) {
        let i = choose|i: int| 0 <= i < s.len() && #[trigger] s[i] == b;
        assert(is_unreserved(s[i]) || s[i] == 0x25);
    }
}

/// No delimiter stands in the type of a package or in the key of a
/// qualifier, and both are ASCII.
pub proof fn lemma_word_has_no_delimiter(word: Seq<u8>, b: u8)
    requires
        valid_type(word) || valid_key(word),
        is_delimiter(b),
    ensures
        !occurs(word, b),
        is_ascii_bytes(word),
        valid_utf8(word),
{
    if occurs(word, b) {
        let i = choose|i: int| 0 <= i < word.len() && #[trigger] word[i] == b;
        assert(is_type_byte(word[i]) || is_key_byte(word[i]));
    }
    assert forall|i: int| 0 <= i < word.len() implies #[trigger] word[i] < 0x80 by {
        assert(is_type_byte(word[i]) || is_key_byte(word[i]));
    }
    lemma_ascii_is_utf8(word);
}

/// The encoding of a path is made of unreserved bytes, percent signs and
/// slashes; it is clean where the path is, and it stands for the path.
pub proof fn lemma_encoded_path(path: Seq<u8>)
    ensures
        forall|i: int|
            0 <= i < encoded_path(path).len() ==> is_unreserved(#[trigger] encoded_path(path)[i])
                || encoded_path(path)[i] == 0x25 || encoded_path(path)[i] == 0x2f,
        path.len() > 0 ==> encoded_path(path).len() > 0 && (encoded_path(path)[0] == 0x2f
            <==> path[0] == 0x2f) && (encoded_path(path).last() == 0x2f <==> path.last() == 0x2f),
        is_spaced(path) ==> is_spaced(encoded_path(path)),
        is_clean(path) ==> is_clean(encoded_path(path)),
    decreases path.len(),
{
    if path.len() > 0 {
        let front = path.drop_last();
        let b = path.last();
        lemma_encoded_path(front);
        let whole = encoded_path(path);
        let before = encoded_path(front);
        assert(is_unreserved(hex_digit(b / 16)));
        assert(is_unreserved(hex_digit(b % 16)));
        if front.len() > 0 {
            assert(front[0] == path[0]);
            assert(whole[0] == before[0]);
        }
        if is_spaced(path) {
            assert(is_spaced(front)) by {
                assert forall|i: int| 0 <= i < front.len() - 1 && #[trigger] front[i]
                    == 0x2f implies front[i + 1] != 0x2f by {
                    assert(path[i] == 0x2f);
                }
            }
            assert forall|i: int| 0 <= i < whole.len() - 1 && #[trigger] whole[i]
                == 0x2f implies whole[i + 1] != 0x2f by {
                if i < before.len() - 1 {
                    assert(before[i] == 0x2f);
                    assert(whole[i + 1] == before[i + 1]);
                } else if i == before.len() - 1 {
                    // the slash ends the encoding of the front, so a slash
                    // ends the front, and no slash follows it
                    assert(before.last() == 0x2f);
                    assert(front.last() == 0x2f);
                    assert(path[front.len() - 1] == 0x2f);
                    assert(b != 0x2f);
                } else {
                    // the slash stands in the encoding of the last byte
                    assert(b == 0x2f || !is_unreserved(b));
                }
            }
        }
    }
}

/// No delimiter but the slash stands in the encoding of a path.
pub proof fn lemma_encoded_path_has_no_delimiter(path: Seq<u8>, b: u8)
    requires
        is_delimiter(b),
        b != 0x2f,
    ensures
        !occurs(encoded_path(path), b),
{
    lemma_encoded_path(path);
    let s = encoded_path(path);
    if occurs(s, b) {
        let i = choose|i: int| 0 <= i < s.len() && #[trigger] s[i] == b;
        assert(is_unreserved(s[i]) || s[i] == 0x25 || s[i] == 0x2f);
    }
}

/// What follows the encoding of a path is decoded as if it stood alone.
pub proof fn lemma_decoded_after_encoded_path(path: Seq<u8>, tail: Seq<u8>)
    ensures
        decoded(encoded_path(path) + tail) == match decoded(tail) {
            Some(rest) => Some(path + rest),
            None => None,
        },
    decreases path.len(),
{
    if path.len() == 0 {
        assert(encoded_path(path) + tail == tail);
        if decoded(tail) is Some {
            assert(path + decoded(tail)->0 == decoded(tail)->0);
        }
    } else {
        let b = path.last();
        let front = path.drop_last();
        let one = (if b == 0x2f {
            seq![0x2fu8]
        } else {
            encoded_byte(b)
        }) + tail;
        assert(encoded_path(path) + tail == encoded_path(front) + one);
        lemma_decoded_after_encoded_path(front, one);
        assert(encoded(seq![b]) == encoded_byte(b)) by {
            assert(seq![b].drop_last() == Seq::<u8>::empty());
            assert(encoded(seq![b].drop_last()) == Seq::<u8>::empty());
        }
        if b == 0x2f {
            assert(one.drop_first() == tail);
            if decoded(tail) is Some {
                assert(decoded(one) == Some(seq![b] + decoded(tail)->0));
            }
        } else {
            lemma_decoded_after_encoded(seq![b], tail);
        }
        if decoded(tail) is Some {
            let rest = decoded(tail)->0;
            assert(decoded(one) == Some(seq![b] + rest));
            assert(front + (seq![b] + rest) == path + rest);
        }
    }
}

/// The text of one qualifier: `key=value`, the value encoded.
pub open spec fn written_qualifier(qualifier: (Seq<u8>, Seq<u8>)) -> Seq<u8> {
    qualifier.0.push(0x3d) + encoded(qualifier.1)
}

/// The texts of qualifiers with an ampersand between two of them.
pub open spec fn joined(qualifiers: Seq<(Seq<u8>, Seq<u8>)>) -> Seq<u8>
    decreases qualifiers.len(),
{
    if qualifiers.len() == 0 {
        Seq::empty()
    } else if qualifiers.len() == 1 {
        written_qualifier(qualifiers[0])
    } else {
        written_qualifier(qualifiers[0]).push(0x26) + joined(qualifiers.drop_first())
    }
}

/// One more qualifier adds an ampersand and its text.
proof fn lemma_joined_push(qualifiers: Seq<(Seq<u8>, Seq<u8>)>, last: (Seq<u8>, Seq<u8>))
    requires
        qualifiers.len() > 0,
    ensures
        joined(qualifiers.push(last)) == joined(qualifiers).push(0x26) + written_qualifier(last),
    decreases qualifiers.len(),
{
    let all = qualifiers.push(last);
    assert(all[0] == qualifiers[0]);
    if qualifiers.len() == 1 {
        assert(all.drop_first() == seq![last]);
        assert(joined(seq![last]) == written_qualifier(last));
    } else {
        let rest = qualifiers.drop_first();
        assert(all.drop_first() == rest.push(last));
        lemma_joined_push(rest, last);
        assert(written_qualifier(all[0]).push(0x26) + (joined(rest).push(0x26)
            + written_qualifier(last)) == (written_qualifier(all[0]).push(0x26) + joined(
            rest,
        )).push(0x26) + written_qualifier(last));
    }
}

/// The text of qualifiers is a question mark and their texts with
/// ampersands between them.
proof fn lemma_rendered_is_joined(qualifiers: Seq<(Seq<u8>, Seq<u8>)>)
    requires
        qualifiers.len() > 0,
    ensures
        rendered_qualifiers(qualifiers) == seq![0x3fu8] + joined(qualifiers),
    decreases qualifiers.len(),
{
    let last = qualifiers.last();
    if qualifiers.len() == 1 {
        assert(seq![0x3fu8] + last.0.push(0x3d) + encoded(last.1) == seq![0x3fu8] + (last.0.push(
            0x3d,
        ) + encoded(last.1)));
    } else {
        let front = qualifiers.drop_last();
        lemma_rendered_is_joined(front);
        assert(qualifiers == front.push(last));
        lemma_joined_push(front, last);
        assert((seq![0x3fu8] + joined(front)).push(0x26) + last.0.push(0x3d) + encoded(last.1)
            == seq![0x3fu8] + (joined(front).push(0x26) + (last.0.push(0x3d) + encoded(last.1))));
    }
}

/// No ampersand, question mark or hash stands in the text of one qualifier
/// in canonical form, and the text, read back, gives the qualifier.
proof fn lemma_written_qualifier(qualifier: (Seq<u8>, Seq<u8>))
    requires
        valid_key(qualifier.0),
        valid_utf8(qualifier.1),
    ensures
        !occurs(written_qualifier(qualifier), 0x26),
        !occurs(written_qualifier(qualifier), 0x3f),
        !occurs(written_qualifier(qualifier), 0x23),
        written_qualifier(qualifier).len() > 0,
        qualifier_of(written_qualifier(qualifier)) == Some(qualifier),
{
    let key = qualifier.0;
    let value = encoded(qualifier.1);
    let text = written_qualifier(qualifier);
    lemma_encoded_is_plain(qualifier.1);
    lemma_word_has_no_delimiter(key, 0x26);
    lemma_word_has_no_delimiter(key, 0x3f);
    lemma_word_has_no_delimiter(key, 0x23);
    lemma_word_has_no_delimiter(key, 0x3d);
    lemma_plain_has_no_delimiter(value, 0x26);
    lemma_plain_has_no_delimiter(value, 0x3f);
    lemma_plain_has_no_delimiter(value, 0x23);
    assert(text == key + seq![0x3du8] + value);
    lemma_occurs_concat(key, seq![0x3du8], 0x26);
    lemma_occurs_concat(key + seq![0x3du8], value, 0x26);
    lemma_occurs_concat(key, seq![0x3du8], 0x3f);
    lemma_occurs_concat(key + seq![0x3du8], value, 0x3f);
    lemma_occurs_concat(key, seq![0x3du8], 0x23);
    lemma_occurs_concat(key + seq![0x3du8], value, 0x23);
    lemma_first_index_at(key, 0x3d, value);
    decoding_undoes_encoding(qualifier.1);
}

/// The texts of qualifiers in canonical form, read back, give the
/// qualifiers; no question mark or hash stands in them.
proof fn lemma_joined_read(qualifiers: Seq<(Seq<u8>, Seq<u8>)>)
    requires
        canonical_qualifiers(qualifiers),
        forall|i: int| 0 <= i < qualifiers.len() ==> valid_utf8((#[trigger] qualifiers[i]).1),
    ensures
        qualifiers_of(joined(qualifiers)) == Some(qualifiers),
        !occurs(joined(qualifiers), 0x3f),
        !occurs(joined(qualifiers), 0x23),
    decreases qualifiers.len(),
{
    let nothing = Seq::<u8>::empty();
    assert(qualifiers_of(nothing) == Some(Seq::<(Seq<u8>, Seq<u8>)>::empty()));
    if qualifiers.len() == 0 {
        assert(qualifiers == Seq::<(Seq<u8>, Seq<u8>)>::empty());
    } else {
        let first = qualifiers[0];
        let text = written_qualifier(first);
        lemma_written_qualifier(first);
        if qualifiers.len() == 1 {
            lemma_split_last_none(text, 0x26);
            assert(text.take(text.len() as int) == text);
            assert(seq![first] + Seq::<(Seq<u8>, Seq<u8>)>::empty() == qualifiers);
            assert(joined(qualifiers) == text);
            assert(qualifiers_of(text) == Some(seq![first] + Seq::<(Seq<u8>, Seq<u8>)>::empty()));
        } else {
            let rest = qualifiers.drop_first();
            assert(canonical_qualifiers(rest)) by {
                assert forall|i: int| 0 <= i < rest.len() implies {
                    &&& valid_key((#[trigger] rest[i]).0)
                    &&& is_lower(rest[i].0)
                    &&& rest[i].1.len() > 0
                } by {
                    assert(rest[i] == qualifiers[i + 1]);
                }
                assert forall|i: int, j: int| 0 <= i < j < rest.len() implies bytes_lt(
                    (#[trigger] rest[i]).0,
                    (#[trigger] rest[j]).0,
                ) by {
                    assert(rest[i] == qualifiers[i + 1] && rest[j] == qualifiers[j + 1]);
                }
            }
            assert forall|i: int| 0 <= i < rest.len() implies valid_utf8(
                (#[trigger] rest[i]).1,
            ) by {
                assert(rest[i] == qualifiers[i + 1]);
            }
            lemma_joined_read(rest);
            let tail = joined(rest);
            assert(joined(qualifiers) == text + seq![0x26u8] + tail);
            lemma_first_index_at(text, 0x26, tail);
            assert(seq![first] + rest == qualifiers);
            assert(qualifiers_of(text + seq![0x26u8] + tail) == Some(seq![first] + rest));
            lemma_occurs_concat(text, seq![0x26u8], 0x3f);
            lemma_occurs_concat(text + seq![0x26u8], tail, 0x3f);
            lemma_occurs_concat(text, seq![0x26u8], 0x23);
            lemma_occurs_concat(text + seq![0x26u8], tail, 0x23);
        }
    }
}

/// Tells whether every part of a description is well-formed UTF-8, as the
/// parts of every description in memory are.
pub open spec fn is_text(purl: PurlView) -> bool {
    &&& valid_utf8(purl.name)
    &&& purl.namespace matches Some(namespace) ==> valid_utf8(namespace)
    &&& purl.version matches Some(version) ==> valid_utf8(version)
    &&& forall|i: int| 0 <= i < purl.qualifiers.len() ==> valid_utf8((#[trigger] purl.qualifiers[i]).1)
}

/// A description as it is read: with an empty namespace and an empty
/// version where it has none.
pub open spec fn as_read(purl: PurlView) -> PurlView {
    PurlView {
        namespace: Some(
            match purl.namespace {
                Some(namespace) => namespace,
                None => Seq::empty(),
            },
        ),
        version: Some(
            match purl.version {
                Some(version) => version,
                None => Seq::empty(),
            },
        ),
        ..purl
    }
}

/// The part of the text of a package between the type and the qualifiers:
/// the namespace with its slash, the name, and the version with its sign.
pub open spec fn written_rest(purl: PurlView) -> Seq<u8> {
    (match purl.namespace {
        Some(namespace) => encoded_path(namespace).push(0x2f),
        None => Seq::empty(),
    }) + encoded(purl.name) + (match purl.version {
        Some(version) => seq![0x40u8] + encoded(version),
        None => Seq::empty(),
    })
}

/// No hash and no question mark stands in the text of a canonical package
/// before its qualifiers; the part behind the type neither starts nor ends
/// with a slash, and, read back, gives the namespace, the name and the
/// version.
proof fn lemma_written_rest(purl: PurlView)
    requires
        purl.canonical(),
        is_text(purl),
    ensures
        !occurs(written_rest(purl), 0x23),
        !occurs(written_rest(purl), 0x3f),
        written_rest(purl).len() > 0,
        written_rest(purl).last() != 0x2f,
        ({
            let (named, version) = split_last(written_rest(purl), 0x40);
            let (namespace, name) = match split_last(named, 0x2f) {
                (before, Some(last)) => (before, last),
                (all, None) => (Seq::empty(), all),
            };
            &&& decoded_text(clean_path(namespace)) == as_read(purl).namespace
            &&& decoded_text(name) == Some(purl.name)
            &&& (match version {
                Some(v) => decoded_text(v),
                None => Some(Seq::empty()),
            }) == as_read(purl).version
        }),
{
    let name = encoded(purl.name);
    lemma_encoded_is_plain(purl.name);
    decoding_undoes_encoding(purl.name);
    lemma_plain_has_no_delimiter(name, 0x23);
    lemma_plain_has_no_delimiter(name, 0x3f);
    lemma_plain_has_no_delimiter(name, 0x40);
    lemma_plain_has_no_delimiter(name, 0x2f);
    let lead = match purl.namespace {
        Some(namespace) => encoded_path(namespace).push(0x2f),
        None => Seq::empty(),
    };
    let tail = match purl.version {
        Some(version) => seq![0x40u8] + encoded(version),
        None => Seq::empty(),
    };
    let named = lead + name;
    let rest = written_rest(purl);
    assert(rest == named + tail);
    // the namespace
    let slash = seq![0x2fu8];
    assert(!occurs(slash, 0x23) && !occurs(slash, 0x3f) && !occurs(slash, 0x40));
    if purl.namespace is Some {
        let namespace = purl.namespace->0;
        let path = encoded_path(namespace);
        assert(lead == path + slash);
        lemma_encoded_path_has_no_delimiter(namespace, 0x23);
        lemma_encoded_path_has_no_delimiter(namespace, 0x3f);
        lemma_encoded_path_has_no_delimiter(namespace, 0x40);
        lemma_occurs_concat(path, slash, 0x23);
        lemma_occurs_concat(path, slash, 0x3f);
        lemma_occurs_concat(path, slash, 0x40);
        lemma_split_last_at(path, 0x2f, name);
        assert(named == path + slash + name);
        // a canonical namespace is clean, and so is its encoding
        lemma_clean_path_is_clean(namespace);
        assert(clean_path(namespace) == namespace);
        lemma_encoded_path(namespace);
        lemma_clean_path_of_clean(path);
        lemma_decoded_after_encoded_path(namespace, Seq::empty());
        assert(path + Seq::<u8>::empty() == path);
        assert(namespace + Seq::<u8>::empty() == namespace);
    } else {
        assert(named == name);
        lemma_split_last_none(name, 0x2f);
        assert(clean_path(Seq::<u8>::empty()) == Seq::<u8>::empty());
        assert(decoded(Seq::<u8>::empty()) == Some(Seq::<u8>::empty()));
    }
    lemma_occurs_concat(lead, name, 0x23);
    lemma_occurs_concat(lead, name, 0x3f);
    lemma_occurs_concat(lead, name, 0x40);
    // the version
    if purl.version is Some {
        let version = purl.version->0;
        let written = encoded(version);
        lemma_encoded_is_plain(version);
        decoding_undoes_encoding(version);
        lemma_plain_has_no_delimiter(written, 0x23);
        lemma_plain_has_no_delimiter(written, 0x3f);
        lemma_plain_has_no_delimiter(written, 0x40);
        lemma_plain_has_no_delimiter(written, 0x2f);
        let sign = seq![0x40u8];
        assert(!occurs(sign, 0x23) && !occurs(sign, 0x3f));
        lemma_occurs_concat(sign, written, 0x23);
        lemma_occurs_concat(sign, written, 0x3f);
        assert(rest == named + sign + written);
        lemma_split_last_at(named, 0x40, written);
        assert(rest.last() == written.last());
        assert(is_unreserved(written.last()) || written.last() == 0x25);
    } else {
        assert(rest == named);
        lemma_split_last_none(named, 0x40);
        assert(rest.last() == name.last());
        assert(is_unreserved(name.last()) || name.last() == 0x25);
    }
    lemma_occurs_concat(named, tail, 0x23);
    lemma_occurs_concat(named, tail, 0x3f);
}

/// The text of a canonical package before its qualifiers: the scheme, the
/// type, and the part behind the type.
pub open spec fn written_locator(purl: PurlView) -> Seq<u8> {
    seq![0x70u8, 0x6b, 0x67] + seq![0x3au8] + (purl.ty + seq![0x2fu8] + written_rest(purl))
}

/// The text of a canonical package is split into its scheme, its type and
/// the part behind the type where it was put together.
proof fn lemma_locator_splits(purl: PurlView)
    requires
        purl.canonical(),
        is_text(purl),
    ensures
        !occurs(written_locator(purl), 0x23),
        !occurs(written_locator(purl), 0x3f),
        ({
            let locator = written_locator(purl);
            let colon = first_index(locator, 0x3a);
            let path = strip_back(strip_front(locator.skip(colon + 1), 0x2f), 0x2f);
            let slash = first_index(path, 0x2f);
            &&& 0 <= colon < locator.len()
            &&& lower_bytes(locator.take(colon)) == scheme()
            &&& 0 <= slash < path.len()
            &&& path.take(slash) == purl.ty
            &&& path.skip(slash + 1) == written_rest(purl)
        }),
{
    let ty = purl.ty;
    let rest = written_rest(purl);
    let pkg = seq![0x70u8, 0x6b, 0x67];
    let colon = seq![0x3au8];
    let slash = seq![0x2fu8];
    let path = ty + slash + rest;
    let locator = written_locator(purl);
    lemma_written_rest(purl);
    lemma_word_has_no_delimiter(ty, 0x23);
    lemma_word_has_no_delimiter(ty, 0x3f);
    lemma_word_has_no_delimiter(ty, 0x2f);
    assert(!occurs(pkg, 0x23) && !occurs(pkg, 0x3f) && !occurs(pkg, 0x3a));
    assert(!occurs(colon, 0x23) && !occurs(colon, 0x3f));
    assert(!occurs(slash, 0x23) && !occurs(slash, 0x3f));
    lemma_occurs_concat(ty, slash, 0x23);
    lemma_occurs_concat(ty + slash, rest, 0x23);
    lemma_occurs_concat(pkg, colon, 0x23);
    lemma_occurs_concat(pkg + colon, path, 0x23);
    lemma_occurs_concat(ty, slash, 0x3f);
    lemma_occurs_concat(ty + slash, rest, 0x3f);
    lemma_occurs_concat(pkg, colon, 0x3f);
    lemma_occurs_concat(pkg + colon, path, 0x3f);
    lemma_first_index_at(pkg, 0x3a, path);
    assert(lower_bytes(pkg) == scheme());
    assert(path[0] == ty[0]);
    assert(is_type_byte(ty[0]));
    assert(path.last() == rest.last());
    lemma_strip_nothing(path, 0x2f);
    lemma_first_index_at(ty, 0x2f, rest);
}

/// The text of a canonical package is split into the part before its
/// qualifiers and its qualifiers where it was put together, and the
/// qualifiers, read back, are the qualifiers.
proof fn lemma_text_splits(purl: PurlView)
    requires
        purl.canonical(),
        is_text(purl),
    ensures
        ({
            let (body, _subpath) = split_last(rendered(purl), 0x23);
            let (locator, qualifiers) = split_last(body, 0x3f);
            &&& locator == written_locator(purl)
            &&& (match qualifiers {
                Some(q) => qualifiers_of(q),
                None => Some(Seq::empty()),
            }) == Some(purl.qualifiers)
        }),
{
    let text = rendered(purl);
    let locator = written_locator(purl);
    let written = rendered_qualifiers(purl.qualifiers);
    assert(text == locator + written);
    lemma_locator_splits(purl);
    lemma_joined_read(purl.qualifiers);
    let pieces = joined(purl.qualifiers);
    if purl.qualifiers.len() > 0 {
        lemma_rendered_is_joined(purl.qualifiers);
        let mark = seq![0x3fu8];
        assert(!occurs(mark, 0x23));
        lemma_occurs_concat(mark, pieces, 0x23);
        assert(text == locator + mark + pieces);
        lemma_split_last_at(locator, 0x3f, pieces);
    } else {
        assert(written == Seq::<u8>::empty());
        assert(text == locator);
        lemma_split_last_none(locator, 0x3f);
        assert(purl.qualifiers == Seq::<(Seq<u8>, Seq<u8>)>::empty());
    }
    lemma_occurs_concat(locator, written, 0x23);
    lemma_split_last_none(text, 0x23);
}

/// Reading undoes writing: the text of a canonical package, read back,
/// describes the package. So the text tells canonical packages apart, and a
/// package has the identity of its text.
pub proof fn reading_undoes_writing(purl: PurlView)
    requires
        purl.canonical(),
        is_text(purl),
    ensures
        described(rendered(purl)) == Ok::<PurlView, InvalidIdentity>(as_read(purl)),
        outcome(rendered(purl)) == Ok::<PurlView, InvalidIdentity>(as_read(purl)),
        purl.same_package(as_read(purl)),
{
    lemma_text_splits(purl);
    lemma_locator_splits(purl);
    lemma_written_rest(purl);
    lemma_word_has_no_delimiter(purl.ty, 0x23);
    let read = as_read(purl);
    assert(described(rendered(purl)) == Ok::<PurlView, InvalidIdentity>(read));
    if purl.namespace is Some {
        lemma_clean_path_is_clean(purl.namespace->0);
    } else {
        assert(clean_path(Seq::<u8>::empty()) == Seq::<u8>::empty());
    }
    assert(tidy(read.namespace) == tidy(purl.namespace));
    assert(read.defect() is None);
}

/// The text tells canonical packages apart: two canonical packages with the
/// same text are the same package.
pub proof fn text_tells_packages_apart(a: PurlView, b: PurlView)
    requires
        a.canonical(),
        b.canonical(),
        is_text(a),
        is_text(b),
        rendered(a) == rendered(b),
    ensures
        a == b,
{
    reading_undoes_writing(a);
    reading_undoes_writing(b);
    same_package_is_an_equivalence(a, as_read(a), b);
    same_package_is_an_equivalence(b, as_read(b), b);
    canonical_form_is_unique(a, b);
}

/// The parts of a description in memory are well-formed UTF-8.
pub proof fn every_description_is_text(purl: Purl)
    ensures
        is_text(purl@),
{
    encode_utf8_valid_utf8(purl.name@);
    if purl.namespace is Some {
        encode_utf8_valid_utf8(purl.namespace->0@);
    }
    if purl.version is Some {
        encode_utf8_valid_utf8(purl.version->0@);
    }
    assert forall|i: int| 0 <= i < purl@.qualifiers.len() implies valid_utf8(
        (#[trigger] purl@.qualifiers[i]).1,
    ) by {
        encode_utf8_valid_utf8(purl.qualifiers@[i].1@);
    }
}

} // verus!
