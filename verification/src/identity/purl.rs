//! Package URLs.

use vstd::prelude::*;
use vstd::utf8::{encode_utf8, valid_utf8};
use crate::identity::path::{
    clean_path, cleaned, lemma_clean_path_is_clean, lemma_clean_path_of_clean,
};
use crate::text::{
    ascii_text, bytes_before, bytes_lt, is_ascii_bytes, is_lower, lemma_bytes_lt_irreflexive,
    lemma_bytes_lt_total, lemma_bytes_lt_transitive, lemma_lower_bytes_idempotent,
    lemma_lower_bytes_of_lower, lower_bytes, same_bytes, string_from_utf8, to_lower_bytes,
};

verus! {

/// Why a text is no identity.
#[derive(Clone, Copy, Debug, PartialEq, Eq, Structural)]
pub enum InvalidIdentity {
    /// The text does not start with the scheme of its kind.
    Scheme,
    /// The type of the package is missing or has a character that no type has.
    Type,
    /// The name is missing.
    Name,
    /// A percent sign is not followed by two hexadecimal digits, or the
    /// decoded text is not well-formed UTF-8.
    Encoding,
    /// A qualifier has a key with a character that no key has.
    QualifierKey,
    /// Two qualifiers have the same key.
    DuplicateQualifier,
    /// The text is empty.
    Empty,
}

/// What a document says of a package: its type, its namespace, its name,
/// its version, and the qualifiers that tell variants of it apart.
#[derive(Debug)]
pub struct Purl {
    pub ty: String,
    pub namespace: Option<String>,
    pub name: String,
    pub version: Option<String>,
    pub qualifiers: Vec<(String, String)>,
}

/// A package, as mathematical values: each text by its bytes.
pub struct PurlView {
    pub ty: Seq<u8>,
    pub namespace: Option<Seq<u8>>,
    pub name: Seq<u8>,
    pub version: Option<Seq<u8>>,
    pub qualifiers: Seq<(Seq<u8>, Seq<u8>)>,
}

/// The bytes of an optional text.
pub open spec fn optional_bytes(text: Option<String>) -> Option<Seq<u8>> {
    match text {
        Some(t) => Some(encode_utf8(t@)),
        None => None,
    }
}

/// The bytes of the key and of the value of a qualifier.
pub open spec fn qualifier_bytes(qualifier: (String, String)) -> (Seq<u8>, Seq<u8>) {
    (encode_utf8(qualifier.0@), encode_utf8(qualifier.1@))
}

/// The bytes of the keys and values of qualifiers.
pub open spec fn qualifiers_bytes(qualifiers: Seq<(String, String)>) -> Seq<(Seq<u8>, Seq<u8>)> {
    qualifiers.map_values(|q: (String, String)| qualifier_bytes(q))
}

impl View for Purl {
    type V = PurlView;

    open spec fn view(&self) -> PurlView {
        PurlView {
            ty: encode_utf8(self.ty@),
            namespace: optional_bytes(self.namespace),
            name: encode_utf8(self.name@),
            version: optional_bytes(self.version),
            qualifiers: qualifiers_bytes(self.qualifiers@),
        }
    }
}

/// Tells whether a byte is an ASCII digit.
pub open spec fn is_digit(b: u8) -> bool {
    0x30 <= b <= 0x39
}

/// Tells whether a byte is an ASCII letter.
pub open spec fn is_letter(b: u8) -> bool {
    0x41 <= b <= 0x5a || 0x61 <= b <= 0x7a
}

/// Tells whether a byte may stand in the type of a package: a letter, a
/// digit, or one of `. + -`.
pub open spec fn is_type_byte(b: u8) -> bool {
    is_letter(b) || is_digit(b) || b == 0x2e || b == 0x2b || b == 0x2d
}

/// Tells whether a byte may stand in the key of a qualifier: a letter, a
/// digit, or one of `. - _`.
pub open spec fn is_key_byte(b: u8) -> bool {
    is_letter(b) || is_digit(b) || b == 0x2e || b == 0x2d || b == 0x5f
}

/// Tells whether a text is the type of a package: not empty, not starting
/// with a digit, and made of type characters.
pub open spec fn valid_type(ty: Seq<u8>) -> bool {
    &&& ty.len() > 0
    &&& !is_digit(ty[0])
    &&& forall|i: int| 0 <= i < ty.len() ==> is_type_byte(#[trigger] ty[i])
}

/// Tells whether a text is the key of a qualifier: not empty, not starting
/// with a digit, and made of key characters.
pub open spec fn valid_key(key: Seq<u8>) -> bool {
    &&& key.len() > 0
    &&& !is_digit(key[0])
    &&& forall|i: int| 0 <= i < key.len() ==> is_key_byte(#[trigger] key[i])
}

/// An optional text that is there and not empty.
pub open spec fn present(text: Option<Seq<u8>>) -> Option<Seq<u8>> {
    match text {
        Some(t) => if t.len() > 0 {
            Some(t)
        } else {
            None
        },
        None => None,
    }
}

/// An optional namespace, cleaned, that is there and not empty.
pub open spec fn tidy(namespace: Option<Seq<u8>>) -> Option<Seq<u8>> {
    match namespace {
        Some(path) => present(Some(clean_path(path))),
        None => None,
    }
}

/// Tells whether the qualifiers say that `key` has the value `value`: a
/// qualifier has this key, whatever the case of its letters, and this value,
/// and the value is not empty. A qualifier without a value says nothing.
pub open spec fn declares(qualifiers: Seq<(Seq<u8>, Seq<u8>)>, key: Seq<u8>, value: Seq<u8>) -> bool {
    exists|i: int|
        0 <= i < qualifiers.len() && lower_bytes((#[trigger] qualifiers[i]).0) == key
            && qualifiers[i].1 == value && value.len() > 0
}

/// Tells whether every qualifier that says something has a valid key.
pub open spec fn valid_keys(qualifiers: Seq<(Seq<u8>, Seq<u8>)>) -> bool {
    forall|i: int|
        0 <= i < qualifiers.len() && (#[trigger] qualifiers[i]).1.len() > 0 ==> valid_key(
            qualifiers[i].0,
        )
}

/// Tells whether no two qualifiers that say something have the same key,
/// whatever the case of its letters.
pub open spec fn distinct_keys(qualifiers: Seq<(Seq<u8>, Seq<u8>)>) -> bool {
    forall|i: int, j: int|
        0 <= i < j < qualifiers.len() && (#[trigger] qualifiers[i]).1.len() > 0 && (
        #[trigger] qualifiers[j]).1.len() > 0 ==> lower_bytes(qualifiers[i].0) != lower_bytes(
            qualifiers[j].0,
        )
}

/// Tells whether qualifiers are in canonical form: every key is valid and in
/// lower case, every value is there, and the keys ascend.
pub open spec fn canonical_qualifiers(qualifiers: Seq<(Seq<u8>, Seq<u8>)>) -> bool {
    &&& forall|i: int|
        0 <= i < qualifiers.len() ==> {
            &&& valid_key((#[trigger] qualifiers[i]).0)
            &&& is_lower(qualifiers[i].0)
            &&& qualifiers[i].1.len() > 0
        }
    &&& forall|i: int, j: int|
        0 <= i < j < qualifiers.len() ==> bytes_lt(
            (#[trigger] qualifiers[i]).0,
            (#[trigger] qualifiers[j]).0,
        )
}

impl PurlView {
    /// Tells whether this describes a package: the type and the keys of the
    /// qualifiers are valid, the name is there, and no key occurs twice.
    pub open spec fn valid(self) -> bool {
        &&& valid_type(self.ty)
        &&& self.name.len() > 0
        &&& valid_keys(self.qualifiers)
        &&& distinct_keys(self.qualifiers)
    }

    /// Tells whether the namespace, once it is cleaned, is well-formed UTF-8.
    pub open spec fn namespace_is_text(self) -> bool {
        self.namespace matches Some(path) ==> valid_utf8(clean_path(path))
    }

    /// What is wrong with the description, if anything: the first of a bad
    /// type, a missing name, a namespace that is no text once it is cleaned,
    /// a bad key, a key that occurs twice.
    pub open spec fn defect(self) -> Option<InvalidIdentity> {
        if !valid_type(self.ty) {
            Some(InvalidIdentity::Type)
        } else if self.name.len() == 0 {
            Some(InvalidIdentity::Name)
        } else if !self.namespace_is_text() {
            Some(InvalidIdentity::Encoding)
        } else if !valid_keys(self.qualifiers) {
            Some(InvalidIdentity::QualifierKey)
        } else if !distinct_keys(self.qualifiers) {
            Some(InvalidIdentity::DuplicateQualifier)
        } else {
            None
        }
    }

    /// Tells whether the description is in canonical form: it is valid, the
    /// type is in lower case, a namespace that is there is clean and not
    /// empty, a version that is there is not empty, and the qualifiers are in
    /// canonical form.
    pub open spec fn canonical(self) -> bool {
        &&& self.valid()
        &&& is_lower(self.ty)
        &&& tidy(self.namespace) == self.namespace
        &&& present(self.version) == self.version
        &&& canonical_qualifiers(self.qualifiers)
    }

    /// Tells whether two descriptions are of the same package: they agree in
    /// type, whatever the case of its letters, in namespace, whatever the
    /// slashes at its ends and the number of slashes between its segments,
    /// in name and version, where an empty namespace or version counts as
    /// none, and in what their qualifiers say, in whatever order.
    pub open spec fn same_package(self, other: PurlView) -> bool {
        &&& lower_bytes(self.ty) == lower_bytes(other.ty)
        &&& tidy(self.namespace) == tidy(other.namespace)
        &&& self.name == other.name
        &&& present(self.version) == present(other.version)
        &&& forall|key: Seq<u8>, value: Seq<u8>|
            declares(self.qualifiers, key, value) <==> declares(other.qualifiers, key, value)
    }
}

/// Qualifiers in canonical form that say the same are the same.
pub proof fn lemma_canonical_qualifiers_unique(
    a: Seq<(Seq<u8>, Seq<u8>)>,
    b: Seq<(Seq<u8>, Seq<u8>)>,
)
    requires
        canonical_qualifiers(a),
        canonical_qualifiers(b),
        forall|key: Seq<u8>, value: Seq<u8>| declares(a, key, value) <==> declares(b, key, value),
    ensures
        a == b,
    decreases a.len(),
{
    assert forall|i: int| 0 <= i < a.len() implies lower_bytes((#[trigger] a[i]).0) == a[i].0 by {
        lemma_lower_bytes_of_lower(a[i].0);
    }
    assert forall|i: int| 0 <= i < b.len() implies lower_bytes((#[trigger] b[i]).0) == b[i].0 by {
        lemma_lower_bytes_of_lower(b[i].0);
    }
    if a.len() == 0 {
        if b.len() > 0 {
            assert(declares(b, b[0].0, b[0].1));
            assert(declares(a, b[0].0, b[0].1));
        }
        assert(a =~= b);
    } else if b.len() == 0 {
        assert(declares(a, a[0].0, a[0].1));
        assert(declares(b, a[0].0, a[0].1));
    } else {
        // the last qualifier has the greatest key on both sides
        let x = a.last();
        let y = b.last();
        assert(declares(a, x.0, x.1));
        assert(declares(b, y.0, y.1));
        let i = choose|i: int|
            0 <= i < b.len() && lower_bytes((#[trigger] b[i]).0) == x.0 && b[i].1 == x.1
                && x.1.len() > 0;
        let j = choose|j: int|
            0 <= j < a.len() && lower_bytes((#[trigger] a[j]).0) == y.0 && a[j].1 == y.1
                && y.1.len() > 0;
        if i < b.len() - 1 {
            assert(bytes_lt(b[i].0, b[b.len() - 1].0));
        }
        if j < a.len() - 1 {
            assert(bytes_lt(a[j].0, a[a.len() - 1].0));
        }
        lemma_bytes_lt_irreflexive(x.0);
        if bytes_lt(x.0, y.0) && bytes_lt(y.0, x.0) {
            lemma_bytes_lt_transitive(x.0, y.0, x.0);
        }
        assert(i == b.len() - 1 && j == a.len() - 1);
        assert(x == y);
        let ra = a.drop_last();
        let rb = b.drop_last();
        assert forall|key: Seq<u8>, value: Seq<u8>| declares(ra, key, value) <==> declares(
            rb,
            key,
            value,
        ) by {
            if declares(ra, key, value) {
                let k = choose|k: int|
                    0 <= k < ra.len() && lower_bytes((#[trigger] ra[k]).0) == key && ra[k].1
                        == value && value.len() > 0;
                assert(a[k] == ra[k]);
                assert(bytes_lt(a[k].0, a[a.len() - 1].0));
                lemma_bytes_lt_irreflexive(key);
                assert(declares(a, key, value));
                let m = choose|m: int|
                    0 <= m < b.len() && lower_bytes((#[trigger] b[m]).0) == key && b[m].1
                        == value && value.len() > 0;
                assert(rb[m] == b[m]);
            }
            if declares(rb, key, value) {
                let k = choose|k: int|
                    0 <= k < rb.len() && lower_bytes((#[trigger] rb[k]).0) == key && rb[k].1
                        == value && value.len() > 0;
                assert(b[k] == rb[k]);
                assert(bytes_lt(b[k].0, b[b.len() - 1].0));
                lemma_bytes_lt_irreflexive(key);
                assert(declares(b, key, value));
                let m = choose|m: int|
                    0 <= m < a.len() && lower_bytes((#[trigger] a[m]).0) == key && a[m].1
                        == value && value.len() > 0;
                assert(ra[m] == a[m]);
            }
        }
        assert(canonical_qualifiers(ra)) by {
            assert forall|p: int| 0 <= p < ra.len() implies {
                &&& valid_key((#[trigger] ra[p]).0)
                &&& is_lower(ra[p].0)
                &&& ra[p].1.len() > 0
            } by {
                assert(ra[p] == a[p]);
            }
            assert forall|p: int, q: int| 0 <= p < q < ra.len() implies bytes_lt(
                (#[trigger] ra[p]).0,
                (#[trigger] ra[q]).0,
            ) by {
                assert(bytes_lt(a[p].0, a[q].0));
            }
        }
        assert(canonical_qualifiers(rb)) by {
            assert forall|p: int| 0 <= p < rb.len() implies {
                &&& valid_key((#[trigger] rb[p]).0)
                &&& is_lower(rb[p].0)
                &&& rb[p].1.len() > 0
            } by {
                assert(rb[p] == b[p]);
            }
            assert forall|p: int, q: int| 0 <= p < q < rb.len() implies bytes_lt(
                (#[trigger] rb[p]).0,
                (#[trigger] rb[q]).0,
            ) by {
                assert(bytes_lt(b[p].0, b[q].0));
            }
        }
        lemma_canonical_qualifiers_unique(ra, rb);
        assert(a =~= ra.push(x));
        assert(b =~= rb.push(y));
    }
}

/// Canonical forms are equal exactly when they describe the same package.
pub proof fn canonical_form_is_unique(a: PurlView, b: PurlView)
    requires
        a.canonical(),
        b.canonical(),
    ensures
        a == b <==> a.same_package(b),
{
    if a.same_package(b) {
        lemma_lower_bytes_of_lower(a.ty);
        lemma_lower_bytes_of_lower(b.ty);
        lemma_canonical_qualifiers_unique(a.qualifiers, b.qualifiers);
    }
}

/// To describe the same package is an equivalence.
pub proof fn same_package_is_an_equivalence(a: PurlView, b: PurlView, c: PurlView)
    ensures
        a.same_package(a),
        a.same_package(b) ==> b.same_package(a),
        a.same_package(b) && b.same_package(c) ==> a.same_package(c),
{
}

/// Identity is stable: the canonical forms of two descriptions are equal
/// exactly when the two describe the same package. Descriptions that differ
/// only in the case of the type or of the keys, in the order of the
/// qualifiers, or in empty parts have one canonical form, and descriptions of
/// different packages have different ones.
pub proof fn identity_is_stable(first: PurlView, second: PurlView, a: PurlView, b: PurlView)
    requires
        a.canonical(),
        b.canonical(),
        a.same_package(first),
        b.same_package(second),
    ensures
        a == b <==> first.same_package(second),
{
    canonical_form_is_unique(a, b);
    if a == b {
        assert(first.same_package(a)) by {
            same_package_is_an_equivalence(a, first, a);
        }
        assert(first.same_package(second)) by {
            same_package_is_an_equivalence(first, a, second);
        }
    }
    if first.same_package(second) {
        assert(a.same_package(second)) by {
            same_package_is_an_equivalence(a, first, second);
        }
        assert(second.same_package(b)) by {
            same_package_is_an_equivalence(b, second, b);
        }
        assert(a.same_package(b)) by {
            same_package_is_an_equivalence(a, second, b);
        }
    }
}

/// Tells whether a text is the type of a package.
fn is_valid_type(ty: &[u8]) -> (valid: bool)
    ensures
        valid == valid_type(ty@),
{
    if ty.len() == 0 || (0x30 <= ty[0] && ty[0] <= 0x39) {
        return false;
    }
    let mut i: usize = 0;
    while i < ty.len()
        invariant
            i <= ty.len(),
            forall|k: int| 0 <= k < i ==> is_type_byte(#[trigger] ty@[k]),
        decreases ty.len() - i,
    {
        let b = ty[i];
        let letter = (0x41 <= b && b <= 0x5a) || (0x61 <= b && b <= 0x7a);
        let digit = 0x30 <= b && b <= 0x39;
        if !(letter || digit || b == 0x2e || b == 0x2b || b == 0x2d) {
            return false;
        }
        i += 1;
    }
    true
}

/// Tells whether a text is the key of a qualifier.
fn is_valid_key(key: &[u8]) -> (valid: bool)
    ensures
        valid == valid_key(key@),
{
    if key.len() == 0 || (0x30 <= key[0] && key[0] <= 0x39) {
        return false;
    }
    let mut i: usize = 0;
    while i < key.len()
        invariant
            i <= key.len(),
            forall|k: int| 0 <= k < i ==> is_key_byte(#[trigger] key@[k]),
        decreases key.len() - i,
    {
        let b = key[i];
        let letter = (0x41 <= b && b <= 0x5a) || (0x61 <= b && b <= 0x7a);
        let digit = 0x30 <= b && b <= 0x39;
        if !(letter || digit || b == 0x2e || b == 0x2d || b == 0x5f) {
            return false;
        }
        i += 1;
    }
    true
}

/// The lower-case form of a type or key keeps it valid and is ASCII.
proof fn lemma_lower_valid(text: Seq<u8>)
    ensures
        valid_type(text) ==> valid_type(lower_bytes(text)) && is_ascii_bytes(lower_bytes(text)),
        valid_key(text) ==> valid_key(lower_bytes(text)) && is_ascii_bytes(lower_bytes(text)),
        is_lower(lower_bytes(text)),
{
    let lower = lower_bytes(text);
    if valid_type(text) {
        assert forall|i: int| 0 <= i < lower.len() implies is_type_byte(#[trigger] lower[i])
            && lower[i] < 0x80 by {
            assert(is_type_byte(text[i]));
        }
    }
    if valid_key(text) {
        assert forall|i: int| 0 <= i < lower.len() implies is_key_byte(#[trigger] lower[i])
            && lower[i] < 0x80 by {
            assert(is_key_byte(text[i]));
        }
    }
}

/// A text in lower case.
fn lowered(text: &str) -> (lower: String)
    requires
        valid_type(encode_utf8(text@)) || valid_key(encode_utf8(text@)),
    ensures
        encode_utf8(lower@) == lower_bytes(encode_utf8(text@)),
{
    proof {
        lemma_lower_valid(encode_utf8(text@));
    }
    ascii_text(to_lower_bytes(text.as_bytes()))
}

/// An optional namespace, cleaned, that is there and not empty; none where
/// the cleaned namespace is no text.
fn tidied(namespace: Option<String>) -> (kept: Option<Option<String>>)
    ensures
        match kept {
            Some(path) => optional_bytes(path) == tidy(optional_bytes(namespace)) && (
            optional_bytes(namespace) matches Some(given) ==> valid_utf8(clean_path(given))),
            None => optional_bytes(namespace) matches Some(given) && !valid_utf8(
                clean_path(given),
            ),
        },
{
    match namespace {
        Some(path) => {
            let clean = cleaned(path.as_str().as_bytes());
            if same_bytes(clean.as_slice(), path.as_str().as_bytes()) {
                proof {
                    vstd::utf8::encode_utf8_valid_utf8(path@);
                }
                if clean.len() > 0 {
                    Some(Some(path))
                } else {
                    Some(None)
                }
            } else {
                let empty = clean.len() == 0;
                match string_from_utf8(clean) {
                    Some(text) => if empty {
                        Some(None)
                    } else {
                        Some(Some(text))
                    },
                    None => None,
                }
            }
        },
        None => Some(None),
    }
}

/// An optional text that is there and not empty.
fn non_empty(text: Option<String>) -> (kept: Option<String>)
    ensures
        optional_bytes(kept) == present(optional_bytes(text)),
{
    match text {
        Some(t) => if t.as_str().as_bytes().len() > 0 {
            Some(t)
        } else {
            None
        },
        None => None,
    }
}

impl Purl {
    /// The canonical form of the description: the type and the keys of the
    /// qualifiers in lower case, the qualifiers that say something in the
    /// order of their keys, no namespace or version where they are empty.
    /// There is none where the description is not valid; the error tells the
    /// first thing that is wrong with it.
    pub fn canonicalize(self) -> (done: Result<Purl, InvalidIdentity>)
        ensures
            match done {
                Ok(canonical) => self@.defect() is None && canonical@.canonical()
                    && canonical@.same_package(self@),
                Err(error) => self@.defect() == Some(error),
            },
    {
        let ghost given = self@;
        if !is_valid_type(self.ty.as_str().as_bytes()) {
            return Err(InvalidIdentity::Type);
        }
        if self.name.as_str().as_bytes().len() == 0 {
            return Err(InvalidIdentity::Name);
        }
        let namespace = match tidied(self.namespace) {
            Some(namespace) => namespace,
            None => {
                return Err(InvalidIdentity::Encoding);
            },
        };
        let mut i: usize = 0;
        while i < self.qualifiers.len()
            invariant
                i <= self.qualifiers.len(),
                given == self@,
                valid_type(given.ty),
                given.name.len() > 0,
                given.namespace_is_text(),
                valid_keys(given.qualifiers.take(i as int)),
            decreases self.qualifiers.len() - i,
        {
            let value_len = self.qualifiers[i].1.as_str().as_bytes().len();
            let key_valid = is_valid_key(self.qualifiers[i].0.as_str().as_bytes());
            proof {
                let next = given.qualifiers.take(i + 1);
                assert(next[i as int] == qualifier_bytes(self.qualifiers@[i as int]));
                if value_len > 0 && !key_valid {
                    assert(given.qualifiers[i as int] == next[i as int]);
                    assert(!valid_keys(given.qualifiers));
                } else {
                    assert forall|k: int|
                        0 <= k < next.len() && (#[trigger] next[k]).1.len() > 0 implies valid_key(
                        next[k].0,
                    ) by {
                        if k < i {
                            assert(given.qualifiers.take(i as int)[k] == next[k]);
                        }
                    }
                }
            }
            if value_len > 0 && !key_valid {
                return Err(InvalidIdentity::QualifierKey);
            }
            i += 1;
        }
        assert(given.qualifiers.take(self.qualifiers.len() as int) == given.qualifiers);

        let ty = lowered(self.ty.as_str());
        let name = self.name;
        let version = non_empty(self.version);
        let mut qualifiers: Vec<(String, String)> = Vec::new();
        for pair in it: self.qualifiers
            invariant
                it.seq() == self.qualifiers@,
                given == self@,
                given.qualifiers == qualifiers_bytes(self.qualifiers@),
                valid_type(given.ty),
                given.name.len() > 0,
                given.namespace_is_text(),
                valid_keys(given.qualifiers),
                canonical_qualifiers(qualifiers_bytes(qualifiers@)),
                distinct_keys(given.qualifiers.take(it.index() as int)),
                forall|key: Seq<u8>, value: Seq<u8>|
                    declares(qualifiers_bytes(qualifiers@), key, value) <==> declares(
                        given.qualifiers.take(it.index() as int),
                        key,
                        value,
                    ),
        {
            let ghost n = it.index() as int;
            let ghost done = given.qualifiers.take(n);
            let ghost next = given.qualifiers.take(n + 1);
            let ghost before = qualifiers_bytes(qualifiers@);
            let ghost raw = qualifier_bytes(pair);
            proof {
                assert(given.qualifiers[n] == raw);
                assert(next == done.push(raw));
                lemma_declares_push(done, raw);
            }
            let (key, value) = pair;
            if value.as_str().as_bytes().len() > 0 {
                let key = lowered(key.as_str());
                let ghost k = encode_utf8(key@);
                proof {
                    lemma_lower_valid(raw.0);
                    lemma_lower_bytes_idempotent(raw.0);
                }
                let mut p: usize = 0;
                while p < qualifiers.len() && bytes_before(
                    qualifiers[p].0.as_str().as_bytes(),
                    key.as_str().as_bytes(),
                )
                    invariant
                        p <= qualifiers@.len(),
                        before == qualifiers_bytes(qualifiers@),
                        k == encode_utf8(key@),
                        forall|m: int| 0 <= m < p ==> bytes_lt((#[trigger] before[m]).0, k),
                    decreases qualifiers@.len() - p,
                {
                    assert(before[p as int] == qualifier_bytes(qualifiers@[p as int]));
                    p += 1;
                }
                let taken = p < qualifiers.len() && same_bytes(
                    qualifiers[p].0.as_str().as_bytes(),
                    key.as_str().as_bytes(),
                );
                proof {
                    if p < qualifiers@.len() {
                        assert(before[p as int] == qualifier_bytes(qualifiers@[p as int]));
                    }
                }
                if taken {
                    proof {
                        // the key stands in the canonical list, so an earlier
                        // qualifier has it
                        lemma_lower_bytes_of_lower(before[p as int].0);
                        assert(declares(before, k, before[p as int].1));
                        let j = choose|j: int|
                            0 <= j < done.len() && lower_bytes((#[trigger] done[j]).0) == k
                                && done[j].1 == before[p as int].1 && before[p as int].1.len() > 0;
                        assert(given.qualifiers[j] == done[j]);
                        assert(!distinct_keys(given.qualifiers));
                    }
                    return Err(InvalidIdentity::DuplicateQualifier);
                }
                qualifiers.insert(p, (key, value));
                proof {
                    let after = qualifiers_bytes(qualifiers@);
                    let entry = (k, raw.1);
                    assert(after == before.insert(p as int, entry));
                    assert forall|m: int| 0 <= m < before.len() implies lower_bytes(
                        (#[trigger] before[m]).0,
                    ) == before[m].0 by {
                        lemma_lower_bytes_of_lower(before[m].0);
                    }
                    lemma_insert_canonical(before, p as int, entry);
                    // no earlier qualifier has the key
                    assert forall|a: int, b: int|
                        0 <= a < b < next.len() && (#[trigger] next[a]).1.len() > 0 && (
                        #[trigger] next[b]).1.len() > 0 implies lower_bytes(next[a].0)
                        != lower_bytes(next[b].0) by {
                        if b == n {
                            assert(done[a] == next[a]);
                            if lower_bytes(next[a].0) == k {
                                assert(declares(done, k, done[a].1));
                                assert(declares(before, k, done[a].1));
                                let m = choose|m: int|
                                    0 <= m < before.len() && lower_bytes((#[trigger] before[m]).0)
                                        == k && before[m].1 == done[a].1 && done[a].1.len() > 0;
                                lemma_bytes_lt_irreflexive(k);
                                if m < p {
                                    assert(bytes_lt(before[m].0, k));
                                } else if m > p {
                                    assert(bytes_lt(before[p as int].0, before[m].0));
                                    lemma_bytes_lt_total(before[p as int].0, k);
                                    if bytes_lt(k, before[p as int].0) {
                                        lemma_bytes_lt_transitive(k, before[p as int].0, k);
                                    }
                                } else {
                                    lemma_bytes_lt_total(before[p as int].0, k);
                                }
                            }
                        } else {
                            assert(done[a] == next[a] && done[b] == next[b]);
                        }
                    }
                    lemma_declares_insert(before, p as int, entry);
                    assert forall|key: Seq<u8>, value: Seq<u8>|
                        declares(after, key, value) <==> declares(next, key, value) by {
                        assert(declares(before, key, value) <==> declares(done, key, value));
                        assert(declares(after, key, value) <==> declares(before, key, value) || (
                        lower_bytes(entry.0) == key && entry.1 == value && value.len() > 0));
                        assert(declares(next, key, value) <==> declares(done, key, value) || (
                        lower_bytes(raw.0) == key && raw.1 == value && value.len() > 0));
                    }
                }
            } else {
                proof {
                    assert forall|a: int, b: int|
                        0 <= a < b < next.len() && (#[trigger] next[a]).1.len() > 0 && (
                        #[trigger] next[b]).1.len() > 0 implies lower_bytes(next[a].0)
                        != lower_bytes(next[b].0) by {
                        assert(done[a] == next[a]);
                        if b < n {
                            assert(done[b] == next[b]);
                        }
                    }
                }
            }
        }
        assert(given.qualifiers.take(self.qualifiers@.len() as int) == given.qualifiers);
        let canonical = Purl { ty, namespace, name, version, qualifiers };
        proof {
            lemma_lower_valid(given.ty);
            lemma_lower_bytes_idempotent(given.ty);
            lemma_canonical_is_valid(canonical@.qualifiers);
            if given.namespace is Some {
                lemma_clean_path_is_clean(given.namespace->0);
                lemma_clean_path_of_clean(clean_path(given.namespace->0));
            }
        }
        Ok(canonical)
    }
}

/// One more qualifier says what the qualifiers before it say and, where it
/// has a value, that its key has its value.
proof fn lemma_declares_push(qualifiers: Seq<(Seq<u8>, Seq<u8>)>, last: (Seq<u8>, Seq<u8>))
    ensures
        forall|key: Seq<u8>, value: Seq<u8>|
            declares(qualifiers.push(last), key, value) <==> declares(qualifiers, key, value) || (
            lower_bytes(last.0) == key && last.1 == value && value.len() > 0),
{
    let pushed = qualifiers.push(last);
    assert forall|key: Seq<u8>, value: Seq<u8>|
        declares(pushed, key, value) <==> declares(qualifiers, key, value) || (lower_bytes(last.0)
            == key && last.1 == value && value.len() > 0) by {
        if declares(pushed, key, value) {
            let i = choose|i: int|
                0 <= i < pushed.len() && lower_bytes((#[trigger] pushed[i]).0) == key
                    && pushed[i].1 == value && value.len() > 0;
            if i < qualifiers.len() {
                assert(qualifiers[i] == pushed[i]);
            }
        }
        if declares(qualifiers, key, value) {
            let i = choose|i: int|
                0 <= i < qualifiers.len() && lower_bytes((#[trigger] qualifiers[i]).0) == key
                    && qualifiers[i].1 == value && value.len() > 0;
            assert(pushed[i] == qualifiers[i]);
        }
        if lower_bytes(last.0) == key && last.1 == value && value.len() > 0 {
            assert(pushed[qualifiers.len() as int] == last);
        }
    }
}

/// A qualifier put between the others says what they say and that its key
/// has its value.
proof fn lemma_declares_insert(
    qualifiers: Seq<(Seq<u8>, Seq<u8>)>,
    at: int,
    entry: (Seq<u8>, Seq<u8>),
)
    requires
        0 <= at <= qualifiers.len(),
    ensures
        forall|key: Seq<u8>, value: Seq<u8>|
            declares(qualifiers.insert(at, entry), key, value) <==> declares(
                qualifiers,
                key,
                value,
            ) || (lower_bytes(entry.0) == key && entry.1 == value && value.len() > 0),
{
    let after = qualifiers.insert(at, entry);
    assert forall|key: Seq<u8>, value: Seq<u8>|
        declares(after, key, value) <==> declares(qualifiers, key, value) || (lower_bytes(entry.0)
            == key && entry.1 == value && value.len() > 0) by {
        if declares(after, key, value) {
            let i = choose|i: int|
                0 <= i < after.len() && lower_bytes((#[trigger] after[i]).0) == key && after[i].1
                    == value && value.len() > 0;
            if i < at {
                assert(qualifiers[i] == after[i]);
            } else if i > at {
                assert(qualifiers[i - 1] == after[i]);
            }
        }
        if declares(qualifiers, key, value) {
            let i = choose|i: int|
                0 <= i < qualifiers.len() && lower_bytes((#[trigger] qualifiers[i]).0) == key
                    && qualifiers[i].1 == value && value.len() > 0;
            if i < at {
                assert(after[i] == qualifiers[i]);
            } else {
                assert(after[i + 1] == qualifiers[i]);
            }
        }
        if lower_bytes(entry.0) == key && entry.1 == value && value.len() > 0 {
            assert(after[at] == entry);
        }
    }
}

/// A qualifier put at its place among canonical qualifiers leaves them
/// canonical.
proof fn lemma_insert_canonical(
    qualifiers: Seq<(Seq<u8>, Seq<u8>)>,
    at: int,
    entry: (Seq<u8>, Seq<u8>),
)
    requires
        canonical_qualifiers(qualifiers),
        0 <= at <= qualifiers.len(),
        valid_key(entry.0),
        is_lower(entry.0),
        entry.1.len() > 0,
        forall|m: int| 0 <= m < at ==> bytes_lt((#[trigger] qualifiers[m]).0, entry.0),
        at < qualifiers.len() ==> !bytes_lt(qualifiers[at].0, entry.0) && qualifiers[at].0
            != entry.0,
    ensures
        canonical_qualifiers(qualifiers.insert(at, entry)),
{
    let after = qualifiers.insert(at, entry);
    assert forall|i: int| 0 <= i < after.len() implies {
        &&& valid_key((#[trigger] after[i]).0)
        &&& is_lower(after[i].0)
        &&& after[i].1.len() > 0
    } by {
        if i < at {
            assert(after[i] == qualifiers[i]);
        } else if i > at {
            assert(after[i] == qualifiers[i - 1]);
        }
    }
    assert forall|i: int, j: int| 0 <= i < j < after.len() implies bytes_lt(
        (#[trigger] after[i]).0,
        (#[trigger] after[j]).0,
    ) by {
        if j < at {
            assert(bytes_lt(qualifiers[i].0, qualifiers[j].0));
        } else if j == at {
            assert(bytes_lt(qualifiers[i].0, entry.0));
        } else if i == at {
            lemma_bytes_lt_total(qualifiers[at].0, entry.0);
            if j - 1 > at {
                assert(bytes_lt(qualifiers[at].0, qualifiers[j - 1].0));
                lemma_bytes_lt_transitive(entry.0, qualifiers[at].0, qualifiers[j - 1].0);
            }
        } else if i < at {
            assert(bytes_lt(qualifiers[i].0, qualifiers[j - 1].0));
        } else {
            assert(bytes_lt(qualifiers[i - 1].0, qualifiers[j - 1].0));
        }
    }
}

/// Canonical qualifiers are valid.
proof fn lemma_canonical_is_valid(qualifiers: Seq<(Seq<u8>, Seq<u8>)>)
    requires
        canonical_qualifiers(qualifiers),
    ensures
        valid_keys(qualifiers),
        distinct_keys(qualifiers),
{
    assert forall|i: int, j: int|
        0 <= i < j < qualifiers.len() && (#[trigger] qualifiers[i]).1.len() > 0 && (
        #[trigger] qualifiers[j]).1.len() > 0 implies lower_bytes(qualifiers[i].0) != lower_bytes(
        qualifiers[j].0,
    ) by {
        lemma_lower_bytes_of_lower(qualifiers[i].0);
        lemma_lower_bytes_of_lower(qualifiers[j].0);
        assert(bytes_lt(qualifiers[i].0, qualifiers[j].0));
        lemma_bytes_lt_irreflexive(qualifiers[i].0);
    }
}

} // verus!
