//! What the read interface of the server decides and selects.

use vstd::prelude::*;
use vstd::utf8::encode_utf8;
use crate::content::Content;
use crate::identity::parse::outcome;
use crate::identity::purl::{tidy, Purl, PurlView};
use crate::identity::render::{package_id, qualified_id};
use crate::query::{distinct, is_listed, listed, related_nodes, related_to, sorted_texts};
use crate::relationship::Relationship;
use crate::sbom_package_purl_ref::Model;
use crate::store::Store;
use crate::text::{lemma_lower_bytes_of_lower, lower_bytes, same_text};

verus! {

/// Run the API server
#[derive(Debug)]
pub struct Run {}

/// The parameters of a query for the packages related to a package.
#[derive(Clone, Copy, Debug, PartialEq, Eq, Structural)]
pub struct PackageParams {
    pub transitive: Option<bool>,
}

impl PackageParams {
    /// Tells whether the query asks for the transitive closure: only when it
    /// says so.
    pub fn wants_transitive(&self) -> (transitive: bool)
        ensures
            transitive == (self.transitive == Some(true)),
    {
        match self.transitive {
            Some(true) => true,
            _ => false,
        }
    }
}

/// The identifier of the package, without its version, that a package URL
/// names; none where the text is no package URL.
pub open spec fn base_of(text: Seq<u8>) -> Option<u128> {
    match outcome(text) {
        Ok(given) => Some(
            package_id(
                PurlView {
                    ty: lower_bytes(given.ty),
                    namespace: tidy(given.namespace),
                    ..given
                },
            ),
        ),
        Err(_) => None,
    }
}

/// Reads the identifier of the package that a package URL names.
fn read_base(text: &str) -> (base: Option<u128>)
    ensures
        base == base_of(encode_utf8(text@)),
{
    match Purl::parse(text) {
        Ok(purl) => {
            proof {
                lemma_lower_bytes_of_lower(purl@.ty);
            }
            Some(purl.package_uuid())
        },
        Err(_) => None,
    }
}

/// Appends a text to a list of different texts, unless the list holds it.
fn add_text(texts: &mut Vec<String>, text: &String)
    requires
        distinct(old(texts)@),
    ensures
        distinct(final(texts)@),
        final(texts)@ == if listed(old(texts)@, text@) {
            old(texts)@
        } else {
            old(texts)@.push(*text)
        },
        forall|t: Seq<char>| listed(final(texts)@, t) <==> listed(old(texts)@, t) || t == text@,
{
    let ghost before = texts@;
    if !is_listed(texts, text.as_str()) {
        texts.push(text.clone());
        proof {
            let after = texts@;
            let last = before.len() as int;
            assert(after[last]@ == text@);
            assert forall|a: int, b: int| 0 <= a < b < after.len() implies (#[trigger] after[a])@
                != (#[trigger] after[b])@ by {
                if b == last {
                    assert(before[a]@ != text@);
                } else {
                    assert(before[a]@ != before[b]@);
                }
            }
            assert forall|t: Seq<char>| listed(after, t) <==> listed(before, t) || t == text@ by {
                if listed(after, t) {
                    let k = choose|k: int| 0 <= k < after.len() && (#[trigger] after[k])@ == t;
                    if k < last {
                        assert(before[k]@ == t);
                    }
                }
                if listed(before, t) {
                    let k = choose|k: int| 0 <= k < before.len() && (#[trigger] before[k])@ == t;
                    assert(after[k]@ == t);
                }
            }
        }
    }
}

/// The texts of the references to the versions and variants of a package,
/// each once, in the order of the references: those of the references whose
/// text names the package `base`.
pub open spec fn variants_of(refs: Seq<Model>, base: u128) -> Seq<String>
    decreases refs.len(),
{
    if refs.len() == 0 {
        Seq::empty()
    } else {
        let front = variants_of(refs.drop_last(), base);
        if base_of(encode_utf8(refs.last().purl@)) == Some(base) && !listed(
            front,
            refs.last().purl@,
        ) {
            front.push(refs.last().purl)
        } else {
            front
        }
    }
}

/// The versions and variants of a package that the documents of the store
/// speak of: the texts of the references that name the package of `purl`,
/// whatever their version and qualifiers, each once.
pub fn variants(store: &Store, purl: &Purl) -> (texts: Vec<String>)
    ensures
        texts@ == variants_of(store@.purl_refs, package_id(purl@)),
        distinct(texts@),
{
    let base = purl.package_uuid();
    let refs = store.purl_refs();
    let mut texts: Vec<String> = Vec::new();
    let mut i: usize = 0;
    assert(refs@.take(0) == Seq::<Model>::empty());
    while i < refs.len()
        invariant
            i <= refs.len(),
            distinct(texts@),
            texts@ == variants_of(refs@.take(i as int), base),
        decreases refs.len() - i,
    {
        proof {
            let next = refs@.take(i + 1);
            assert(next.drop_last() == refs@.take(i as int));
            assert(next.last() == refs@[i as int]);
        }
        match read_base(refs[i].purl.as_str()) {
            Some(named) => {
                if named == base {
                    add_text(&mut texts, &refs[i].purl);
                }
            },
            None => {},
        }
        i += 1;
    }
    assert(refs@.take(refs.len() as int) == refs@);
    texts
}

/// Tells whether one of the first `upto` references gives the node `node` of
/// the document `sbom_id` the text `text`.
pub open spec fn names_upto(
    refs: Seq<Model>,
    sbom_id: u128,
    node: Seq<char>,
    text: Seq<char>,
    upto: int,
) -> bool {
    exists|j: int|
        0 <= j < upto && j < refs.len() && (#[trigger] refs[j]).node_key() == (sbom_id, node)
            && refs[j].purl@ == text
}

/// Tells whether a reference gives the node `node` of the document `sbom_id`
/// the text `text`.
pub open spec fn names(refs: Seq<Model>, sbom_id: u128, node: Seq<char>, text: Seq<char>) -> bool {
    names_upto(refs, sbom_id, node, text, refs.len() as int)
}

/// Tells whether a reference gives one of the first `upto` nodes of `nodes`
/// the text `text`.
pub open spec fn nodes_upto(
    refs: Seq<Model>,
    sbom_id: u128,
    nodes: Seq<String>,
    text: Seq<char>,
    upto: int,
) -> bool {
    exists|k: int|
        0 <= k < upto && k < nodes.len() && names(refs, sbom_id, (#[trigger] nodes[k])@, text)
}

/// Tells whether `text` is the text of a dependency of the node `anchor` of
/// the document `sbom_id`: a reference gives the text to a node that is a
/// dependency of `anchor`, directly or, for a transitive query, through any
/// number of dependencies.
pub open spec fn dependency_text(
    content: Content,
    sbom_id: u128,
    anchor: Seq<char>,
    transitive: bool,
    text: Seq<char>,
) -> bool {
    exists|node: Seq<char>|
        #[trigger] related_to(
            content.relationships,
            sbom_id,
            Relationship::DependencyOf,
            transitive,
            anchor,
            node,
        ) && names(content.purl_refs, sbom_id, node, text)
}

/// Tells whether `text` is the text of a dependency of a node that one of
/// the first `upto` references gives the package `qualified`.
pub open spec fn anchors_upto(
    content: Content,
    qualified: u128,
    transitive: bool,
    text: Seq<char>,
    upto: int,
) -> bool {
    exists|i: int|
        0 <= i < upto && i < content.purl_refs.len() && (#[trigger] content.purl_refs[i]).qualified_purl_id
            == qualified && dependency_text(
            content,
            content.purl_refs[i].sbom_id,
            content.purl_refs[i].node_id@,
            transitive,
            text,
        )
}

/// Tells whether `text` is the text of a dependency of the package
/// `qualified`: of a node, in any document, that a reference gives this
/// package.
pub open spec fn depends_on(
    content: Content,
    qualified: u128,
    transitive: bool,
    text: Seq<char>,
) -> bool {
    anchors_upto(content, qualified, transitive, text, content.purl_refs.len() as int)
}

/// Appends the texts that the references give a node, unless the list holds
/// them.
fn add_texts_of(store: &Store, sbom_id: u128, node: &str, texts: &mut Vec<String>)
    requires
        distinct(old(texts)@),
    ensures
        distinct(final(texts)@),
        forall|t: Seq<char>|
            listed(final(texts)@, t) <==> listed(old(texts)@, t) || names(
                store@.purl_refs,
                sbom_id,
                node@,
                t,
            ),
{
    let refs = store.purl_refs();
    let mut j: usize = 0;
    while j < refs.len()
        invariant
            j <= refs.len(),
            refs@ == store@.purl_refs,
            distinct(texts@),
            forall|t: Seq<char>|
                listed(texts@, t) <==> listed(old(texts)@, t) || names_upto(
                    refs@,
                    sbom_id,
                    node@,
                    t,
                    j as int,
                ),
        decreases refs.len() - j,
    {
        let ghost before = texts@;
        let found = refs[j].sbom_id == sbom_id && same_text(refs[j].node_id.as_str(), node);
        if found {
            add_text(texts, &refs[j].purl);
        }
        proof {
            assert forall|t: Seq<char>|
                listed(texts@, t) <==> listed(old(texts)@, t) || names_upto(
                    refs@,
                    sbom_id,
                    node@,
                    t,
                    j + 1,
                ) by {
                let here = refs@[j as int];
                if names_upto(refs@, sbom_id, node@, t, j + 1) {
                    let w = choose|w: int|
                        0 <= w < j + 1 && w < refs@.len() && (#[trigger] refs@[w]).node_key() == (
                            sbom_id,
                            node@,
                        ) && refs@[w].purl@ == t;
                    if w < j {
                        assert(names_upto(refs@, sbom_id, node@, t, j as int));
                    }
                }
                if names_upto(refs@, sbom_id, node@, t, j as int) {
                    let w = choose|w: int|
                        0 <= w < j && w < refs@.len() && (#[trigger] refs@[w]).node_key() == (
                            sbom_id,
                            node@,
                        ) && refs@[w].purl@ == t;
                    assert(refs@[w].node_key() == (sbom_id, node@));
                }
                if found && t == here.purl@ {
                    assert(here.node_key() == (sbom_id, node@));
                }
            }
        }
        j += 1;
    }
}

/// Appends the texts of the dependencies of a node, unless the list holds
/// them.
fn add_dependencies_of(
    store: &Store,
    sbom_id: u128,
    anchor: &str,
    transitive: bool,
    texts: &mut Vec<String>,
)
    requires
        distinct(old(texts)@),
    ensures
        distinct(final(texts)@),
        forall|t: Seq<char>|
            listed(final(texts)@, t) <==> listed(old(texts)@, t) || dependency_text(
                store@,
                sbom_id,
                anchor@,
                transitive,
                t,
            ),
{
    let nodes = sorted_texts(
        related_nodes(
            store.relationships(),
            sbom_id,
            Relationship::DependencyOf,
            anchor,
            transitive,
        ),
    );
    let ghost refs = store@.purl_refs;
    let mut k: usize = 0;
    while k < nodes.len()
        invariant
            k <= nodes.len(),
            refs == store@.purl_refs,
            distinct(texts@),
            forall|t: Seq<char>|
                listed(texts@, t) <==> listed(old(texts)@, t) || nodes_upto(
                    refs,
                    sbom_id,
                    nodes@,
                    t,
                    k as int,
                ),
        decreases nodes.len() - k,
    {
        let ghost before = texts@;
        add_texts_of(store, sbom_id, nodes[k].as_str(), texts);
        proof {
            assert forall|t: Seq<char>|
                listed(texts@, t) <==> listed(old(texts)@, t) || nodes_upto(
                    refs,
                    sbom_id,
                    nodes@,
                    t,
                    k + 1,
                ) by {
                if nodes_upto(refs, sbom_id, nodes@, t, k + 1) {
                    let w = choose|w: int|
                        0 <= w < k + 1 && w < nodes@.len() && names(
                            refs,
                            sbom_id,
                            (#[trigger] nodes@[w])@,
                            t,
                        );
                    if w < k {
                        assert(nodes_upto(refs, sbom_id, nodes@, t, k as int));
                    }
                }
                if nodes_upto(refs, sbom_id, nodes@, t, k as int) {
                    let w = choose|w: int|
                        0 <= w < k && w < nodes@.len() && names(
                            refs,
                            sbom_id,
                            (#[trigger] nodes@[w])@,
                            t,
                        );
                    assert(names(refs, sbom_id, nodes@[w]@, t));
                }
                if names(refs, sbom_id, nodes@[k as int]@, t) {
                    assert(nodes_upto(refs, sbom_id, nodes@, t, k + 1));
                }
            }
        }
        k += 1;
    }
    proof {
        assert forall|t: Seq<char>|
            nodes_upto(refs, sbom_id, nodes@, t, nodes@.len() as int) <==> dependency_text(
                store@,
                sbom_id,
                anchor@,
                transitive,
                t,
            ) by {
            if nodes_upto(refs, sbom_id, nodes@, t, nodes@.len() as int) {
                let w = choose|w: int|
                    0 <= w < nodes@.len() && w < nodes@.len() && names(
                        refs,
                        sbom_id,
                        (#[trigger] nodes@[w])@,
                        t,
                    );
                assert(listed(nodes@, nodes@[w]@));
                assert(related_to(
                    store@.relationships,
                    sbom_id,
                    Relationship::DependencyOf,
                    transitive,
                    anchor@,
                    nodes@[w]@,
                ));
            }
            if dependency_text(store@, sbom_id, anchor@, transitive, t) {
                let node = choose|node: Seq<char>|
                    #[trigger] related_to(
                        store@.relationships,
                        sbom_id,
                        Relationship::DependencyOf,
                        transitive,
                        anchor@,
                        node,
                    ) && names(refs, sbom_id, node, t);
                assert(listed(nodes@, node));
                let w = choose|w: int| 0 <= w < nodes@.len() && (#[trigger] nodes@[w])@ == node;
                assert(names(refs, sbom_id, nodes@[w]@, t));
            }
        }
    }
}

/// The dependencies of a package: the texts of the package URLs of the nodes
/// that are dependencies of a node that stands for the package of `purl`,
/// in any document of the store, each once. Only the direct dependencies are
/// given unless the query asks for the transitive ones.
pub fn dependencies(store: &Store, purl: &Purl, params: PackageParams) -> (texts: Vec<String>)
    ensures
        distinct(texts@),
        forall|t: Seq<char>|
            listed(texts@, t) <==> depends_on(
                store@,
                qualified_id(purl@),
                params.transitive == Some(true),
                t,
            ),
{
    let qualified = purl.qualifier_uuid();
    let transitive = params.wants_transitive();
    let refs = store.purl_refs();
    let mut texts: Vec<String> = Vec::new();
    let mut i: usize = 0;
    while i < refs.len()
        invariant
            i <= refs.len(),
            refs@ == store@.purl_refs,
            distinct(texts@),
            forall|t: Seq<char>|
                listed(texts@, t) <==> anchors_upto(store@, qualified, transitive, t, i as int),
        decreases refs.len() - i,
    {
        let ghost before = texts@;
        let is_anchor = refs[i].qualified_purl_id == qualified;
        if is_anchor {
            add_dependencies_of(
                store,
                refs[i].sbom_id,
                refs[i].node_id.as_str(),
                transitive,
                &mut texts,
            );
        }
        proof {
            let here = refs@[i as int];
            assert forall|t: Seq<char>|
                listed(texts@, t) <==> anchors_upto(store@, qualified, transitive, t, i + 1) by {
                if anchors_upto(store@, qualified, transitive, t, i + 1) {
                    let w = choose|w: int|
                        0 <= w < i + 1 && w < refs@.len() && (#[trigger] refs@[w]).qualified_purl_id
                            == qualified && dependency_text(
                            store@,
                            refs@[w].sbom_id,
                            refs@[w].node_id@,
                            transitive,
                            t,
                        );
                    if w < i {
                        assert(anchors_upto(store@, qualified, transitive, t, i as int));
                    }
                }
                if anchors_upto(store@, qualified, transitive, t, i as int) {
                    let w = choose|w: int|
                        0 <= w < i && w < refs@.len() && (#[trigger] refs@[w]).qualified_purl_id
                            == qualified && dependency_text(
                            store@,
                            refs@[w].sbom_id,
                            refs@[w].node_id@,
                            transitive,
                            t,
                        );
                    assert(refs@[w].qualified_purl_id == qualified);
                }
                if is_anchor && dependency_text(
                    store@,
                    here.sbom_id,
                    here.node_id@,
                    transitive,
                    t,
                ) {
                    assert(here.qualified_purl_id == qualified);
                }
            }
        }
        i += 1;
    }
    texts
}

} // verus!
