//! Queries over the relationships of a document.

use vstd::prelude::*;
use vstd::set_lib::lemma_len_subset;
use crate::content::Content;
use crate::model::{Paginated, PaginatedResults};
use crate::record::Record;
use crate::relationship::{PackageRelatesToPackage, Relationship};
use crate::sbom::find_document;
use crate::store::Store;
use crate::{sbom_node, sbom_package_cpe_ref, sbom_package_purl_ref};
use crate::text::{lemma_text_order, same_text, text_before, text_lt};

verus! {

/// Tells whether an edge says, in the document `sbom_id`, that its left node
/// is `kind` of the node `anchor`.
pub open spec fn leads_to(
    edge: PackageRelatesToPackage,
    sbom_id: u128,
    kind: Relationship,
    anchor: Seq<char>,
) -> bool {
    edge.sbom_id == sbom_id && edge.relationship == kind && edge.right_node_id@ == anchor
}

/// Tells whether the node `to` is directly related to the node `from`: some
/// edge says that `to` is `kind` of `from`.
pub open spec fn step(
    edges: Seq<PackageRelatesToPackage>,
    sbom_id: u128,
    kind: Relationship,
    from: Seq<char>,
    to: Seq<char>,
) -> bool {
    exists|i: int|
        0 <= i < edges.len() && leads_to(#[trigger] edges[i], sbom_id, kind, from)
            && edges[i].left_node_id@ == to
}

/// Tells whether `path` walks along edges: it has two nodes at least, and
/// each node but the first is directly related to the one before it.
pub open spec fn chain(
    edges: Seq<PackageRelatesToPackage>,
    sbom_id: u128,
    kind: Relationship,
    path: Seq<Seq<char>>,
) -> bool {
    &&& path.len() >= 2
    &&& forall|i: int|
        0 <= i < path.len() - 1 ==> step(edges, sbom_id, kind, #[trigger] path[i], path[i + 1])
}

/// Tells whether the node `to` is related to the node `from` through one edge
/// or more.
pub open spec fn reaches(
    edges: Seq<PackageRelatesToPackage>,
    sbom_id: u128,
    kind: Relationship,
    from: Seq<char>,
    to: Seq<char>,
) -> bool {
    exists|path: Seq<Seq<char>>| #[trigger]
        chain(edges, sbom_id, kind, path) && path.first() == from && path.last() == to
}

/// Tells whether the node `to` is related to the node `from`: directly, or,
/// for a transitive query, through any number of edges.
pub open spec fn related_to(
    edges: Seq<PackageRelatesToPackage>,
    sbom_id: u128,
    kind: Relationship,
    transitive: bool,
    from: Seq<char>,
    to: Seq<char>,
) -> bool {
    if transitive {
        reaches(edges, sbom_id, kind, from, to)
    } else {
        step(edges, sbom_id, kind, from, to)
    }
}

/// Tells whether the text `text` is one of `list`.
pub open spec fn listed(list: Seq<String>, text: Seq<char>) -> bool {
    exists|k: int| 0 <= k < list.len() && (#[trigger] list[k])@ == text
}

/// Tells whether no text occurs twice in `list`.
pub open spec fn distinct(list: Seq<String>) -> bool {
    forall|i: int, j: int| 0 <= i < j < list.len() ==> (#[trigger] list[i])@ != (#[trigger] list[j])@
}

/// Tells whether `node` is the left node of some edge.
pub open spec fn is_left(edges: Seq<PackageRelatesToPackage>, node: Seq<char>) -> bool {
    exists|j: int| 0 <= j < edges.len() && (#[trigger] edges[j]).left_node_id@ == node
}

/// A node that is directly related is related through one edge.
pub proof fn lemma_step_reaches(
    edges: Seq<PackageRelatesToPackage>,
    sbom_id: u128,
    kind: Relationship,
    from: Seq<char>,
    to: Seq<char>,
)
    requires
        step(edges, sbom_id, kind, from, to),
    ensures
        reaches(edges, sbom_id, kind, from, to),
{
    let path = seq![from, to];
    assert(chain(edges, sbom_id, kind, path)) by {
        assert forall|i: int| 0 <= i < path.len() - 1 implies step(
            edges,
            sbom_id,
            kind,
            #[trigger] path[i],
            path[i + 1],
        ) by {}
    }
    assert(path.first() == from && path.last() == to);
}

/// A node that is directly related to a related node is related.
pub proof fn lemma_reaches_extend(
    edges: Seq<PackageRelatesToPackage>,
    sbom_id: u128,
    kind: Relationship,
    from: Seq<char>,
    via: Seq<char>,
    to: Seq<char>,
)
    requires
        reaches(edges, sbom_id, kind, from, via),
        step(edges, sbom_id, kind, via, to),
    ensures
        reaches(edges, sbom_id, kind, from, to),
{
    let path = choose|path: Seq<Seq<char>>| #[trigger]
        chain(edges, sbom_id, kind, path) && path.first() == from && path.last() == via;
    let longer = path.push(to);
    assert(chain(edges, sbom_id, kind, longer)) by {
        assert forall|i: int| 0 <= i < longer.len() - 1 implies step(
            edges,
            sbom_id,
            kind,
            #[trigger] longer[i],
            longer[i + 1],
        ) by {
            if i < path.len() - 1 {
                assert(step(edges, sbom_id, kind, path[i], path[i + 1]));
            }
        }
    }
    assert(longer.first() == from && longer.last() == to);
}

/// Every node of a walk that starts at `from`, but `from` itself where the
/// walk does not come back to it, is in a set that holds the nodes directly
/// related to `from` and, with each of its nodes, the nodes directly related
/// to that node.
proof fn lemma_chain_in_closed(
    edges: Seq<PackageRelatesToPackage>,
    sbom_id: u128,
    kind: Relationship,
    from: Seq<char>,
    closed: Set<Seq<char>>,
    path: Seq<Seq<char>>,
    k: int,
)
    requires
        chain(edges, sbom_id, kind, path),
        path.first() == from,
        1 <= k < path.len(),
        forall|n: Seq<char>| step(edges, sbom_id, kind, from, n) ==> closed.contains(n),
        forall|m: Seq<char>, n: Seq<char>|
            closed.contains(m) && #[trigger] step(edges, sbom_id, kind, m, n) ==> closed.contains(
                n,
            ),
    ensures
        closed.contains(path[k]),
    decreases k,
{
    if k == 1 {
        assert(step(edges, sbom_id, kind, path[0], path[1]));
    } else {
        lemma_chain_in_closed(edges, sbom_id, kind, from, closed, path, k - 1);
        assert(step(edges, sbom_id, kind, path[k - 1], path[k - 1 + 1]));
    }
}

/// A set that holds the nodes directly related to `from` and, with each of
/// its nodes, the nodes directly related to that node, holds every node that
/// is related to `from`.
pub proof fn lemma_closed_holds_related(
    edges: Seq<PackageRelatesToPackage>,
    sbom_id: u128,
    kind: Relationship,
    from: Seq<char>,
    closed: Set<Seq<char>>,
)
    requires
        forall|n: Seq<char>| step(edges, sbom_id, kind, from, n) ==> closed.contains(n),
        forall|m: Seq<char>, n: Seq<char>|
            closed.contains(m) && #[trigger] step(edges, sbom_id, kind, m, n) ==> closed.contains(
                n,
            ),
    ensures
        forall|n: Seq<char>| reaches(edges, sbom_id, kind, from, n) ==> closed.contains(n),
{
    assert forall|n: Seq<char>| reaches(edges, sbom_id, kind, from, n) implies closed.contains(
        n,
    ) by {
        let path = choose|path: Seq<Seq<char>>| #[trigger]
            chain(edges, sbom_id, kind, path) && path.first() == from && path.last() == n;
        lemma_chain_in_closed(edges, sbom_id, kind, from, closed, path, path.len() - 1);
    }
}

/// A list of different texts, each the left node of some edge, is no longer
/// than the list of edges.
proof fn lemma_found_bounded(found: Seq<String>, edges: Seq<PackageRelatesToPackage>)
    requires
        distinct(found),
        forall|k: int| 0 <= k < found.len() ==> is_left(edges, (#[trigger] found[k])@),
    ensures
        found.len() <= edges.len(),
{
    let texts = found.map_values(|s: String| s@);
    let lefts = edges.map_values(|e: PackageRelatesToPackage| e.left_node_id@);
    assert(texts.no_duplicates()) by {
        assert forall|i: int, j: int| 0 <= i < texts.len() && 0 <= j < texts.len() && i
            != j implies texts[i] != texts[j] by {
            if i < j {
                assert(found[i]@ != found[j]@);
            } else {
                assert(found[j]@ != found[i]@);
            }
        }
    }
    texts.unique_seq_to_set();
    lefts.lemma_cardinality_of_set();
    assert(texts.to_set().subset_of(lefts.to_set())) by {
        assert forall|t: Seq<char>| texts.to_set().contains(t) implies lefts.to_set().contains(
            t,
        ) by {
            let k = choose|k: int| 0 <= k < texts.len() && texts[k] == t;
            assert(is_left(edges, found[k]@));
            let j = choose|j: int|
                0 <= j < edges.len() && (#[trigger] edges[j]).left_node_id@ == found[k]@;
            assert(lefts[j] == t);
        }
    }
    lemma_len_subset(texts.to_set(), lefts.to_set());
}

/// Tells whether a text is one of a list.
pub fn is_listed(list: &Vec<String>, text: &str) -> (found: bool)
    ensures
        found == listed(list@, text@),
{
    let mut k: usize = 0;
    while k < list.len()
        invariant
            k <= list.len(),
            forall|i: int| 0 <= i < k ==> (#[trigger] list@[i])@ != text@,
        decreases list.len() - k,
    {
        if same_text(list[k].as_str(), text) {
            assert(list@[k as int]@ == text@);
            return true;
        }
        k += 1;
    }
    false
}

/// Appends to `found` the nodes directly related to `node` that it does not
/// hold yet, in the order of the edges.
fn collect_related(
    edges: &Vec<PackageRelatesToPackage>,
    sbom_id: u128,
    kind: Relationship,
    node: &str,
    found: &mut Vec<String>,
)
    requires
        distinct(old(found)@),
    ensures
        distinct(final(found)@),
        old(found)@.len() <= final(found)@.len(),
        forall|k: int| 0 <= k < old(found)@.len() ==> final(found)@[k] == old(found)@[k],
        forall|k: int|
            old(found)@.len() <= k < final(found)@.len() ==> step(
                edges@,
                sbom_id,
                kind,
                node@,
                (#[trigger] final(found)@[k])@,
            ),
        forall|n: Seq<char>|
            step(edges@, sbom_id, kind, node@, n) ==> listed(final(found)@, n),
{
    let mut j: usize = 0;
    while j < edges.len()
        invariant
            j <= edges.len(),
            distinct(found@),
            old(found)@.len() <= found@.len(),
            forall|k: int| 0 <= k < old(found)@.len() ==> found@[k] == old(found)@[k],
            forall|k: int|
                old(found)@.len() <= k < found@.len() ==> step(
                    edges@,
                    sbom_id,
                    kind,
                    node@,
                    (#[trigger] found@[k])@,
                ),
            forall|i: int|
                0 <= i < j && leads_to(#[trigger] edges@[i], sbom_id, kind, node@) ==> listed(
                    found@,
                    edges@[i].left_node_id@,
                ),
        decreases edges.len() - j,
    {
        let edge = &edges[j];
        if edge.sbom_id == sbom_id && edge.relationship == kind && same_text(
            edge.right_node_id.as_str(),
            node,
        ) {
            if !is_listed(found, edge.left_node_id.as_str()) {
                let ghost before = found@;
                found.push(edge.left_node_id.clone());
                proof {
                    let last = before.len() as int;
                    assert(found@[last]@ == edge.left_node_id@);
                    assert forall|i: int|
                        0 <= i < j && leads_to(
                            #[trigger] edges@[i],
                            sbom_id,
                            kind,
                            node@,
                        ) implies listed(found@, edges@[i].left_node_id@) by {
                        let k = choose|k: int|
                            0 <= k < before.len() && (#[trigger] before[k])@
                                == edges@[i].left_node_id@;
                        assert(found@[k]@ == edges@[i].left_node_id@);
                    }
                    assert forall|a: int, b: int| 0 <= a < b < found@.len() implies (
                    #[trigger] found@[a])@ != (#[trigger] found@[b])@ by {
                        if b == last {
                            assert(before[a]@ != edge.left_node_id@);
                        } else {
                            assert(before[a]@ != before[b]@);
                        }
                    }
                }
            }
            assert(listed(found@, edges@[j as int].left_node_id@));
        }
        j += 1;
    }
    assert forall|n: Seq<char>| step(edges@, sbom_id, kind, node@, n) implies listed(
        found@,
        n,
    ) by {
        let i = choose|i: int|
            0 <= i < edges@.len() && leads_to(#[trigger] edges@[i], sbom_id, kind, node@)
                && edges@[i].left_node_id@ == n;
        assert(listed(found@, edges@[i].left_node_id@));
    }
}

/// The nodes related to `anchor` by edges of kind `kind` in the document
/// `sbom_id`, each once: the nodes directly related to it, and, for a
/// transitive query, the nodes related to those, and so on. Edges that form
/// a cycle are followed once.
pub fn related_nodes(
    edges: &Vec<PackageRelatesToPackage>,
    sbom_id: u128,
    kind: Relationship,
    anchor: &str,
    transitive: bool,
) -> (found: Vec<String>)
    ensures
        distinct(found@),
        forall|n: Seq<char>|
            listed(found@, n) <==> related_to(edges@, sbom_id, kind, transitive, anchor@, n),
{
    let mut found: Vec<String> = Vec::new();
    collect_related(edges, sbom_id, kind, anchor, &mut found);
    if !transitive {
        assert forall|n: Seq<char>| listed(found@, n) implies step(
            edges@,
            sbom_id,
            kind,
            anchor@,
            n,
        ) by {
            let k = choose|k: int| 0 <= k < found@.len() && (#[trigger] found@[k])@ == n;
            assert(step(edges@, sbom_id, kind, anchor@, found@[k]@));
        }
        return found;
    }
    proof {
        assert forall|k: int| 0 <= k < found@.len() implies reaches(
            edges@,
            sbom_id,
            kind,
            anchor@,
            (#[trigger] found@[k])@,
        ) by {
            lemma_step_reaches(edges@, sbom_id, kind, anchor@, found@[k]@);
        }
        assert forall|k: int| 0 <= k < found@.len() implies is_left(
            edges@,
            (#[trigger] found@[k])@,
        ) by {
            lemma_reached_is_left(edges@, sbom_id, kind, anchor@, found@[k]@);
        }
        lemma_found_bounded(found@, edges@);
    }
    let mut i: usize = 0;
    while i < found.len()
        invariant
            i <= found@.len() <= edges@.len(),
            distinct(found@),
            forall|k: int|
                0 <= k < found@.len() ==> reaches(
                    edges@,
                    sbom_id,
                    kind,
                    anchor@,
                    (#[trigger] found@[k])@,
                ),
            forall|n: Seq<char>| step(edges@, sbom_id, kind, anchor@, n) ==> listed(found@, n),
            forall|k: int, n: Seq<char>|
                0 <= k < i && #[trigger] step(edges@, sbom_id, kind, found@[k]@, n) ==> listed(
                    found@,
                    n,
                ),
        decreases edges@.len() - i,
    {
        let node = found[i].clone();
        let ghost before = found@;
        collect_related(edges, sbom_id, kind, node.as_str(), &mut found);
        proof {
            assert forall|n: Seq<char>| listed(before, n) implies listed(found@, n) by {
                let k = choose|k: int| 0 <= k < before.len() && (#[trigger] before[k])@ == n;
                assert(found@[k]@ == n);
            }
            assert forall|n: Seq<char>| step(edges@, sbom_id, kind, anchor@, n) implies listed(
                found@,
                n,
            ) by {
                assert(listed(before, n));
            }
            assert forall|k: int| 0 <= k < found@.len() implies reaches(
                edges@,
                sbom_id,
                kind,
                anchor@,
                (#[trigger] found@[k])@,
            ) by {
                if k >= before.len() {
                    assert(reaches(edges@, sbom_id, kind, anchor@, before[i as int]@));
                    lemma_reaches_extend(edges@, sbom_id, kind, anchor@, node@, found@[k]@);
                } else {
                    assert(found@[k] == before[k]);
                }
            }
            assert forall|k: int, n: Seq<char>|
                0 <= k < i + 1 && #[trigger] step(
                    edges@,
                    sbom_id,
                    kind,
                    found@[k]@,
                    n,
                ) implies listed(found@, n) by {
                assert(found@[k] == before[k]);
                if k < i {
                    assert(listed(before, n));
                }
            }
            assert forall|k: int| 0 <= k < found@.len() implies is_left(
                edges@,
                (#[trigger] found@[k])@,
            ) by {
                lemma_reached_is_left(edges@, sbom_id, kind, anchor@, found@[k]@);
            }
            lemma_found_bounded(found@, edges@);
        }
        i += 1;
    }
    proof {
        let closed = Set::new(|n: Seq<char>| listed(found@, n));
        assert forall|m: Seq<char>, n: Seq<char>|
            closed.contains(m) && #[trigger] step(
                edges@,
                sbom_id,
                kind,
                m,
                n,
            ) implies closed.contains(n) by {
            let k = choose|k: int| 0 <= k < found@.len() && (#[trigger] found@[k])@ == m;
            assert(step(edges@, sbom_id, kind, found@[k]@, n));
        }
        lemma_closed_holds_related(edges@, sbom_id, kind, anchor@, closed);
        assert forall|n: Seq<char>| listed(found@, n) implies reaches(
            edges@,
            sbom_id,
            kind,
            anchor@,
            n,
        ) by {
            let k = choose|k: int| 0 <= k < found@.len() && (#[trigger] found@[k])@ == n;
            assert(reaches(edges@, sbom_id, kind, anchor@, found@[k]@));
        }
        assert forall|n: Seq<char>| reaches(edges@, sbom_id, kind, anchor@, n) implies listed(
            found@,
            n,
        ) by {
            assert(closed.contains(n));
        }
    }
    found
}

/// Tells whether the texts of `list` stand in ascending order, none twice.
pub open spec fn ascending(list: Seq<String>) -> bool {
    forall|i: int, j: int|
        0 <= i < j < list.len() ==> text_lt((#[trigger] list[i])@, (#[trigger] list[j])@)
}

/// Two ascending lists of the same texts are the same list of texts.
pub proof fn lemma_ascending_unique(a: Seq<String>, b: Seq<String>)
    requires
        ascending(a),
        ascending(b),
        forall|n: Seq<char>| listed(a, n) <==> listed(b, n),
    ensures
        a.len() == b.len(),
        forall|k: int| 0 <= k < a.len() ==> (#[trigger] a[k])@ == b[k]@,
    decreases a.len(),
{
    if a.len() == 0 {
        if b.len() > 0 {
            assert(listed(b, b[0]@));
        }
    } else if b.len() == 0 {
        assert(listed(a, a[0]@));
    } else {
        // the last of an ascending list is its greatest text
        let x = a.last();
        let y = b.last();
        assert(listed(a, x@));
        assert(listed(b, y@));
        let i = choose|i: int| 0 <= i < b.len() && (#[trigger] b[i])@ == x@;
        let j = choose|j: int| 0 <= j < a.len() && (#[trigger] a[j])@ == y@;
        lemma_text_order(x@, y@, x@);
        if i < b.len() - 1 {
            assert(text_lt(b[i]@, b[b.len() - 1]@));
        }
        if j < a.len() - 1 {
            assert(text_lt(a[j]@, a[a.len() - 1]@));
        }
        assert(x@ == y@);
        let ra = a.drop_last();
        let rb = b.drop_last();
        assert forall|n: Seq<char>| listed(ra, n) <==> listed(rb, n) by {
            if listed(ra, n) {
                let k = choose|k: int| 0 <= k < ra.len() && (#[trigger] ra[k])@ == n;
                assert(a[k]@ == n);
                assert(text_lt(a[k]@, a[a.len() - 1]@));
                lemma_text_order(n, x@, n);
                assert(listed(a, n));
                let m = choose|m: int| 0 <= m < b.len() && (#[trigger] b[m])@ == n;
                assert(rb[m]@ == n);
            }
            if listed(rb, n) {
                let k = choose|k: int| 0 <= k < rb.len() && (#[trigger] rb[k])@ == n;
                assert(b[k]@ == n);
                assert(text_lt(b[k]@, b[b.len() - 1]@));
                lemma_text_order(n, y@, n);
                assert(listed(b, n));
                let m = choose|m: int| 0 <= m < a.len() && (#[trigger] a[m])@ == n;
                assert(ra[m]@ == n);
            }
        }
        assert(ascending(ra)) by {
            assert forall|p: int, q: int| 0 <= p < q < ra.len() implies text_lt(
                (#[trigger] ra[p])@,
                (#[trigger] ra[q])@,
            ) by {
                assert(text_lt(a[p]@, a[q]@));
            }
        }
        assert(ascending(rb)) by {
            assert forall|p: int, q: int| 0 <= p < q < rb.len() implies text_lt(
                (#[trigger] rb[p])@,
                (#[trigger] rb[q])@,
            ) by {
                assert(text_lt(b[p]@, b[q]@));
            }
        }
        lemma_ascending_unique(ra, rb);
        assert forall|k: int| 0 <= k < a.len() implies (#[trigger] a[k])@ == b[k]@ by {
            if k < a.len() - 1 {
                assert(ra[k]@ == rb[k]@);
            }
        }
    }
}

/// The texts of a list in ascending order, each once.
pub fn sorted_texts(list: Vec<String>) -> (sorted: Vec<String>)
    ensures
        ascending(sorted@),
        forall|n: Seq<char>| listed(sorted@, n) <==> listed(list@, n),
{
    let mut sorted: Vec<String> = Vec::new();
    for text in it: list
        invariant
            it.seq() == list@,
            ascending(sorted@),
            forall|n: Seq<char>| listed(sorted@, n) <==> listed(list@.take(it.index() as int), n),
    {
        let ghost done = list@.take(it.index() as int);
        let ghost next = list@.take(it.index() + 1);
        let ghost before = sorted@;
        let mut p: usize = 0;
        while p < sorted.len() && text_before(sorted[p].as_str(), text.as_str())
            invariant
                p <= sorted@.len(),
                sorted@ == before,
                forall|k: int| 0 <= k < p ==> text_lt((#[trigger] sorted@[k])@, text@),
            decreases sorted@.len() - p,
        {
            p += 1;
        }
        let present = p < sorted.len() && same_text(sorted[p].as_str(), text.as_str());
        proof {
            assert(next == done.push(text));
            assert forall|n: Seq<char>| listed(next, n) <==> listed(done, n) || n == text@ by {
                if listed(next, n) {
                    let k = choose|k: int| 0 <= k < next.len() && (#[trigger] next[k])@ == n;
                    if k < done.len() {
                        assert(done[k]@ == n);
                    }
                }
                if listed(done, n) {
                    let k = choose|k: int| 0 <= k < done.len() && (#[trigger] done[k])@ == n;
                    assert(next[k]@ == n);
                }
                if n == text@ {
                    assert(next[done.len() as int]@ == n);
                }
            }
        }
        if present {
            assert(listed(before, text@));
        } else {
            sorted.insert(p, text);
            proof {
                let after = sorted@;
                assert(after == before.insert(p as int, text));
                assert forall|i: int, j: int| 0 <= i < j < after.len() implies text_lt(
                    (#[trigger] after[i])@,
                    (#[trigger] after[j])@,
                ) by {
                    if j < p {
                        assert(text_lt(before[i]@, before[j]@));
                    } else if j == p {
                        assert(text_lt(before[i]@, text@));
                    } else if i == p {
                        // `text` is not behind the text that stood at its place
                        lemma_text_order(before[p as int]@, text@, before[j - 1]@);
                        lemma_text_order(text@, before[p as int]@, before[j - 1]@);
                        if j - 1 > p {
                            assert(text_lt(before[p as int]@, before[j - 1]@));
                        }
                    } else if i < p {
                        assert(text_lt(before[i]@, before[j - 1]@));
                    } else {
                        assert(text_lt(before[i - 1]@, before[j - 1]@));
                    }
                }
                assert forall|n: Seq<char>| listed(after, n) <==> listed(before, n) || n
                    == text@ by {
                    if listed(after, n) {
                        let k = choose|k: int| 0 <= k < after.len() && (#[trigger] after[k])@ == n;
                        if k < p {
                            assert(before[k]@ == n);
                        } else if k > p {
                            assert(before[k - 1]@ == n);
                        }
                    }
                    if listed(before, n) {
                        let k = choose|k: int|
                            0 <= k < before.len() && (#[trigger] before[k])@ == n;
                        if k < p {
                            assert(after[k]@ == n);
                        } else {
                            assert(after[k + 1]@ == n);
                        }
                    }
                    if n == text@ {
                        assert(after[p as int]@ == n);
                    }
                }
            }
        }
    }
    assert(list@.take(list@.len() as int) == list@);
    sorted
}

/// A related node is the left node of some edge.
proof fn lemma_reached_is_left(
    edges: Seq<PackageRelatesToPackage>,
    sbom_id: u128,
    kind: Relationship,
    from: Seq<char>,
    to: Seq<char>,
)
    requires
        reaches(edges, sbom_id, kind, from, to),
    ensures
        is_left(edges, to),
{
    let path = choose|path: Seq<Seq<char>>| #[trigger]
        chain(edges, sbom_id, kind, path) && path.first() == from && path.last() == to;
    let i = path.len() - 2;
    assert(step(edges, sbom_id, kind, path[i], path[i + 1]));
    let j = choose|j: int|
        0 <= j < edges.len() && leads_to(#[trigger] edges[j], sbom_id, kind, path[i])
            && edges[j].left_node_id@ == path[i + 1];
    assert(edges[j].left_node_id@ == to);
}

/// What a query tells of one node: its identifier, its name, and the
/// external identities that the document gives it.
#[derive(Debug)]
pub struct SbomPackage {
    pub id: String,
    pub name: String,
    pub purl: Vec<String>,
    pub cpe: Vec<u128>,
}

/// The texts of a list.
pub open spec fn texts(list: Seq<String>) -> Seq<Seq<char>> {
    list.map_values(|text: String| text@)
}

/// What a query tells of one node, as mathematical values.
pub struct SbomPackageView {
    pub id: Seq<char>,
    pub name: Seq<char>,
    pub purl: Seq<Seq<char>>,
    pub cpe: Seq<u128>,
}

impl View for SbomPackage {
    type V = SbomPackageView;

    open spec fn view(&self) -> SbomPackageView {
        SbomPackageView { id: self.id@, name: self.name@, purl: texts(self.purl@), cpe: self.cpe@ }
    }
}

/// The name of the first node row with this key; the empty text where there
/// is none.
pub open spec fn name_of(nodes: Seq<sbom_node::Model>, key: (u128, Seq<char>)) -> Seq<char>
    decreases nodes.len(),
{
    if nodes.len() == 0 {
        Seq::empty()
    } else if nodes.first().key() == key {
        nodes.first().name@
    } else {
        name_of(nodes.drop_first(), key)
    }
}

/// The function that gives the text of a package URL reference of a node.
pub open spec fn purl_of(key: (u128, Seq<char>)) -> spec_fn(sbom_package_purl_ref::Model) -> Option<
    Seq<char>,
> {
    |row: sbom_package_purl_ref::Model|
        if row.node_key() == key {
            Some(row.purl@)
        } else {
            None
        }
}

/// The function that gives the catalog entry of a catalog reference of a node.
pub open spec fn cpe_of(key: (u128, Seq<char>)) -> spec_fn(sbom_package_cpe_ref::Model) -> Option<
    u128,
> {
    |row: sbom_package_cpe_ref::Model|
        if row.node_key() == key {
            Some(row.cpe_id)
        } else {
            None
        }
}

/// What the tables tell of the node `id` of the document `sbom_id`: its name,
/// and its references in the order of the tables.
pub open spec fn summary_of(content: Content, sbom_id: u128, id: Seq<char>) -> SbomPackageView {
    SbomPackageView {
        id,
        name: name_of(content.nodes, (sbom_id, id)),
        purl: content.purl_refs.filter_map(purl_of((sbom_id, id))),
        cpe: content.cpe_refs.filter_map(cpe_of((sbom_id, id))),
    }
}

/// One more row adds its value, if it has one, behind those of the rows
/// before it.
pub proof fn lemma_filter_map_push<A, B>(rows: Seq<A>, row: A, f: spec_fn(A) -> Option<B>)
    ensures
        rows.push(row).filter_map(f) == match f(row) {
            Some(value) => rows.filter_map(f).push(value),
            None => rows.filter_map(f),
        },
{
    let pushed = rows.push(row);
    assert(pushed.drop_last() == rows);
    assert(pushed.last() == row);
}

/// Looks up the name of a node.
fn node_name(nodes: &Vec<sbom_node::Model>, sbom_id: u128, id: &str) -> (name: String)
    ensures
        name@ == name_of(nodes@, (sbom_id, id@)),
{
    let ghost key = (sbom_id, id@);
    let mut i: usize = 0;
    assert(nodes@.skip(0) == nodes@);
    while i < nodes.len()
        invariant
            i <= nodes.len(),
            key == (sbom_id, id@),
            name_of(nodes@, key) == name_of(nodes@.skip(i as int), key),
        decreases nodes.len() - i,
    {
        let ghost rest = nodes@.skip(i as int);
        assert(rest.first() == nodes@[i as int]);
        assert(rest.drop_first() == nodes@.skip(i + 1));
        if nodes[i].sbom_id == sbom_id && same_text(nodes[i].node_id.as_str(), id) {
            assert(rest.first().key() == key);
            return nodes[i].name.clone();
        }
        assert(rest.first().key() != key);
        assert(name_of(rest, key) == name_of(rest.drop_first(), key));
        i += 1;
    }
    assert(nodes@.skip(i as int).len() == 0);
    String::new()
}

/// Collects what the store tells of one node.
pub fn summarize(store: &Store, sbom_id: u128, id: String) -> (summary: SbomPackage)
    ensures
        summary@ == summary_of(store@, sbom_id, id@),
{
    let ghost key = (sbom_id, id@);
    let name = node_name(store.nodes(), sbom_id, id.as_str());

    let purl_refs = store.purl_refs();
    let mut purl: Vec<String> = Vec::new();
    let mut i: usize = 0;
    while i < purl_refs.len()
        invariant
            i <= purl_refs.len(),
            key == (sbom_id, id@),
            texts(purl@) == purl_refs@.take(i as int).filter_map(purl_of(key)),
        decreases purl_refs.len() - i,
    {
        proof {
            assert(purl_refs@.take(i + 1) == purl_refs@.take(i as int).push(purl_refs@[i as int]));
            lemma_filter_map_push(purl_refs@.take(i as int), purl_refs@[i as int], purl_of(key));
        }
        let ghost before = purl@;
        if purl_refs[i].sbom_id == sbom_id && same_text(
            purl_refs[i].node_id.as_str(),
            id.as_str(),
        ) {
            purl.push(purl_refs[i].purl.clone());
            assert(texts(purl@) == texts(before).push(purl_refs@[i as int].purl@));
        }
        i += 1;
    }
    assert(purl_refs@.take(purl_refs.len() as int) == purl_refs@);

    let cpe_refs = store.cpe_refs();
    let mut cpe: Vec<u128> = Vec::new();
    let mut i: usize = 0;
    while i < cpe_refs.len()
        invariant
            i <= cpe_refs.len(),
            key == (sbom_id, id@),
            cpe@ == cpe_refs@.take(i as int).filter_map(cpe_of(key)),
        decreases cpe_refs.len() - i,
    {
        proof {
            assert(cpe_refs@.take(i + 1) == cpe_refs@.take(i as int).push(cpe_refs@[i as int]));
            lemma_filter_map_push(cpe_refs@.take(i as int), cpe_refs@[i as int], cpe_of(key));
        }
        if cpe_refs[i].sbom_id == sbom_id && same_text(cpe_refs[i].node_id.as_str(), id.as_str()) {
            cpe.push(cpe_refs[i].cpe_id);
        }
        i += 1;
    }
    assert(cpe_refs@.take(cpe_refs.len() as int) == cpe_refs@);

    SbomPackage { id, name, purl, cpe }
}

/// Tells whether `results` is the page `paginated` of the nodes related to
/// `anchor`: the related nodes stand in ascending order of their identifiers,
/// each once; the page holds what the tables tell of those in its range, in
/// that order; the total counts them all.
pub open spec fn answers(
    results: PaginatedResults<SbomPackage>,
    content: Content,
    sbom_id: u128,
    kind: Relationship,
    transitive: bool,
    anchor: Seq<char>,
    paginated: Paginated,
) -> bool {
    exists|ids: Seq<String>|
        {
            &&& #[trigger] ascending(ids)
            &&& forall|n: Seq<char>|
                listed(ids, n) <==> related_to(
                    content.relationships,
                    sbom_id,
                    kind,
                    transitive,
                    anchor,
                    n,
                )
            &&& results.total == ids.len()
            &&& results.items@.len() == paginated.end(ids.len() as int) - paginated.first(
                ids.len() as int,
            )
            &&& forall|k: int|
                0 <= k < results.items@.len() ==> (#[trigger] results.items@[k])@ == summary_of(
                    content,
                    sbom_id,
                    ids[paginated.first(ids.len() as int) + k]@,
                )
        }
}

/// The nodes related to `anchor` by edges of kind `relationship` in the
/// document `sbom_id`, in ascending order of their identifiers, one page of
/// them. The query follows edges through any number of nodes where
/// `transitive` says so, and, where it says nothing, where the kind of
/// relationship is transitive by itself; else it stops at the nodes directly
/// related.
pub fn related(
    store: &Store,
    sbom_id: u128,
    relationship: Relationship,
    anchor: &str,
    transitive: Option<bool>,
    paginated: Paginated,
) -> (results: PaginatedResults<SbomPackage>)
    ensures
        answers(
            results,
            store@,
            sbom_id,
            relationship,
            match transitive {
                Some(choice) => choice,
                None => relationship.transitive_by_default(),
            },
            anchor@,
            paginated,
        ),
{
    let follow = match transitive {
        Some(choice) => choice,
        None => relationship.is_transitive_by_default(),
    };
    let found = related_nodes(store.relationships(), sbom_id, relationship, anchor, follow);
    let ids = sorted_texts(found);
    let ghost all = ids@;
    let page = paginated.page(ids);
    let ghost first = paginated.first(all.len() as int);
    let ghost end = paginated.end(all.len() as int);
    assert(0 <= first <= end <= all.len());
    let mut items: Vec<SbomPackage> = Vec::with_capacity(page.items.len());
    for id in it: page.items
        invariant
            0 <= first <= end <= all.len(),
            it.seq() == all.subrange(first, end),
            items@.len() == it.index(),
            forall|k: int|
                0 <= k < items@.len() ==> (#[trigger] items@[k])@ == summary_of(
                    store@,
                    sbom_id,
                    all[first + k]@,
                ),
    {
        let ghost k = it.index() as int;
        assert(it.seq()[k] == all[first + k]);
        items.push(summarize(store, sbom_id, id));
    }
    let results = PaginatedResults { items, total: page.total };
    assert(ascending(all));
    results
}

/// The nodes that a document declares as its subject: those that an edge
/// says to be described by the node that stands for the document; in
/// ascending order of their identifiers, one page of them. Of a document that
/// is not recorded nothing is known: the page is empty and the total zero.
pub fn describes(store: &Store, sbom_id: u128, paginated: Paginated) -> (results: PaginatedResults<
    SbomPackage,
>)
    ensures
        match find_document(store.documents(), sbom_id) {
            Some(document) => answers(
                results,
                store@,
                sbom_id,
                Relationship::DescribedBy,
                false,
                document.node_id@,
                paginated,
            ),
            None => results.total == 0 && results.items@.len() == 0,
        },
{
    match store.document(sbom_id) {
        Some(document) => related(
            store,
            sbom_id,
            Relationship::DescribedBy,
            document.node_id.as_str(),
            Some(false),
            paginated,
        ),
        None => PaginatedResults { items: Vec::new(), total: 0 },
    }
}

} // verus!
