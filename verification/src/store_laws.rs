//! What holds of every commit.

use vstd::prelude::*;
use crate::content::Content;
use crate::graph::package::{declares, PackageCreator};
use crate::graph::plan::{lemma_settle, settle, Table, TABLES};
use crate::graph::relationship::{among, anchored, RelationshipCreator};
use crate::record::{
    has_key, insert_all, lemma_insert_all, lemma_insert_all_idempotent, Record,
};
use crate::store::{lemma_merged_wf, lemma_prefix_settle};

verus! {

/// Writing the same rows a second time changes nothing: the tables after two
/// commits of the same rows are the tables after one.
pub proof fn commit_is_idempotent(store: Content, rows: Content)
    ensures
        store.merged(rows).merged(rows) == store.merged(rows),
{
    lemma_insert_all_idempotent(store.nodes, rows.nodes);
    lemma_insert_all_idempotent(store.checksums, rows.checksums);
    lemma_insert_all_idempotent(store.packages, rows.packages);
    lemma_insert_all_idempotent(store.purl_refs, rows.purl_refs);
    lemma_insert_all_idempotent(store.cpe_refs, rows.cpe_refs);
    lemma_insert_all_idempotent(store.purl_license_assertions, rows.purl_license_assertions);
    lemma_insert_all_idempotent(store.cpe_license_assertions, rows.cpe_license_assertions);
    lemma_insert_all_idempotent(store.relationships, rows.relationships);
}

/// What was committed stays: a commit leaves every row that the store held
/// in its table and at its place.
pub proof fn commit_keeps_rows(store: Content, rows: Content)
    ensures
        store.nodes.is_prefix_of(store.merged(rows).nodes),
        store.checksums.is_prefix_of(store.merged(rows).checksums),
        store.packages.is_prefix_of(store.merged(rows).packages),
        store.purl_refs.is_prefix_of(store.merged(rows).purl_refs),
        store.cpe_refs.is_prefix_of(store.merged(rows).cpe_refs),
        store.purl_license_assertions.is_prefix_of(store.merged(rows).purl_license_assertions),
        store.cpe_license_assertions.is_prefix_of(store.merged(rows).cpe_license_assertions),
        store.relationships.is_prefix_of(store.merged(rows).relationships),
{
    lemma_insert_all(store.nodes, rows.nodes);
    lemma_insert_all(store.checksums, rows.checksums);
    lemma_insert_all(store.packages, rows.packages);
    lemma_insert_all(store.purl_refs, rows.purl_refs);
    lemma_insert_all(store.cpe_refs, rows.cpe_refs);
    lemma_insert_all(store.purl_license_assertions, rows.purl_license_assertions);
    lemma_insert_all(store.cpe_license_assertions, rows.cpe_license_assertions);
    lemma_insert_all(store.relationships, rows.relationships);
}

/// The rows that a package creator buffered find their targets among
/// themselves.
pub proof fn creator_resolves_itself(creator: PackageCreator)
    requires
        creator.wf(),
    ensures
        creator.content().resolved_by(creator.content()),
{
}

/// Rows that find their targets among the rows present still find them after
/// any insert.
pub proof fn resolved_stays_resolved(rows: Content, present: Content, more: Content)
    requires
        rows.resolved_by(present),
    ensures
        rows.resolved_by(more.merged(present)),
        rows.resolved_by(present.merged(more)),
{
    lemma_insert_all(more.nodes, present.nodes);
    lemma_insert_all(more.packages, present.packages);
    lemma_insert_all(present.nodes, more.nodes);
    lemma_insert_all(present.packages, more.packages);
}

/// The commit of what a package creator buffered never leaves a reference
/// without its target: into a store whose references all find their targets,
/// the commit succeeds, and the references of the store after it all find
/// their targets.
pub proof fn commit_of_creator_keeps_references(store: Content, creator: PackageCreator)
    requires
        store.unique(),
        store.integral(),
        creator.wf(),
    ensures
        store.merged(creator.content()).unique(),
        store.merged(creator.content()).integral(),
{
    creator_resolves_itself(creator);
    resolved_stays_resolved(creator.content(), creator.content(), store);
    lemma_merged_wf(store, creator.content());
}

/// A node that a document declares, or that the store holds for it, is a
/// node of the store after the commit of the document.
proof fn lemma_declared_is_present(
    store: Content,
    packages: PackageCreator,
    known: Seq<String>,
    node_id: Seq<char>,
)
    requires
        packages.wf(),
        declares(packages.node_rows(), node_id) || among(known, node_id),
        forall|k: int|
            0 <= k < known.len() ==> has_key(
                store.nodes,
                (packages.sbom_id(), (#[trigger] known[k])@),
            ),
    ensures
        has_key(insert_all(store.nodes, packages.node_rows()), (packages.sbom_id(), node_id)),
{
    let sbom_id = packages.sbom_id();
    lemma_insert_all(store.nodes, packages.node_rows());
    if declares(packages.node_rows(), node_id) {
        let i = choose|i: int|
            0 <= i < packages.node_rows().len() && (#[trigger] packages.node_rows()[i]).node_id@
                == node_id;
        assert(packages.node_rows()[i].key() == (sbom_id, node_id));
        assert(has_key(packages.node_rows(), (sbom_id, node_id)));
    } else {
        let k = choose|k: int| 0 <= k < known.len() && (#[trigger] known[k])@ == node_id;
        assert(has_key(store.nodes, (sbom_id, known[k]@)));
    }
}

/// A document whose relationships were checked is committed as a whole: where
/// every relationship joins nodes that the document declares or that the
/// store holds for it, the commit of its packages and relationships
/// succeeds, and every reference of the store after it finds its target.
pub proof fn commit_of_document_keeps_references(
    store: Content,
    packages: PackageCreator,
    relationships: RelationshipCreator,
    known: Seq<String>,
)
    requires
        store.unique(),
        store.integral(),
        packages.wf(),
        relationships.wf(),
        relationships.sbom_id() == packages.sbom_id(),
        forall|i: int|
            0 <= i < relationships.rows().len() ==> anchored(
                packages.node_rows(),
                known,
                #[trigger] relationships.rows()[i],
            ),
        forall|k: int|
            0 <= k < known.len() ==> has_key(
                store.nodes,
                (packages.sbom_id(), (#[trigger] known[k])@),
            ),
    ensures
        ({
            let document = Content { relationships: relationships.rows(), ..packages.content() };
            store.merged(document).unique() && store.merged(document).integral()
        }),
{
    let document = Content { relationships: relationships.rows(), ..packages.content() };
    let sbom_id = packages.sbom_id();
    let after = store.merged(document);
    creator_resolves_itself(packages);
    lemma_insert_all(store.nodes, document.nodes);
    lemma_insert_all(store.packages, document.packages);
    assert(document.resolved_by(after)) by {
        assert forall|i: int| 0 <= i < document.relationships.len() implies {
            &&& has_key(after.nodes, (#[trigger] document.relationships[i]).left_key())
            &&& has_key(after.nodes, document.relationships[i].right_key())
        } by {
            let edge = relationships.rows()[i];
            assert(anchored(packages.node_rows(), known, edge));
            assert(edge.sbom_id == sbom_id);
            lemma_declared_is_present(store, packages, known, edge.left_node_id@);
            lemma_declared_is_present(store, packages, known, edge.right_node_id@);
        }
    }
    lemma_merged_wf(store, document);
}

/// In the order of a commit no row is written before its target: when the
/// commit of what a package creator buffered stands at any place, the rows of
/// the batch that comes next find their targets among the rows of the store
/// and the rows that the commit has written so far.
pub proof fn batch_follows_its_targets(
    store: Content,
    creator: PackageCreator,
    stage: int,
    offset: int,
)
    requires
        creator.wf(),
        0 <= stage <= TABLES,
        stage < TABLES ==> 0 <= offset <= creator.content().rows_in(Table::at(stage)),
        stage == TABLES ==> offset == 0,
    ensures
        ({
            let rows = creator.content();
            let (s, o) = settle(rows.lens(), stage, offset);
            forall|end: int|
                s < TABLES && o <= end <= rows.rows_in(Table::at(s)) ==> #[trigger] rows.slice(
                    Table::at(s),
                    o,
                    end,
                ).resolved_by(store.merged(rows.prefix(stage, offset)))
        }),
{
    let rows = creator.content();
    let (s, o) = settle(rows.lens(), stage, offset);
    lemma_settle(rows.lens(), stage, offset);
    lemma_prefix_settle(rows, rows.lens(), stage, offset);
    let written = rows.prefix(s, o);
    let present = store.merged(written);
    lemma_insert_all(store.nodes, written.nodes);
    lemma_insert_all(store.packages, written.packages);
    assert forall|end: int|
        s < TABLES && o <= end <= rows.rows_in(Table::at(s)) implies #[trigger] rows.slice(
        Table::at(s),
        o,
        end,
    ).resolved_by(present) by {
        let slice = rows.slice(Table::at(s), o, end);
        if s > 0 {
            assert(written.nodes == rows.nodes);
        }
        if s > 2 {
            assert(written.packages == rows.packages);
        }
        assert forall|i: int| 0 <= i < slice.checksums.len() implies has_key(
            present.nodes,
            (#[trigger] slice.checksums[i]).node_key(),
        ) by {
            assert(slice.checksums[i] == rows.checksums[o + i]);
        }
        assert forall|i: int| 0 <= i < slice.packages.len() implies has_key(
            present.nodes,
            (#[trigger] slice.packages[i]).key(),
        ) by {
            assert(slice.packages[i] == rows.packages[o + i]);
        }
        assert forall|i: int| 0 <= i < slice.purl_refs.len() implies has_key(
            present.packages,
            (#[trigger] slice.purl_refs[i]).node_key(),
        ) by {
            assert(slice.purl_refs[i] == rows.purl_refs[o + i]);
        }
        assert forall|i: int| 0 <= i < slice.cpe_refs.len() implies has_key(
            present.packages,
            (#[trigger] slice.cpe_refs[i]).node_key(),
        ) by {
            assert(slice.cpe_refs[i] == rows.cpe_refs[o + i]);
        }
    }
}

} // verus!
