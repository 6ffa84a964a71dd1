//! Rows with a unique key.

use vstd::prelude::*;

verus! {

/// A row of a table with a unique key.
pub trait Record: Sized {
    /// The columns of the unique key, as mathematical values.
    type Key;

    /// The key of this row.
    spec fn key(&self) -> Self::Key;

    /// Tells whether two rows collide on the unique key.
    fn same_key(&self, other: &Self) -> (same: bool)
        ensures
            same == (self.key() == other.key()),
    ;

    /// Copies the row.
    fn duplicate(&self) -> (copy: Self)
        ensures
            copy == *self,
    ;
}

/// A row that belongs to one document.
pub trait Scoped: Record {
    /// The document that the row belongs to.
    spec fn scope(&self) -> u128;

    /// Tells whether the row belongs to a document.
    fn belongs_to(&self, sbom_id: u128) -> (belongs: bool)
        ensures
            belongs == (self.scope() == sbom_id),
    ;
}

/// The rows of `rows` that do not belong to the document `sbom_id`, in
/// their order.
pub open spec fn without<R: Scoped>(rows: Seq<R>, sbom_id: u128) -> Seq<R>
    decreases rows.len(),
{
    if rows.len() == 0 {
        Seq::empty()
    } else if rows.last().scope() == sbom_id {
        without(rows.drop_last(), sbom_id)
    } else {
        without(rows.drop_last(), sbom_id).push(rows.last())
    }
}

/// What is left of a table without the rows of a document: rows of the
/// table, none of the document, every row of another document, and no key
/// twice where the table had none twice.
pub proof fn lemma_without<R: Scoped>(rows: Seq<R>, sbom_id: u128)
    ensures
        without(rows, sbom_id).len() <= rows.len(),
        forall|j: int|
            0 <= j < without(rows, sbom_id).len() ==> rows.contains(
                #[trigger] without(rows, sbom_id)[j],
            ) && without(rows, sbom_id)[j].scope() != sbom_id,
        forall|i: int|
            0 <= i < rows.len() && (#[trigger] rows[i]).scope() != sbom_id ==> without(
                rows,
                sbom_id,
            ).contains(rows[i]),
        unique_keys(rows) ==> unique_keys(without(rows, sbom_id)),
    decreases rows.len(),
{
    if rows.len() > 0 {
        let front = rows.drop_last();
        let left = without(rows, sbom_id);
        let before = without(front, sbom_id);
        lemma_without(front, sbom_id);
        assert forall|j: int| 0 <= j < left.len() implies rows.contains(#[trigger] left[j])
            && left[j].scope() != sbom_id by {
            if j < before.len() {
                assert(left[j] == before[j]);
                let i = choose|i: int| 0 <= i < front.len() && front[i] == before[j];
                assert(rows[i] == left[j]);
            } else {
                assert(rows[rows.len() - 1] == left[j]);
            }
        }
        assert forall|i: int| 0 <= i < rows.len() && (#[trigger] rows[i]).scope()
            != sbom_id implies left.contains(rows[i]) by {
            if i < front.len() {
                assert(front[i] == rows[i]);
                assert(before.contains(front[i]));
                let j = choose|j: int| 0 <= j < before.len() && before[j] == front[i];
                assert(left[j] == rows[i]);
            } else {
                assert(left[left.len() - 1] == rows[i]);
            }
        }
        if unique_keys(rows) {
            assert(unique_keys(front)) by {
                assert forall|a: int, b: int| 0 <= a < b < front.len() implies (
                #[trigger] front[a]).key() != (#[trigger] front[b]).key() by {
                    assert(rows[a].key() != rows[b].key());
                }
            }
            if rows.last().scope() != sbom_id {
                assert forall|a: int, b: int| 0 <= a < b < left.len() implies (
                #[trigger] left[a]).key() != (#[trigger] left[b]).key() by {
                    if b == before.len() {
                        let i = choose|i: int| 0 <= i < front.len() && front[i] == before[a];
                        assert(rows[i].key() != rows[rows.len() - 1].key());
                    } else {
                        assert(before[a].key() != before[b].key());
                    }
                }
            }
        }
    }
}

/// Takes the rows of a document out of a table.
pub fn remove_scope<R: Scoped>(rows: &mut Vec<R>, sbom_id: u128)
    ensures
        final(rows)@ == without(old(rows)@, sbom_id),
{
    let mut all: Vec<R> = Vec::new();
    std::mem::swap(rows, &mut all);
    for row in it: all
        invariant
            it.seq() == old(rows)@,
            rows@ == without(old(rows)@.take(it.index() as int), sbom_id),
    {
        proof {
            let next = old(rows)@.take(it.index() + 1);
            assert(next.drop_last() == old(rows)@.take(it.index() as int));
            assert(next.last() == row);
        }
        if !row.belongs_to(sbom_id) {
            rows.push(row);
        }
    }
    assert(old(rows)@.take(old(rows)@.len() as int) == old(rows)@);
}

/// Tells whether some row of `rows` has the key `key`.
pub open spec fn has_key<R: Record>(rows: Seq<R>, key: R::Key) -> bool {
    exists|i: int| 0 <= i < rows.len() && (#[trigger] rows[i]).key() == key
}

/// Tells whether no two rows of `rows` have the same key.
pub open spec fn unique_keys<R: Record>(rows: Seq<R>) -> bool {
    forall|i: int, j: int|
        0 <= i < j < rows.len() ==> (#[trigger] rows[i]).key() != (#[trigger] rows[j]).key()
}

/// Appending a row keeps the keys that were there and adds the row's own.
pub proof fn lemma_has_key_push<R: Record>(rows: Seq<R>, row: R)
    ensures
        has_key(rows.push(row), row.key()),
        forall|key: R::Key| has_key(rows, key) ==> has_key(rows.push(row), key),
{
    let pushed = rows.push(row);
    assert(pushed[rows.len() as int].key() == row.key());
    assert forall|key: R::Key| has_key(rows, key) implies has_key(pushed, key) by {
        let i = choose|i: int| 0 <= i < rows.len() && (#[trigger] rows[i]).key() == key;
        assert(pushed[i].key() == key);
    }
}

/// A table after the insert of one row that leaves the table as it is when
/// the row's key is taken.
pub open spec fn insert_ignore<R: Record>(rows: Seq<R>, row: R) -> Seq<R> {
    if has_key(rows, row.key()) {
        rows
    } else {
        rows.push(row)
    }
}

/// A table after the inserts of the rows of `batch`, one after another.
pub open spec fn insert_all<R: Record>(rows: Seq<R>, batch: Seq<R>) -> Seq<R>
    decreases batch.len(),
{
    if batch.len() == 0 {
        rows
    } else {
        insert_ignore(insert_all(rows, batch.drop_last()), batch.last())
    }
}

/// An insert keeps the rows that were there, in their places, keeps the keys
/// unique, and leaves the row's key taken.
pub proof fn lemma_insert_ignore<R: Record>(rows: Seq<R>, row: R)
    ensures
        rows.len() <= insert_ignore(rows, row).len() <= rows.len() + 1,
        forall|i: int| 0 <= i < rows.len() ==> insert_ignore(rows, row)[i] == rows[i],
        has_key(insert_ignore(rows, row), row.key()),
        forall|key: R::Key|
            has_key(insert_ignore(rows, row), key) <==> has_key(rows, key) || key == row.key(),
        unique_keys(rows) ==> unique_keys(insert_ignore(rows, row)),
{
    let after = insert_ignore(rows, row);
    lemma_has_key_push(rows, row);
    assert forall|key: R::Key| has_key(after, key) implies has_key(rows, key) || key
        == row.key() by {
        let i = choose|i: int| 0 <= i < after.len() && (#[trigger] after[i]).key() == key;
        if i < rows.len() {
            assert(rows[i].key() == key);
        }
    }
    if unique_keys(rows) && !has_key(rows, row.key()) {
        assert forall|i: int, j: int| 0 <= i < j < after.len() implies (#[trigger] after[i]).key()
            != (#[trigger] after[j]).key() by {
            if j == rows.len() {
                assert(rows[i].key() != row.key());
            } else {
                assert(rows[i].key() != rows[j].key());
            }
        }
    }
}

/// The inserts of a batch keep the rows that were there, in their places, keep
/// the keys unique, and leave taken exactly the keys that were taken and
/// those of the batch.
pub proof fn lemma_insert_all<R: Record>(rows: Seq<R>, batch: Seq<R>)
    ensures
        rows.len() <= insert_all(rows, batch).len() <= rows.len() + batch.len(),
        forall|i: int| 0 <= i < rows.len() ==> insert_all(rows, batch)[i] == rows[i],
        forall|key: R::Key|
            has_key(insert_all(rows, batch), key) <==> has_key(rows, key) || has_key(batch, key),
        forall|i: int|
            rows.len() <= i < insert_all(rows, batch).len() ==> batch.contains(
                #[trigger] insert_all(rows, batch)[i],
            ),
        unique_keys(rows) ==> unique_keys(insert_all(rows, batch)),
    decreases batch.len(),
{
    if batch.len() > 0 {
        let rest = batch.drop_last();
        let mid = insert_all(rows, rest);
        lemma_insert_all(rows, rest);
        lemma_insert_ignore(mid, batch.last());
        assert(batch == rest.push(batch.last()));
        lemma_has_key_push(rest, batch.last());
        assert forall|key: R::Key| has_key(batch, key) implies has_key(rest, key) || key
            == batch.last().key() by {
            let i = choose|i: int| 0 <= i < batch.len() && (#[trigger] batch[i]).key() == key;
            if i < rest.len() {
                assert(rest[i].key() == key);
            }
        }
        let after = insert_all(rows, batch);
        assert forall|i: int| rows.len() <= i < after.len() implies batch.contains(
            #[trigger] after[i],
        ) by {
            if i < mid.len() {
                assert(rest.contains(mid[i]));
                let j = choose|j: int| 0 <= j < rest.len() && rest[j] == mid[i];
                assert(batch[j] == after[i]);
            } else {
                assert(batch[batch.len() - 1] == after[i]);
            }
        }
    } else {
        assert forall|key: R::Key| !has_key(batch, key) by {}
    }
}

/// The inserts of a batch whose keys are all taken change nothing.
pub proof fn lemma_insert_all_present<R: Record>(rows: Seq<R>, batch: Seq<R>)
    requires
        forall|i: int| 0 <= i < batch.len() ==> has_key(rows, (#[trigger] batch[i]).key()),
    ensures
        insert_all(rows, batch) == rows,
    decreases batch.len(),
{
    if batch.len() > 0 {
        let rest = batch.drop_last();
        assert forall|i: int| 0 <= i < rest.len() implies has_key(
            rows,
            (#[trigger] rest[i]).key(),
        ) by {
            assert(rest[i] == batch[i]);
        }
        lemma_insert_all_present(rows, rest);
        assert(has_key(rows, batch[batch.len() - 1].key()));
    }
}

/// The inserts of a batch a second time change nothing.
pub proof fn lemma_insert_all_idempotent<R: Record>(rows: Seq<R>, batch: Seq<R>)
    ensures
        insert_all(insert_all(rows, batch), batch) == insert_all(rows, batch),
{
    let once = insert_all(rows, batch);
    lemma_insert_all(rows, batch);
    assert forall|i: int| 0 <= i < batch.len() implies has_key(once, (#[trigger] batch[i]).key()) by {
        assert(has_key(batch, batch[i].key()));
    }
    lemma_insert_all_present(once, batch);
}

/// The inserts of two batches one after the other are the inserts of the two
/// batches joined.
pub proof fn lemma_insert_all_concat<R: Record>(rows: Seq<R>, first: Seq<R>, second: Seq<R>)
    ensures
        insert_all(rows, first + second) == insert_all(insert_all(rows, first), second),
    decreases second.len(),
{
    if second.len() == 0 {
        assert(first + second == first);
    } else {
        let rest = second.drop_last();
        lemma_insert_all_concat(rows, first, rest);
        assert((first + second).drop_last() == first + rest);
        assert((first + second).last() == second.last());
    }
}

/// The inserts of the first rows of a batch and then of the rows behind them
/// are the inserts of both runs as one.
pub proof fn lemma_insert_all_step<R: Record>(rows: Seq<R>, batch: Seq<R>, from: int, to: int)
    requires
        0 <= from <= to <= batch.len(),
    ensures
        insert_all(insert_all(rows, batch.take(from)), batch.subrange(from, to)) == insert_all(
            rows,
            batch.take(to),
        ),
{
    lemma_insert_all_concat(rows, batch.take(from), batch.subrange(from, to));
    assert(batch.take(from) + batch.subrange(from, to) == batch.take(to));
}

/// Tells whether a row of `rows` has the key of `probe`.
pub fn contains_key<R: Record>(rows: &Vec<R>, probe: &R) -> (found: bool)
    ensures
        found == has_key(rows@, probe.key()),
{
    let mut i: usize = 0;
    while i < rows.len()
        invariant
            i <= rows.len(),
            forall|k: int| 0 <= k < i ==> (#[trigger] rows@[k]).key() != probe.key(),
        decreases rows.len() - i,
    {
        if rows[i].same_key(probe) {
            assert(rows@[i as int].key() == probe.key());
            return true;
        }
        i += 1;
    }
    false
}

/// Inserts a row, unless its key is taken, and tells whether it did.
pub fn insert_row<R: Record>(rows: &mut Vec<R>, row: R) -> (inserted: bool)
    ensures
        final(rows)@ == insert_ignore(old(rows)@, row),
        inserted == !has_key(old(rows)@, row.key()),
{
    if contains_key(rows, &row) {
        false
    } else {
        rows.push(row);
        true
    }
}

/// Inserts a copy of each row of `source` from `start` up to `end`, in order,
/// leaving out those whose key is taken.
pub fn insert_range<R: Record>(rows: &mut Vec<R>, source: &Vec<R>, start: usize, end: usize)
    requires
        start <= end <= source.len(),
    ensures
        final(rows)@ == insert_all(old(rows)@, source@.subrange(start as int, end as int)),
{
    let mut i: usize = start;
    while i < end
        invariant
            start <= i <= end <= source.len(),
            rows@ == insert_all(old(rows)@, source@.subrange(start as int, i as int)),
        decreases end - i,
    {
        proof {
            let next = source@.subrange(start as int, i + 1);
            assert(next.drop_last() == source@.subrange(start as int, i as int));
            assert(next.last() == source@[i as int]);
        }
        if !contains_key(rows, &source[i]) {
            rows.push(source[i].duplicate());
        }
        i += 1;
    }
}

/// Copies an optional text.
pub fn duplicate_text(text: &Option<String>) -> (copy: Option<String>)
    ensures
        copy == *text,
{
    match text {
        Some(t) => Some(t.clone()),
        None => None,
    }
}

/// Copies a list of rows.
pub fn duplicate_rows<R: Record>(rows: &Vec<R>) -> (copy: Vec<R>)
    ensures
        copy@ == rows@,
{
    let mut copy: Vec<R> = Vec::with_capacity(rows.len());
    let mut i: usize = 0;
    while i < rows.len()
        invariant
            i <= rows.len(),
            copy@ == rows@.take(i as int),
        decreases rows.len() - i,
    {
        copy.push(rows[i].duplicate());
        assert(rows@.take(i + 1) == rows@.take(i as int).push(rows@[i as int]));
        i += 1;
    }
    assert(rows@.take(rows.len() as int) == rows@);
    copy
}

} // verus!
