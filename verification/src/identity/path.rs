//! Namespaces: paths of segments with slashes between them.

use vstd::prelude::*;

verus! {

/// A path without the slashes at its ends, and with one slash where
/// several stand together.
pub open spec fn clean_path(path: Seq<u8>) -> Seq<u8>
    decreases path.len(),
{
    if path.len() == 0 {
        Seq::empty()
    } else {
        let front = clean_path(path.drop_last());
        if path.last() == 0x2f {
            front
        } else if front.len() > 0 && path.len() >= 2 && path[path.len() - 2] == 0x2f {
            front.push(0x2f).push(path.last())
        } else {
            front.push(path.last())
        }
    }
}

/// Tells whether no two slashes stand together in a path, and none at its
/// start.
pub open spec fn is_spaced(path: Seq<u8>) -> bool {
    &&& path.len() > 0 ==> path[0] != 0x2f
    &&& forall|i: int| 0 <= i < path.len() - 1 && #[trigger] path[i] == 0x2f ==> path[i + 1] != 0x2f
}

/// Tells whether a path is clean: no slash stands at its ends, and no two
/// stand together.
pub open spec fn is_clean(path: Seq<u8>) -> bool {
    is_spaced(path) && (path.len() > 0 ==> path.last() != 0x2f)
}

/// A cleaned path is clean.
pub proof fn lemma_clean_path_is_clean(path: Seq<u8>)
    ensures
        is_clean(clean_path(path)),
    decreases path.len(),
{
    if path.len() > 0 {
        lemma_clean_path_is_clean(path.drop_last());
        let front = clean_path(path.drop_last());
        let clean = clean_path(path);
        if path.last() != 0x2f {
            assert forall|i: int| 0 <= i < clean.len() - 1 && #[trigger] clean[i]
                == 0x2f implies clean[i + 1] != 0x2f by {
                if i < front.len() - 1 {
                    assert(front[i] == 0x2f);
                }
            }
        }
    }
}

/// To clean a path without slashes at its start or together takes the slash
/// off its end, if there is one, and leaves the rest.
pub proof fn lemma_clean_spaced(path: Seq<u8>)
    requires
        is_spaced(path),
    ensures
        clean_path(path) == if path.len() > 0 && path.last() == 0x2f {
            path.drop_last()
        } else {
            path
        },
    decreases path.len(),
{
    if path.len() > 0 {
        let front = path.drop_last();
        assert(is_spaced(front)) by {
            if front.len() > 0 {
                assert(front[0] == path[0]);
            }
            assert forall|i: int| 0 <= i < front.len() - 1 && #[trigger] front[i]
                == 0x2f implies front[i + 1] != 0x2f by {
                assert(path[i] == 0x2f);
            }
        }
        lemma_clean_spaced(front);
        if front.len() > 0 && front.last() == 0x2f {
            assert(path[path.len() - 2] == 0x2f);
            assert(path.last() != 0x2f);
            assert(front.drop_last().len() > 0) by {
                if front.len() == 1 {
                    assert(path[0] == 0x2f);
                }
            }
            assert(front.drop_last().push(0x2f) == front);
        }
        assert(front.push(path.last()) == path);
    }
}

/// A clean path is its own cleaned form.
pub proof fn lemma_clean_path_of_clean(path: Seq<u8>)
    requires
        is_clean(path),
    ensures
        clean_path(path) == path,
{
    lemma_clean_spaced(path);
}

/// Cleans a path.
pub fn cleaned(path: &[u8]) -> (clean: Vec<u8>)
    ensures
        clean@ == clean_path(path@),
{
    let mut clean: Vec<u8> = Vec::with_capacity(path.len());
    let mut i: usize = 0;
    assert(path@.take(0) == Seq::<u8>::empty());
    while i < path.len()
        invariant
            i <= path.len(),
            clean@ == clean_path(path@.take(i as int)),
        decreases path.len() - i,
    {
        proof {
            let next = path@.take(i + 1);
            assert(next.drop_last() == path@.take(i as int));
            assert(next.last() == path@[i as int]);
            if i >= 1 {
                assert(next[next.len() - 2] == path@[i - 1]);
            }
        }
        if path[i] != 0x2f {
            if clean.len() > 0 && i >= 1 && path[i - 1] == 0x2f {
                clean.push(0x2f);
            }
            clean.push(path[i]);
        }
        i += 1;
    }
    assert(path@.take(path.len() as int) == path@);
    clean
}

} // verus!
