//! Records that only grow.

use vstd::prelude::*;

verus! {

/// What was added to a record that grew from `before` to `after`.
pub open spec fn since<T>(before: Seq<T>, after: Seq<T>) -> Seq<T> {
    after.skip(before.len() as int)
}

/// A record only grows: what was noted stays as it was noted.
pub open spec fn extends<T>(before: Seq<T>, after: Seq<T>) -> bool {
    before.len() <= after.len() && after.subrange(0, before.len() as int) == before
}

/// A record that grew by one entry has grown.
pub proof fn lemma_grown_by_one<T>(start: Seq<T>, before: Seq<T>, entry: T)
    requires
        extends(start, before),
    ensures
        extends(start, before.push(entry)),
        since(start, before.push(entry)) == since(start, before).push(entry),
{
    let after = before.push(entry);
    assert(after.subrange(0, start.len() as int) =~= start) by {
        assert forall|k: int| 0 <= k < start.len() implies after[k] == start[k] by {
            assert(before.subrange(0, start.len() as int)[k] == before[k]);
        }
    }
    assert(since(start, after) =~= since(start, before).push(entry));
}

/// A record that has not changed has grown by nothing.
pub proof fn lemma_grown_by_nothing<T>(start: Seq<T>)
    ensures
        extends(start, start),
        since(start, start) == Seq::<T>::empty(),
{
    assert(start.subrange(0, start.len() as int) =~= start);
    assert(since(start, start) =~= Seq::<T>::empty());
}

/// A record that is as it was, or has one more entry, has grown by nothing
/// or by that entry.
pub proof fn lemma_grown_by_one_at_most<T>(before: Seq<T>, after: Seq<T>)
    requires
        after == before || after == before.push(after.last()),
    ensures
        extends(before, after),
        after.len() == before.len() ==> since(before, after) == Seq::<T>::empty(),
        after.len() != before.len() ==> since(before, after) == seq![after.last()],
{
    assert(after.subrange(0, before.len() as int) =~= before);
    if after.len() == before.len() {
        assert(since(before, after) =~= Seq::<T>::empty());
    } else {
        assert(since(before, after) =~= seq![after.last()]);
    }
}

/// Growth adds up.
pub proof fn lemma_grown_twice<T>(start: Seq<T>, mid: Seq<T>, end: Seq<T>)
    requires
        extends(start, mid),
        extends(mid, end),
    ensures
        extends(start, end),
        since(start, end) == since(start, mid) + since(mid, end),
{
    assert(end.subrange(0, start.len() as int) =~= start) by {
        assert forall|k: int| 0 <= k < start.len() implies end[k] == start[k] by {
            assert(end.subrange(0, mid.len() as int)[k] == end[k]);
            assert(mid.subrange(0, start.len() as int)[k] == mid[k]);
        }
    }
    assert(since(start, end) =~= since(start, mid) + since(mid, end)) by {
        assert forall|k: int| 0 <= k < since(start, mid).len() implies since(start, mid)[k]
            == since(start, end)[k] by {
            assert(end.subrange(0, mid.len() as int)[start.len() + k] == end[start.len() + k]);
        }
    }
}

} // verus!
