//! What a batch is, said without the cache: the changes that the filter does
//! not exclude, from the first that ends the acquisition up to the first
//! quiet window, each where it first occurs.

use crate::debounce::{
    acquire, acquisition_asks, burst, cool_off, cool_off_asks, pathop_of, remember, ArrivalView,
    Outcome,
};
use crate::pathop::PathOpView;
use vstd::prelude::*;

verus! {

/// Whether an event has a path that the filter does not exclude.
pub open spec fn admits(a: ArrivalView, excluded: spec_fn(Seq<char>) -> bool) -> bool {
    a.event.path is Some && !excluded(pathop_of(a.event).path)
}

/// The path operations of the events that have a path that the filter does
/// not exclude, in the order of the events.
pub open spec fn admitted(events: Seq<ArrivalView>, excluded: spec_fn(Seq<char>) -> bool) -> Seq<
    PathOpView,
>
    decreases events.len(),
{
    if events.len() == 0 {
        Seq::empty()
    } else {
        let before = admitted(events.drop_last(), excluded);
        if admits(events.last(), excluded) {
            before.push(pathop_of(events.last().event))
        } else {
            before
        }
    }
}

/// A sequence without its repetitions: each path operation where it first
/// occurs.
pub open spec fn first_occurrences(ops: Seq<PathOpView>) -> Seq<PathOpView>
    decreases ops.len(),
{
    if ops.len() == 0 {
        Seq::empty()
    } else {
        let before = first_occurrences(ops.drop_last());
        if before.contains(ops.last()) {
            before
        } else {
            before.push(ops.last())
        }
    }
}

/// How many events at the front of a stream come within the debounce window
/// of the one before.
pub open spec fn within_window(pending: Seq<ArrivalView>, debounce: u64) -> int
    decreases pending.len(),
{
    if pending.len() == 0 || pending[0].after >= debounce {
        0
    } else {
        1 + within_window(pending.skip(1), debounce)
    }
}

/// Where in a stream the acquisition ends: at the first event that has a
/// path, is not passed over as a change of metadata, and is not excluded by
/// the filter. `None` where there is no such event.
pub open spec fn opening(
    pending: Seq<ArrivalView>,
    excluded: spec_fn(Seq<char>) -> bool,
    no_meta: bool,
) -> Option<int>
    decreases pending.len(),
{
    if pending.len() == 0 {
        None
    } else if acquisition_asks(no_meta, pending[0].event) && !excluded(
        pathop_of(pending[0].event).path,
    ) {
        Some(0)
    } else {
        match opening(pending.skip(1), excluded, no_meta) {
            Some(k) => Some(k + 1),
            None => None,
        }
    }
}

/// How a wait ends, said without the cache.
pub open spec fn batch_of(
    pending: Seq<ArrivalView>,
    excluded: spec_fn(Seq<char>) -> bool,
    debounce: u64,
    no_meta: bool,
) -> Outcome {
    match opening(pending, excluded, no_meta) {
        None => Outcome::Closed,
        Some(k) => {
            let end = k + 1 + within_window(pending.skip(k + 1), debounce);
            Outcome::Batch {
                paths: first_occurrences(admitted(pending.subrange(k, end), excluded)),
                rest: pending.skip(end),
            }
        },
    }
}

proof fn lemma_within_window_fits(pending: Seq<ArrivalView>, debounce: u64)
    ensures
        0 <= within_window(pending, debounce) <= pending.len(),
    decreases pending.len(),
{
    if !(pending.len() == 0 || pending[0].after >= debounce) {
        lemma_within_window_fits(pending.skip(1), debounce);
    }
}

proof fn lemma_opening_fits(
    pending: Seq<ArrivalView>,
    excluded: spec_fn(Seq<char>) -> bool,
    no_meta: bool,
)
    ensures
        opening(pending, excluded, no_meta) matches Some(k) ==> {
            &&& 0 <= k < pending.len()
            &&& acquisition_asks(no_meta, pending[k].event)
            &&& !excluded(pathop_of(pending[k].event).path)
        },
    decreases pending.len(),
{
    if pending.len() > 0 {
        lemma_opening_fits(pending.skip(1), excluded, no_meta);
    }
}

/// Dropping the repetitions leaves every path operation in, once, and the
/// first where it was.
pub proof fn lemma_first_occurrences(ops: Seq<PathOpView>)
    ensures
        first_occurrences(ops).no_duplicates(),
        forall|p: PathOpView| #[trigger] first_occurrences(ops).contains(p) ==> ops.contains(p),
        forall|p: PathOpView| #[trigger] ops.contains(p) ==> first_occurrences(ops).contains(p),
        ops.len() > 0 ==> first_occurrences(ops).len() > 0 && first_occurrences(ops)[0] == ops[0],
    decreases ops.len(),
{
    if ops.len() > 0 {
        let init = ops.drop_last();
        let last = ops.last();
        let before = first_occurrences(init);
        let all = first_occurrences(ops);
        lemma_first_occurrences(init);
        assert forall|p: PathOpView| #[trigger] all.contains(p) implies ops.contains(p) by {
            let i = choose|i: int| 0 <= i < all.len() && all[i] == p;
            if i < before.len() {
                assert(before[i] == p);
                assert(before.contains(p));
                assert(init.contains(p));
                let j = choose|j: int| 0 <= j < init.len() && init[j] == p;
                assert(ops[j] == p);
            } else {
                assert(ops[ops.len() - 1] == p);
            }
        }
        assert forall|p: PathOpView| #[trigger] ops.contains(p) implies all.contains(p) by {
            let j = choose|j: int| 0 <= j < ops.len() && ops[j] == p;
            if j < init.len() {
                assert(init[j] == p);
                assert(init.contains(p));
                assert(before.contains(p));
                let i = choose|i: int| 0 <= i < before.len() && before[i] == p;
                assert(all[i] == p);
            } else if before.contains(last) {
                let i = choose|i: int| 0 <= i < before.len() && before[i] == last;
                assert(all[i] == p);
            } else {
                assert(all[before.len() as int] == p);
            }
        }
        if init.len() > 0 {
            assert(init[0] == ops[0]);
            assert(all[0] == before[0]);
        }
    }
}

/// Every event that the filter admits has its path operation among the
/// admitted.
pub proof fn lemma_admitted_has(
    events: Seq<ArrivalView>,
    excluded: spec_fn(Seq<char>) -> bool,
    j: int,
)
    requires
        0 <= j < events.len(),
        admits(events[j], excluded),
    ensures
        admitted(events, excluded).contains(pathop_of(events[j].event)),
    decreases events.len(),
{
    let init = events.drop_last();
    let all = admitted(events, excluded);
    if j < init.len() {
        lemma_admitted_has(init, excluded, j);
        let i = choose|i: int|
            0 <= i < admitted(init, excluded).len() && admitted(init, excluded)[i] == pathop_of(
                init[j].event,
            );
        assert(all[i] == pathop_of(events[j].event));
    } else {
        assert(all[all.len() - 1] == pathop_of(events[j].event));
    }
}

/// Every admitted path operation is that of an event that the filter
/// admits.
pub proof fn lemma_admitted_from(
    events: Seq<ArrivalView>,
    excluded: spec_fn(Seq<char>) -> bool,
    p: PathOpView,
) -> (j: int)
    requires
        admitted(events, excluded).contains(p),
    ensures
        0 <= j < events.len(),
        admits(events[j], excluded),
        pathop_of(events[j].event) == p,
    decreases events.len(),
{
    let init = events.drop_last();
    let all = admitted(events, excluded);
    let before = admitted(init, excluded);
    let i = choose|i: int| 0 <= i < all.len() && all[i] == p;
    if i < before.len() {
        assert(before[i] == p);
        lemma_admitted_from(init, excluded, p)
    } else {
        events.len() - 1
    }
}

/// Where the filter admits the first event, its path operation is the
/// first of the admitted.
pub proof fn lemma_admitted_front(events: Seq<ArrivalView>, excluded: spec_fn(Seq<char>) -> bool)
    requires
        events.len() > 0,
        admits(events[0], excluded),
    ensures
        admitted(events, excluded).len() > 0,
        admitted(events, excluded)[0] == pathop_of(events[0].event),
    decreases events.len(),
{
    let init = events.drop_last();
    if init.len() > 0 {
        assert(init[0] == events[0]);
        lemma_admitted_front(init, excluded);
    } else {
        reveal_with_fuel(admitted, 2);
    }
}

/// What a batch is made from: the events from the one that ends the
/// acquisition up to the first quiet window.
pub open spec fn taken(
    pending: Seq<ArrivalView>,
    excluded: spec_fn(Seq<char>) -> bool,
    debounce: u64,
    no_meta: bool,
) -> Seq<ArrivalView> {
    match opening(pending, excluded, no_meta) {
        None => Seq::empty(),
        Some(k) => pending.subrange(k, k + 1 + within_window(pending.skip(k + 1), debounce)),
    }
}

proof fn lemma_taken(
    pending: Seq<ArrivalView>,
    excluded: spec_fn(Seq<char>) -> bool,
    debounce: u64,
    no_meta: bool,
)
    ensures
        match opening(pending, excluded, no_meta) {
            None => batch_of(pending, excluded, debounce, no_meta) == Outcome::Closed,
            Some(k) => {
                let events = taken(pending, excluded, debounce, no_meta);
                let paths = first_occurrences(admitted(events, excluded));
                &&& 0 <= k < pending.len()
                &&& k + events.len() <= pending.len()
                &&& events.len() == 1 + within_window(pending.skip(k + 1), debounce)
                &&& forall|i: int| 0 <= i < events.len() ==> events[i] == pending[k + i]
                &&& admits(events[0], excluded)
                &&& acquisition_asks(no_meta, events[0].event)
                &&& batch_of(pending, excluded, debounce, no_meta) is Batch
                &&& batch_of(pending, excluded, debounce, no_meta)->paths == paths
                &&& paths.len() > 0
                &&& paths[0] == pathop_of(events[0].event)
                &&& paths.no_duplicates()
                &&& forall|p: PathOpView| #[trigger]
                    paths.contains(p) ==> admitted(events, excluded).contains(p)
                &&& forall|p: PathOpView| #[trigger]
                    admitted(events, excluded).contains(p) ==> paths.contains(p)
            },
        },
{
    lemma_opening_fits(pending, excluded, no_meta);
    match opening(pending, excluded, no_meta) {
        None => {},
        Some(k) => {
            lemma_within_window_fits(pending.skip(k + 1), debounce);
            let events = taken(pending, excluded, debounce, no_meta);
            lemma_admitted_front(events, excluded);
            lemma_first_occurrences(admitted(events, excluded));
        },
    }
}

/// A wait never ends with an empty batch.
pub proof fn batch_is_never_empty(
    pending: Seq<ArrivalView>,
    excluded: spec_fn(Seq<char>) -> bool,
    debounce: u64,
    no_meta: bool,
)
    ensures
        batch_of(pending, excluded, debounce, no_meta) matches Outcome::Batch { paths, .. }
            ==> paths.len() > 0,
{
    lemma_taken(pending, excluded, debounce, no_meta);
}

/// No path operation of a batch is excluded by the filter.
pub proof fn batch_passes_the_filter(
    pending: Seq<ArrivalView>,
    excluded: spec_fn(Seq<char>) -> bool,
    debounce: u64,
    no_meta: bool,
)
    ensures
        batch_of(pending, excluded, debounce, no_meta) matches Outcome::Batch { paths, .. }
            ==> forall|i: int| 0 <= i < paths.len() ==> !excluded((#[trigger] paths[i]).path),
{
    lemma_taken(pending, excluded, debounce, no_meta);
    if batch_of(pending, excluded, debounce, no_meta) is Batch {
        let paths = batch_of(pending, excluded, debounce, no_meta)->paths;
        let events = taken(pending, excluded, debounce, no_meta);
        assert forall|i: int| 0 <= i < paths.len() implies !excluded((#[trigger] paths[i]).path) by {
            assert(paths.contains(paths[i]));
            let j = lemma_admitted_from(events, excluded, paths[i]);
        }
    }
}

/// No path operation occurs twice in a batch.
pub proof fn batch_has_no_duplicates(
    pending: Seq<ArrivalView>,
    excluded: spec_fn(Seq<char>) -> bool,
    debounce: u64,
    no_meta: bool,
)
    ensures
        batch_of(pending, excluded, debounce, no_meta) matches Outcome::Batch { paths, .. }
            ==> paths.no_duplicates(),
{
    lemma_taken(pending, excluded, debounce, no_meta);
}

/// Where changes of metadata are not wanted, the first path operation of a
/// batch is never one.
pub proof fn batch_does_not_open_with_meta(
    pending: Seq<ArrivalView>,
    excluded: spec_fn(Seq<char>) -> bool,
    debounce: u64,
)
    ensures
        batch_of(pending, excluded, debounce, true) matches Outcome::Batch { paths, .. }
            ==> !paths[0].is_meta(),
{
    lemma_taken(pending, excluded, debounce, true);
}

/// Whether a batch holds a change of metadata.
pub open spec fn holds_meta(paths: Seq<PathOpView>) -> bool {
    exists|i: int| 0 <= i < paths.len() && (#[trigger] paths[i]).is_meta()
}

/// Whether the cool-off took an event that reports a change of metadata to
/// a path that the filter does not exclude: such an event among those that
/// the batch is made from, after the first.
pub open spec fn meta_slips_in(events: Seq<ArrivalView>, excluded: spec_fn(Seq<char>) -> bool)
    -> bool {
    exists|j: int|
        0 < j < events.len() && admits(#[trigger] events[j], excluded) && pathop_of(
            events[j].event,
        ).is_meta()
}

/// Where changes of metadata are not wanted, a batch holds one exactly if
/// the cool-off took one that the filter does not exclude: the acquisition
/// passes them over, the cool-off does not.
pub proof fn batch_holds_meta_only_from_cool_off(
    pending: Seq<ArrivalView>,
    excluded: spec_fn(Seq<char>) -> bool,
    debounce: u64,
)
    ensures
        batch_of(pending, excluded, debounce, true) matches Outcome::Batch { paths, .. }
            ==> (holds_meta(paths) <==> meta_slips_in(
            taken(pending, excluded, debounce, true),
            excluded,
        )),
{
    lemma_taken(pending, excluded, debounce, true);
    if batch_of(pending, excluded, debounce, true) is Batch {
        let paths = batch_of(pending, excluded, debounce, true)->paths;
        let events = taken(pending, excluded, debounce, true);
        if holds_meta(paths) {
            let i = choose|i: int| 0 <= i < paths.len() && (#[trigger] paths[i]).is_meta();
            assert(paths.contains(paths[i]));
            let j = lemma_admitted_from(events, excluded, paths[i]);
            assert(j != 0);
            assert(admits(events[j], excluded) && pathop_of(events[j].event).is_meta());
        }
        if meta_slips_in(events, excluded) {
            let j = choose|j: int|
                0 < j < events.len() && admits(#[trigger] events[j], excluded) && pathop_of(
                    events[j].event,
                ).is_meta();
            lemma_admitted_has(events, excluded, j);
            let p = pathop_of(events[j].event);
            assert(paths.contains(p));
            let i = choose|i: int| 0 <= i < paths.len() && paths[i] == p;
            assert(paths[i].is_meta());
        }
    }
}

/// With an empty debounce window the cool-off takes nothing: the batch is
/// the one path operation that ended the acquisition.
pub proof fn empty_window_gives_one(
    pending: Seq<ArrivalView>,
    excluded: spec_fn(Seq<char>) -> bool,
    no_meta: bool,
)
    ensures
        batch_of(pending, excluded, 0, no_meta) matches Outcome::Batch { paths, .. }
            ==> paths.len() == 1,
{
    lemma_taken(pending, excluded, 0, no_meta);
    if batch_of(pending, excluded, 0, no_meta) is Batch {
        let events = taken(pending, excluded, 0, no_meta);
        assert(events.len() == 1);
        reveal_with_fuel(admitted, 2);
        reveal_with_fuel(first_occurrences, 2);
        assert(events.drop_last().len() == 0);
        assert(admitted(events, excluded).drop_last().len() == 0);
    }
}

/// An event without a path in front of a stream changes nothing: the wait
/// ends as it does on the stream without it.
pub proof fn pathless_event_is_dropped(
    first: ArrivalView,
    pending: Seq<ArrivalView>,
    excluded: spec_fn(Seq<char>) -> bool,
    debounce: u64,
    no_meta: bool,
)
    requires
        first.event.path is None,
    ensures
        batch_of(seq![first] + pending, excluded, debounce, no_meta) == batch_of(
            pending,
            excluded,
            debounce,
            no_meta,
        ),
{
    let longer = seq![first] + pending;
    assert(longer.skip(1) =~= pending);
    assert(longer[0] == first);
    lemma_shifted(longer, excluded, debounce, no_meta);
}

/// A batch keeps the order of arrival: of two path operations in it, the
/// earlier is that of an event that came before an event of the later.
pub proof fn batch_keeps_the_order(
    pending: Seq<ArrivalView>,
    excluded: spec_fn(Seq<char>) -> bool,
    debounce: u64,
    no_meta: bool,
    i: int,
    j: int,
) -> (at: (int, int))
    requires
        batch_of(pending, excluded, debounce, no_meta) is Batch,
        0 <= i < j < batch_of(pending, excluded, debounce, no_meta)->paths.len(),
    ensures
        0 <= at.0 < at.1 < pending.len(),
        pending[at.0].event.path is Some,
        pending[at.1].event.path is Some,
        pathop_of(pending[at.0].event) == batch_of(pending, excluded, debounce, no_meta)->paths[i],
        pathop_of(pending[at.1].event) == batch_of(pending, excluded, debounce, no_meta)->paths[j],
{
    lemma_taken(pending, excluded, debounce, no_meta);
    let k = opening(pending, excluded, no_meta).unwrap();
    let events = taken(pending, excluded, debounce, no_meta);
    let found = lemma_ordered(admitted(events, excluded), i, j);
    let places = lemma_admitted_ordered(events, excluded, found.0, found.1);
    (k + places.0, k + places.1)
}

/// Two places in a sequence without its repetitions come from two places in
/// the sequence, in the same order.
proof fn lemma_ordered(ops: Seq<PathOpView>, i: int, j: int) -> (at: (int, int))
    requires
        0 <= i < j < first_occurrences(ops).len(),
    ensures
        0 <= at.0 < at.1 < ops.len(),
        ops[at.0] == first_occurrences(ops)[i],
        ops[at.1] == first_occurrences(ops)[j],
    decreases ops.len(),
{
    let init = ops.drop_last();
    let before = first_occurrences(init);
    if j < before.len() {
        let at = lemma_ordered(init, i, j);
        assert(init[at.0] == ops[at.0] && init[at.1] == ops[at.1]);
        at
    } else {
        lemma_first_occurrences(init);
        assert(before.contains(before[i]));
        assert(init.contains(before[i]));
        let a = choose|a: int| 0 <= a < init.len() && init[a] == before[i];
        assert(init[a] == ops[a]);
        (a, ops.len() - 1)
    }
}

/// Two places among the admitted come from two events, in the same order.
proof fn lemma_admitted_ordered(
    events: Seq<ArrivalView>,
    excluded: spec_fn(Seq<char>) -> bool,
    i: int,
    j: int,
) -> (at: (int, int))
    requires
        0 <= i < j < admitted(events, excluded).len(),
    ensures
        0 <= at.0 < at.1 < events.len(),
        admits(events[at.0], excluded),
        admits(events[at.1], excluded),
        pathop_of(events[at.0].event) == admitted(events, excluded)[i],
        pathop_of(events[at.1].event) == admitted(events, excluded)[j],
    decreases events.len(),
{
    let init = events.drop_last();
    let before = admitted(init, excluded);
    if j < before.len() {
        let at = lemma_admitted_ordered(init, excluded, i, j);
        assert(init[at.0] == events[at.0] && init[at.1] == events[at.1]);
        at
    } else {
        assert(before.contains(before[i]));
        let a = lemma_admitted_from(init, excluded, before[i]);
        assert(init[a] == events[a]);
        (a, events.len() - 1)
    }
}

/// What the cool-off comes to, from a state in which the batch is what was
/// admitted since the acquisition ended and the cache holds the batch and,
/// beside it, only what the filter excludes.
proof fn lemma_cool_off_is_first_occurrences(
    pending: Seq<ArrivalView>,
    cache: Seq<PathOpView>,
    paths: Seq<PathOpView>,
    seen: Seq<ArrivalView>,
    excluded: spec_fn(Seq<char>) -> bool,
    debounce: u64,
)
    requires
        paths == first_occurrences(admitted(seen, excluded)),
        forall|p: PathOpView| paths.contains(p) ==> cache.contains(p),
        forall|p: PathOpView| cache.contains(p) && !excluded(p.path) ==> paths.contains(p),
    ensures
        0 <= within_window(pending, debounce) <= pending.len(),
        cool_off(pending, cache, paths, excluded, debounce) == (Outcome::Batch {
            paths: first_occurrences(
                admitted(seen + pending.take(within_window(pending, debounce)), excluded),
            ),
            rest: pending.skip(within_window(pending, debounce)),
        }),
    decreases pending.len(),
{
    lemma_within_window_fits(pending, debounce);
    if pending.len() == 0 || pending[0].after >= debounce {
        assert(seen + pending.take(0) =~= seen);
        assert(pending.skip(0) =~= pending);
    } else {
        let e = pending[0].event;
        let p = pathop_of(e);
        let rest = pending.skip(1);
        let n = within_window(rest, debounce);
        let longer = seen.push(pending[0]);
        assert(longer.drop_last() =~= seen);
        assert(longer.last() == pending[0]);
        let cache2 = if cool_off_asks(cache, e) {
            cache.push(p)
        } else {
            cache
        };
        let paths2 = if cool_off_asks(cache, e) && !excluded(p.path) {
            paths.push(p)
        } else {
            paths
        };
        if admits(pending[0], excluded) {
            let ops = admitted(longer, excluded);
            assert(ops == admitted(seen, excluded).push(p));
            assert(ops.drop_last() =~= admitted(seen, excluded));
            assert(ops.last() == p);
            if cache.contains(p) {
                assert(paths.contains(p));
            } else {
                assert(!paths.contains(p));
            }
        }
        assert(paths2 == first_occurrences(admitted(longer, excluded)));
        assert forall|q: PathOpView| paths2.contains(q) implies cache2.contains(q) by {
            let i = choose|i: int| 0 <= i < paths2.len() && paths2[i] == q;
            if i < paths.len() {
                assert(paths[i] == q);
                assert(paths.contains(q));
                let j = choose|j: int| 0 <= j < cache.len() && cache[j] == q;
                assert(cache2[j] == q);
            } else {
                assert(cache2[cache.len() as int] == q);
            }
        }
        assert forall|q: PathOpView| cache2.contains(q) && !excluded(q.path) implies paths2.contains(
            q,
        ) by {
            let j = choose|j: int| 0 <= j < cache2.len() && cache2[j] == q;
            if j < cache.len() {
                assert(cache[j] == q);
                assert(cache.contains(q));
                let i = choose|i: int| 0 <= i < paths.len() && paths[i] == q;
                assert(paths2[i] == q);
            } else {
                assert(paths2[paths.len() as int] == q);
            }
        }
        lemma_cool_off_is_first_occurrences(rest, cache2, paths2, longer, excluded, debounce);
        assert(longer + rest.take(n) =~= seen + pending.take(n + 1));
        assert(rest.skip(n) =~= pending.skip(n + 1));
    }
}

/// What the acquisition and the cool-off after it come to, from a cache
/// that holds only what the filter excludes.
proof fn lemma_acquire_is_batch_of(
    pending: Seq<ArrivalView>,
    cache: Seq<PathOpView>,
    excluded: spec_fn(Seq<char>) -> bool,
    debounce: u64,
    no_meta: bool,
)
    requires
        forall|p: PathOpView| cache.contains(p) ==> excluded(p.path),
    ensures
        acquire(pending, cache, excluded, debounce, no_meta) == batch_of(
            pending,
            excluded,
            debounce,
            no_meta,
        ),
    decreases pending.len(),
{
    if pending.len() > 0 {
        let e = pending[0].event;
        let p = pathop_of(e);
        let rest = pending.skip(1);
        if !acquisition_asks(no_meta, e) {
            lemma_acquire_is_batch_of(rest, cache, excluded, debounce, no_meta);
            lemma_shifted(pending, excluded, debounce, no_meta);
        } else if excluded(p.path) {
            let cache2 = remember(cache, p);
            assert forall|q: PathOpView| cache2.contains(q) implies excluded(q.path) by {
                let j = choose|j: int| 0 <= j < cache2.len() && cache2[j] == q;
                if j < cache.len() {
                    assert(cache[j] == q);
                    assert(cache.contains(q));
                }
            }
            lemma_acquire_is_batch_of(rest, cache2, excluded, debounce, no_meta);
            lemma_shifted(pending, excluded, debounce, no_meta);
        } else {
            let cache2 = remember(cache, p);
            let first = seq![p];
            let seen = seq![pending[0]];
            assert(first_occurrences(admitted(seen, excluded)) =~= first) by {
                reveal_with_fuel(admitted, 2);
                reveal_with_fuel(first_occurrences, 2);
                assert(seen.drop_last().len() == 0);
                assert(seen.last() == pending[0]);
                assert(admitted(seen, excluded) =~= first);
                assert(first.drop_last().len() == 0);
            }
            assert(cache2.contains(p)) by {
                if !cache.contains(p) {
                    assert(cache2[cache.len() as int] == p);
                }
            }
            assert forall|q: PathOpView| first.contains(q) implies cache2.contains(q) by {
                assert(q == p);
            }
            assert forall|q: PathOpView| cache2.contains(q) && !excluded(q.path) implies first.contains(
                q,
            ) by {
                let j = choose|j: int| 0 <= j < cache2.len() && cache2[j] == q;
                if j < cache.len() {
                    assert(cache[j] == q);
                    assert(cache.contains(q));
                } else {
                    assert(first[0] == q);
                }
            }
            lemma_cool_off_is_first_occurrences(rest, cache2, first, seen, excluded, debounce);
            let n = within_window(rest, debounce);
            assert(seen + rest.take(n) =~= pending.subrange(0, 1 + n));
            assert(rest.skip(n) =~= pending.skip(1 + n));
            assert(opening(pending, excluded, no_meta) == Some(0int));
        }
    }
}

/// A stream whose first event does not end the acquisition gives the batch
/// of the stream without that event.
proof fn lemma_shifted(
    pending: Seq<ArrivalView>,
    excluded: spec_fn(Seq<char>) -> bool,
    debounce: u64,
    no_meta: bool,
)
    requires
        pending.len() > 0,
        !(acquisition_asks(no_meta, pending[0].event) && !excluded(
            pathop_of(pending[0].event).path,
        )),
    ensures
        batch_of(pending, excluded, debounce, no_meta) == batch_of(
            pending.skip(1),
            excluded,
            debounce,
            no_meta,
        ),
{
    let rest = pending.skip(1);
    lemma_opening_fits(rest, excluded, no_meta);
    match opening(rest, excluded, no_meta) {
        None => {},
        Some(k) => {
            let n = within_window(rest.skip(k + 1), debounce);
            lemma_within_window_fits(rest.skip(k + 1), debounce);
            assert(rest.skip(k + 1) =~= pending.skip(k + 2));
            assert(rest.subrange(k, k + 1 + n) =~= pending.subrange(k + 1, k + 2 + n));
            assert(rest.skip(k + 1 + n) =~= pending.skip(k + 2 + n));
        },
    }
}

/// A wait ends as `batch_of` says: with the changes that the filter does
/// not exclude, from the first that ends the acquisition up to the first
/// quiet window, each where it first occurs. The cache is but a means to
/// that end.
pub proof fn burst_is_batch_of(
    pending: Seq<ArrivalView>,
    excluded: spec_fn(Seq<char>) -> bool,
    debounce: u64,
    no_meta: bool,
)
    ensures
        burst(pending, excluded, debounce, no_meta) == batch_of(
            pending,
            excluded,
            debounce,
            no_meta,
        ),
{
    lemma_acquire_is_batch_of(pending, Seq::empty(), excluded, debounce, no_meta);
}

} // verus!
