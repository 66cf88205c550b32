//! The watch loop: wait for a batch of changes, hand it to the handler, and
//! go on until the handler says otherwise or the stream of events closes.

use crate::batch::batch_of;
use crate::config::Config;
use crate::debounce::{decides, total, wait_fs, ArrivalView, Inbox, Outcome};
use crate::error::Error;
use crate::handler::{next_move, stops_with, Handler, Recorded, Visit};
use crate::pathop::{views, PathOp};
use crate::record::{
    extends, lemma_grown_by_nothing, lemma_grown_by_one, lemma_grown_twice, since,
};
use vstd::prelude::*;

verus! {

/// How the loop of batches ends on a stream, given the calls to the handler
/// in order: the result, and what the stream still holds. Each batch is
/// handed to the handler, and the first answer that does not ask to go on
/// is the last; the loop fails where the stream closes before a batch is
/// complete. `None` where the calls are not those that the stream gives
/// rise to.
pub open spec fn looped(
    debounce: u64,
    no_meta: bool,
    pending: Seq<ArrivalView>,
    excluded: spec_fn(Seq<char>) -> bool,
    visits: Seq<Visit>,
) -> Option<(Result<(), Error>, Seq<ArrivalView>)>
    decreases pending.len(),
{
    match batch_of(pending, excluded, debounce, no_meta) {
        Outcome::Closed => if visits.len() == 0 {
            Some((Err(Error::BackendReceive), Seq::empty()))
        } else {
            None
        },
        Outcome::Batch { paths, rest } => if visits.len() == 0 {
            None
        } else {
            match visits[0] {
                Visit::Update(changes, answer) if changes == paths => match stops_with(answer) {
                    Some(r) => if visits.len() == 1 {
                        Some((r, rest))
                    } else {
                        None
                    },
                    None => if rest.len() < pending.len() {
                        looped(debounce, no_meta, rest, excluded, visits.skip(1))
                    } else {
                        None
                    },
                },
                _ => None,
            }
        },
    }
}

/// How watching ends on a stream, given the calls to the handler in order:
/// where a first run is asked for, the first call is for that run, and the
/// loop of batches begins only if the answer asks to go on.
pub open spec fn watched(
    run_initially: bool,
    debounce: u64,
    no_meta: bool,
    pending: Seq<ArrivalView>,
    excluded: spec_fn(Seq<char>) -> bool,
    visits: Seq<Visit>,
) -> Option<(Result<(), Error>, Seq<ArrivalView>)> {
    if !run_initially {
        looped(debounce, no_meta, pending, excluded, visits)
    } else if visits.len() == 0 {
        None
    } else {
        match visits[0] {
            Visit::Manual(answer) => match stops_with(answer) {
                Some(r) => if visits.len() == 1 {
                    Some((r, pending))
                } else {
                    None
                },
                None => looped(debounce, no_meta, pending, excluded, visits.skip(1)),
            },
            _ => None,
        }
    }
}

/// Whether `visits`, `r` and `rest` are the calls to the handler, the result
/// and what is left of the stream when `pending` is watched, for every
/// predicate that the filter computes.
pub open spec fn is_watch_of<F: Fn(&str) -> bool>(
    filter: &F,
    run_initially: bool,
    debounce: u64,
    no_meta: bool,
    pending: Seq<ArrivalView>,
    visits: Seq<Visit>,
    r: Result<(), Error>,
    rest: Seq<ArrivalView>,
) -> bool {
    forall|excluded: spec_fn(Seq<char>) -> bool| #[trigger]
        decides(filter, excluded) ==> watched(
            run_initially,
            debounce,
            no_meta,
            pending,
            excluded,
            visits,
        ) == Some((r, rest))
}

/// What the watch loop drives: something that is run by hand and handed
/// batches, that keeps a record of both, and that stays sound with respect
/// to a key that it is given.
pub(crate) trait Driven {
    type Key;

    /// Every call so far with its answer, oldest first.
    spec fn visits(&self) -> Seq<Visit>;

    /// What holds of the record at all times.
    spec fn sound(&self, key: Self::Key) -> bool;

    fn manual(&mut self, key: Ghost<Self::Key>) -> (r: Result<bool, Error>)
        requires
            old(self).sound(key@),
        ensures
            final(self).sound(key@),
            final(self).visits() == old(self).visits().push(Visit::Manual(r)),
    ;

    fn update(&mut self, ops: &[PathOp], key: Ghost<Self::Key>) -> (r: Result<bool, Error>)
        requires
            old(self).sound(key@),
        ensures
            final(self).sound(key@),
            final(self).visits() == old(self).visits().push(Visit::Update(views(ops@), r)),
    ;
}

impl<H: Handler> Driven for Recorded<H> {
    type Key = ();

    open spec fn visits(&self) -> Seq<Visit> {
        Recorded::visits(self)
    }

    open spec fn sound(&self, key: ()) -> bool {
        true
    }

    fn manual(&mut self, key: Ghost<()>) -> (r: Result<bool, Error>) {
        self.on_manual()
    }

    fn update(&mut self, ops: &[PathOp], key: Ghost<()>) -> (r: Result<bool, Error>) {
        self.on_update(ops)
    }
}

/// Watches a recorded stream with the settings `args`: runs what it drives
/// once at the start if asked to, then hands it batch after batch of changes
/// until it asks to stop or fails, or the stream closes.
pub(crate) fn watch_loop<D: Driven, F: Fn(&str) -> bool>(
    handler: &mut D,
    args: &Config,
    rx: &mut Inbox,
    filter: &F,
    key: Ghost<D::Key>,
) -> (r: Result<(), Error>)
    requires
        total(filter),
        old(handler).sound(key@),
    ensures
        final(handler).sound(key@),
        final(rx).pending().len() <= old(rx).pending().len(),
        extends(old(handler).visits(), final(handler).visits()),
        is_watch_of(
            filter,
            args.run_initially,
            args.debounce,
            args.no_meta,
            old(rx).pending(),
            since(old(handler).visits(), final(handler).visits()),
            r,
            final(rx).pending(),
        ),
{
    let ghost start = rx.pending();
    let ghost first = handler.visits();
    proof {
        lemma_grown_by_nothing(first);
    }
    if args.run_initially {
        let answer = handler.manual(key);
        let ghost given = Visit::Manual(answer);
        proof {
            lemma_grown_by_one(first, first, given);
            assert(since(first, handler.visits()) =~= seq![given]);
        }
        match next_move(answer) {
            Some(r) => {
                return r;
            },
            None => {
                proof {
                    let so_far = since(first, handler.visits());
                    assert forall|excluded: spec_fn(Seq<char>) -> bool, more: Seq<Visit>|
                        decides(filter, excluded) implies #[trigger] looped(
                        args.debounce,
                        args.no_meta,
                        rx.pending(),
                        excluded,
                        more,
                    ) == watched(
                        args.run_initially,
                        args.debounce,
                        args.no_meta,
                        start,
                        excluded,
                        so_far + more,
                    ) by {
                        assert((so_far + more).skip(1) =~= more);
                        assert((so_far + more)[0] == given);
                    }
                }
            },
        }
    } else {
        proof {
            let so_far = since(first, handler.visits());
            assert forall|excluded: spec_fn(Seq<char>) -> bool, more: Seq<Visit>|
                decides(filter, excluded) implies #[trigger] looped(
                args.debounce,
                args.no_meta,
                rx.pending(),
                excluded,
                more,
            ) == watched(
                args.run_initially,
                args.debounce,
                args.no_meta,
                start,
                excluded,
                so_far + more,
            ) by {
                assert(so_far + more =~= more);
            }
        }
    }
    loop
        invariant
            total(filter),
            start == old(rx).pending(),
            first == old(handler).visits(),
            handler.sound(key@),
            rx.pending().len() <= start.len(),
            extends(first, handler.visits()),
            forall|excluded: spec_fn(Seq<char>) -> bool, more: Seq<Visit>|
                decides(filter, excluded) ==> #[trigger] looped(
                    args.debounce,
                    args.no_meta,
                    rx.pending(),
                    excluded,
                    more,
                ) == watched(
                    args.run_initially,
                    args.debounce,
                    args.no_meta,
                    start,
                    excluded,
                    since(first, handler.visits()) + more,
                ),
        decreases rx.pending().len(),
    {
        let ghost before = rx.pending();
        let ghost so_far = since(first, handler.visits());
        let paths = match wait_fs(rx, filter, args.debounce, args.no_meta) {
            Ok(paths) => paths,
            Err(e) => {
                proof {
                    assert(rx.pending() =~= Seq::<ArrivalView>::empty());
                    assert forall|excluded: spec_fn(Seq<char>) -> bool| #[trigger]
                        decides(filter, excluded) implies watched(
                        args.run_initially,
                        args.debounce,
                        args.no_meta,
                        start,
                        excluded,
                        so_far,
                    ) == Some((Err::<(), Error>(e), rx.pending())) by {
                        let more = Seq::<Visit>::empty();
                        assert(so_far + more =~= so_far);
                        assert(looped(args.debounce, args.no_meta, before, excluded, more) == Some(
                            (Err::<(), Error>(Error::BackendReceive), Seq::<ArrivalView>::empty()),
                        ));
                    }
                }
                return Err(e);
            },
        };
        let ghost seen = handler.visits();
        let answer = handler.update(paths.as_slice(), key);
        let ghost given = Visit::Update(views(paths@), answer);
        proof {
            lemma_grown_by_one(first, seen, given);
        }
        match next_move(answer) {
            Some(r) => {
                proof {
                    let last = seq![given];
                    assert(since(first, handler.visits()) =~= so_far + last);
                    assert forall|excluded: spec_fn(Seq<char>) -> bool| #[trigger]
                        decides(filter, excluded) implies watched(
                        args.run_initially,
                        args.debounce,
                        args.no_meta,
                        start,
                        excluded,
                        so_far + last,
                    ) == Some((r, rx.pending())) by {
                        assert(looped(args.debounce, args.no_meta, before, excluded, last) == Some(
                            (r, rx.pending()),
                        ));
                    }
                }
                return r;
            },
            None => {
                proof {
                    let last = seq![given];
                    let longer = since(first, handler.visits());
                    assert(longer =~= so_far + last);
                    assert forall|excluded: spec_fn(Seq<char>) -> bool, more: Seq<Visit>|
                        decides(filter, excluded) implies #[trigger] looped(
                        args.debounce,
                        args.no_meta,
                        rx.pending(),
                        excluded,
                        more,
                    ) == watched(
                        args.run_initially,
                        args.debounce,
                        args.no_meta,
                        start,
                        excluded,
                        longer + more,
                    ) by {
                        assert((last + more).skip(1) =~= more);
                        assert((last + more)[0] == given);
                        assert(looped(
                            args.debounce,
                            args.no_meta,
                            before,
                            excluded,
                            last + more,
                        ) == looped(args.debounce, args.no_meta, rx.pending(), excluded, more));
                        assert(so_far + (last + more) =~= longer + more);
                    }
                }
            },
        }
    }
}

/// Watches a recorded stream with the settings `args`: runs the handler
/// once at the start if asked to, then hands it batch after batch of
/// changes until it asks to stop or fails, or the stream closes.
///
/// Nothing is known of what the handler answers; what it is called with,
/// the result and what is left of the stream are what `watched` says of
/// the stream and of the answers.
pub fn watch_with<H: Handler, F: Fn(&str) -> bool>(
    handler: &mut Recorded<H>,
    args: &Config,
    rx: &mut Inbox,
    filter: &F,
) -> (r: Result<(), Error>)
    requires
        total(filter),
    ensures
        final(rx).pending().len() <= old(rx).pending().len(),
        extends(old(handler).visits(), final(handler).visits()),
        is_watch_of(
            filter,
            args.run_initially,
            args.debounce,
            args.no_meta,
            old(rx).pending(),
            since(old(handler).visits(), final(handler).visits()),
            r,
            final(rx).pending(),
        ),
{
    watch_loop(handler, args, rx, filter, Ghost(()))
}

/// Starts watching, and calls a handler when something happens.
///
/// Asks the handler for its settings, once, and watches the stream with
/// them until the handler asks to stop or fails, or the stream closes.
pub fn watch<H: Handler, F: Fn(&str) -> bool>(
    handler: &mut Recorded<H>,
    rx: &mut Inbox,
    filter: &F,
) -> (r: Result<(), Error>)
    requires
        total(filter),
    ensures
        final(rx).pending().len() <= old(rx).pending().len(),
        extends(old(handler).visits(), final(handler).visits()),
        since(old(handler).visits(), final(handler).visits()).len() > 0,
        since(old(handler).visits(), final(handler).visits())[0] matches Visit::Args(args)
            && is_watch_of(
            filter,
            args.run_initially,
            args.debounce,
            args.no_meta,
            old(rx).pending(),
            since(old(handler).visits(), final(handler).visits()).skip(1),
            r,
            final(rx).pending(),
        ),
{
    let ghost first = handler.visits();
    let args = handler.args();
    let ghost asked = handler.visits();
    proof {
        lemma_grown_by_nothing(first);
        lemma_grown_by_one(first, first, Visit::Args(args));
    }
    let r = watch_loop(handler, &args, rx, filter, Ghost(()));
    proof {
        lemma_grown_twice(first, asked, handler.visits());
        assert(since(first, asked) =~= seq![Visit::Args(args)]);
        assert(since(first, handler.visits()).skip(1) =~= since(asked, handler.visits()));
    }
    r
}

proof fn lemma_loop_ends_well_when_asked(
    debounce: u64,
    no_meta: bool,
    pending: Seq<ArrivalView>,
    excluded: spec_fn(Seq<char>) -> bool,
    visits: Seq<Visit>,
)
    requires
        looped(debounce, no_meta, pending, excluded, visits) matches Some((r, _)) && r is Ok,
    ensures
        visits.len() > 0,
        visits.last() matches Visit::Update(_, answer) && answer == Ok::<bool, Error>(false),
    decreases pending.len(),
{
    match batch_of(pending, excluded, debounce, no_meta) {
        Outcome::Closed => {},
        Outcome::Batch { paths, rest } => {
            match visits[0] {
                Visit::Update(changes, answer) => {
                    if stops_with(answer) is None {
                        lemma_loop_ends_well_when_asked(
                            debounce,
                            no_meta,
                            rest,
                            excluded,
                            visits.skip(1),
                        );
                        assert(visits.skip(1).last() == visits.last());
                    }
                },
                _ => {},
            }
        },
    }
}

/// Watching ends well only when the handler asks to stop: the last answer
/// is then `Ok(false)`.
pub proof fn watch_ends_well_when_asked(
    run_initially: bool,
    debounce: u64,
    no_meta: bool,
    pending: Seq<ArrivalView>,
    excluded: spec_fn(Seq<char>) -> bool,
    visits: Seq<Visit>,
)
    requires
        watched(run_initially, debounce, no_meta, pending, excluded, visits) matches Some((r, _))
            && r is Ok,
    ensures
        visits.len() > 0,
        match visits.last() {
            Visit::Args(_) => false,
            Visit::Manual(answer) => answer == Ok::<bool, Error>(false),
            Visit::Update(_, answer) => answer == Ok::<bool, Error>(false),
        },
{
    if !run_initially {
        lemma_loop_ends_well_when_asked(debounce, no_meta, pending, excluded, visits);
    } else {
        match visits[0] {
            Visit::Manual(answer) => {
                if stops_with(answer) is None {
                    lemma_loop_ends_well_when_asked(
                        debounce,
                        no_meta,
                        pending,
                        excluded,
                        visits.skip(1),
                    );
                    assert(visits.skip(1).last() == visits.last());
                }
            },
            _ => {},
        }
    }
}

} // verus!
