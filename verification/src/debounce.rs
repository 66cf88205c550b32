//! Debouncing of filesystem events.
//!
//! A wait for filesystem activity has two phases. During *acquisition* events
//! are taken one by one until the filter lets one through. During *cool-off*
//! further events are collected until the stream has been quiet for the
//! debounce window. A cache of the path operations seen so far keeps any of
//! them from being reported twice.
//!
//! `Acquisition` and `CoolOff` hold the state of the two phases and take one
//! event at a time, so that a caller can feed them from any source of events.

use crate::batch::{batch_of, burst_is_batch_of};
use crate::error::Error;
use crate::pathop::{views, Event, EventView, PathOp, PathOpView};
use vstd::prelude::*;

verus! {

/// The path operation that an event with a path stands for.
pub open spec fn pathop_of(e: EventView) -> PathOpView {
    PathOpView { path: e.path.unwrap(), op: e.op, cookie: e.cookie }
}

/// The filter can answer "not excluded" for `path`.
pub open spec fn let_through<F: Fn(&str) -> bool>(filter: &F, path: Seq<char>) -> bool {
    exists|s: &str| s@ == path && #[trigger] call_ensures(*filter, (s,), false)
}

/// The filter can answer "excluded" for `path`.
pub open spec fn held_back<F: Fn(&str) -> bool>(filter: &F, path: Seq<char>) -> bool {
    exists|s: &str| s@ == path && #[trigger] call_ensures(*filter, (s,), true)
}

/// The filter may be asked about any path.
pub open spec fn total<F: Fn(&str) -> bool>(filter: &F) -> bool {
    forall|s: &str| #[trigger] call_requires(*filter, (s,))
}

/// The filter computes the predicate `excluded`: whatever it answers for a
/// path is what the predicate says of the path's characters.
pub open spec fn decides<F: Fn(&str) -> bool>(
    filter: &F,
    excluded: spec_fn(Seq<char>) -> bool,
) -> bool {
    forall|s: &str, r: bool| #[trigger] call_ensures(*filter, (s,), r) ==> r == excluded(s@)
}

/// During acquisition with `no_meta`, an event that reports a change of
/// metadata is passed over before anything else is looked at.
pub open spec fn passed_over(no_meta: bool, e: EventView) -> bool {
    no_meta && pathop_of(e).is_meta()
}

/// Whether acquisition asks the filter about an event.
pub open spec fn acquisition_asks(no_meta: bool, e: EventView) -> bool {
    e.path is Some && !passed_over(no_meta, e)
}

/// Whether cool-off asks the filter about an event: only about a path
/// operation that is not in the cache yet.
pub open spec fn cool_off_asks(cache: Seq<PathOpView>, e: EventView) -> bool {
    e.path is Some && !cache.contains(pathop_of(e))
}

/// The cache once `p` has been seen.
pub open spec fn remember(cache: Seq<PathOpView>, p: PathOpView) -> Seq<PathOpView> {
    if cache.contains(p) {
        cache
    } else {
        cache.push(p)
    }
}

fn cached(cache: &Vec<PathOp>, p: &PathOp) -> (r: bool)
    ensures
        r == views(cache@).contains(p@),
{
    let mut i: usize = 0;
    while i < cache.len()
        invariant
            i <= cache.len(),
            forall|j: int| 0 <= j < i ==> views(cache@)[j] != p@,
        decreases cache.len() - i,
    {
        if cache[i].same(p) {
            assert(views(cache@)[i as int] == p@);
            return true;
        }
        i += 1;
    }
    false
}

/// The first phase of a wait: nothing has been let through yet.
pub struct Acquisition<'a, F: Fn(&str) -> bool> {
    filter: &'a F,
    debounce: u64,
    no_meta: bool,
    cache: Vec<PathOp>,
}

/// The second phase of a wait: at least one path operation has been let
/// through, and more are collected until the stream falls quiet.
pub struct CoolOff<'a, F: Fn(&str) -> bool> {
    filter: &'a F,
    debounce: u64,
    no_meta: bool,
    cache: Vec<PathOp>,
    paths: Vec<PathOp>,
}

/// Where a wait stands after an event taken during acquisition.
pub enum Phase<'a, F: Fn(&str) -> bool> {
    Acquiring(Acquisition<'a, F>),
    Cooling(CoolOff<'a, F>),
}

impl<'a, F: Fn(&str) -> bool> Acquisition<'a, F> {
    #[verifier::type_invariant]
    spec fn inv(self) -> bool {
        total(self.filter)
    }

    pub closed spec fn filter(self) -> &'a F {
        self.filter
    }

    pub closed spec fn debounce(self) -> u64 {
        self.debounce
    }

    pub closed spec fn no_meta(self) -> bool {
        self.no_meta
    }

    /// The path operations seen so far, in the order in which they were
    /// first seen.
    pub closed spec fn cache(self) -> Seq<PathOpView> {
        views(self.cache@)
    }

    /// Starts a wait with an empty cache.
    pub fn new(filter: &'a F, debounce: u64, no_meta: bool) -> (r: Self)
        requires
            total(filter),
        ensures
            r.filter() == filter,
            r.debounce() == debounce,
            r.no_meta() == no_meta,
            r.cache() == Seq::<PathOpView>::empty(),
    {
        let r = Acquisition { filter, debounce, no_meta, cache: Vec::new() };
        assert(views(r.cache@) =~= Seq::<PathOpView>::empty());
        r
    }

    /// Takes one event. An event without a path is dropped, and so is a
    /// change of metadata where those are not wanted. Of any other the filter
    /// is asked and the path operation is remembered; the first that the
    /// filter lets through opens the cool-off.
    pub fn on_event(self, event: &Event) -> (r: Phase<'a, F>)
        ensures
            match r {
                Phase::Acquiring(a) => {
                    &&& a.filter() == self.filter()
                    &&& a.debounce() == self.debounce()
                    &&& a.no_meta() == self.no_meta()
                    &&& if acquisition_asks(self.no_meta(), event@) {
                        &&& held_back(self.filter(), pathop_of(event@).path)
                        &&& a.cache() == remember(self.cache(), pathop_of(event@))
                    } else {
                        a.cache() == self.cache()
                    }
                },
                Phase::Cooling(c) => {
                    &&& c.filter() == self.filter()
                    &&& c.debounce() == self.debounce()
                    &&& c.no_meta() == self.no_meta()
                    &&& acquisition_asks(self.no_meta(), event@)
                    &&& let_through(self.filter(), pathop_of(event@).path)
                    &&& c.cache() == remember(self.cache(), pathop_of(event@))
                    &&& c.paths() == seq![pathop_of(event@)]
                },
            },
    {
        proof {
            use_type_invariant(&self);
        }
        let path = match &event.path {
            Some(path) => path,
            None => {
                return Phase::Acquiring(self);
            },
        };
        let op = match &event.op {
            Ok(op) => Some(*op),
            Err(_) => None,
        };
        let pathop = PathOp::new(path.as_str(), op, event.cookie);
        assert(pathop@ == pathop_of(event@));
        if let Some(op) = pathop.op {
            if self.no_meta && PathOp::is_meta(op) {
                return Phase::Acquiring(self);
            }
        }
        let Acquisition { filter, debounce, no_meta, mut cache } = self;
        let excluded = filter(path.as_str());
        let ghost before = views(cache@);
        if !cached(&cache, &pathop) {
            cache.push(pathop.clone());
            assert(views(cache@) =~= before.push(pathop@));
        }
        if excluded {
            Phase::Acquiring(Acquisition { filter, debounce, no_meta, cache })
        } else {
            let ghost first = pathop@;
            let mut paths = Vec::new();
            paths.push(pathop);
            assert(views(paths@) =~= seq![first]);
            assert(views(cache@).contains(first)) by {
                if before.contains(first) {
                } else {
                    assert(views(cache@)[before.len() as int] == first);
                }
            }
            Phase::Cooling(CoolOff { filter, debounce, no_meta, cache, paths })
        }
    }
}

impl<'a, F: Fn(&str) -> bool> CoolOff<'a, F> {
    #[verifier::type_invariant]
    spec fn inv(self) -> bool {
        &&& total(self.filter)
        &&& self.paths@.len() > 0
        &&& views(self.paths@).no_duplicates()
        &&& forall|i: int|
            0 <= i < self.paths@.len() ==> views(self.cache@).contains(
                #[trigger] views(self.paths@)[i],
            )
        &&& forall|i: int|
            0 <= i < self.paths@.len() ==> let_through(
                self.filter,
                (#[trigger] views(self.paths@)[i]).path,
            )
        &&& self.no_meta ==> !views(self.paths@)[0].is_meta()
    }

    pub closed spec fn filter(self) -> &'a F {
        self.filter
    }

    pub closed spec fn debounce(self) -> u64 {
        self.debounce
    }

    pub closed spec fn no_meta(self) -> bool {
        self.no_meta
    }

    /// The path operations seen so far, in the order in which they were
    /// first seen.
    pub closed spec fn cache(self) -> Seq<PathOpView> {
        views(self.cache@)
    }

    /// The path operations let through so far, in the order of arrival.
    pub closed spec fn paths(self) -> Seq<PathOpView> {
        views(self.paths@)
    }

    /// How long to wait for the next event, in milliseconds; `None` where the
    /// window is empty and the wait is over at once.
    pub fn window(&self) -> (r: Option<u64>)
        ensures
            r == if self.debounce() == 0 {
                None
            } else {
                Some(self.debounce())
            },
    {
        if self.debounce == 0 {
            None
        } else {
            Some(self.debounce)
        }
    }

    /// Takes one event. An event without a path, or one whose path operation
    /// is in the cache, changes nothing. Any other is remembered, and
    /// reported if the filter lets it through.
    pub fn on_event(self, event: &Event) -> (r: Self)
        ensures
            r.filter() == self.filter(),
            r.debounce() == self.debounce(),
            r.no_meta() == self.no_meta(),
            if cool_off_asks(self.cache(), event@) {
                &&& r.cache() == self.cache().push(pathop_of(event@))
                &&& {
                    ||| {
                        &&& let_through(self.filter(), pathop_of(event@).path)
                        &&& r.paths() == self.paths().push(pathop_of(event@))
                    }
                    ||| {
                        &&& held_back(self.filter(), pathop_of(event@).path)
                        &&& r.paths() == self.paths()
                    }
                }
            } else {
                &&& r.cache() == self.cache()
                &&& r.paths() == self.paths()
            },
    {
        proof {
            use_type_invariant(&self);
        }
        let path = match &event.path {
            Some(path) => path,
            None => {
                return self;
            },
        };
        let op = match &event.op {
            Ok(op) => Some(*op),
            Err(_) => None,
        };
        let pathop = PathOp::new(path.as_str(), op, event.cookie);
        assert(pathop@ == pathop_of(event@));
        if cached(&self.cache, &pathop) {
            return self;
        }
        let CoolOff { filter, debounce, no_meta, mut cache, mut paths } = self;
        let excluded = filter(path.as_str());
        let ghost cache_before = views(cache@);
        let ghost paths_before = views(paths@);
        let ghost p = pathop@;
        cache.push(pathop.clone());
        assert(views(cache@) =~= cache_before.push(p));
        assert forall|i: int| 0 <= i < paths_before.len() implies views(cache@).contains(
            #[trigger] paths_before[i],
        ) by {
            let k = choose|k: int| 0 <= k < cache_before.len() && cache_before[k] == paths_before[i];
            assert(views(cache@)[k] == paths_before[i]);
        }
        if !excluded {
            paths.push(pathop);
            assert(views(paths@) =~= paths_before.push(p));
            assert(views(cache@)[cache_before.len() as int] == p);
            assert(views(paths@).no_duplicates()) by {
                assert forall|i: int, j: int|
                    0 <= i < views(paths@).len() && 0 <= j < views(paths@).len() && i
                        != j implies views(paths@)[i] != views(paths@)[j] by {
                    if i < paths_before.len() && j < paths_before.len() {
                    } else if i < paths_before.len() {
                        assert(cache_before.contains(paths_before[i]));
                    } else {
                        assert(cache_before.contains(paths_before[j]));
                    }
                }
            }
        }
        CoolOff { filter, debounce, no_meta, cache, paths }
    }

    /// Ends the wait and hands out what was collected: at least one path
    /// operation, none of them twice, each let through by the filter, in the
    /// order of arrival.
    pub fn finish(self) -> (r: Vec<PathOp>)
        ensures
            views(r@) == self.paths(),
            r@.len() > 0,
            views(r@).no_duplicates(),
            forall|i: int|
                0 <= i < r@.len() ==> let_through(self.filter(), (#[trigger] views(r@)[i]).path),
            self.no_meta() ==> !views(r@)[0].is_meta(),
    {
        proof {
            use_type_invariant(&self);
        }
        self.paths
    }
}

/// An event together with the time, in milliseconds, for which the stream was
/// quiet before it came.
#[derive(Debug, PartialEq, Eq, Hash)]
pub struct Arrival {
    pub after: u64,
    pub event: Event,
}

pub struct ArrivalView {
    pub after: u64,
    pub event: EventView,
}

impl View for Arrival {
    type V = ArrivalView;

    open spec fn view(&self) -> ArrivalView {
        ArrivalView { after: self.after, event: self.event@ }
    }
}

/// A recorded stream of events: what arrives, in order, until the sending
/// side hangs up.
pub struct Inbox {
    arrivals: Vec<Arrival>,
    taken: usize,
}

impl Inbox {
    /// What has not been received yet.
    pub closed spec fn pending(&self) -> Seq<ArrivalView> {
        if self.taken <= self.arrivals@.len() {
            self.arrivals@.map_values(|a: Arrival| a@).skip(self.taken as int)
        } else {
            Seq::empty()
        }
    }

    pub fn new(arrivals: Vec<Arrival>) -> (r: Inbox)
        ensures
            r.pending() == arrivals@.map_values(|a: Arrival| a@),
    {
        let r = Inbox { arrivals, taken: 0 };
        assert(r.pending() =~= r.arrivals@.map_values(|a: Arrival| a@));
        r
    }

    /// How many events have not been received yet.
    pub fn len(&self) -> (r: usize)
        ensures
            r == self.pending().len(),
    {
        if self.taken <= self.arrivals.len() {
            self.arrivals.len() - self.taken
        } else {
            0
        }
    }

    /// Receives the next event, however long the stream is quiet before it;
    /// `None` once the sending side has hung up.
    pub fn recv(&mut self) -> (r: Option<Event>)
        ensures
            match r {
                Some(e) => {
                    &&& old(self).pending().len() > 0
                    &&& e@ == old(self).pending()[0].event
                    &&& final(self).pending() == old(self).pending().skip(1)
                },
                None => {
                    &&& old(self).pending().len() == 0
                    &&& final(self).pending() == old(self).pending()
                },
            },
    {
        if self.taken < self.arrivals.len() {
            let event = self.arrivals[self.taken].event.clone();
            self.taken += 1;
            assert(self.pending() =~= old(self).pending().skip(1));
            Some(event)
        } else {
            None
        }
    }

    /// Receives the next event if the stream is quiet before it for less
    /// than `timeout` milliseconds; otherwise `None`, and nothing is taken.
    pub fn recv_timeout(&mut self, timeout: u64) -> (r: Option<Event>)
        ensures
            match r {
                Some(e) => {
                    &&& old(self).pending().len() > 0
                    &&& old(self).pending()[0].after < timeout
                    &&& e@ == old(self).pending()[0].event
                    &&& final(self).pending() == old(self).pending().skip(1)
                },
                None => {
                    &&& old(self).pending().len() == 0 || old(self).pending()[0].after >= timeout
                    &&& final(self).pending() == old(self).pending()
                },
            },
    {
        if self.taken < self.arrivals.len() && self.arrivals[self.taken].after < timeout {
            let event = self.arrivals[self.taken].event.clone();
            self.taken += 1;
            assert(self.pending() =~= old(self).pending().skip(1));
            Some(event)
        } else {
            None
        }
    }
}

/// How a wait on a recorded stream ends.
pub enum Outcome {
    /// The stream closed before the filter let anything through.
    Closed,
    /// The stream fell quiet after `paths` had been collected; `rest` is what
    /// it still holds.
    Batch { paths: Seq<PathOpView>, rest: Seq<ArrivalView> },
}

/// The cool-off on a stream: events are taken as long as each comes within
/// the debounce window of the one before.
pub open spec fn cool_off(
    pending: Seq<ArrivalView>,
    cache: Seq<PathOpView>,
    paths: Seq<PathOpView>,
    excluded: spec_fn(Seq<char>) -> bool,
    debounce: u64,
) -> Outcome
    decreases pending.len(),
{
    if pending.len() == 0 || pending[0].after >= debounce {
        Outcome::Batch { paths, rest: pending }
    } else {
        let e = pending[0].event;
        let p = pathop_of(e);
        if !cool_off_asks(cache, e) {
            cool_off(pending.skip(1), cache, paths, excluded, debounce)
        } else if excluded(p.path) {
            cool_off(pending.skip(1), cache.push(p), paths, excluded, debounce)
        } else {
            cool_off(pending.skip(1), cache.push(p), paths.push(p), excluded, debounce)
        }
    }
}

/// The acquisition on a stream, followed by the cool-off that the first path
/// operation let through opens.
pub open spec fn acquire(
    pending: Seq<ArrivalView>,
    cache: Seq<PathOpView>,
    excluded: spec_fn(Seq<char>) -> bool,
    debounce: u64,
    no_meta: bool,
) -> Outcome
    decreases pending.len(),
{
    if pending.len() == 0 {
        Outcome::Closed
    } else {
        let e = pending[0].event;
        let p = pathop_of(e);
        if !acquisition_asks(no_meta, e) {
            acquire(pending.skip(1), cache, excluded, debounce, no_meta)
        } else if excluded(p.path) {
            acquire(pending.skip(1), remember(cache, p), excluded, debounce, no_meta)
        } else {
            cool_off(pending.skip(1), remember(cache, p), seq![p], excluded, debounce)
        }
    }
}

/// One whole wait on a stream, from an empty cache.
pub open spec fn burst(
    pending: Seq<ArrivalView>,
    excluded: spec_fn(Seq<char>) -> bool,
    debounce: u64,
    no_meta: bool,
) -> Outcome {
    acquire(pending, Seq::empty(), excluded, debounce, no_meta)
}

fn acquire_from<'a, F: Fn(&str) -> bool>(rx: &mut Inbox, start: Acquisition<'a, F>) -> (r: Result<
    CoolOff<'a, F>,
    Error,
>)
    ensures
        match r {
            Ok(c) => {
                &&& c.filter() == start.filter()
                &&& c.debounce() == start.debounce()
                &&& c.no_meta() == start.no_meta()
                &&& final(rx).pending().len() < old(rx).pending().len()
                &&& forall|excluded: spec_fn(Seq<char>) -> bool| #[trigger]
                    decides(start.filter(), excluded) ==> acquire(
                        old(rx).pending(),
                        start.cache(),
                        excluded,
                        start.debounce(),
                        start.no_meta(),
                    ) == cool_off(
                        final(rx).pending(),
                        c.cache(),
                        c.paths(),
                        excluded,
                        start.debounce(),
                    )
            },
            Err(e) => {
                &&& e == Error::BackendReceive
                &&& final(rx).pending().len() == 0
                &&& forall|excluded: spec_fn(Seq<char>) -> bool| #[trigger]
                    decides(start.filter(), excluded) ==> acquire(
                        old(rx).pending(),
                        start.cache(),
                        excluded,
                        start.debounce(),
                        start.no_meta(),
                    ) == Outcome::Closed
            },
        },
{
    let mut acquiring = start;
    loop
        invariant
            acquiring.filter() == start.filter(),
            acquiring.debounce() == start.debounce(),
            acquiring.no_meta() == start.no_meta(),
            rx.pending().len() <= old(rx).pending().len(),
            forall|excluded: spec_fn(Seq<char>) -> bool| #[trigger]
                decides(start.filter(), excluded) ==> acquire(
                    old(rx).pending(),
                    start.cache(),
                    excluded,
                    start.debounce(),
                    start.no_meta(),
                ) == acquire(
                    rx.pending(),
                    acquiring.cache(),
                    excluded,
                    start.debounce(),
                    start.no_meta(),
                ),
        decreases rx.pending().len(),
    {
        let ghost before = rx.pending();
        let ghost cache = acquiring.cache();
        let event = match rx.recv() {
            Some(event) => event,
            None => {
                return Err(Error::BackendReceive);
            },
        };
        match acquiring.on_event(&event) {
            Phase::Acquiring(a) => {
                assert forall|excluded: spec_fn(Seq<char>) -> bool| #[trigger]
                    decides(start.filter(), excluded) implies acquire(
                    before,
                    cache,
                    excluded,
                    start.debounce(),
                    start.no_meta(),
                ) == acquire(
                    rx.pending(),
                    a.cache(),
                    excluded,
                    start.debounce(),
                    start.no_meta(),
                ) by {
                    if acquisition_asks(start.no_meta(), event@) {
                        assert(excluded(pathop_of(event@).path));
                    }
                }
                acquiring = a;
            },
            Phase::Cooling(c) => {
                assert forall|excluded: spec_fn(Seq<char>) -> bool| #[trigger]
                    decides(start.filter(), excluded) implies acquire(
                    before,
                    cache,
                    excluded,
                    start.debounce(),
                    start.no_meta(),
                ) == cool_off(
                    rx.pending(),
                    c.cache(),
                    c.paths(),
                    excluded,
                    start.debounce(),
                ) by {
                    assert(!excluded(pathop_of(event@).path));
                }
                return Ok(c);
            },
        }
    }
}

fn cool_from<'a, F: Fn(&str) -> bool>(rx: &mut Inbox, start: CoolOff<'a, F>) -> (r: Vec<PathOp>)
    ensures
        r@.len() > 0,
        views(r@).no_duplicates(),
        forall|i: int|
            0 <= i < r@.len() ==> let_through(start.filter(), (#[trigger] views(r@)[i]).path),
        start.no_meta() ==> !views(r@)[0].is_meta(),
        final(rx).pending().len() <= old(rx).pending().len(),
        forall|excluded: spec_fn(Seq<char>) -> bool| #[trigger]
            decides(start.filter(), excluded) ==> cool_off(
                old(rx).pending(),
                start.cache(),
                start.paths(),
                excluded,
                start.debounce(),
            ) == (Outcome::Batch { paths: views(r@), rest: final(rx).pending() }),
{
    let mut cooling = start;
    loop
        invariant
            cooling.filter() == start.filter(),
            cooling.debounce() == start.debounce(),
            cooling.no_meta() == start.no_meta(),
            rx.pending().len() <= old(rx).pending().len(),
            forall|excluded: spec_fn(Seq<char>) -> bool| #[trigger]
                decides(start.filter(), excluded) ==> cool_off(
                    old(rx).pending(),
                    start.cache(),
                    start.paths(),
                    excluded,
                    start.debounce(),
                ) == cool_off(
                    rx.pending(),
                    cooling.cache(),
                    cooling.paths(),
                    excluded,
                    start.debounce(),
                ),
        decreases rx.pending().len(),
    {
        let ghost before = rx.pending();
        let ghost cache = cooling.cache();
        let ghost paths = cooling.paths();
        let window = match cooling.window() {
            Some(window) => window,
            None => {
                return cooling.finish();
            },
        };
        let event = match rx.recv_timeout(window) {
            Some(event) => event,
            None => {
                return cooling.finish();
            },
        };
        let next = cooling.on_event(&event);
        assert forall|excluded: spec_fn(Seq<char>) -> bool| #[trigger]
            decides(start.filter(), excluded) implies cool_off(
            before,
            cache,
            paths,
            excluded,
            start.debounce(),
        ) == cool_off(rx.pending(), next.cache(), next.paths(), excluded, start.debounce()) by {
            if cool_off_asks(cache, event@) {
                if let_through(start.filter(), pathop_of(event@).path) {
                    assert(!excluded(pathop_of(event@).path));
                } else {
                    assert(excluded(pathop_of(event@).path));
                }
            }
        }
        cooling = next;
    }
}

/// Waits on a recorded stream for filesystem activity: takes events until the
/// filter lets one through, then until the stream has been quiet for
/// `debounce` milliseconds, and returns the path operations that the filter
/// let through, in the order of arrival.
///
/// The wait fails only where the stream closes before anything was let
/// through. Where the filter computes a predicate, the result is what
/// `batch_of` says of the stream and that predicate.
pub fn wait_fs<F: Fn(&str) -> bool>(rx: &mut Inbox, filter: &F, debounce: u64, no_meta: bool) -> (r:
    Result<Vec<PathOp>, Error>)
    requires
        total(filter),
    ensures
        match r {
            Ok(paths) => {
                &&& paths@.len() > 0
                &&& views(paths@).no_duplicates()
                &&& forall|i: int|
                    0 <= i < paths@.len() ==> let_through(
                        filter,
                        (#[trigger] views(paths@)[i]).path,
                    )
                &&& no_meta ==> !views(paths@)[0].is_meta()
                &&& final(rx).pending().len() < old(rx).pending().len()
                &&& forall|excluded: spec_fn(Seq<char>) -> bool| #[trigger]
                    decides(filter, excluded) ==> batch_of(
                        old(rx).pending(),
                        excluded,
                        debounce,
                        no_meta,
                    ) == (Outcome::Batch { paths: views(paths@), rest: final(rx).pending() })
            },
            Err(e) => {
                &&& e == Error::BackendReceive
                &&& final(rx).pending().len() == 0
                &&& forall|excluded: spec_fn(Seq<char>) -> bool| #[trigger]
                    decides(filter, excluded) ==> batch_of(
                        old(rx).pending(),
                        excluded,
                        debounce,
                        no_meta,
                    ) == Outcome::Closed
            },
        },
{
    proof {
        assert forall|excluded: spec_fn(Seq<char>) -> bool| #[trigger]
            decides(filter, excluded) implies burst(
            rx.pending(),
            excluded,
            debounce,
            no_meta,
        ) == batch_of(rx.pending(), excluded, debounce, no_meta) by {
            burst_is_batch_of(rx.pending(), excluded, debounce, no_meta);
        }
    }
    let acquiring = Acquisition::new(filter, debounce, no_meta);
    match acquire_from(rx, acquiring) {
        Ok(cooling) => Ok(cool_from(rx, cooling)),
        Err(e) => Err(e),
    }
}

} // verus!
