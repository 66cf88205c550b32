//! What follows from the steps that the handler takes, whatever the platform
//! answers.

use crate::child::ChildProcess;
use crate::config::OnBusyUpdate;
use crate::error::Error;
use crate::exec::{
    call_for, dispatch_steps, explains, manual_steps, once_steps, slot_after, spawn_steps,
    update_steps, Settings, Step,
};
use crate::pathop::PathOpView;
use crate::platform::{Call, Entry, Target};
use vstd::prelude::*;

verus! {

/// A list of steps starts the command at most once, and only right after a
/// step that kills the child in the slot.
pub open spec fn replaces_with_care(steps: Seq<Step>) -> bool {
    forall|k: int|
        0 <= k < steps.len() && #[trigger] steps[k] == Step::Launch ==> {
            &&& k > 0
            &&& steps[k - 1] == Step::Kill
            &&& forall|j: int| k < j < steps.len() ==> #[trigger] steps[j] != Step::Launch
        }
}

/// Steps that do not start the command leave the slot as it is, and do not
/// ask the platform to start anything.
pub proof fn lemma_slot_stays(
    steps: Seq<Step>,
    slot: ChildProcess,
    s: Settings,
    changes: Seq<PathOpView>,
    entries: Seq<Entry>,
    end: ChildProcess,
    failure: Option<Error>,
)
    requires
        explains(steps, slot, s, changes, entries, end, failure),
        forall|k: int| 0 <= k < steps.len() ==> #[trigger] steps[k] != Step::Launch,
    ensures
        end == slot,
        forall|i: int| 0 <= i < entries.len() ==> !((#[trigger] entries[i]).call is Launch),
    decreases steps.len(),
{
    if steps.len() > 0 {
        let rest = steps.skip(1);
        assert(steps[0] != Step::Launch);
        assert forall|k: int| 0 <= k < rest.len() implies #[trigger] rest[k] != Step::Launch by {
            assert(rest[k] == steps[k + 1]);
        }
        match call_for(steps[0], slot, s, changes) {
            None => {
                lemma_slot_stays(rest, slot, s, changes, entries, end, failure);
            },
            Some(call) => {
                let stops = entries[0].answer is Failed && steps[0] != Step::Kill;
                if !stops {
                    lemma_slot_stays(rest, slot, s, changes, entries.skip(1), end, failure);
                    assert forall|i: int| 0 <= i < entries.len() implies !((
                    #[trigger] entries[i]).call is Launch) by {
                        if i > 0 {
                            assert(entries[i] == entries.skip(1)[i - 1]);
                        }
                    }
                }
            },
        }
    }
}

/// In the record of steps that replace the child with care, a call that
/// starts the command directly follows the call that kills the child that
/// was in the slot.
pub proof fn lemma_launch_follows_kill(
    steps: Seq<Step>,
    slot: ChildProcess,
    s: Settings,
    changes: Seq<PathOpView>,
    entries: Seq<Entry>,
    end: ChildProcess,
    failure: Option<Error>,
    i: int,
)
    requires
        explains(steps, slot, s, changes, entries, end, failure),
        replaces_with_care(steps),
        slot.target() is Some,
        0 <= i < entries.len(),
        entries[i].call is Launch,
    ensures
        i > 0,
        entries[i - 1].call == Call::Kill(slot.target().unwrap()),
    decreases steps.len(),
{
    let t = slot.target().unwrap();
    if steps.len() > 0 {
        let step = steps[0];
        let rest = steps.skip(1);
        assert(step != Step::Launch);
        if step == Step::Kill && rest.len() > 0 && rest[0] == Step::Launch {
            assert(steps[1] == Step::Launch);
            let after_kill = entries.skip(1);
            assert(explains(rest, slot, s, changes, after_kill, end, failure));
            assert(after_kill[0].call is Launch);
            assert(entries[1] == after_kill[0]);
            if i > 1 {
                let tail = rest.skip(1);
                assert forall|k: int| 0 <= k < tail.len() implies #[trigger] tail[k]
                    != Step::Launch by {
                    assert(tail[k] == steps[k + 2]);
                }
                assert(!(after_kill[0].answer is Failed));
                lemma_slot_stays(
                    tail,
                    slot_after(Step::Launch, slot, s, after_kill[0].answer),
                    s,
                    changes,
                    after_kill.skip(1),
                    end,
                    failure,
                );
                assert(entries[i] == after_kill.skip(1)[i - 2]);
            }
        } else {
            assert(replaces_with_care(rest)) by {
                assert forall|k: int|
                    0 <= k < rest.len() && #[trigger] rest[k] == Step::Launch implies {
                    &&& k > 0
                    &&& rest[k - 1] == Step::Kill
                    &&& forall|j: int| k < j < rest.len() ==> #[trigger] rest[j] != Step::Launch
                } by {
                    assert(steps[k + 1] == Step::Launch);
                    assert(rest[k - 1] == steps[k]);
                    assert forall|j: int| k < j < rest.len() implies #[trigger] rest[j]
                        != Step::Launch by {
                        assert(rest[j] == steps[j + 1]);
                    }
                }
            }
            match call_for(step, slot, s, changes) {
                None => {
                    lemma_launch_follows_kill(rest, slot, s, changes, entries, end, failure, i);
                },
                Some(call) => {
                    assert(!(call is Launch));
                    let stops = entries[0].answer is Failed && step != Step::Kill;
                    if !stops {
                        assert(entries[i] == entries.skip(1)[i - 1]);
                        lemma_launch_follows_kill(
                            rest,
                            slot,
                            s,
                            changes,
                            entries.skip(1),
                            end,
                            failure,
                            i - 1,
                        );
                        assert(entries[i - 1] == entries.skip(1)[i - 2]);
                    }
                },
            }
        }
    }
}

/// The steps that a change calls for replace the child with care.
pub proof fn lemma_update_replaces_with_care(s: Settings, running: bool)
    ensures
        replaces_with_care(update_steps(s, running)),
{
    let steps = update_steps(s, running);
    let first = dispatch_steps(s, running);
    let last = once_steps(s);
    assert forall|k: int| 0 <= k < steps.len() && #[trigger] steps[k] == Step::Launch implies {
        &&& k > 0
        &&& steps[k - 1] == Step::Kill
        &&& forall|j: int| k < j < steps.len() ==> #[trigger] steps[j] != Step::Launch
    } by {
        assert(k < first.len()) by {
            if k >= first.len() {
                assert(steps[k] == last[k - first.len()]);
            }
        }
        assert(steps[k] == first[k]);
        assert(k == first.len() - 1);
        assert(first[k - 1] == Step::Kill);
        assert(steps[k - 1] == first[k - 1]);
        assert forall|j: int| k < j < steps.len() implies #[trigger] steps[j] != Step::Launch by {
            assert(steps[j] == last[j - first.len()]);
        }
    }
}

/// The steps that start the command replace the child with care, and so do
/// the steps of a run asked for by hand.
pub proof fn lemma_spawn_replaces_with_care(s: Settings)
    ensures
        replaces_with_care(spawn_steps(s)),
        replaces_with_care(manual_steps(s)),
{
}

/// A handler has one child at most, and starts a command in its place only
/// right after it has asked for that child to be killed: in the record of
/// handling a change, of a run asked for by hand or of starting the command,
/// the call that starts the command directly follows the call that kills the
/// child that was in the slot.
pub proof fn child_is_killed_before_it_is_replaced(
    steps: Seq<Step>,
    s: Settings,
    slot: ChildProcess,
    changes: Seq<PathOpView>,
    entries: Seq<Entry>,
    end: ChildProcess,
    failure: Option<Error>,
    i: int,
)
    requires
        steps == spawn_steps(s) || steps == manual_steps(s) || exists|running: bool|
            steps == update_steps(s, running),
        explains(steps, slot, s, changes, entries, end, failure),
        slot.target() is Some,
        0 <= i < entries.len(),
        entries[i].call is Launch,
    ensures
        i > 0,
        entries[i - 1].call == Call::Kill(slot.target().unwrap()),
{
    lemma_spawn_replaces_with_care(s);
    lemma_update_replaces_with_care(s, true);
    lemma_update_replaces_with_care(s, false);
    lemma_launch_follows_kill(steps, slot, s, changes, entries, end, failure, i);
}

/// Whether a record shows that the child `t` was waited for, with success,
/// before anything was started.
pub open spec fn awaited(entries: Seq<Entry>, t: Target) -> bool {
    exists|i: int|
        {
            &&& 0 <= i < entries.len()
            &&& (#[trigger] entries[i]).call == Call::Wait(t)
            &&& !(entries[i].answer is Failed)
            &&& forall|j: int| 0 <= j < i ==> !((#[trigger] entries[j]).call is Launch)
        }
}

/// Where the policy is to queue or to restart, a child that was running is
/// waited for, and the wait has succeeded, before anything is started in
/// its place. The one way round it is a failure of the signal or of the
/// wait itself, which ends the handling there and then.
pub proof fn busy_child_is_awaited(
    s: Settings,
    slot: ChildProcess,
    changes: Seq<PathOpView>,
    entries: Seq<Entry>,
    end: ChildProcess,
    failure: Option<Error>,
)
    requires
        s.on_busy_update == OnBusyUpdate::Queue || s.on_busy_update == OnBusyUpdate::Restart,
        slot.target() is Some,
        explains(update_steps(s, true), slot, s, changes, entries, end, failure),
    ensures
        awaited(entries, slot.target().unwrap()) || {
            &&& failure is Some
            &&& 0 < entries.len() <= 2
            &&& entries.last().answer is Failed
            &&& !(entries.last().call is Launch)
            &&& end == slot
        },
        failure is None ==> awaited(entries, slot.target().unwrap()),
{
    reveal_with_fuel(explains, 3);
    let steps = update_steps(s, true);
    let t = slot.target().unwrap();
    if s.on_busy_update == OnBusyUpdate::Queue {
        assert(steps[0] == Step::Wait);
        assert(entries[0].call == Call::Wait(t));
        if entries[0].answer is Failed {
            assert(entries.len() == 1);
        }
    } else {
        assert(steps[0] == Step::Signal(s.busy_signal()));
        assert(steps.skip(1)[0] == Step::Wait);
        match call_for(steps[0], slot, s, changes) {
            None => {
                assert(entries[0].call == Call::Wait(t));
                if entries[0].answer is Failed {
                    assert(entries.len() == 1);
                }
            },
            Some(call) => {
                assert(!(entries[0].call is Launch));
                if entries[0].answer is Failed {
                    assert(entries.len() == 1);
                } else {
                    assert(slot_after(steps[0], slot, s, entries[0].answer) == slot);
                    assert(entries.skip(1)[0].call == Call::Wait(t));
                    assert(entries[1] == entries.skip(1)[0]);
                    if entries[1].answer is Failed {
                        assert(entries.skip(1).len() == 1);
                    }
                }
            },
        }
    }
}

/// Where the policy is to do nothing, a child that was running stays in the
/// slot and nothing is started in its place; unless the handler is to run
/// the command only once, nothing at all is asked of the platform.
pub proof fn busy_child_is_left_alone(
    s: Settings,
    slot: ChildProcess,
    changes: Seq<PathOpView>,
    entries: Seq<Entry>,
    end: ChildProcess,
    failure: Option<Error>,
)
    requires
        s.on_busy_update == OnBusyUpdate::DoNothing,
        explains(update_steps(s, true), slot, s, changes, entries, end, failure),
    ensures
        end == slot,
        forall|i: int| 0 <= i < entries.len() ==> !((#[trigger] entries[i]).call is Launch),
        !s.once ==> entries.len() == 0 && failure is None,
{
    let steps = update_steps(s, true);
    assert(steps =~= once_steps(s));
    lemma_slot_stays(steps, slot, s, changes, entries, end, failure);
}

/// A run that went through and whose last step was to wait has, as the last
/// thing, waited with success for the child that is in the slot at the end.
pub proof fn lemma_ends_with_wait(
    steps: Seq<Step>,
    slot: ChildProcess,
    s: Settings,
    changes: Seq<PathOpView>,
    entries: Seq<Entry>,
    end: ChildProcess,
)
    requires
        steps.len() > 0,
        steps.last() == Step::Wait,
        explains(steps, slot, s, changes, entries, end, None),
    ensures
        end.target() matches Some(t) ==> {
            &&& entries.len() > 0
            &&& entries.last().call == Call::Wait(t)
            &&& !(entries.last().answer is Failed)
        },
    decreases steps.len(),
{
    reveal_with_fuel(explains, 2);
    let rest = steps.skip(1);
    if steps.len() == 1 {
        assert(steps[0] == Step::Wait);
        assert(rest.len() == 0);
    } else {
        assert(rest.last() == steps.last());
        match call_for(steps[0], slot, s, changes) {
            None => {
                lemma_ends_with_wait(rest, slot, s, changes, entries, end);
            },
            Some(call) => {
                let next = slot_after(steps[0], slot, s, entries[0].answer);
                lemma_ends_with_wait(rest, next, s, changes, entries.skip(1), end);
                if end.target() is Some {
                    assert(entries.last() == entries.skip(1).last());
                }
            },
        }
    }
}

/// Where the handler is to run the command only once, a change that was
/// handled without failure ends with a wait for the command: the child that
/// is in the slot at the end has been waited for, with success, as the last
/// thing.
pub proof fn once_ends_after_the_command(
    s: Settings,
    running: bool,
    slot: ChildProcess,
    changes: Seq<PathOpView>,
    entries: Seq<Entry>,
    end: ChildProcess,
)
    requires
        s.once,
        explains(update_steps(s, running), slot, s, changes, entries, end, None),
    ensures
        end.target() matches Some(t) ==> {
            &&& entries.len() > 0
            &&& entries.last().call == Call::Wait(t)
            &&& !(entries.last().answer is Failed)
        },
{
    let steps = update_steps(s, running);
    let last = once_steps(s);
    assert(last.len() > 0 && last.last() == Step::Wait);
    assert(steps.last() == last.last());
    lemma_ends_with_wait(steps, slot, s, changes, entries, end);
}

/// What the platform is asked to start depends on the settings and on the
/// changes alone: with the same of both, the same is asked, whatever is or
/// was in the slot.
pub proof fn launch_is_repeatable(
    s: Settings,
    changes: Seq<PathOpView>,
    first: ChildProcess,
    second: ChildProcess,
)
    ensures
        call_for(Step::Launch, first, s, changes) == call_for(Step::Launch, second, s, changes),
        call_for(Step::Launch, first, s, changes) == Some(
            Call::Launch {
                group: s.use_process_group,
                changes: if s.no_environment {
                    None
                } else {
                    Some(changes)
                },
            },
        ),
{
}

} // verus!
