//! One nest at a time, and the request to stop it.

use vstd::prelude::*;

verus! {

/// Whether a nest is running, and whether it has been asked to stop. Whoever
/// shares it between threads guards it, so that each step below is taken whole.
#[derive(Clone, Copy, PartialEq, Eq, Structural, Debug)]
pub struct NestCancelFlag {
    pub cancel: bool,
    pub running: bool,
}

impl Default for NestCancelFlag {
    fn default() -> (r: Self)
        ensures
            r == (NestCancelFlag { cancel: false, running: false }),
    {
        NestCancelFlag { cancel: false, running: false }
    }
}

impl NestCancelFlag {
    /// Asks the run in flight to stop. There is only ever one, so it need not
    /// be named; with none, this asks nothing of the next.
    pub fn cancel(&mut self)
        ensures
            *final(self) == (NestCancelFlag { cancel: true, ..*old(self) }),
            *final(self) == stepped(*old(self), Step::Cancel).0,
    {
        self.cancel = true;
    }

    /// Claims the one run there may be, with no stop asked of it. Fails, and
    /// changes nothing, while a run is in flight: a stop that is pending for
    /// that run stays pending.
    pub fn begin_run(&mut self) -> (r: Result<(), String>)
        ensures
            match r {
                Ok(_) => !old(self).running && *final(self) == (NestCancelFlag {
                    cancel: false,
                    running: true,
                }),
                Err(message) => old(self).running && *final(self) == *old(self) && message@
                    == "a nest is already running"@,
            },
            *final(self) == stepped(*old(self), Step::Begin).0,
            r is Ok == stepped(*old(self), Step::Begin).1,
    {
        if self.running {
            return Err("a nest is already running".to_owned());
        }
        self.running = true;
        self.cancel = false;
        Ok(())
    }

    /// Gives the run back.
    pub fn end_run(&mut self)
        ensures
            *final(self) == (NestCancelFlag { running: false, ..*old(self) }),
            *final(self) == stepped(*old(self), Step::End).0,
    {
        self.running = false;
    }

    /// Whether the run has been asked to stop.
    pub fn cancel_handle(&self) -> (r: bool)
        ensures
            r == self.cancel,
    {
        self.cancel
    }
}

/// A thing that is done to the flag.
pub enum Step {
    Begin,
    Cancel,
    End,
}

/// The flag after a step, and whether the step was a run that could begin.
pub open spec fn stepped(flag: NestCancelFlag, step: Step) -> (NestCancelFlag, bool) {
    match step {
        Step::Begin => if flag.running {
            (flag, false)
        } else {
            (NestCancelFlag { cancel: false, running: true }, true)
        },
        Step::Cancel => (NestCancelFlag { cancel: true, ..flag }, false),
        Step::End => (NestCancelFlag { running: false, ..flag }, false),
    }
}

/// The flag after some steps.
pub open spec fn after_steps(flag: NestCancelFlag, steps: Seq<Step>) -> NestCancelFlag
    decreases steps.len(),
{
    if steps.len() == 0 {
        flag
    } else {
        stepped(after_steps(flag, steps.drop_last()), steps.last()).0
    }
}

/// However many times a run is begun, cancelled and refused in between, no
/// second run begins before the first one ends.
pub proof fn law_runs_do_not_overlap(flag: NestCancelFlag, steps: Seq<Step>)
    requires
        flag.running,
        forall|i: int| 0 <= i < steps.len() ==> !((#[trigger] steps[i]) is End),
    ensures
        after_steps(flag, steps).running,
        !stepped(after_steps(flag, steps), Step::Begin).1,
    decreases steps.len(),
{
    if steps.len() > 0 {
        let rest = steps.drop_last();
        assert forall|i: int| 0 <= i < rest.len() implies !((#[trigger] rest[i]) is End) by {
            assert(rest[i] == steps[i]);
        }
        law_runs_do_not_overlap(flag, rest);
        assert(!(steps[steps.len() - 1] is End));
    }
}

/// A stop asked of a run in flight stays asked until that run ends, whatever
/// else is tried meanwhile.
pub proof fn law_a_stop_is_not_lost(flag: NestCancelFlag, steps: Seq<Step>)
    requires
        flag.running,
        flag.cancel,
        forall|i: int| 0 <= i < steps.len() ==> !((#[trigger] steps[i]) is End),
    ensures
        after_steps(flag, steps).cancel,
    decreases steps.len(),
{
    if steps.len() > 0 {
        let rest = steps.drop_last();
        assert forall|i: int| 0 <= i < rest.len() implies !((#[trigger] rest[i]) is End) by {
            assert(rest[i] == steps[i]);
        }
        law_a_stop_is_not_lost(flag, rest);
        law_runs_do_not_overlap(flag, rest);
        assert(!(steps[steps.len() - 1] is End));
    }
}

/// A run begins exactly where none is running, and then with no stop asked for; a
/// stop stays asked for until then, and does not itself end the run.
pub proof fn law_one_run_at_a_time(
    begun: &mut NestCancelFlag,
    r: Result<(), String>,
    stopped: &mut NestCancelFlag,
    ended: &mut NestCancelFlag,
    asked: &NestCancelFlag,
    handle: bool,
)
    requires
        call_ensures(NestCancelFlag::begin_run, (begun,), r),
        call_ensures(NestCancelFlag::cancel, (stopped,), ()),
        call_ensures(NestCancelFlag::end_run, (ended,), ()),
        call_ensures(NestCancelFlag::cancel_handle, (asked,), handle),
    ensures
        r is Ok <==> !old(begun).running,
        r is Ok ==> final(begun).running && !final(begun).cancel,
        r is Err ==> *final(begun) == *old(begun),
        final(stopped).cancel,
        final(stopped).running == old(stopped).running,
        !final(ended).running,
        final(ended).cancel == old(ended).cancel,
        handle == asked.cancel,
{
}

} // verus!
