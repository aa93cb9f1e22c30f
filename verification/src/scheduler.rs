//! The background-task scheduler's registry and timer model.
//!
//! A task is `Stopped` until started and `Running` until stopped or
//! removed.  The registry owns the running tasks, keeps their names unique
//! up to ASCII case, and decides which tasks are due at a clock tick, which
//! task an event wakes, and how a conflict or a removal is resolved.  The
//! concurrent execution units themselves — timers, aborts, network calls —
//! live outside the library and follow these decisions.

use vstd::prelude::*;

use crate::recipes::spec_trigger_filter;
use crate::recipes::trigger_filter_matches;
use crate::text::eq_ignore_ascii_case;
use crate::text::eq_ignore_case;

verus! {

/// Immutable definition of a background task.
#[derive(Clone, Debug)]
pub struct DaemonTaskDef {
    pub name: String,
    pub persona: String,
    pub prompt: String,
    pub interval_secs: u64,
    pub trigger_events: Vec<String>,
    pub trigger_variables: Vec<String>,
    pub tools: Vec<String>,
    pub paused: bool,
}

/// A running task: its definition and the time its next interval run is
/// due, in seconds of a monotonic clock.
#[derive(Clone, Debug)]
pub struct DaemonHandle {
    pub def: DaemonTaskDef,
    pub next_run_at: u64,
}

/// Errors of the scheduler's explicit commands.
#[derive(Clone, Debug, PartialEq, Eq)]
pub enum SchedulerError {
    /// A running task already carries this name, compared without case.
    NameConflict,
    /// No running task carries this name.
    NotRunning,
}

/// What removing a task name comes to.
#[derive(Clone, Debug, PartialEq, Eq)]
pub enum RemoveOutcome {
    /// The name is built in and was running: it is stopped, not deleted.
    StoppedBuiltin,
    /// The name is built in and was not running: removal is rejected.
    RejectedBuiltin,
    /// A recipe-defined task: stopped if it was running; the caller also
    /// deletes its recipe file.
    Removed { was_running: bool },
}

/// The next due time after a run at `now`, saturating at the clock's end.
pub open spec fn spec_next_run(now: u64, interval: u64) -> u64 {
    if now + interval > u64::MAX {
        u64::MAX
    } else {
        (now + interval) as u64
    }
}

/// Whether some handle in `hs` carries `name`, compared without case.
pub open spec fn spec_running(hs: Seq<DaemonHandle>, name: Seq<char>) -> bool {
    exists|i: int| 0 <= i < hs.len() && eq_ignore_case(#[trigger] hs[i].def.name@, name)
}

/// The registry of running background tasks.
pub struct DaemonRegistry {
    pub handles: Vec<DaemonHandle>,
}

impl DaemonRegistry {
    /// Task names are unique up to ASCII case.
    pub open spec fn wf(&self) -> bool {
        forall|i: int, j: int|
            0 <= i < j < self.handles@.len() ==> !eq_ignore_case(
                #[trigger] self.handles@[i].def.name@,
                #[trigger] self.handles@[j].def.name@,
            )
    }

    /// An empty registry.
    pub fn new() -> (r: DaemonRegistry)
        ensures
            r.wf(),
            r.handles@.len() == 0,
    {
        DaemonRegistry { handles: Vec::new() }
    }

    /// Position of the running task with this name, if any.
    pub fn find(&self, name: &str) -> (r: Option<usize>)
        ensures
            match r {
                Some(i) => i < self.handles@.len() && eq_ignore_case(
                    self.handles@[i as int].def.name@,
                    name@,
                ),
                None => !spec_running(self.handles@, name@),
            },
    {
        let mut i: usize = 0;
        while i < self.handles.len()
            invariant
                0 <= i <= self.handles@.len(),
                forall|j: int|
                    0 <= j < i ==> !eq_ignore_case(#[trigger] self.handles@[j].def.name@, name@),
            decreases self.handles@.len() - i,
        {
            if eq_ignore_ascii_case(self.handles[i].def.name.as_str(), name) {
                return Some(i);
            }
            i = i + 1;
        }
        None
    }

    /// Whether a task with this name is running.
    pub fn is_running(&self, name: &str) -> (r: bool)
        ensures
            r == spec_running(self.handles@, name@),
    {
        match self.find(name) {
            Some(_) => true,
            None => false,
        }
    }

    /// Start a task.  A name collision with a running task, compared
    /// without case, is rejected and changes nothing; otherwise the task is
    /// appended with its first interval run due one interval after `now`.
    pub fn start_task(&mut self, def: DaemonTaskDef, now: u64) -> (r: Result<(), SchedulerError>)
        requires
            old(self).wf(),
        ensures
            final(self).wf(),
            match r {
                Ok(()) => {
                    &&& !spec_running(old(self).handles@, def.name@)
                    &&& final(self).handles@.len() == old(self).handles@.len() + 1
                    &&& final(self).handles@.drop_last() == old(self).handles@
                    &&& final(self).handles@.last().def == def
                    &&& final(self).handles@.last().next_run_at == spec_next_run(
                        now,
                        def.interval_secs,
                    )
                },
                Err(SchedulerError::NameConflict) => {
                    &&& spec_running(old(self).handles@, def.name@)
                    &&& final(self).handles@ == old(self).handles@
                },
                Err(SchedulerError::NotRunning) => false,
            },
    {
        if self.is_running(def.name.as_str()) {
            return Err(SchedulerError::NameConflict);
        }
        let next_run_at = if now > u64::MAX - def.interval_secs {
            u64::MAX
        } else {
            now + def.interval_secs
        };
        let ghost hs0 = self.handles@;
        self.handles.push(DaemonHandle { def, next_run_at });
        proof {
            assert(self.handles@.drop_last() =~= hs0);
            assert forall|i: int, j: int|
                0 <= i < j < self.handles@.len() implies !eq_ignore_case(
                #[trigger] self.handles@[i].def.name@,
                #[trigger] self.handles@[j].def.name@,
            ) by {
                if j < hs0.len() {
                } else {
                    assert(self.handles@[j] == self.handles@.last());
                    assert(eq_ignore_case(self.handles@[i].def.name@, self.handles@[j].def.name@)
                        ==> spec_running(hs0, self.handles@.last().def.name@));
                }
            }
        }
        Ok(())
    }

    /// Stop the running task with this name, handing its definition back
    /// so the caller can abort its execution unit; an unknown name is an
    /// error and changes nothing.
    pub fn stop_task(&mut self, name: &str) -> (r: Result<DaemonTaskDef, SchedulerError>)
        requires
            old(self).wf(),
        ensures
            final(self).wf(),
            match r {
                Ok(def) => {
                    &&& spec_running(old(self).handles@, name@)
                    &&& eq_ignore_case(def.name@, name@)
                    &&& final(self).handles@.len() == old(self).handles@.len() - 1
                    &&& !spec_running(final(self).handles@, name@)
                },
                Err(SchedulerError::NotRunning) => {
                    &&& !spec_running(old(self).handles@, name@)
                    &&& final(self).handles@ == old(self).handles@
                },
                Err(SchedulerError::NameConflict) => false,
            },
    {
        let pos = match self.find(name) {
            Some(i) => i,
            None => {
                return Err(SchedulerError::NotRunning);
            },
        };
        let ghost hs0 = self.handles@;
        let handle = self.handles.remove(pos);
        proof {
            assert forall|i: int, j: int|
                0 <= i < j < self.handles@.len() implies !eq_ignore_case(
                #[trigger] self.handles@[i].def.name@,
                #[trigger] self.handles@[j].def.name@,
            ) by {
                let i0 = if i < pos {
                    i
                } else {
                    i + 1
                };
                let j0 = if j < pos {
                    j
                } else {
                    j + 1
                };
                assert(self.handles@[i] == hs0[i0]);
                assert(self.handles@[j] == hs0[j0]);
            }
            assert forall|i: int|
                0 <= i < self.handles@.len() implies !eq_ignore_case(
                #[trigger] self.handles@[i].def.name@,
                name@,
            ) by {
                let i0 = if i < pos {
                    i
                } else {
                    i + 1
                };
                assert(self.handles@[i] == hs0[i0]);
                if i0 < pos {
                    assert(!eq_ignore_case(hs0[i0].def.name@, hs0[pos as int].def.name@));
                } else {
                    assert(!eq_ignore_case(hs0[pos as int].def.name@, hs0[i0].def.name@));
                }
                lemma_eq_ignore_case_trans(hs0[i0].def.name@, hs0[pos as int].def.name@, name@);
            }
        }
        Ok(handle.def)
    }

    /// Resolve removing a task name: a built-in task can only be stopped,
    /// never deleted; any other name is stopped if running and reported
    /// removed.
    pub fn remove_task(&mut self, name: &str, is_builtin: bool) -> (r: RemoveOutcome)
        requires
            old(self).wf(),
        ensures
            final(self).wf(),
            !spec_running(final(self).handles@, name@),
            match r {
                RemoveOutcome::StoppedBuiltin => is_builtin && spec_running(
                    old(self).handles@,
                    name@,
                ),
                RemoveOutcome::RejectedBuiltin => is_builtin && !spec_running(
                    old(self).handles@,
                    name@,
                ),
                RemoveOutcome::Removed { was_running } => !is_builtin && was_running
                    == spec_running(old(self).handles@, name@),
            },
    {
        let stopped = match self.stop_task(name) {
            Ok(_) => true,
            Err(_) => false,
        };
        if is_builtin {
            if stopped {
                RemoveOutcome::StoppedBuiltin
            } else {
                RemoveOutcome::RejectedBuiltin
            }
        } else {
            RemoveOutcome::Removed { was_running: stopped }
        }
    }

    /// Wake the running task with this name: its next run becomes due at
    /// `now`.  Reports whether a task was woken.
    pub fn wake(&mut self, name: &str, now: u64) -> (r: bool)
        requires
            old(self).wf(),
        ensures
            final(self).wf(),
            r == spec_running(old(self).handles@, name@),
            final(self).handles@.len() == old(self).handles@.len(),
            forall|i: int|
                0 <= i < final(self).handles@.len() ==> (#[trigger] final(self).handles@[i]).def
                    == old(self).handles@[i].def,
            r ==> exists|i: int|
                0 <= i < final(self).handles@.len() && eq_ignore_case(
                    (#[trigger] final(self).handles@[i]).def.name@,
                    name@,
                ) && final(self).handles@[i].next_run_at == now,
            !r ==> final(self).handles@ == old(self).handles@,
    {
        let pos = match self.find(name) {
            Some(i) => i,
            None => {
                return false;
            },
        };
        let ghost hs0 = self.handles@;
        let h = handle_mut(&mut self.handles, pos);
        h.next_run_at = now;
        proof {
            assert(self.handles@[pos as int].def == hs0[pos as int].def);
            assert(self.handles@[pos as int].next_run_at == now);
            assert(eq_ignore_case(self.handles@[pos as int].def.name@, name@));
            assert forall|i: int, j: int|
                0 <= i < j < self.handles@.len() implies !eq_ignore_case(
                #[trigger] self.handles@[i].def.name@,
                #[trigger] self.handles@[j].def.name@,
            ) by {
                assert(self.handles@[i].def.name@ == hs0[i].def.name@);
                assert(self.handles@[j].def.name@ == hs0[j].def.name@);
            }
        }
        true
    }

    /// The names of the tasks due at `now`: every unpaused task whose next
    /// run time has arrived, in registry order, each advanced by its own
    /// interval.
    pub fn tick(&mut self, now: u64) -> (r: Vec<String>)
        requires
            old(self).wf(),
        ensures
            final(self).wf(),
            final(self).handles@.len() == old(self).handles@.len(),
            forall|i: int|
                0 <= i < final(self).handles@.len() ==> (#[trigger] final(self).handles@[i]).def
                    == old(self).handles@[i].def,
            forall|i: int|
                0 <= i < old(self).handles@.len() ==> (#[trigger] final(self).handles@[i]).next_run_at
                    == (if spec_due(old(self).handles@[i], now) {
                    spec_next_run(now, old(self).handles@[i].def.interval_secs)
                } else {
                    old(self).handles@[i].next_run_at
                }),
            r@.map_values(|n: String| n@) == spec_due_names(old(self).handles@, now),
    {
        let mut due: Vec<String> = Vec::new();
        let mut i: usize = 0;
        let ghost hs0 = self.handles@;
        proof {
            assert(spec_due_names(hs0.subrange(0, 0), now) =~= Seq::<Seq<char>>::empty());
            assert(due@.map_values(|n: String| n@) =~= Seq::<Seq<char>>::empty());
        }
        while i < self.handles.len()
            invariant
                hs0.len() == self.handles@.len(),
                0 <= i <= self.handles@.len(),
                forall|j: int|
                    0 <= j < self.handles@.len() ==> (#[trigger] self.handles@[j]).def
                        == hs0[j].def,
                forall|j: int| i <= j < self.handles@.len() ==> #[trigger] self.handles@[j]
                    == hs0[j],
                forall|j: int|
                    0 <= j < i ==> (#[trigger] self.handles@[j]).next_run_at == (if spec_due(
                        hs0[j],
                        now,
                    ) {
                        spec_next_run(now, hs0[j].def.interval_secs)
                    } else {
                        hs0[j].next_run_at
                    }),
                due@.map_values(|n: String| n@) == spec_due_names(hs0.subrange(0, i as int), now),
            decreases self.handles@.len() - i,
        {
            proof {
                assert(spec_due_names(hs0.subrange(0, i + 1), now) == (if spec_due(hs0[i as int],
                    now,
                ) {
                    spec_due_names(hs0.subrange(0, i as int), now).push(hs0[i as int].def.name@)
                } else {
                    spec_due_names(hs0.subrange(0, i as int), now)
                })) by {
                    let sub1 = hs0.subrange(0, i + 1);
                    assert(sub1.drop_last() =~= hs0.subrange(0, i as int));
                    assert(sub1.last() == hs0[i as int]);
                }
            }
            let is_due = !self.handles[i].def.paused && self.handles[i].next_run_at <= now;
            if is_due {
                due.push(self.handles[i].def.name.clone());
                proof {
                    assert(due@.map_values(|n: String| n@) =~= due@.drop_last().map_values(
                        |n: String| n@,
                    ).push(due@.last()@));
                }
                let interval = self.handles[i].def.interval_secs;
                let next = if now > u64::MAX - interval {
                    u64::MAX
                } else {
                    now + interval
                };
                let h = handle_mut(&mut self.handles, i);
                h.next_run_at = next;
            }
            i = i + 1;
        }
        proof {
            assert(hs0.subrange(0, hs0.len() as int) =~= hs0);
            assert forall|i2: int, j2: int|
                0 <= i2 < j2 < self.handles@.len() implies !eq_ignore_case(
                #[trigger] self.handles@[i2].def.name@,
                #[trigger] self.handles@[j2].def.name@,
            ) by {
                assert(self.handles@[i2].def == hs0[i2].def);
                assert(self.handles@[j2].def == hs0[j2].def);
            }
        }
        due
    }

    /// The names of the running tasks an event fires, by their trigger
    /// filters, in registry order.
    pub fn tasks_triggered(&self, event_type: &str, variable_name: Option<&str>) -> (r: Vec<
        String,
    >)
        ensures
            r@.map_values(|n: String| n@) == spec_triggered_names(
                self.handles@,
                event_type@,
                match variable_name {
                    Some(v) => Some(v@),
                    None => None,
                },
            ),
    {
        let ghost vn = match variable_name {
            Some(v) => Some(v@),
            None => None,
        };
        let mut out: Vec<String> = Vec::new();
        let mut i: usize = 0;
        proof {
            assert(spec_triggered_names(self.handles@.subrange(0, 0), event_type@, vn) =~= Seq::<
                Seq<char>,
            >::empty());
            assert(out@.map_values(|n: String| n@) =~= Seq::<Seq<char>>::empty());
        }
        while i < self.handles.len()
            invariant
                vn == (match variable_name {
                    Some(v) => Some(v@),
                    None => None,
                }),
                0 <= i <= self.handles@.len(),
                out@.map_values(|n: String| n@) == spec_triggered_names(
                    self.handles@.subrange(0, i as int),
                    event_type@,
                    vn,
                ),
            decreases self.handles@.len() - i,
        {
            proof {
                let sub1 = self.handles@.subrange(0, i + 1);
                assert(sub1.drop_last() =~= self.handles@.subrange(0, i as int));
                assert(sub1.last() == self.handles@[i as int]);
            }
            if trigger_filter_matches(
                &self.handles[i].def.trigger_events,
                &self.handles[i].def.trigger_variables,
                event_type,
                variable_name,
            ) {
                out.push(self.handles[i].def.name.clone());
                proof {
                    assert(out@.map_values(|n: String| n@) =~= out@.drop_last().map_values(
                        |n: String| n@,
                    ).push(out@.last()@));
                }
            }
            i = i + 1;
        }
        proof {
            assert(self.handles@.subrange(0, self.handles@.len() as int) =~= self.handles@);
        }
        out
    }
}

/// Whether a handle is due at `now`: not paused, and its next run time has
/// arrived.
pub open spec fn spec_due(h: DaemonHandle, now: u64) -> bool {
    !h.def.paused && h.next_run_at <= now
}

/// The names of the due handles, in order.
pub open spec fn spec_due_names(hs: Seq<DaemonHandle>, now: u64) -> Seq<Seq<char>>
    decreases hs.len(),
{
    if hs.len() == 0 {
        Seq::empty()
    } else if spec_due(hs.last(), now) {
        spec_due_names(hs.drop_last(), now).push(hs.last().def.name@)
    } else {
        spec_due_names(hs.drop_last(), now)
    }
}

/// The names of the handles whose trigger filter fires, in order.
pub open spec fn spec_triggered_names(
    hs: Seq<DaemonHandle>,
    event_type: Seq<char>,
    variable_name: Option<Seq<char>>,
) -> Seq<Seq<char>>
    decreases hs.len(),
{
    if hs.len() == 0 {
        Seq::empty()
    } else if spec_trigger_filter(
        hs.last().def.trigger_events@.map_values(|p: String| p@),
        hs.last().def.trigger_variables@.map_values(|p: String| p@),
        event_type,
        variable_name,
    ) {
        spec_triggered_names(hs.drop_last(), event_type, variable_name).push(hs.last().def.name@)
    } else {
        spec_triggered_names(hs.drop_last(), event_type, variable_name)
    }
}

/// Mutable access to one handle of the registry.
fn handle_mut(v: &mut Vec<DaemonHandle>, i: usize) -> (element: &mut DaemonHandle)
    requires
        i < old(v)@.len(),
    ensures
        *element == old(v)@[i as int],
        final(v)@ == old(v)@.update(i as int, *final(element)),
{
    &mut v[i]
}

/// How many task definitions are compiled in.
pub const BUILTIN_TASK_COUNT: usize = 2;

/// Whether `name` names a built-in task: the periodic briefing or the
/// daily digest, compared without case.
pub open spec fn spec_is_builtin_name(name: Seq<char>) -> bool {
    eq_ignore_case(name, "briefing"@) || eq_ignore_case(name, "digest"@)
}

/// Decide whether a name belongs to a built-in task.
pub fn is_builtin_name(name: &str) -> (r: bool)
    ensures
        r == spec_is_builtin_name(name@),
{
    eq_ignore_ascii_case(name, "briefing") || eq_ignore_ascii_case(name, "digest")
}

/// The compiled-in task definitions: a briefing task running hourly and a
/// digest task running daily, both paused until started, with the persona
/// and prompt text the caller loaded for each.
pub fn builtin_tasks(
    briefing_persona: &str,
    briefing_prompt: &str,
    digest_persona: &str,
    digest_prompt: &str,
) -> (r: Vec<DaemonTaskDef>)
    ensures
        r@.len() == BUILTIN_TASK_COUNT,
        r@[0].name@ == "briefing"@,
        r@[0].persona@ == briefing_persona@,
        r@[0].prompt@ == briefing_prompt@,
        r@[0].interval_secs == 3600,
        r@[0].trigger_events@.len() == 0,
        r@[0].trigger_variables@.len() == 0,
        r@[0].paused == true,
        r@[1].name@ == "digest"@,
        r@[1].persona@ == digest_persona@,
        r@[1].prompt@ == digest_prompt@,
        r@[1].interval_secs == 86400,
        r@[1].trigger_events@.len() == 0,
        r@[1].trigger_variables@.len() == 0,
        r@[1].paused == true,
        forall|i: int| 0 <= i < r@.len() ==> spec_is_builtin_name(#[trigger] r@[i].name@),
{
    let briefing = DaemonTaskDef {
        name: String::from_str("briefing"),
        persona: String::from_str(briefing_persona),
        prompt: String::from_str(briefing_prompt),
        interval_secs: 3600,
        trigger_events: Vec::new(),
        trigger_variables: Vec::new(),
        tools: Vec::new(),
        paused: true,
    };
    let digest = DaemonTaskDef {
        name: String::from_str("digest"),
        persona: String::from_str(digest_persona),
        prompt: String::from_str(digest_prompt),
        interval_secs: 86400,
        trigger_events: Vec::new(),
        trigger_variables: Vec::new(),
        tools: Vec::new(),
        paused: true,
    };
    let mut out: Vec<DaemonTaskDef> = Vec::new();
    out.push(briefing);
    out.push(digest);
    out
}

/// Case-insensitive equality of names is transitive.
pub proof fn lemma_eq_ignore_case_trans(a: Seq<char>, b: Seq<char>, c: Seq<char>)
    ensures
        eq_ignore_case(a, b) && eq_ignore_case(b, c) ==> eq_ignore_case(a, c),
{
}

} // verus!
