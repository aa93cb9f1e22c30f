//! The agent-window manager and the coordination store.
//!
//! A window is one running sub-agent session: it is created in `Thinking`,
//! moves to `WaitingForInput` when the session asks the user a question,
//! returns to `Thinking` on a reply, and ends in `Done`.  Window ids grow
//! monotonically and are never reused.  The coordination store accumulates
//! the results of finished sessions under a caller-chosen key, in
//! completion order, and `collect_results` reads them without ever
//! blocking: before any child has finished it returns the empty list.
//!
//! The manager's state is mutated only through the event functions here;
//! the concurrent sessions report their progress as `SessionEvent` values
//! over a channel owned by the caller.

use vstd::prelude::*;

verus! {

/// Lifecycle state of an agent window.
#[derive(Clone, Copy, Debug, PartialEq, Eq, Structural)]
pub enum AgentWindowStatus {
    /// The session is working.
    Thinking,
    /// The session asked a question and is suspended until a reply.
    WaitingForInput,
    /// The session reached a final answer.  Terminal.
    Done,
}

/// One sub-agent session's window.
#[derive(Clone, Debug)]
pub struct AgentWindow {
    pub id: u64,
    pub label: String,
    pub prompt: String,
    pub status: AgentWindowStatus,
    pub output_lines: Vec<String>,
    pub pending_question: Option<String>,
    pub persona: String,
    pub coordination_key: String,
}

/// A progress report from a running session, tagged with its window id.
#[derive(Clone, Debug)]
pub enum SessionEvent {
    /// The session produced one more line of output.
    OutputLine { id: u64, line: String },
    /// The session suspended on a question for the user.
    NeedsInput { id: u64, question: String },
    /// The session reached its final answer.
    Finished { id: u64, result: String },
}

/// One finished session's result under a coordination key.
#[derive(Clone, Debug)]
pub struct CoordinationRecord {
    pub key: String,
    pub window_id: u64,
    pub label: String,
    pub result: String,
}

/// The results of finished sessions, grouped by key, in completion order.
pub struct CoordinationStore {
    pub records: Vec<CoordinationRecord>,
}

/// The records of `rs` under `key`, in order.
pub open spec fn spec_records_for(rs: Seq<CoordinationRecord>, key: Seq<char>) -> Seq<
    CoordinationRecord,
>
    decreases rs.len(),
{
    if rs.len() == 0 {
        Seq::empty()
    } else if rs.last().key@ == key {
        spec_records_for(rs.drop_last(), key).push(rs.last())
    } else {
        spec_records_for(rs.drop_last(), key)
    }
}

impl CoordinationStore {
    /// An empty store.
    pub fn new() -> (r: CoordinationStore)
        ensures
            r.records@.len() == 0,
    {
        CoordinationStore { records: Vec::new() }
    }

    /// Append one finished session's result.  Append-only: nothing else
    /// changes.
    pub fn append(&mut self, record: CoordinationRecord)
        ensures
            final(self).records@ == old(self).records@.push(record),
    {
        self.records.push(record);
    }

    /// All records currently stored under `key`, in completion order.
    /// Non-blocking by construction: a key no finished session has reported
    /// under yields the empty list, never an error.
    pub fn collect_results(&self, key: &str) -> (r: Vec<CoordinationRecord>)
        ensures
            r@ == spec_records_for(self.records@, key@),
    {
        let mut out: Vec<CoordinationRecord> = Vec::new();
        let mut i: usize = 0;
        proof {
            assert(spec_records_for(self.records@.subrange(0, 0), key@) =~= Seq::<
                CoordinationRecord,
            >::empty());
        }
        while i < self.records.len()
            invariant
                0 <= i <= self.records@.len(),
                out@ == spec_records_for(self.records@.subrange(0, i as int), key@),
            decreases self.records@.len() - i,
        {
            proof {
                let sub1 = self.records@.subrange(0, i + 1);
                assert(sub1.drop_last() =~= self.records@.subrange(0, i as int));
                assert(sub1.last() == self.records@[i as int]);
            }
            if crate::text::str_eq(self.records[i].key.as_str(), key) {
                let rec = CoordinationRecord {
                    key: self.records[i].key.clone(),
                    window_id: self.records[i].window_id,
                    label: self.records[i].label.clone(),
                    result: self.records[i].result.clone(),
                };
                proof {
                    assert(rec == self.records@[i as int]);
                }
                out.push(rec);
                proof {
                    assert(out@ =~= spec_records_for(self.records@.subrange(0, i + 1), key@));
                }
            }
            i = i + 1;
        }
        proof {
            assert(self.records@.subrange(0, self.records@.len() as int) =~= self.records@);
        }
        out
    }
}

/// Collecting results under a key no finished session has reported under
/// yields the empty list — never an error — however early it is called.
pub proof fn lemma_collect_before_any_finish(rs: Seq<CoordinationRecord>, key: Seq<char>)
    requires
        forall|i: int| 0 <= i < rs.len() ==> (#[trigger] rs[i].key@) != key,
    ensures
        spec_records_for(rs, key) == Seq::<CoordinationRecord>::empty(),
    decreases rs.len(),
{
    if rs.len() > 0 {
        assert forall|i: int|
            0 <= i < rs.drop_last().len() implies (#[trigger] rs.drop_last()[i].key@) != key by {
            assert(rs.drop_last()[i] == rs[i]);
        }
        lemma_collect_before_any_finish(rs.drop_last(), key);
    }
}

/// Errors of the window commands.
#[derive(Clone, Debug, PartialEq, Eq)]
pub enum WindowError {
    /// No window carries this id.
    NoSuchWindow,
    /// The window exists but is not waiting for input.
    NotWaiting,
    /// `next` was asked for and no window is waiting for input.
    NoneWaiting,
}

/// The set of agent windows and the id counter.
pub struct WindowManager {
    pub windows: Vec<AgentWindow>,
    pub next_id: u64,
}

/// Whether some window in `ws` carries `id`.
pub open spec fn spec_has_window(ws: Seq<AgentWindow>, id: u64) -> bool {
    exists|i: int| 0 <= i < ws.len() && (#[trigger] ws[i].id) == id
}

impl WindowManager {
    /// Ids are strictly increasing in creation order and all below the
    /// counter, so an id is never reused, not even after a removal.
    pub open spec fn wf(&self) -> bool {
        &&& forall|i: int, j: int|
            0 <= i < j < self.windows@.len() ==> (#[trigger] self.windows@[i].id) < (
            #[trigger] self.windows@[j].id)
        &&& forall|i: int|
            0 <= i < self.windows@.len() ==> (#[trigger] self.windows@[i].id) < self.next_id
    }

    /// An empty manager.
    pub fn new() -> (r: WindowManager)
        ensures
            r.wf(),
            r.windows@.len() == 0,
            r.next_id == 0,
    {
        WindowManager { windows: Vec::new(), next_id: 0 }
    }

    /// Position of the window with this id, if any.
    pub fn find(&self, id: u64) -> (r: Option<usize>)
        ensures
            match r {
                Some(i) => i < self.windows@.len() && self.windows@[i as int].id == id,
                None => !spec_has_window(self.windows@, id),
            },
    {
        let mut i: usize = 0;
        while i < self.windows.len()
            invariant
                0 <= i <= self.windows@.len(),
                forall|j: int| 0 <= j < i ==> (#[trigger] self.windows@[j].id) != id,
            decreases self.windows@.len() - i,
        {
            if self.windows[i].id == id {
                return Some(i);
            }
            i = i + 1;
        }
        None
    }

    /// Spawn a session window: a fresh id, `Thinking`, no output yet, no
    /// pending question.  Returns the new id.
    pub fn spawn(&mut self, label: String, prompt: String, persona: String, coordination_key: String) -> (r:
        u64)
        requires
            old(self).wf(),
            old(self).next_id < u64::MAX,
        ensures
            final(self).wf(),
            r == old(self).next_id,
            final(self).next_id == old(self).next_id + 1,
            final(self).windows@.len() == old(self).windows@.len() + 1,
            final(self).windows@.drop_last() == old(self).windows@,
            final(self).windows@.last().id == r,
            final(self).windows@.last().label@ == label@,
            final(self).windows@.last().prompt@ == prompt@,
            final(self).windows@.last().status == AgentWindowStatus::Thinking,
            final(self).windows@.last().output_lines@.len() == 0,
            final(self).windows@.last().pending_question is None,
            final(self).windows@.last().persona@ == persona@,
            final(self).windows@.last().coordination_key@ == coordination_key@,
            !spec_has_window(old(self).windows@, r),
    {
        let id = self.next_id;
        self.next_id = self.next_id + 1;
        let ghost ws0 = self.windows@;
        let window = AgentWindow {
            id,
            label,
            prompt,
            status: AgentWindowStatus::Thinking,
            output_lines: Vec::new(),
            pending_question: None,
            persona,
            coordination_key,
        };
        self.windows.push(window);
        proof {
            assert(self.windows@.drop_last() =~= ws0);
        }
        id
    }

    /// Apply one session event.  Output lines append to the window's log;
    /// a question moves the window to `WaitingForInput`; a final answer
    /// moves it to `Done` and, when the window was spawned under a
    /// non-empty coordination key, appends its result to the store.
    /// An event whose id no window carries changes nothing.
    pub fn apply_event(&mut self, event: SessionEvent, store: &mut CoordinationStore) -> (r: bool)
        requires
            old(self).wf(),
        ensures
            final(self).wf(),
            final(self).next_id == old(self).next_id,
            final(self).windows@.len() == old(self).windows@.len(),
            r == spec_has_window(old(self).windows@, spec_event_id(event)),
            !r ==> final(self).windows@ == old(self).windows@ && final(store).records@ == old(
                store,
            ).records@,
            r ==> exists|i: int|
                {
                    &&& 0 <= i < old(self).windows@.len()
                    &&& (#[trigger] old(self).windows@[i]).id == spec_event_id(event)
                    &&& spec_window_after(old(self).windows@[i], event, final(self).windows@[i])
                    &&& forall|j: int|
                        0 <= j < old(self).windows@.len() && j != i
                            ==> #[trigger] final(self).windows@[j] == old(self).windows@[j]
                    &&& spec_store_after(
                        old(store).records@,
                        old(self).windows@[i],
                        event,
                        final(store).records@,
                    )
                },
    {
        let id = match &event {
            SessionEvent::OutputLine { id, .. } => *id,
            SessionEvent::NeedsInput { id, .. } => *id,
            SessionEvent::Finished { id, .. } => *id,
        };
        let pos = match self.find(id) {
            Some(i) => i,
            None => {
                return false;
            },
        };
        let ghost ws0 = self.windows@;
        let ghost pos0: int = pos as int;
        let ghost gevent = event;
        match event {
            SessionEvent::OutputLine { id: _, line } => {
                let ghost gline = line;
                let w = window_mut(&mut self.windows, pos);
                w.output_lines.push(line);
                proof {
                    assert(gevent == SessionEvent::OutputLine { id, line: gline });
                    assert(spec_window_after(ws0[pos0], gevent, self.windows@[pos0]));
                    assert(spec_store_after(old(store).records@, ws0[pos0], gevent, store.records@));
                }
            },
            SessionEvent::NeedsInput { id: _, question } => {
                let ghost gquestion = question;
                let w = window_mut(&mut self.windows, pos);
                w.status = AgentWindowStatus::WaitingForInput;
                w.pending_question = Some(question);
                proof {
                    assert(gevent == SessionEvent::NeedsInput { id, question: gquestion });
                    assert(spec_window_after(ws0[pos0], gevent, self.windows@[pos0]));
                    assert(spec_store_after(old(store).records@, ws0[pos0], gevent, store.records@));
                }
            },
            SessionEvent::Finished { id: _, result } => {
                let ghost gresult = result;
                let key_empty = self.windows[pos].coordination_key.as_str().unicode_len() == 0;
                if !key_empty {
                    let record = CoordinationRecord {
                        key: self.windows[pos].coordination_key.clone(),
                        window_id: self.windows[pos].id,
                        label: self.windows[pos].label.clone(),
                        result: result.clone(),
                    };
                    proof {
                        assert(record.key == ws0[pos0].coordination_key);
                        assert(record.label == ws0[pos0].label);
                        assert(record.result == gresult);
                    }
                    store.append(record);
                    proof {
                        assert(store.records@.drop_last() =~= old(store).records@);
                    }
                }
                let w = window_mut(&mut self.windows, pos);
                w.status = AgentWindowStatus::Done;
                w.output_lines.push(result);
                proof {
                    assert(gevent == SessionEvent::Finished { id, result: gresult });
                    assert(spec_window_after(ws0[pos0], gevent, self.windows@[pos0]));
                    assert(spec_store_after(old(store).records@, ws0[pos0], gevent, store.records@));
                }
            },
        }
        proof {
            assert(spec_window_after(ws0[pos0], gevent, self.windows@[pos0]));
            assert(spec_store_after(old(store).records@, ws0[pos0], gevent, store.records@));
            assert(forall|j: int|
                0 <= j < ws0.len() && j != pos0 ==> #[trigger] self.windows@[j] == ws0[j]);
            assert forall|i: int, j: int|
                0 <= i < j < self.windows@.len() implies (#[trigger] self.windows@[i].id) < (
            #[trigger] self.windows@[j].id) by {
                assert(self.windows@[i].id == ws0[i].id);
                assert(self.windows@[j].id == ws0[j].id);
            }
            assert forall|i: int|
                0 <= i < self.windows@.len() implies (#[trigger] self.windows@[i].id)
                < self.next_id by {
                assert(self.windows@[i].id == ws0[i].id);
            }
        }
        true
    }

    /// The id of the first waiting window in ascending id order, which is
    /// creation order.
    pub fn first_waiting_window_id(&self) -> (r: Option<u64>)
        requires
            self.wf(),
        ensures
            match r {
                Some(id) => exists|i: int|
                    {
                        &&& 0 <= i < self.windows@.len()
                        &&& (#[trigger] self.windows@[i]).id == id
                        &&& self.windows@[i].status == AgentWindowStatus::WaitingForInput
                        &&& forall|j: int|
                            0 <= j < i ==> (#[trigger] self.windows@[j]).status
                                != AgentWindowStatus::WaitingForInput
                    },
                None => forall|i: int|
                    0 <= i < self.windows@.len() ==> (#[trigger] self.windows@[i]).status
                        != AgentWindowStatus::WaitingForInput,
            },
    {
        let mut i: usize = 0;
        while i < self.windows.len()
            invariant
                0 <= i <= self.windows@.len(),
                forall|j: int|
                    0 <= j < i ==> (#[trigger] self.windows@[j]).status
                        != AgentWindowStatus::WaitingForInput,
            decreases self.windows@.len() - i,
        {
            if matches!(self.windows[i].status, AgentWindowStatus::WaitingForInput) {
                return Some(self.windows[i].id);
            }
            i = i + 1;
        }
        None
    }

    /// Deliver a reply to the window with this id.  Only a window in
    /// `WaitingForInput` accepts a reply: it returns to `Thinking` with its
    /// question cleared.  Anything else is a state error and changes
    /// nothing.
    pub fn reply(&mut self, id: u64, message: &str) -> (r: Result<(), WindowError>)
        requires
            old(self).wf(),
        ensures
            final(self).wf(),
            final(self).next_id == old(self).next_id,
            match r {
                Ok(()) => exists|i: int|
                    {
                        &&& 0 <= i < old(self).windows@.len()
                        &&& (#[trigger] old(self).windows@[i]).id == id
                        &&& old(self).windows@[i].status == AgentWindowStatus::WaitingForInput
                        &&& spec_window_replied(old(self).windows@[i], final(self).windows@[i])
                        &&& forall|j: int|
                            0 <= j < old(self).windows@.len() && j != i
                                ==> #[trigger] final(self).windows@[j] == old(self).windows@[j]
                    },
                Err(WindowError::NoSuchWindow) => !spec_has_window(old(self).windows@, id)
                    && final(self).windows@ == old(self).windows@,
                Err(WindowError::NotWaiting) => final(self).windows@ == old(self).windows@
                    && exists|i: int|
                    {
                        &&& 0 <= i < old(self).windows@.len()
                        &&& (#[trigger] old(self).windows@[i]).id == id
                        &&& old(self).windows@[i].status != AgentWindowStatus::WaitingForInput
                    },
                Err(WindowError::NoneWaiting) => false,
            },
    {
        let pos = match self.find(id) {
            Some(i) => i,
            None => {
                return Err(WindowError::NoSuchWindow);
            },
        };
        if !matches!(self.windows[pos].status, AgentWindowStatus::WaitingForInput) {
            return Err(WindowError::NotWaiting);
        }
        let ghost ws0 = self.windows@;
        let ghost pos0: int = pos as int;
        let w = window_mut(&mut self.windows, pos);
        w.status = AgentWindowStatus::Thinking;
        w.pending_question = None;
        proof {
            assert(self.windows@ =~= ws0.update(pos0, self.windows@[pos0]));
            assert forall|i: int, j: int|
                0 <= i < j < self.windows@.len() implies (#[trigger] self.windows@[i].id) < (
            #[trigger] self.windows@[j].id) by {
                assert(self.windows@[i].id == ws0[i].id);
                assert(self.windows@[j].id == ws0[j].id);
            }
            assert forall|i: int|
                0 <= i < self.windows@.len() implies (#[trigger] self.windows@[i].id)
                < self.next_id by {
                assert(self.windows@[i].id == ws0[i].id);
            }
        }
        let _ = message;
        Ok(())
    }

    /// Resolve a reply target — a concrete id, or `next` for the first
    /// waiting window in ascending id order — and deliver the reply.
    /// Success is owed whenever a waiting window matches the target; `next`
    /// with nothing waiting, a missing id, and a window not waiting each
    /// fail with their state error and change nothing.
    pub fn reply_to_target(&mut self, target_next: bool, id: u64, message: &str) -> (r: Result<
        u64,
        WindowError,
    >)
        requires
            old(self).wf(),
        ensures
            final(self).wf(),
            final(self).next_id == old(self).next_id,
            target_next ==> ((forall|i: int|
                0 <= i < old(self).windows@.len() ==> (#[trigger] old(self).windows@[i]).status
                    != AgentWindowStatus::WaitingForInput) <==> r == Err::<u64, WindowError>(
                WindowError::NoneWaiting,
            )),
            !target_next ==> r != Err::<u64, WindowError>(WindowError::NoneWaiting),
            target_next && (exists|i: int|
                0 <= i < old(self).windows@.len() && (#[trigger] old(self).windows@[i]).status
                    == AgentWindowStatus::WaitingForInput) ==> r is Ok,
            !target_next && (exists|i: int|
                0 <= i < old(self).windows@.len() && (#[trigger] old(self).windows@[i]).id == id
                    && old(self).windows@[i].status == AgentWindowStatus::WaitingForInput)
                ==> r is Ok,
            r is Err ==> final(self).windows@ == old(self).windows@,
            r is Ok ==> exists|i: int|
                {
                    &&& 0 <= i < old(self).windows@.len()
                    &&& (#[trigger] old(self).windows@[i]).id == r->Ok_0
                    &&& old(self).windows@[i].status == AgentWindowStatus::WaitingForInput
                    &&& (target_next ==> forall|j: int|
                        0 <= j < i ==> (#[trigger] old(self).windows@[j]).status
                            != AgentWindowStatus::WaitingForInput)
                    &&& (!target_next ==> r->Ok_0 == id)
                    &&& spec_window_replied(old(self).windows@[i], final(self).windows@[i])
                    &&& forall|j: int|
                        0 <= j < old(self).windows@.len() && j != i
                            ==> #[trigger] final(self).windows@[j] == old(self).windows@[j]
                },
    {
        let ghost ws0 = self.windows@;
        let resolved = if target_next {
            match self.first_waiting_window_id() {
                Some(w) => w,
                None => {
                    return Err(WindowError::NoneWaiting);
                },
            }
        } else {
            id
        };
        let ghost iw: int = if target_next {
            choose|i: int|
                {
                    &&& 0 <= i < ws0.len()
                    &&& (#[trigger] ws0[i]).id == resolved
                    &&& ws0[i].status == AgentWindowStatus::WaitingForInput
                    &&& forall|j: int|
                        0 <= j < i ==> (#[trigger] ws0[j]).status
                            != AgentWindowStatus::WaitingForInput
                }
        } else {
            0
        };
        match self.reply(resolved, message) {
            Ok(()) => {
                proof {
                    let ir = choose|i: int|
                        {
                            &&& 0 <= i < ws0.len()
                            &&& (#[trigger] ws0[i]).id == resolved
                            &&& ws0[i].status == AgentWindowStatus::WaitingForInput
                            &&& spec_window_replied(ws0[i], self.windows@[i])
                            &&& forall|j: int|
                                0 <= j < ws0.len() && j != i ==> #[trigger] self.windows@[j]
                                    == ws0[j]
                        };
                    if target_next {
                        lemma_id_determines_index(ws0, iw, ir);
                    }
                }
                Ok(resolved)
            },
            Err(e) => {
                proof {
                    if target_next {
                        // A waiting window exists at `iw`, so neither error
                        // arm of the delivery can apply.
                        assert(spec_has_window(ws0, resolved));
                        if e == WindowError::NotWaiting {
                            let k = choose|i: int|
                                {
                                    &&& 0 <= i < ws0.len()
                                    &&& (#[trigger] ws0[i]).id == resolved
                                    &&& ws0[i].status != AgentWindowStatus::WaitingForInput
                                };
                            lemma_id_determines_index(ws0, iw, k);
                        }
                        assert(false);
                    } else {
                        if exists|i: int|
                            0 <= i < ws0.len() && (#[trigger] ws0[i]).id == id && ws0[i].status
                                == AgentWindowStatus::WaitingForInput {
                            let kw = choose|i: int|
                                0 <= i < ws0.len() && (#[trigger] ws0[i]).id == id && ws0[i].status
                                    == AgentWindowStatus::WaitingForInput;
                            assert(spec_has_window(ws0, id));
                            if e == WindowError::NotWaiting {
                                let k = choose|i: int|
                                    {
                                        &&& 0 <= i < ws0.len()
                                        &&& (#[trigger] ws0[i]).id == id
                                        &&& ws0[i].status != AgentWindowStatus::WaitingForInput
                                    };
                                lemma_id_determines_index(ws0, kw, k);
                            }
                            assert(false);
                        }
                    }
                }
                Err(e)
            },
        }
    }
}

/// The id an event is tagged with.
pub open spec fn spec_event_id(event: SessionEvent) -> u64 {
    match event {
        SessionEvent::OutputLine { id, .. } => id,
        SessionEvent::NeedsInput { id, .. } => id,
        SessionEvent::Finished { id, .. } => id,
    }
}

/// The fields an event leaves untouched.
pub open spec fn spec_window_core_kept(w: AgentWindow, w2: AgentWindow) -> bool {
    &&& w2.id == w.id
    &&& w2.label == w.label
    &&& w2.prompt == w.prompt
    &&& w2.persona == w.persona
    &&& w2.coordination_key == w.coordination_key
}

/// The window after one event: an output line appends to the log; a
/// question suspends the window on it; a final answer appends as a last
/// line and closes the window.
pub open spec fn spec_window_after(w: AgentWindow, event: SessionEvent, w2: AgentWindow) -> bool {
    &&& spec_window_core_kept(w, w2)
    &&& match event {
        SessionEvent::OutputLine { id: _, line } => {
            &&& w2.status == w.status
            &&& w2.output_lines@ == w.output_lines@.push(line)
            &&& w2.pending_question == w.pending_question
        },
        SessionEvent::NeedsInput { id: _, question } => {
            &&& w2.status == AgentWindowStatus::WaitingForInput
            &&& w2.output_lines@ == w.output_lines@
            &&& w2.pending_question == Some(question)
        },
        SessionEvent::Finished { id: _, result } => {
            &&& w2.status == AgentWindowStatus::Done
            &&& w2.output_lines@ == w.output_lines@.push(result)
            &&& w2.pending_question == w.pending_question
        },
    }
}

/// The store after one event: a final answer of a window with a non-empty
/// coordination key appends that window's record; everything else leaves
/// the store unchanged.
pub open spec fn spec_store_after(
    rs: Seq<CoordinationRecord>,
    w: AgentWindow,
    event: SessionEvent,
    rs2: Seq<CoordinationRecord>,
) -> bool {
    match event {
        SessionEvent::Finished { id: _, result } => {
            if w.coordination_key@.len() > 0 {
                &&& rs2.len() == rs.len() + 1
                &&& rs2.drop_last() == rs
                &&& rs2.last().key == w.coordination_key
                &&& rs2.last().window_id == w.id
                &&& rs2.last().label == w.label
                &&& rs2.last().result == result
            } else {
                rs2 == rs
            }
        },
        _ => rs2 == rs,
    }
}

/// The window after a reply: back to `Thinking`, question cleared,
/// everything else kept.
pub open spec fn spec_window_replied(w: AgentWindow, w2: AgentWindow) -> bool {
    &&& spec_window_core_kept(w, w2)
    &&& w2.status == AgentWindowStatus::Thinking
    &&& w2.output_lines@ == w.output_lines@
    &&& w2.pending_question is None
}

/// With strictly increasing ids, an id determines its position.
proof fn lemma_id_determines_index(ws: Seq<AgentWindow>, i: int, j: int)
    requires
        forall|a: int, b: int|
            0 <= a < b < ws.len() ==> (#[trigger] ws[a].id) < (#[trigger] ws[b].id),
        0 <= i < ws.len(),
        0 <= j < ws.len(),
        ws[i].id == ws[j].id,
    ensures
        i == j,
{
    if i < j {
        assert(ws[i].id < ws[j].id);
    } else if j < i {
        assert(ws[j].id < ws[i].id);
    }
}

/// Mutable access to one window.
fn window_mut(v: &mut Vec<AgentWindow>, i: usize) -> (element: &mut AgentWindow)
    requires
        i < old(v)@.len(),
    ensures
        *element == old(v)@[i as int],
        final(v)@ == old(v)@.update(i as int, *final(element)),
{
    &mut v[i]
}

} // verus!
