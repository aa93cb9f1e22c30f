//! One conversational turn: the model's response items, the extraction of
//! text and tool calls, the bounded tool-call loop, tool-name routing, the
//! conversation thread with its size cap, and the memory-context block.
//!
//! The network calls themselves happen outside the library; a turn is
//! driven by feeding each response's items into [`ToolLoopState::step`] and
//! performing the action it returns, so every decision the loop makes is
//! verified here.

use vstd::prelude::*;

use crate::text::join_seq;
use crate::text::str_eq;

verus! {

/// The most rounds of tool calls one turn may execute.
pub const MAX_TOOL_LOOPS: usize = 6;

/// How many memory entries a turn recalls by default.
pub const DEFAULT_MEMORY_LIMIT: u64 = 6;

/// Author of a conversation message.
#[derive(Clone, Copy, Debug, PartialEq, Eq, Structural)]
pub enum Role {
    System,
    User,
    Assistant,
    ToolOutput,
}

/// One message of a conversation thread.
#[derive(Clone, Debug)]
pub struct Message {
    pub role: Role,
    pub content: String,
}

/// One item of a model response: a block of text, or a request to call a
/// tool, carrying the call id the tool's output must echo back.
#[derive(Clone, Debug)]
pub enum ResponseItem {
    Message { text: String },
    FunctionCall { name: String, call_id: String, arguments_json: String },
}

/// One tool invocation requested by the model.
#[derive(Clone, Debug)]
pub struct ToolCall {
    pub name: String,
    pub arguments_json: String,
    pub call_id: String,
}

/// Whether the loop counter has exhausted the configured bound.
pub fn tool_loop_limit_reached(loops: usize) -> (r: bool)
    ensures
        r == (loops >= MAX_TOOL_LOOPS),
{
    loops >= MAX_TOOL_LOOPS
}

/// The texts of the message items, in order.
pub open spec fn spec_message_texts(items: Seq<ResponseItem>) -> Seq<Seq<char>>
    decreases items.len(),
{
    if items.len() == 0 {
        Seq::empty()
    } else {
        match items.last() {
            ResponseItem::Message { text } => spec_message_texts(items.drop_last()).push(text@),
            _ => spec_message_texts(items.drop_last()),
        }
    }
}

/// The plain text of a response: its message texts joined by line breaks;
/// empty when the response carries no message.
pub open spec fn spec_output_text(items: Seq<ResponseItem>) -> Seq<char> {
    join_seq(spec_message_texts(items), '\n')
}

/// The tool calls of a response, in order, as (name, arguments, call id).
pub open spec fn spec_tool_calls(items: Seq<ResponseItem>) -> Seq<(Seq<char>, Seq<char>, Seq<char>)>
    decreases items.len(),
{
    if items.len() == 0 {
        Seq::empty()
    } else {
        match items.last() {
            ResponseItem::FunctionCall { name, call_id, arguments_json } => spec_tool_calls(
                items.drop_last(),
            ).push((name@, arguments_json@, call_id@)),
            _ => spec_tool_calls(items.drop_last()),
        }
    }
}

/// The view of one tool call.
pub open spec fn spec_call_view(c: ToolCall) -> (Seq<char>, Seq<char>, Seq<char>) {
    (c.name@, c.arguments_json@, c.call_id@)
}

/// Join the message texts of a response.  A response with no message item
/// yields the empty string.
pub fn extract_output_text(items: &Vec<ResponseItem>) -> (r: String)
    ensures
        r@ == spec_output_text(items@),
{
    let mut parts: Vec<String> = Vec::new();
    let mut i: usize = 0;
    proof {
        assert(spec_message_texts(items@.subrange(0, 0)) =~= Seq::<Seq<char>>::empty());
        assert(parts@.map_values(|p: String| p@) =~= Seq::<Seq<char>>::empty());
    }
    while i < items.len()
        invariant
            0 <= i <= items@.len(),
            parts@.map_values(|p: String| p@) == spec_message_texts(items@.subrange(0, i as int)),
        decreases items@.len() - i,
    {
        proof {
            let sub1 = items@.subrange(0, i + 1);
            assert(sub1.drop_last() =~= items@.subrange(0, i as int));
            assert(sub1.last() == items@[i as int]);
        }
        match &items[i] {
            ResponseItem::Message { text } => {
                parts.push(text.clone());
                proof {
                    assert(parts@.map_values(|p: String| p@) =~= parts@.drop_last().map_values(
                        |p: String| p@,
                    ).push(parts@.last()@));
                }
            },
            _ => {},
        }
        i = i + 1;
    }
    proof {
        assert(items@.subrange(0, items@.len() as int) =~= items@);
    }
    if parts.len() == 0 {
        proof {
            assert(parts@.map_values(|p: String| p@) =~= Seq::<Seq<char>>::empty());
        }
        return String::new();
    }
    crate::text::join_with(&parts, '\n')
}

/// Collect the tool calls of a response, in order.
pub fn extract_tool_calls(items: &Vec<ResponseItem>) -> (r: Vec<ToolCall>)
    ensures
        r@.map_values(|c: ToolCall| spec_call_view(c)) == spec_tool_calls(items@),
{
    let mut out: Vec<ToolCall> = Vec::new();
    let mut i: usize = 0;
    proof {
        assert(spec_tool_calls(items@.subrange(0, 0)) =~= Seq::<(Seq<char>, Seq<char>, Seq<
            char,
        >)>::empty());
        assert(out@.map_values(|c: ToolCall| spec_call_view(c)) =~= Seq::<(Seq<char>, Seq<
            char,
        >, Seq<char>)>::empty());
    }
    while i < items.len()
        invariant
            0 <= i <= items@.len(),
            out@.map_values(|c: ToolCall| spec_call_view(c)) == spec_tool_calls(
                items@.subrange(0, i as int),
            ),
        decreases items@.len() - i,
    {
        proof {
            let sub1 = items@.subrange(0, i + 1);
            assert(sub1.drop_last() =~= items@.subrange(0, i as int));
            assert(sub1.last() == items@[i as int]);
        }
        match &items[i] {
            ResponseItem::FunctionCall { name, call_id, arguments_json } => {
                out.push(
                    ToolCall {
                        name: name.clone(),
                        arguments_json: arguments_json.clone(),
                        call_id: call_id.clone(),
                    },
                );
                proof {
                    assert(out@.map_values(|c: ToolCall| spec_call_view(c))
                        =~= out@.drop_last().map_values(|c: ToolCall| spec_call_view(c)).push(
                        spec_call_view(out@.last()),
                    ));
                }
            },
            _ => {},
        }
        i = i + 1;
    }
    proof {
        assert(items@.subrange(0, items@.len() as int) =~= items@);
    }
    out
}

/// The bounded tool-call loop of one turn.
pub struct ToolLoopState {
    pub loops: usize,
}

/// What to do with one model response.
pub enum TurnAction {
    /// Execute these tool calls, feed each output back under its call id,
    /// and ask the model again.
    RunTools(Vec<ToolCall>),
    /// The turn ends with this text; `limit_hit` reports that tool calls
    /// remained but the loop bound cut them off.
    Finish { text: String, limit_hit: bool },
}

/// How one step moves the loop counter: a response with tool calls runs
/// them and counts one round while the bound allows, and everything else
/// ends the turn with the counter unchanged.
pub open spec fn spec_turn_transition(loops0: int, has_calls: bool, loops1: int, ran: bool) -> bool {
    if has_calls && loops0 < MAX_TOOL_LOOPS {
        ran && loops1 == loops0 + 1
    } else {
        !ran && loops1 == loops0
    }
}

impl ToolLoopState {
    /// A fresh turn.
    pub fn new() -> (r: ToolLoopState)
        ensures
            r.loops == 0,
    {
        ToolLoopState { loops: 0 }
    }

    /// Decide what to do with one model response.  Tool calls run only
    /// while the loop bound allows, so the counter never passes
    /// `MAX_TOOL_LOOPS` and a turn executes at most that many rounds.
    pub fn step(&mut self, items: &Vec<ResponseItem>) -> (r: TurnAction)
        requires
            old(self).loops <= MAX_TOOL_LOOPS,
        ensures
            final(self).loops <= MAX_TOOL_LOOPS,
            spec_turn_transition(
                old(self).loops as int,
                spec_tool_calls(items@).len() > 0,
                final(self).loops as int,
                r is RunTools,
            ),
            match r {
                TurnAction::RunTools(calls) => {
                    &&& calls@.map_values(|c: ToolCall| spec_call_view(c)) == spec_tool_calls(
                        items@,
                    )
                    &&& calls@.len() > 0
                },
                TurnAction::Finish { text, limit_hit } => {
                    &&& text@ == spec_output_text(items@)
                    &&& limit_hit == (spec_tool_calls(items@).len() > 0 && old(self).loops
                        >= MAX_TOOL_LOOPS)
                },
            },
    {
        let calls = extract_tool_calls(items);
        if calls.len() > 0 && self.loops < MAX_TOOL_LOOPS {
            self.loops = self.loops + 1;
            proof {
                assert(calls@.map_values(|c: ToolCall| spec_call_view(c)).len() == calls@.len());
            }
            TurnAction::RunTools(calls)
        } else {
            let limit_hit = calls.len() > 0;
            proof {
                assert(calls@.map_values(|c: ToolCall| spec_call_view(c)).len() == calls@.len());
            }
            TurnAction::Finish { text: extract_output_text(items), limit_hit }
        }
    }
}

/// How many of the flags are set.
pub open spec fn count_true(s: Seq<bool>) -> int
    decreases s.len(),
{
    if s.len() == 0 {
        0
    } else {
        count_true(s.drop_last()) + if s.last() {
            1int
        } else {
            0int
        }
    }
}

/// The tool-call loop of any conversation terminates within the configured
/// bound: over any run of steps that starts with a fresh counter and obeys
/// the step transition — even one where the model returns further tool
/// calls every time — the number of tool rounds executed never exceeds
/// `MAX_TOOL_LOOPS`.
pub proof fn lemma_tool_loop_bounded(loops: Seq<int>, has_calls: Seq<bool>, ran: Seq<bool>)
    requires
        loops.len() == ran.len() + 1,
        has_calls.len() == ran.len(),
        loops[0] == 0,
        forall|i: int|
            0 <= i < ran.len() ==> spec_turn_transition(
                #[trigger] loops[i],
                has_calls[i],
                loops[i + 1],
                ran[i],
            ),
    ensures
        count_true(ran) <= MAX_TOOL_LOOPS,
        count_true(ran) == loops.last(),
        0 <= loops.last() <= MAX_TOOL_LOOPS,
    decreases ran.len(),
{
    if ran.len() == 0 {
        assert(loops.last() == loops[0]);
    } else {
        let loops2 = loops.drop_last();
        let has2 = has_calls.drop_last();
        let ran2 = ran.drop_last();
        assert forall|i: int|
            0 <= i < ran2.len() implies spec_turn_transition(
            #[trigger] loops2[i],
            has2[i],
            loops2[i + 1],
            ran2[i],
        ) by {
            assert(loops2[i] == loops[i]);
            assert(loops2[i + 1] == loops[i + 1]);
            assert(has2[i] == has_calls[i]);
            assert(ran2[i] == ran[i]);
        }
        lemma_tool_loop_bounded(loops2, has2, ran2);
        let k = ran.len() - 1;
        assert(spec_turn_transition(loops[k], has_calls[k], loops[k + 1], ran[k]));
        assert(loops2.last() == loops[k]);
    }
}

/// Where a tool call is handled: a built-in, or a named remote server.
#[derive(Clone, Debug)]
pub enum ToolRoute {
    /// The built-in tool that spawns a sub-agent window.
    BuiltinSpawn,
    /// The built-in tool that reads the coordination store.
    BuiltinCollect,
    /// A tool of a remote server; an un-namespaced name routes to the
    /// empty server id, meaning whichever single connection is active.
    Remote { server_id: String, tool_name: String },
}

/// A remote tool's name as offered to the model: the server id and the
/// tool name joined by a double underscore, so tools of different servers
/// cannot collide.
pub open spec fn spec_namespaced(server_id: Seq<char>, tool: Seq<char>) -> Seq<char> {
    server_id + "__"@ + tool
}

/// Build the namespaced name of a remote tool.
pub fn namespaced_tool_name(server_id: &str, tool: &str) -> (r: String)
    ensures
        r@ == spec_namespaced(server_id@, tool@),
{
    let mut out = String::from_str(server_id);
    out.append("__");
    out.append(tool);
    out
}

/// Index of the first double underscore in `s`, or `s.len()` when there is
/// none.
pub open spec fn spec_sep_index(s: Seq<char>) -> int
    decreases s.len(),
{
    if s.len() < 2 {
        s.len() as int
    } else if s[0] == '_' && s[1] == '_' {
        0
    } else {
        1 + spec_sep_index(s.drop_first())
    }
}

pub proof fn lemma_sep_index(s: Seq<char>)
    ensures
        0 <= spec_sep_index(s) <= s.len(),
        spec_sep_index(s) + 1 < s.len() ==> s[spec_sep_index(s)] == '_' && s[spec_sep_index(s) + 1]
            == '_',
        forall|j: int|
            0 <= j < spec_sep_index(s) && j + 1 < s.len() ==> !((#[trigger] s[j]) == '_' && s[j
                + 1] == '_'),
    decreases s.len(),
{
    if s.len() >= 2 && !(s[0] == '_' && s[1] == '_') {
        lemma_sep_index(s.drop_first());
        assert forall|j: int|
            0 <= j < spec_sep_index(s) && j + 1 < s.len() implies !((#[trigger] s[j]) == '_'
            && s[j + 1] == '_') by {
            if j > 0 {
                assert(s[j] == s.drop_first()[j - 1]);
                assert(s[j + 1] == s.drop_first()[j]);
            }
        }
    }
}

/// Where a tool call by this name is handled: the two built-in names route
/// to the built-ins; a name with a double underscore splits at its first
/// one into server id and tool name; anything else is an un-namespaced
/// remote tool.
pub open spec fn spec_route(name: Seq<char>) -> (Seq<char>, Seq<char>, int) {
    if name == "spawn_agent"@ {
        (Seq::empty(), Seq::empty(), 0)
    } else if name == "collect_results"@ {
        (Seq::empty(), Seq::empty(), 1)
    } else {
        let i = spec_sep_index(name);
        if i + 1 < name.len() {
            (name.subrange(0, i), name.subrange(i + 2, name.len() as int), 2)
        } else {
            (Seq::empty(), name, 2)
        }
    }
}

/// Resolve a tool name once into its route.
pub fn route_tool(name: &str) -> (r: ToolRoute)
    ensures
        ({
            let (sid, tool, kind) = spec_route(name@);
            match r {
                ToolRoute::BuiltinSpawn => kind == 0,
                ToolRoute::BuiltinCollect => kind == 1,
                ToolRoute::Remote { server_id, tool_name } => {
                    &&& kind == 2
                    &&& server_id@ == sid
                    &&& tool_name@ == tool
                },
            }
        }),
{
    if str_eq(name, "spawn_agent") {
        return ToolRoute::BuiltinSpawn;
    }
    if str_eq(name, "collect_results") {
        return ToolRoute::BuiltinCollect;
    }
    let n = name.unicode_len();
    let mut i: usize = 0;
    while n >= 1 && i < n - 1
        invariant
            n == name@.len(),
            name@ != "spawn_agent"@,
            name@ != "collect_results"@,
            0 <= i <= if n >= 1 {
                n - 1
            } else {
                0
            },
            forall|j: int| 0 <= j < i ==> !((#[trigger] name@[j]) == '_' && name@[j + 1] == '_'),
        decreases n - i,
    {
        if name.get_char(i) == '_' && name.get_char(i + 1) == '_' {
            let server = name.substring_char(0, i);
            let tool = name.substring_char(i + 2, n);
            proof {
                let w: int = i as int;
                lemma_sep_index(name@);
                let k = spec_sep_index(name@);
                assert(!(k < w) && !(w < k));
            }
            return ToolRoute::Remote {
                server_id: String::from_str(server),
                tool_name: String::from_str(tool),
            };
        }
        i = i + 1;
    }
    proof {
        lemma_sep_index(name@);
        if spec_sep_index(name@) + 1 < name@.len() {
            let k = spec_sep_index(name@);
            assert(name@[k] == '_' && name@[k + 1] == '_');
            assert(false);
        }
    }
    ToolRoute::Remote { server_id: String::new(), tool_name: String::from_str(name) }
}

/// Append the turn's user message and, when the model produced text, the
/// assistant message, then trim the thread from the front in pairs while
/// it exceeds `max` messages.
pub fn append_turn(
    thread: &mut Vec<Message>,
    user: Message,
    assistant: Option<Message>,
    max: usize,
)
    ensures
        final(thread)@ == spec_trim_pairs(
            match assistant {
                Some(a) => old(thread)@.push(user).push(a),
                None => old(thread)@.push(user),
            },
            max as int,
        ),
{
    thread.push(user);
    if let Some(a) = assistant {
        thread.push(a);
    }
    let ghost full = thread@;
    while thread.len() > max && thread.len() >= 2
        invariant
            spec_trim_pairs(full, max as int) == spec_trim_pairs(thread@, max as int),
        decreases thread@.len(),
    {
        let ghost before = thread@;
        let _ = thread.remove(0);
        let _ = thread.remove(0);
        proof {
            assert(thread@ =~= before.subrange(2, before.len() as int));
        }
    }
    proof {
        assert(spec_trim_pairs(thread@, max as int) == thread@);
    }
}

/// A thread trimmed from the front in pairs until it fits the cap; a
/// thread shorter than one pair is never trimmed further.
pub open spec fn spec_trim_pairs(s: Seq<Message>, max: int) -> Seq<Message>
    decreases s.len(),
{
    if s.len() <= max || s.len() < 2 {
        s
    } else {
        spec_trim_pairs(s.subrange(2, s.len() as int), max)
    }
}

/// One recalled memory entry.
#[derive(Clone, Debug)]
pub struct MemoryTrace {
    pub input: String,
    pub action: String,
    pub outcome: String,
}

/// The line one trace contributes to the memory-context block: nothing
/// when input and outcome are both blank; otherwise its trimmed fields,
/// with the action included only when present.
pub open spec fn spec_memory_line(t: MemoryTrace) -> Option<Seq<char>> {
    let input = crate::text::trim_seq(t.input@);
    let outcome = crate::text::trim_seq(t.outcome@);
    let action = crate::text::trim_seq(t.action@);
    if input.len() == 0 && outcome.len() == 0 {
        None
    } else if action.len() == 0 {
        Some("- input: "@ + input + " | outcome: "@ + outcome)
    } else {
        Some("- input: "@ + input + " | action: "@ + action + " | outcome: "@ + outcome)
    }
}

/// The lines of the memory-context block: a header, then one line per
/// non-blank trace.
pub open spec fn spec_memory_lines(ts: Seq<MemoryTrace>) -> Seq<Seq<char>>
    decreases ts.len(),
{
    if ts.len() == 0 {
        Seq::empty()
    } else {
        match spec_memory_line(ts.last()) {
            Some(l) => spec_memory_lines(ts.drop_last()).push(l),
            None => spec_memory_lines(ts.drop_last()),
        }
    }
}

/// The memory-context system message: empty without traces, else a header
/// line followed by one line per non-blank trace, joined by line breaks.
pub open spec fn spec_format_memories(ts: Seq<MemoryTrace>) -> Seq<char> {
    if ts.len() == 0 {
        Seq::empty()
    } else {
        join_seq(seq!["Relevant memory:"@] + spec_memory_lines(ts), '\n')
    }
}

/// Render recalled memories as a context block for the model.
pub fn format_memories(traces: &Vec<MemoryTrace>) -> (r: String)
    ensures
        r@ == spec_format_memories(traces@),
{
    if traces.len() == 0 {
        return String::new();
    }
    let mut lines: Vec<String> = Vec::new();
    lines.push(String::from_str("Relevant memory:"));
    let mut i: usize = 0;
    proof {
        assert(spec_memory_lines(traces@.subrange(0, 0)) =~= Seq::<Seq<char>>::empty());
        assert(lines@.map_values(|p: String| p@) =~= seq!["Relevant memory:"@]);
        assert(seq!["Relevant memory:"@] + spec_memory_lines(traces@.subrange(0, 0)) =~= seq![
            "Relevant memory:"@,
        ]);
    }
    while i < traces.len()
        invariant
            0 <= i <= traces@.len(),
            lines@.map_values(|p: String| p@) == seq!["Relevant memory:"@] + spec_memory_lines(
                traces@.subrange(0, i as int),
            ),
        decreases traces@.len() - i,
    {
        proof {
            let sub1 = traces@.subrange(0, i + 1);
            assert(sub1.drop_last() =~= traces@.subrange(0, i as int));
            assert(sub1.last() == traces@[i as int]);
        }
        let input = crate::text::trim_str(traces[i].input.as_str());
        let outcome = crate::text::trim_str(traces[i].outcome.as_str());
        let action = crate::text::trim_str(traces[i].action.as_str());
        let skip = input.as_str().unicode_len() == 0 && outcome.as_str().unicode_len() == 0;
        if !skip {
            let mut line = String::from_str("- input: ");
            line.append(input.as_str());
            if action.as_str().unicode_len() == 0 {
                line.append(" | outcome: ");
                line.append(outcome.as_str());
            } else {
                line.append(" | action: ");
                line.append(action.as_str());
                line.append(" | outcome: ");
                line.append(outcome.as_str());
            }
            lines.push(line);
            proof {
                assert(lines@.map_values(|p: String| p@) =~= lines@.drop_last().map_values(
                    |p: String| p@,
                ).push(lines@.last()@));
                assert(seq!["Relevant memory:"@] + spec_memory_lines(traces@.subrange(0, i + 1))
                    =~= (seq!["Relevant memory:"@] + spec_memory_lines(
                    traces@.subrange(0, i as int),
                )).push(spec_memory_line(traces@[i as int])->Some_0));
            }
        }
        i = i + 1;
    }
    proof {
        assert(traces@.subrange(0, traces@.len() as int) =~= traces@);
    }
    crate::text::join_with(&lines, '\n')
}

} // verus!
