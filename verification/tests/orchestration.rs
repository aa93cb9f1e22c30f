//! The scheduler, the window manager, the coordination store, and the
//! chat turn loop.

use memini::chat::append_turn;
use memini::chat::extract_output_text;
use memini::chat::extract_tool_calls;
use memini::chat::format_memories;
use memini::chat::namespaced_tool_name;
use memini::chat::route_tool;
use memini::chat::tool_loop_limit_reached;
use memini::chat::MemoryTrace;
use memini::chat::Message;
use memini::chat::ResponseItem;
use memini::chat::Role;
use memini::chat::ToolLoopState;
use memini::chat::ToolRoute;
use memini::chat::TurnAction;
use memini::chat::MAX_TOOL_LOOPS;
use memini::scheduler::builtin_tasks;
use memini::scheduler::is_builtin_name;
use memini::scheduler::DaemonRegistry;
use memini::scheduler::DaemonTaskDef;
use memini::scheduler::RemoveOutcome;
use memini::scheduler::SchedulerError;
use memini::windows::AgentWindowStatus;
use memini::windows::CoordinationStore;
use memini::windows::SessionEvent;
use memini::windows::WindowError;
use memini::windows::WindowManager;

fn task(name: &str, interval: u64) -> DaemonTaskDef {
    DaemonTaskDef {
        name: String::from(name),
        persona: String::from("p"),
        prompt: String::from("do"),
        interval_secs: interval,
        trigger_events: Vec::new(),
        trigger_variables: Vec::new(),
        tools: Vec::new(),
        paused: false,
    }
}

#[test]
fn starting_a_task_name_differing_only_by_case_is_rejected() {
    let mut reg = DaemonRegistry::new();
    assert!(reg.start_task(task("Watcher", 60), 0).is_ok());
    let err = reg.start_task(task("watcher", 60), 0).unwrap_err();
    assert_eq!(err, SchedulerError::NameConflict);
    assert_eq!(reg.handles.len(), 1);
    assert!(reg.start_task(task("other", 60), 0).is_ok());
}

#[test]
fn interval_task_runs_each_interval_until_stopped() {
    let mut reg = DaemonRegistry::new();
    reg.start_task(task("ticker", 5), 0).expect("start");
    assert_eq!(reg.tick(3), Vec::<String>::new());
    assert_eq!(reg.tick(5), vec!["ticker"]);
    assert_eq!(reg.tick(7), Vec::<String>::new());
    assert_eq!(reg.tick(10), vec!["ticker"]);
    let stopped = reg.stop_task("ticker").expect("stop");
    assert_eq!(stopped.name, "ticker");
    assert_eq!(reg.tick(15), Vec::<String>::new());
    assert_eq!(reg.tick(100), Vec::<String>::new());
}

#[test]
fn wake_runs_a_task_ahead_of_its_interval() {
    let mut reg = DaemonRegistry::new();
    reg.start_task(task("slow", 3600), 0).expect("start");
    assert_eq!(reg.tick(10), Vec::<String>::new());
    assert!(reg.wake("slow", 10));
    assert_eq!(reg.tick(10), vec!["slow"]);
    assert!(!reg.wake("unknown", 10));
}

#[test]
fn stopping_an_unknown_task_is_an_error() {
    let mut reg = DaemonRegistry::new();
    assert_eq!(reg.stop_task("ghost").unwrap_err(), SchedulerError::NotRunning);
}

#[test]
fn builtin_tasks_can_only_be_stopped_not_removed() {
    let mut reg = DaemonRegistry::new();
    let builtins = builtin_tasks("bp", "bq", "dp", "dq");
    assert_eq!(builtins.len(), 2);
    assert!(is_builtin_name("Briefing"));
    assert!(is_builtin_name("digest"));
    assert!(!is_builtin_name("watcher"));
    let mut briefing = builtins[0].clone();
    briefing.paused = false;
    reg.start_task(briefing, 0).expect("start builtin");
    assert_eq!(
        reg.remove_task("briefing", true),
        RemoveOutcome::StoppedBuiltin
    );
    assert_eq!(
        reg.remove_task("briefing", true),
        RemoveOutcome::RejectedBuiltin
    );
    reg.start_task(task("mine", 60), 0).expect("start");
    assert_eq!(
        reg.remove_task("mine", false),
        RemoveOutcome::Removed { was_running: true }
    );
    assert_eq!(
        reg.remove_task("mine", false),
        RemoveOutcome::Removed { was_running: false }
    );
}

#[test]
fn event_triggers_route_to_matching_tasks() {
    let mut reg = DaemonRegistry::new();
    let mut t = task("deployer", 3600);
    t.trigger_events = vec![String::from("VariableUpdate")];
    t.trigger_variables = vec![String::from("deploy.request"), String::from("ci.*")];
    reg.start_task(t, 0).expect("start");
    reg.start_task(task("plain", 3600), 0).expect("start");
    assert_eq!(
        reg.tasks_triggered("VariableUpdate", Some("ci.build.42")),
        vec!["deployer"]
    );
    assert_eq!(
        reg.tasks_triggered("VariableUpdate", Some("other.key")),
        Vec::<String>::new()
    );
}

#[test]
fn spawned_window_reaches_done_and_coordination_store() {
    let mut wm = WindowManager::new();
    let mut store = CoordinationStore::new();
    assert!(store.collect_results("k1").is_empty());

    let id = wm.spawn(
        String::from("Research"),
        String::from("research X"),
        String::from("persona"),
        String::from("k1"),
    );
    assert_eq!(id, 0);
    assert_eq!(wm.windows[0].status, AgentWindowStatus::Thinking);
    assert!(wm.windows[0].output_lines.is_empty());

    // Results collected before any child finishes are empty, not an error.
    assert!(store.collect_results("k1").is_empty());

    assert!(wm.apply_event(
        SessionEvent::OutputLine {
            id,
            line: String::from("digging"),
        },
        &mut store,
    ));
    assert_eq!(wm.windows[0].output_lines, vec!["digging"]);
    assert_eq!(wm.windows[0].status, AgentWindowStatus::Thinking);

    assert!(wm.apply_event(
        SessionEvent::Finished {
            id,
            result: String::from("the answer"),
        },
        &mut store,
    ));
    assert_eq!(wm.windows[0].status, AgentWindowStatus::Done);

    let records = store.collect_results("k1");
    assert_eq!(records.len(), 1);
    assert_eq!(records[0].window_id, id);
    assert_eq!(records[0].label, "Research");
    assert_eq!(records[0].result, "the answer");
    assert!(store.collect_results("k2").is_empty());
}

#[test]
fn window_ids_are_fresh_even_after_events() {
    let mut wm = WindowManager::new();
    let mut store = CoordinationStore::new();
    let a = wm.spawn(
        String::from("A"),
        String::from("pa"),
        String::from("p"),
        String::new(),
    );
    let b = wm.spawn(
        String::from("B"),
        String::from("pb"),
        String::from("p"),
        String::new(),
    );
    assert!(a != b);
    assert!(!wm.apply_event(
        SessionEvent::OutputLine {
            id: 99,
            line: String::from("?"),
        },
        &mut store,
    ));
}

#[test]
fn replying_to_a_window_not_waiting_is_a_state_error() {
    let mut wm = WindowManager::new();
    let mut store = CoordinationStore::new();
    let id = wm.spawn(
        String::from("A"),
        String::from("p"),
        String::from("p"),
        String::new(),
    );
    // Thinking, not waiting: a direct reply fails with a state error.
    assert_eq!(wm.reply(id, "hello").unwrap_err(), WindowError::NotWaiting);
    // `next` with nothing waiting fails identically as a state error.
    assert_eq!(
        wm.reply_to_target(true, 0, "hello").unwrap_err(),
        WindowError::NoneWaiting
    );
    assert_eq!(
        wm.reply(12345, "hello").unwrap_err(),
        WindowError::NoSuchWindow
    );

    assert!(wm.apply_event(
        SessionEvent::NeedsInput {
            id,
            question: String::from("which file?"),
        },
        &mut store,
    ));
    assert_eq!(wm.windows[0].status, AgentWindowStatus::WaitingForInput);
    assert_eq!(wm.windows[0].pending_question.as_deref(), Some("which file?"));
    assert_eq!(wm.first_waiting_window_id(), Some(id));

    let resolved = wm.reply_to_target(true, 0, "that one").expect("reply next");
    assert_eq!(resolved, id);
    assert_eq!(wm.windows[0].status, AgentWindowStatus::Thinking);
    assert!(wm.windows[0].pending_question.is_none());
    assert_eq!(wm.first_waiting_window_id(), None);
}

#[test]
fn reply_next_picks_the_smallest_waiting_id() {
    let mut wm = WindowManager::new();
    let mut store = CoordinationStore::new();
    let a = wm.spawn(
        String::from("A"),
        String::from("pa"),
        String::from("p"),
        String::new(),
    );
    let b = wm.spawn(
        String::from("B"),
        String::from("pb"),
        String::from("p"),
        String::new(),
    );
    assert!(wm.apply_event(
        SessionEvent::NeedsInput {
            id: b,
            question: String::from("late?"),
        },
        &mut store,
    ));
    assert!(wm.apply_event(
        SessionEvent::NeedsInput {
            id: a,
            question: String::from("early?"),
        },
        &mut store,
    ));
    // Both wait; `next` must deliver to the smallest id.
    let resolved = wm.reply_to_target(true, 0, "answer").expect("reply next");
    assert_eq!(resolved, a);
    assert_eq!(wm.windows[0].status, AgentWindowStatus::Thinking);
    assert_eq!(wm.windows[1].status, AgentWindowStatus::WaitingForInput);
    // A concrete waiting id is also owed success.
    let second = wm.reply_to_target(false, b, "also").expect("reply by id");
    assert_eq!(second, b);
    assert_eq!(wm.windows[1].status, AgentWindowStatus::Thinking);
}

fn tool_call_response(n: usize) -> Vec<ResponseItem> {
    let mut items = Vec::new();
    for k in 0..n {
        items.push(ResponseItem::FunctionCall {
            name: format!("srv__tool{k}"),
            call_id: format!("call{k}"),
            arguments_json: String::from("{}"),
        });
    }
    items
}

#[test]
fn tool_loop_stops_at_its_bound_even_with_endless_tool_calls() {
    let mut state = ToolLoopState::new();
    let mut rounds = 0usize;
    // The model keeps asking for tools forever; the loop still terminates.
    loop {
        let action = state.step(&tool_call_response(2));
        match action {
            TurnAction::RunTools(calls) => {
                assert_eq!(calls.len(), 2);
                rounds += 1;
                assert!(rounds <= MAX_TOOL_LOOPS);
            }
            TurnAction::Finish { text, limit_hit } => {
                assert_eq!(text, "");
                assert!(limit_hit);
                break;
            }
        }
    }
    assert_eq!(rounds, MAX_TOOL_LOOPS);
    assert!(tool_loop_limit_reached(state.loops));
}

#[test]
fn a_response_without_tool_calls_finishes_the_turn() {
    let mut state = ToolLoopState::new();
    let items = vec![
        ResponseItem::Message {
            text: String::from("hello"),
        },
        ResponseItem::Message {
            text: String::from("world"),
        },
    ];
    match state.step(&items) {
        TurnAction::Finish { text, limit_hit } => {
            assert_eq!(text, "hello\nworld");
            assert!(!limit_hit);
        }
        _ => panic!("expected the turn to finish"),
    }
    assert_eq!(extract_output_text(&items), "hello\nworld");
    assert!(extract_tool_calls(&items).is_empty());
}

#[test]
fn tool_names_route_once_to_builtins_or_servers() {
    assert!(matches!(route_tool("spawn_agent"), ToolRoute::BuiltinSpawn));
    assert!(matches!(
        route_tool("collect_results"),
        ToolRoute::BuiltinCollect
    ));
    match route_tool("server1__list_files") {
        ToolRoute::Remote {
            server_id,
            tool_name,
        } => {
            assert_eq!(server_id, "server1");
            assert_eq!(tool_name, "list_files");
        }
        _ => panic!("expected a remote route"),
    }
    match route_tool("plain_tool") {
        ToolRoute::Remote {
            server_id,
            tool_name,
        } => {
            assert_eq!(server_id, "");
            assert_eq!(tool_name, "plain_tool");
        }
        _ => panic!("expected a remote route"),
    }
    let name = namespaced_tool_name("srv", "do_work");
    assert_eq!(name, "srv__do_work");
    match route_tool(&name) {
        ToolRoute::Remote {
            server_id,
            tool_name,
        } => {
            assert_eq!(server_id, "srv");
            assert_eq!(tool_name, "do_work");
        }
        _ => panic!("expected a remote route"),
    }
}

fn msg(role: Role, content: &str) -> Message {
    Message {
        role,
        content: String::from(content),
    }
}

#[test]
fn conversation_thread_trims_from_the_front_in_pairs() {
    let mut thread = vec![
        msg(Role::User, "u1"),
        msg(Role::Assistant, "a1"),
        msg(Role::User, "u2"),
        msg(Role::Assistant, "a2"),
    ];
    append_turn(
        &mut thread,
        msg(Role::User, "u3"),
        Some(msg(Role::Assistant, "a3")),
        4,
    );
    assert_eq!(thread.len(), 4);
    assert_eq!(thread[0].content, "u2");
    assert_eq!(thread[3].content, "a3");

    let mut short = Vec::new();
    append_turn(&mut short, msg(Role::User, "only"), None, 4);
    assert_eq!(short.len(), 1);
    assert_eq!(short[0].content, "only");
}

#[test]
fn memories_format_with_header_and_actions() {
    let traces = vec![
        MemoryTrace {
            input: String::from(" built the site "),
            action: String::new(),
            outcome: String::from("done"),
        },
        MemoryTrace {
            input: String::from("x"),
            action: String::from("chat"),
            outcome: String::from("y"),
        },
        MemoryTrace {
            input: String::from("  "),
            action: String::new(),
            outcome: String::from(" "),
        },
    ];
    assert_eq!(
        format_memories(&traces),
        "Relevant memory:\n- input: built the site | outcome: done\n- input: x | action: chat | outcome: y"
    );
    assert_eq!(format_memories(&Vec::new()), "");
}
