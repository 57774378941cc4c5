use session_usage::agent::MAX_MODELS;
use session_usage::ledger::{Notification, SessionUsage, SpawnSource, ThreadInfo, UsageEvent, MAX_THREADS};
use session_usage::tokens::UsageBreakdown;
use session_usage::{token_text, usage, AgentUsage, Tokens, UNKNOWN};

fn thread(id: &str) -> ThreadInfo {
    ThreadInfo {
        id: id.to_string(),
        parent_thread_id: None,
        spawn: None,
        agent_nickname: None,
        name: None,
        model: None,
        reasoning_effort: None,
        status: "Idle".to_string(),
    }
}

fn breakdown(input: i64, cached: i64, output: i64) -> UsageBreakdown {
    UsageBreakdown {
        input_tokens: input,
        cached_input_tokens: cached,
        cache_write_input_tokens: 0,
        output_tokens: output,
        reasoning_output_tokens: 0,
    }
}

fn note(target: &str, event: UsageEvent) -> Notification {
    Notification { target: Some(target.to_string()), event }
}

#[test]
fn saturating_counters_and_clamped_differences() {
    let mut t = Tokens { input: i64::MAX - 1, cached: -5, write: 0, output: 1, reasoning: 2 };
    t.add(usage(5, 5, 5));
    assert_eq!(t, Tokens { input: i64::MAX, cached: 0, write: 0, output: 6, reasoning: 2 });
    assert_eq!(usage(5, 10, 20).subtract(usage(10, 3, 20)), usage(0, 7, 0));
    assert_eq!(
        Tokens::from_usage(&UsageBreakdown {
            input_tokens: -1,
            cached_input_tokens: 2,
            cache_write_input_tokens: -3,
            output_tokens: 4,
            reasoning_output_tokens: 5,
        }),
        Tokens { input: 0, cached: 2, write: 0, output: 4, reasoning: 5 }
    );
    assert_eq!(token_text(usage(1000, 800, 100)), "1100 total · 1000 input · 800 cached · 100 output");
    assert_eq!(token_text(usage(-7, 0, 2)), "-5 total · -7 input · 0 cached · 2 output");
}

#[test]
fn repeated_snapshot_is_counted_once() {
    let mut a = AgentUsage::with_model("astra".to_string());
    let turn = "t".to_string();
    a.update(usage(10, 5, 1), usage(10, 5, 1), &turn);
    let once = a.models().clone();
    a.update(usage(10, 5, 1), usage(3, 0, 1), &turn);
    assert_eq!(a.models(), &once);
    assert_eq!(a.previous, Some(usage(10, 5, 1)));
}

#[test]
fn stale_snapshot_changes_nothing_and_baseline_never_lowers() {
    let mut a = AgentUsage::with_model("astra".to_string());
    let turn = "t".to_string();
    a.update(usage(10, 5, 1), usage(10, 5, 1), &turn);
    a.update(usage(9, 6, 2), usage(9, 6, 2), &turn);
    assert_eq!(a.previous, Some(usage(10, 5, 1)));
    assert_eq!(a.models(), &vec![(UNKNOWN.to_string(), usage(10, 5, 1))]);
}

#[test]
fn usage_per_model_sums_to_accepted_total() {
    let mut a = AgentUsage::with_model("astra".to_string());
    assert!(a.start_turn("t1".to_string(), 0));
    a.update(usage(100, 40, 10), usage(30, 10, 5), &"t1".to_string());
    a.model = "luna".to_string();
    a.update(usage(150, 60, 30), usage(50, 20, 20), &"t1".to_string());
    let mut sum = Tokens::default();
    for (_, t) in a.models() {
        sum.add(*t);
    }
    assert_eq!(sum, usage(150, 60, 30));
    assert_eq!(
        a.models(),
        &vec![
            ("astra".to_string(), usage(30, 10, 5)),
            ("luna".to_string(), usage(50, 20, 20)),
            (UNKNOWN.to_string(), usage(70, 30, 5)),
        ]
    );
}

#[test]
fn models_beyond_limit_count_as_unknown() {
    let mut a = AgentUsage::default();
    for i in 0..MAX_MODELS {
        a.record(format!("m{i:03}"), usage(1, 0, 1));
    }
    a.record("late".to_string(), usage(2, 0, 2));
    a.record("m000".to_string(), usage(1, 0, 0));
    a.record("zero".to_string(), Tokens::default());
    assert_eq!(a.models().len(), MAX_MODELS + 1);
    let get = |k: &str| a.models().iter().find(|(m, _)| m == k).map(|(_, t)| *t);
    assert_eq!(get(UNKNOWN), Some(usage(2, 0, 2)));
    assert_eq!(get("m000"), Some(usage(2, 0, 1)));
    assert_eq!(get("late"), None);
    assert_eq!(get("zero"), None);
}

#[test]
fn revert_resets_baseline_and_marks_partial() {
    let mut ledger = SessionUsage::new();
    let id = "w".to_string();
    ledger.observe(
        &note("w", UsageEvent::TokenUsageUpdated {
            turn_id: "t".into(),
            total: breakdown(100, 0, 10),
            last: breakdown(100, 0, 10),
        }),
        0,
    );
    ledger.observe(&note("w", UsageEvent::Reverted), 1);
    assert!(ledger.incomplete);
    ledger.observe(
        &note("w", UsageEvent::TokenUsageUpdated {
            turn_id: "t".into(),
            total: breakdown(60, 0, 6),
            last: breakdown(10, 0, 1),
        }),
        2,
    );
    let a = ledger.agent(&id).unwrap();
    assert_eq!(a.previous, Some(usage(60, 0, 6)));
    assert!(!a.reset);
    assert_eq!(a.models(), &vec![(UNKNOWN.to_string(), usage(100, 0, 10))]);
    ledger.observe(
        &note("w", UsageEvent::TokenUsageUpdated {
            turn_id: "t".into(),
            total: breakdown(70, 0, 8),
            last: breakdown(10, 0, 2),
        }),
        3,
    );
    assert_eq!(
        ledger.agent(&id).unwrap().models(),
        &vec![(UNKNOWN.to_string(), usage(110, 0, 12))]
    );
}

#[test]
fn metadata_fills_parent_name_model_and_status() {
    let mut ledger = SessionUsage::new();
    let mut t = thread("child");
    t.parent_thread_id = Some("ignored".into());
    t.spawn = Some(SpawnSource { parent_thread_id: "root".into(), agent_path: Some("/root/worker".into()) });
    t.model = Some("luna".into());
    t.reasoning_effort = Some("medium".into());
    ledger.metadata(&t);
    let a = ledger.agent(&"child".to_string()).unwrap();
    assert_eq!(a.parent.as_deref(), Some("root"));
    assert_eq!(a.name, "/root/worker");
    assert_eq!(a.model, "luna");
    assert_eq!(a.reasoning_effort.as_deref(), Some("medium"));
    assert_eq!(a.status, "Idle");
    assert!(a.metadata_requested);

    let mut long = thread("x");
    long.agent_nickname = Some("é".repeat(130));
    ledger.metadata(&long);
    let a = ledger.agent(&"x".to_string()).unwrap();
    assert_eq!(a.name.chars().count(), 120);
    assert_eq!(a.model, UNKNOWN);

    let mut named = thread("y");
    named.name = Some("Planner".into());
    ledger.metadata(&named);
    assert_eq!(ledger.agent(&"y".to_string()).unwrap().name, "Planner");
    ledger.metadata(&thread("z"));
    assert_eq!(ledger.agent(&"z".to_string()).unwrap().name, "z");
}

#[test]
fn turns_are_timed_from_start_to_completion() {
    let mut ledger = SessionUsage::new();
    let id = "w".to_string();
    ledger.observe(&note("w", UsageEvent::TurnStarted { turn_id: "a".into() }), 1_000);
    ledger.observe(&note("w", UsageEvent::TurnStarted { turn_id: "b".into() }), 2_000);
    ledger.observe(&note("w", UsageEvent::TurnStarted { turn_id: "c".into() }), 3_000);
    assert_eq!(ledger.agent(&id).unwrap().status, "Running");
    assert_eq!(ledger.agent(&id).unwrap().model, UNKNOWN);
    ledger.observe(
        &note("w", UsageEvent::TurnCompleted { turn_id: "a".into(), duration_ms: Some(400), status: "Completed".into() }),
        5_000,
    );
    ledger.observe(
        &note("w", UsageEvent::TurnCompleted { turn_id: "b".into(), duration_ms: Some(-1), status: "Completed".into() }),
        5_000,
    );
    let a = ledger.agent(&id).unwrap();
    assert_eq!(a.status, "Completed");
    // 400 + 3000 + (6000 - 3000)
    assert_eq!(a.elapsed_ms(6_000), 6_400);
    ledger.observe(&note("w", UsageEvent::StatusChanged { status: "Active".into(), active: true }), 7_000);
    assert_eq!(ledger.agent(&id).unwrap().elapsed_ms(8_000), 8_400);
    ledger.observe(&note("w", UsageEvent::StatusChanged { status: "Idle".into(), active: false }), 9_000);
    let a = ledger.agent(&id).unwrap();
    assert_eq!(a.elapsed_ms(9_000), 9_400);
    assert_eq!(a.elapsed_ms(99_000), 9_400);
    assert_eq!(a.status, "Idle");
}

#[test]
fn settings_and_reroutes_change_the_current_model() {
    let mut ledger = SessionUsage::new();
    let id = "w".to_string();
    ledger.observe(&note("w", UsageEvent::SettingsUpdated { model: "astra".into(), effort: Some("high".into()) }), 0);
    assert_eq!(ledger.agent(&id).unwrap().model, "astra");
    assert_eq!(ledger.agent(&id).unwrap().reasoning_effort.as_deref(), Some("high"));
    ledger.observe(&note("w", UsageEvent::ModelRerouted { to_model: "luna".into() }), 0);
    assert_eq!(ledger.agent(&id).unwrap().model, "luna");
    ledger.observe(&Notification { target: None, event: UsageEvent::Closed }, 0);
    assert_eq!(ledger.len(), 1);
    ledger.observe(&note("v", UsageEvent::Other), 0);
    assert_eq!(ledger.len(), 2);
}

#[test]
fn thread_started_applies_metadata() {
    let mut ledger = SessionUsage::new();
    let mut t = thread("w");
    t.model = Some("astra".into());
    t.parent_thread_id = Some("root".into());
    ledger.observe(&note("w", UsageEvent::ThreadStarted(t)), 0);
    let a = ledger.agent(&"w".to_string()).unwrap();
    assert_eq!(a.model, "astra");
    assert_eq!(a.parent.as_deref(), Some("root"));
    assert_eq!(ledger.root(&"w".to_string()), "root");
    assert_eq!(ledger.root(&"root".to_string()), "root");
}

#[test]
fn thread_limit_marks_ledger_partial() {
    let mut ledger = SessionUsage::new();
    for i in (0..MAX_THREADS).rev() {
        ledger.store(&format!("t{i:05}"), AgentUsage::default());
    }
    assert!(!ledger.incomplete);
    ledger.observe(&note("t00000", UsageEvent::Closed), 0);
    assert!(!ledger.incomplete);
    ledger.observe(&note("late", UsageEvent::Closed), 0);
    assert!(ledger.incomplete);
    assert_eq!(ledger.len(), MAX_THREADS);
    assert!(ledger.agent(&"late".to_string()).is_none());
    ledger.incomplete = false;
    ledger.metadata(&thread("late2"));
    assert!(ledger.incomplete);
    assert!(ledger.agent(&"late2".to_string()).is_none());
}

#[test]
fn root_follows_parents_and_stops_on_cycles() {
    let mut ledger = SessionUsage::new();
    let mut a = AgentUsage::default();
    a.parent = Some("b".into());
    let mut b = AgentUsage::default();
    b.parent = Some("a".into());
    ledger.store(&"a".to_string(), a);
    ledger.store(&"b".to_string(), b);
    // Two kept threads: the walk follows two links and stops.
    assert_eq!(ledger.root(&"a".to_string()), "a");
    assert_eq!(ledger.root(&"c".to_string()), "c");
}

#[test]
fn root_of_an_acyclic_chain_is_parentless_and_its_own_root() {
    let mut ledger = SessionUsage::new();
    for (id, parent) in [("w", Some("x")), ("x", Some("y")), ("y", Some("z")), ("z", None)] {
        let mut a = AgentUsage::default();
        a.parent = parent.map(str::to_string);
        ledger.store(&id.to_string(), a);
    }
    let root = ledger.root(&"w".to_string());
    assert_eq!(root, "z");
    assert!(ledger.agent(&root).unwrap().parent.is_none());
    assert_eq!(ledger.root(&root), root);
    // A parent outside the ledger ends the chain too.
    let mut v = AgentUsage::default();
    v.parent = Some("outside".into());
    ledger.store(&"v".to_string(), v);
    let root = ledger.root(&"v".to_string());
    assert_eq!(root, "outside");
    assert!(ledger.agent(&root).is_none());
    assert_eq!(ledger.root(&root), root);
}

#[test]
fn ledger_order_is_checked() {
    let mut ledger = SessionUsage::new();
    assert!(ledger.is_wf());
    ledger.store(&"b".to_string(), AgentUsage::default());
    ledger.store(&"a".to_string(), AgentUsage::default());
    assert!(ledger.is_wf());
    assert!(AgentUsage::default().is_wf());
    let mut a = AgentUsage::default();
    a.record("m".to_string(), usage(1, 0, 1));
    a.record("k".to_string(), usage(1, 0, 1));
    assert!(a.is_wf());
    ledger.agents.swap(0, 1);
    assert!(!ledger.is_wf());
}
