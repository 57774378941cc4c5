use session_usage::dashboard::LineStyle;
use session_usage::ledger::{Notification, SessionUsage, UsageEvent};
use session_usage::{usage, AgentUsage, Tokens, UsageLine, UNKNOWN};

const NOW: u64 = 1_000_000;

fn agent(model: &str) -> AgentUsage {
    let mut a = AgentUsage::with_model(model.to_string());
    assert!(a.start_turn("turn".to_string(), NOW));
    a
}

fn models(a: &AgentUsage) -> Vec<(String, Tokens)> {
    a.models().clone()
}

fn render(line: &UsageLine) -> String {
    match line {
        UsageLine::Text { text, .. } => text.clone(),
        UsageLine::Activity { status, model, reasoning, turns, active_ms } => format!(
            "  {status} · current model {model} · reasoning {reasoning} · {turns} observed turns · active time {:.1}s",
            *active_ms as f64 / 1000.0
        ),
    }
}

fn text(lines: &[UsageLine]) -> String {
    lines.iter().map(render).collect::<Vec<_>>().join("\n")
}

#[test]
fn cumulative_updates_deduplicate_and_split_model_changes() {
    let turn = "turn".to_string();
    let mut agent = agent("astra");
    let first = usage(1000, 800, 100);
    agent.update(first, first, &turn);
    agent.update(first, first, &turn);
    agent.model = "luna".into();
    agent.update(usage(1300, 1000, 150), usage(300, 200, 50), &turn);
    // A delayed snapshot must not lower the baseline or count the next update twice.
    agent.update(first, first, &turn);
    agent.update(usage(1300, 1000, 150), usage(300, 200, 50), &turn);
    agent.update(usage(1300, 900, 150), usage(300, 100, 50), &turn);
    agent.update(usage(1300, 1000, 150), usage(300, 200, 50), &turn);
    assert_eq!(
        models(&agent),
        vec![("astra".to_string(), first), ("luna".to_string(), usage(300, 200, 50))]
    );
}

#[test]
fn resume_keeps_unknown_history_separate_from_live_model() {
    let mut agent = agent("luna");
    agent.update(usage(1300, 1000, 150), usage(300, 200, 50), &"turn".to_string());
    assert_eq!(
        models(&agent),
        vec![
            ("luna".to_string(), usage(300, 200, 50)),
            (UNKNOWN.to_string(), usage(1000, 800, 100)),
        ]
    );
    let mut cold = AgentUsage::with_model("luna".to_string());
    cold.update(usage(1300, 1000, 150), usage(300, 200, 50), &"old-turn".to_string());
    assert_eq!(models(&cold), vec![(UNKNOWN.to_string(), usage(1300, 1000, 150))]);
}

#[test]
fn close_retains_usage_and_stops_active_clock() {
    let id = "019a0000-0000-7000-8000-000000000001".to_string();
    let mut worker = agent("luna");
    worker.update(usage(200, 100, 20), usage(200, 100, 20), &"turn".to_string());
    let mut ledger = SessionUsage::new();
    ledger.store(&id, worker);
    ledger.observe(
        &Notification { target: Some(id.clone()), event: UsageEvent::Closed },
        NOW + 5_000,
    );
    let worker = ledger.agent(&id).expect("worker");
    assert_eq!(models(worker), vec![("luna".to_string(), usage(200, 100, 20))]);
    assert_eq!(worker.status, "Closed");
    assert_eq!(worker.elapsed_ms(NOW + 5_000), worker.elapsed_ms(NOW + 605_000));
    assert_eq!(worker.elapsed_ms(NOW + 605_000), 5_000);
}

fn dashboard() -> SessionUsage {
    let turn = "turn".to_string();
    let mut parent = AgentUsage::with_model("astra".to_string());
    parent.name = "Coordinator".into();
    parent.status = "Running".into();
    assert!(parent.start_turn(turn.clone(), NOW - 10_000));
    parent.update(usage(1000, 800, 100), usage(1000, 800, 100), &turn);
    let mut child = AgentUsage::with_model("luna".to_string());
    child.parent = Some("root".into());
    child.name = "/root/tests".into();
    child.status = "Completed".into();
    assert!(child.start_turn(turn.clone(), NOW));
    child.complete_turn(&turn, Some(2500), NOW);
    child.update(usage(400, 200, 50), usage(400, 200, 50), &turn);
    let mut nested = AgentUsage::with_model("luna".to_string());
    nested.parent = Some("child".into());
    nested.name = "/root/tests/check".into();
    nested.status = "Completed".into();
    assert!(nested.start_turn(turn.clone(), NOW));
    nested.complete_turn(&turn, Some(1000), NOW);
    nested.update(usage(200, 100, 25), usage(200, 100, 25), &turn);
    let mut other = agent("other-session");
    other.update(usage(99999, 0, 99999), usage(99999, 0, 99999), &turn);
    let mut ledger = SessionUsage::new();
    ledger.store(&"root".to_string(), parent);
    ledger.store(&"child".to_string(), child);
    ledger.store(&"nested".to_string(), nested);
    ledger.store(&"other".to_string(), other);
    ledger
}

#[test]
fn dashboard_groups_descendants_without_other_sessions_or_double_counting_cache() {
    let ledger = dashboard();
    let root = "root".to_string();
    let text_summary = text(&ledger.lines(&root, false, NOW));
    assert!(text_summary.contains("600 input · 300 cached · 75 output"));
    assert!(text_summary.contains("1775 total"));
    assert!(!text_summary.contains("other-session"));
    let detail = text(&ledger.lines(&root, true, NOW));
    assert!(detail.contains("Parent: Coordinator"));
    assert!(detail.contains("Agent: /root/tests/check"));
    assert!(detail.contains("  ID nested · parent child"));
    assert!(detail.contains("active time 10.0s"));
    assert!(detail.contains("active time 2.5s"));
    assert!(!detail.contains("other-session"));
}

#[test]
fn missing_usage_and_incomplete_observation_are_visible() {
    let mut ledger = SessionUsage::new();
    ledger.incomplete = true;
    let lines = ledger.lines(&"root".to_string(), false, NOW);
    let text = text(&lines);
    assert!(text.contains("Waiting for usage"));
    assert!(text.contains("Partial data"));
    assert!(matches!(
        lines.last(),
        Some(UsageLine::Text { style: LineStyle::Attention, .. })
    ));
}

#[test]
fn live_view_reads_new_usage_and_grows_without_reopening() {
    let root = "parent".to_string();
    let mut ledger = SessionUsage::new();
    let before = ledger.lines(&root, true, NOW).len();
    let mut agent = ledger.take_or_fresh(&root);
    agent.name = "Coordinator".into();
    agent.model = "astra".into();
    agent.status = "Completed".into();
    let baseline = Tokens { input: 100, output: 10, ..Default::default() };
    agent.previous = Some(baseline);
    agent.record("astra".to_string(), baseline);
    ledger.store(&root, agent);
    let after = ledger.lines(&root, true, NOW);
    assert!(after.len() > before);
    let shown = text(&after);
    assert!(shown.contains("Parent: Coordinator"));
    assert!(shown.contains("Parent · astra"));
    assert!(shown.contains("110 total · 100 input · 0 cached · 10 output"));
    assert_eq!(ledger.lines(&root, true, NOW + 1_000).len(), after.len());
}
