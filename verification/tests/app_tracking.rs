use session_usage::ledger::{Notification, ThreadInfo, UsageEvent};
use session_usage::tokens::UsageBreakdown;
use session_usage::{usage, App, ChatView, UNKNOWN};

fn chat(thread: Option<&str>) -> ChatView {
    ChatView {
        thread_id: thread.map(str::to_string),
        current_model: "astra".to_string(),
        current_reasoning_effort: Some("high".to_string()),
        token_usage: UsageBreakdown {
            input_tokens: 100,
            cached_input_tokens: 50,
            cache_write_input_tokens: 0,
            output_tokens: 20,
            reasoning_output_tokens: 5,
        },
    }
}

fn info(id: &str, model: Option<&str>) -> ThreadInfo {
    ThreadInfo {
        id: id.to_string(),
        parent_thread_id: Some("main".to_string()),
        spawn: None,
        agent_nickname: Some("worker".to_string()),
        name: None,
        model: model.map(str::to_string),
        reasoning_effort: None,
        status: "Idle".to_string(),
    }
}

fn tokens(input: i64, cached: i64, output: i64) -> UsageBreakdown {
    UsageBreakdown {
        input_tokens: input,
        cached_input_tokens: cached,
        cache_write_input_tokens: 0,
        output_tokens: output,
        reasoning_output_tokens: 5,
    }
}

#[test]
fn app_tracks_background_usage_without_opening_dashboard() {
    let mut app = App::new(Some("main".to_string()));
    let event = || Notification {
        target: Some("sub".to_string()),
        event: UsageEvent::TokenUsageUpdated {
            turn_id: "turn".to_string(),
            total: tokens(100, 50, 20),
            last: tokens(100, 50, 20),
        },
    };
    let view = chat(Some("main"));
    let first = app.track_session_usage(&event(), &view, 0);
    let second = app.track_session_usage(&event(), &view, 1);
    assert_eq!(first.as_deref(), Some("sub"));
    assert_eq!(second, None);
    let sub = app.session_usage.agent(&"sub".to_string()).unwrap();
    assert_eq!(
        sub.models(),
        &vec![(
            UNKNOWN.to_string(),
            session_usage::Tokens { input: 100, cached: 50, write: 0, output: 20, reasoning: 5 }
        )]
    );
    let main = app.session_usage.agent(&"main".to_string()).unwrap();
    assert_eq!(main.model, "astra");
    assert_eq!(main.reasoning_effort.as_deref(), Some("high"));
    assert!(main.metadata_requested);

    app.apply_metadata_response(&"sub".to_string(), Some(info("sub", Some("luna"))));
    let sub = app.session_usage.agent(&"sub".to_string()).unwrap();
    assert_eq!(sub.model, "luna");
    assert_eq!(sub.parent.as_deref(), Some("main"));
    assert_eq!(sub.name, "worker");
    assert!(!app.session_usage.incomplete);
}

#[test]
fn live_model_wins_over_late_metadata_and_status_is_kept() {
    let mut app = App::new(None);
    let view = chat(None);
    let n = Notification {
        target: Some("sub".to_string()),
        event: UsageEvent::SettingsUpdated { model: "nova".to_string(), effort: None },
    };
    assert_eq!(app.track_session_usage(&n, &view, 0).as_deref(), Some("sub"));
    let started = Notification {
        target: Some("sub".to_string()),
        event: UsageEvent::TurnStarted { turn_id: "t".to_string() },
    };
    assert_eq!(app.track_session_usage(&started, &view, 1), None);
    app.apply_metadata_response(&"sub".to_string(), Some(info("sub", Some("luna"))));
    let sub = app.session_usage.agent(&"sub".to_string()).unwrap();
    assert_eq!(sub.model, "nova");
    assert_eq!(sub.status, "Running");
    app.apply_metadata_response(&"sub".to_string(), None);
    assert!(app.session_usage.incomplete);
}

#[test]
fn opening_dashboard_seeds_shown_thread_and_finds_root() {
    let mut app = App::new(Some("main".to_string()));
    assert!(app.open_session_usage(&chat(None), &vec![], true).is_none());
    let overlay = app
        .open_session_usage(&chat(Some("sub")), &vec![info("sub", None)], true)
        .expect("overlay");
    assert_eq!(overlay.root, "main");
    assert!(overlay.detailed);
    assert_eq!(overlay.title, "Detailed session usage");
    let sub = app.session_usage.agent(&"sub".to_string()).unwrap();
    assert_eq!(sub.model, UNKNOWN);
    assert_eq!(sub.previous, Some(session_usage::Tokens { input: 100, cached: 50, write: 0, output: 20, reasoning: 5 }));
    let overlay = app.open_session_usage(&chat(Some("main")), &vec![], false).expect("overlay");
    assert_eq!(overlay.root, "main");
    assert_eq!(overlay.title, "Session usage");
    let main = app.session_usage.agent(&"main".to_string()).unwrap();
    assert_eq!(main.model, "astra");
    assert_eq!(main.previous.map(|t| t.input), Some(100));
    let (parent, children) = app.session_usage.totals(&"main".to_string());
    assert_eq!(parent.input, 100);
    assert_eq!(children.input, 100);
    assert_eq!(app.session_usage.compact_counts(&"main".to_string()), (240, 120, 120));
    assert_eq!(usage(1, 2, 3).cached, 2);
}

#[test]
fn live_usage_line_toggles() {
    let mut app = App::new(None);
    assert!(!app.session_usage_live_visible);
    app.toggle_session_usage_live();
    assert!(app.session_usage_live_visible);
    app.toggle_session_usage_live();
    assert!(!app.session_usage_live_visible);
}
