//! The application state around the ledger: what the chat view shows, which
//! thread is primary, and whether the live usage line is shown.
use vstd::prelude::*;
use crate::agent::{AgentView, clone_opt, opt_view, unknown_label, unknown_string};
use crate::keyed::{entries_map, lemma_entry_in_map};
use crate::ledger::{SessionUsage, SessionView, ThreadInfo, Notification, MAX_THREADS, lemma_insert_over};
use crate::text::text_of;
use crate::tokens::{Tokens, UsageBreakdown};

verus! {

/// What the chat view knows of the thread it shows.
#[derive(Debug)]
pub struct ChatView {
    pub thread_id: Option<String>,
    pub current_model: String,
    /// The reasoning effort, as displayed.
    pub current_reasoning_effort: Option<String>,
    /// The cumulative usage the chat view has seen for its thread.
    pub token_usage: UsageBreakdown,
}

/// The usage dashboard to show: for which root, in how much detail, under
/// which title.
#[derive(Debug)]
pub struct UsageOverlay {
    pub root: String,
    pub detailed: bool,
    pub title: String,
}

/// The application state that usage accounting reads and changes.
#[derive(Debug)]
pub struct App {
    pub session_usage: SessionUsage,
    /// The compact live usage line is shown.
    pub session_usage_live_visible: bool,
    pub primary_thread_id: Option<String>,
}

/// The cumulative usage of the chat view as counters; it has no cache writes.
pub open spec fn chat_total(u: UsageBreakdown) -> Tokens {
    Tokens {
        input: u.input_tokens,
        cached: u.cached_input_tokens,
        write: 0,
        output: u.output_tokens,
        reasoning: u.reasoning_output_tokens,
    }
}

impl AgentView {
    /// The agent with the chat view's model and reasoning effort where it
    /// knows none.
    pub open spec fn with_chat_defaults(self, chat: ChatView) -> AgentView {
        AgentView {
            model: if self.model.len() == 0 { chat.current_model@ } else { self.model },
            reasoning_effort: match self.reasoning_effort {
                Some(e) => Some(e),
                None => opt_view(chat.current_reasoning_effort),
            },
            ..self
        }
    }

    /// The agent seeded with the chat view's cumulative usage, when it has
    /// reported none and its history was not reset.
    pub open spec fn seeded(self, chat: ChatView) -> AgentView {
        let total = chat_total(chat.token_usage);
        if self.previous is None && !self.reset && total != Tokens::zero() {
            self.after_update(total, Tokens::zero(), Seq::empty())
        } else {
            self
        }
    }
}

impl SessionView {
    /// The ledger with the chat view's thread known, its model and effort
    /// filled in from the chat view; the primary thread needs no metadata
    /// request.
    pub open spec fn after_selected(self, chat: ChatView, primary: Option<Seq<char>>) -> SessionView {
        match chat.thread_id {
            None => self,
            Some(id) => {
                let a = self.agent_or_fresh(id@, Seq::empty()).with_chat_defaults(chat);
                let a = if primary == Some(id@) {
                    AgentView { metadata_requested: true, ..a }
                } else {
                    a
                };
                SessionView { agents: self.agents.insert(id@, a), ..self }
            },
        }
    }

    /// Whether the metadata of `target` is to be requested: it is kept and
    /// was not requested yet.
    pub open spec fn needs_metadata(self, target: Option<String>) -> bool {
        match target {
            Some(id) => self.agents.contains_key(id@) && !self.agents[id@].metadata_requested,
            None => false,
        }
    }

    /// The ledger with the metadata of `target` marked as requested when it
    /// needs it.
    pub open spec fn after_request(self, target: Option<String>) -> SessionView {
        if self.needs_metadata(target) {
            let id = target->0@;
            SessionView {
                agents: self.agents.insert(id, AgentView { metadata_requested: true, ..self.agents[id] }),
                ..self
            }
        } else {
            self
        }
    }

    /// The ledger after the answer to the metadata request of `id`: a failed
    /// or late request marks it incomplete; otherwise the metadata is applied,
    /// except a model older than the one already known, and the status seen
    /// live is kept.
    pub open spec fn after_metadata_response(self, id: Seq<char>, response: Option<ThreadInfo>) -> SessionView {
        match response {
            None => SessionView { incomplete: true, ..self },
            Some(t) => {
                let known = self.agents.contains_key(id);
                let t = if known && self.agents[id].model.len() != 0 && self.agents[id].model != unknown_label() {
                    ThreadInfo { model: None, ..t }
                } else {
                    t
                };
                let s = self.after_metadata(t);
                if known && s.agents.contains_key(id) {
                    SessionView {
                        agents: s.agents.insert(id, AgentView { status: self.agents[id].status, ..s.agents[id] }),
                        ..s
                    }
                } else {
                    s
                }
            },
        }
    }

    /// The ledger with the chat view's thread known and seeded, after the
    /// overview threads not yet known got their metadata.
    pub open spec fn after_open(self, chat: ChatView, overview: Seq<ThreadInfo>) -> SessionView {
        let s = self.after_overview(overview);
        match chat.thread_id {
            None => self,
            Some(id) => {
                let a = s.agent_or_fresh(id@, Seq::empty()).with_chat_defaults(chat).seeded(chat);
                SessionView { agents: s.agents.insert(id@, a), ..s }
            },
        }
    }

    /// The ledger after the metadata of each overview thread not yet known
    /// is applied, in order.
    pub open spec fn after_overview(self, threads: Seq<ThreadInfo>) -> SessionView
        decreases threads.len(),
    {
        if threads.len() == 0 {
            self
        } else {
            let s = self.after_overview(threads.drop_last());
            let t = threads.last();
            if s.agents.contains_key(t.id@) {
                s
            } else {
                s.after_metadata(t)
            }
        }
    }
}

/// The title of the dashboard.
pub open spec fn overlay_title(detailed: bool) -> Seq<char> {
    if detailed {
        "Detailed session usage"@
    } else {
        "Session usage"@
    }
}

impl App {
    /// A new application state with an empty ledger.
    pub fn new(primary_thread_id: Option<String>) -> (r: App)
        ensures
            r.session_usage.wf(),
            r.session_usage@.agents == Map::<Seq<char>, AgentView>::empty(),
            !r.session_usage@.incomplete,
            !r.session_usage_live_visible,
            r.primary_thread_id == primary_thread_id,
    {
        App { session_usage: SessionUsage::new(), session_usage_live_visible: false, primary_thread_id }
    }

    /// Shows or hides the compact live usage line.
    pub fn toggle_session_usage_live(&mut self)
        ensures
            final(self).session_usage_live_visible == !old(self).session_usage_live_visible,
            final(self).session_usage == old(self).session_usage,
            final(self).primary_thread_id == old(self).primary_thread_id,
    {
        self.session_usage_live_visible = !self.session_usage_live_visible;
    }

    /// Accounts for notification `n` received at `now_ms` while the chat view
    /// shows `chat`. Returns the thread whose metadata is to be read from the
    /// server: the target of `n`, the first time it is seen without metadata.
    pub fn track_session_usage(&mut self, n: &Notification, chat: &ChatView, now_ms: u64) -> (request: Option<String>)
        requires
            old(self).session_usage.wf(),
        ensures
            final(self).session_usage.wf(),
            final(self).primary_thread_id == old(self).primary_thread_id,
            final(self).session_usage_live_visible == old(self).session_usage_live_visible,
            ({
                let s = old(self).session_usage@.after_selected(*chat, opt_view(old(self).primary_thread_id))
                    .after_observe(*n, now_ms);
                &&& final(self).session_usage@ == s.after_request(n.target)
                &&& request == if s.needs_metadata(n.target) { n.target } else { None }
            }),
    {
        match &chat.thread_id {
            Some(id) => {
                let primary = match &self.primary_thread_id {
                    Some(p) => *p == *id,
                    None => false,
                };
                let ghost before = self.session_usage@;
                let mut agent = self.session_usage.take_or_fresh(id);
                let ghost mid = self.session_usage@;
                if agent.model.as_str().is_empty() {
                    agent.model = chat.current_model.clone();
                }
                if agent.reasoning_effort.is_none() {
                    agent.reasoning_effort = clone_opt(&chat.current_reasoning_effort);
                }
                if primary {
                    agent.metadata_requested = true;
                }
                let ghost av = agent@;
                self.session_usage.store(id, agent);
                proof {
                    lemma_insert_over(mid.agents, before.agents, id@, av);
                    assert(primary == (opt_view(old(self).primary_thread_id) == Some(id@)));
                    assert(self.session_usage@ =~= old(self).session_usage@.after_selected(*chat, opt_view(old(self).primary_thread_id)));
                }
            },
            None => {},
        }
        self.session_usage.observe(n, now_ms);
        let ghost s = self.session_usage@;
        let id = match &n.target {
            Some(id) => id,
            None => return None,
        };
        match self.session_usage.agent(id) {
            Some(a) => if a.metadata_requested {
                return None;
            },
            None => return None,
        }
        let mut agent = self.session_usage.take_or_fresh(id);
        let ghost mid = self.session_usage@;
        agent.metadata_requested = true;
        let ghost av = agent@;
        self.session_usage.store(id, agent);
        proof {
            lemma_insert_over(mid.agents, s.agents, id@, av);
            assert(self.session_usage@ =~= s.after_request(n.target));
        }
        Some(id.clone())
    }

    /// Applies the server's answer to the metadata request for `id`;
    /// `response` is `None` when the request failed or timed out.
    pub fn apply_metadata_response(&mut self, id: &String, response: Option<ThreadInfo>)
        requires
            old(self).session_usage.wf(),
        ensures
            final(self).session_usage.wf(),
            final(self).primary_thread_id == old(self).primary_thread_id,
            final(self).session_usage_live_visible == old(self).session_usage_live_visible,
            final(self).session_usage@ == old(self).session_usage@.after_metadata_response(id@, response),
    {
        let mut t = match response {
            Some(t) => t,
            None => {
                self.session_usage.incomplete = true;
                return;
            },
        };
        let ghost t0 = t;
        let status = match self.session_usage.agent(id) {
            Some(a) => {
                let unknown = unknown_string();
                if !a.model.as_str().is_empty() && !(a.model == unknown) {
                    t.model = None;
                }
                Some(a.status.clone())
            },
            None => None,
        };
        self.session_usage.metadata(&t);
        let ghost s = self.session_usage@;
        match status {
            Some(status) => {
                if self.session_usage.agent(id).is_some() {
                    let mut agent = self.session_usage.take_or_fresh(id);
                    let ghost mid = self.session_usage@;
                    agent.status = status;
                    let ghost av = agent@;
                    self.session_usage.store(id, agent);
                    proof {
                        lemma_insert_over(mid.agents, s.agents, id@, av);
                    }
                }
            },
            None => {},
        }
        proof {
            assert(self.session_usage@ =~= old(self).session_usage@.after_metadata_response(id@, Some(t0)));
        }
    }

    /// Prepares the usage dashboard for the thread the chat view shows:
    /// applies the metadata of overview threads not yet known, fills in the
    /// model and effort of the shown thread, seeds its usage from the chat
    /// view when none was reported, and returns the dashboard for its root.
    /// Returns `None`, changing nothing, when the chat view shows no thread.
    pub fn open_session_usage(&mut self, chat: &ChatView, overview: &Vec<ThreadInfo>, detailed: bool) -> (overlay: Option<UsageOverlay>)
        requires
            old(self).session_usage.wf(),
        ensures
            final(self).session_usage.wf(),
            final(self).primary_thread_id == old(self).primary_thread_id,
            final(self).session_usage_live_visible == old(self).session_usage_live_visible,
            final(self).session_usage@ == old(self).session_usage@.after_open(*chat, overview@),
            chat.thread_id is None <==> overlay is None,
            match overlay {
                Some(o) => o.root@ == final(self).session_usage@.root_of(chat.thread_id->0@)
                    && o.detailed == detailed && o.title@ == overlay_title(detailed),
                None => true,
            },
    {
        let id = match &chat.thread_id {
            Some(id) => id,
            None => return None,
        };
        let mut i: usize = 0;
        while i < overview.len()
            invariant
                i <= overview@.len(),
                self.session_usage.wf(),
                self.session_usage@ == old(self).session_usage@.after_overview(overview@.take(i as int)),
                self.primary_thread_id == old(self).primary_thread_id,
                self.session_usage_live_visible == old(self).session_usage_live_visible,
            decreases overview@.len() - i,
        {
            proof {
                assert(overview@.take(i + 1).drop_last() =~= overview@.take(i as int));
            }
            let thread = &overview[i];
            if self.session_usage.agent(&thread.id).is_none() {
                self.session_usage.metadata(thread);
            }
            i = i + 1;
        }
        proof {
            assert(overview@.take(overview@.len() as int) =~= overview@);
        }
        let ghost s = self.session_usage@;
        let mut agent = self.session_usage.take_or_fresh(id);
        let ghost mid = self.session_usage@;
        if agent.model.as_str().is_empty() {
            agent.model = chat.current_model.clone();
        }
        if agent.reasoning_effort.is_none() {
            agent.reasoning_effort = clone_opt(&chat.current_reasoning_effort);
        }
        if agent.previous.is_none() && !agent.reset {
            let u = chat.token_usage;
            let total = Tokens {
                input: u.input_tokens,
                cached: u.cached_input_tokens,
                output: u.output_tokens,
                reasoning: u.reasoning_output_tokens,
                write: 0,
            };
            if !total.is_zero() {
                let empty = String::new();
                agent.update(total, Tokens::default(), &empty);
            }
        }
        let ghost av = agent@;
        self.session_usage.store(id, agent);
        proof {
            lemma_insert_over(mid.agents, s.agents, id@, av);
            assert(self.session_usage@ =~= old(self).session_usage@.after_open(*chat, overview@));
        }
        let root = self.session_usage.root(id);
        let title = if detailed {
            text_of("Detailed session usage")
        } else {
            text_of("Session usage")
        };
        Some(UsageOverlay { root, detailed, title })
    }
}

} // verus!

verus! {

/// Thread metadata is read at most once: once requested for a thread, no
/// later notification, in any chat view, asks for it again.
pub proof fn lemma_metadata_requested_once(
    s: SessionView,
    chat: ChatView,
    primary: Option<Seq<char>>,
    n: Notification,
    now_ms: u64,
    id: Seq<char>,
)
    requires
        s.agents.contains_key(id),
        s.agents[id].metadata_requested,
    ensures
        ({
            let t = s.after_selected(chat, primary).after_observe(n, now_ms);
            &&& t.agents.contains_key(id)
            &&& t.agents[id].metadata_requested
            &&& (n.target matches Some(x) && x@ == id) ==> !t.needs_metadata(n.target)
        }),
{
    let s1 = s.after_selected(chat, primary);
    assert(s1.agents.contains_key(id) && s1.agents[id].metadata_requested);
    let s2 = match n.event {
        crate::ledger::UsageEvent::ThreadStarted(t) => s1.after_metadata(t),
        _ => s1,
    };
    assert(s2.agents.contains_key(id) && s2.agents[id].metadata_requested);
    let s3 = s2.after_target(n, now_ms);
    match n.target {
        Some(x) => {
            if x@ == id && s2.has_room(x@) {
                let (a, flag) = s2.agent_or_fresh(x@, unknown_label()).after_event(n.event, now_ms);
                assert(a.metadata_requested);
            }
        },
        None => {},
    }
}

/// Requesting metadata marks it requested: the same target is not asked for
/// twice in a row.
pub proof fn lemma_request_marks_requested(s: SessionView, target: Option<String>)
    ensures
        !s.after_request(target).needs_metadata(target),
{
}

/// A thread that is new to the ledger and is not the primary one has its
/// metadata read when a notification concerns it, whichever thread the chat
/// view shows; only a thread-started notification, which brings the
/// metadata itself, needs no read.
pub proof fn lemma_new_thread_metadata_requested(
    s: SessionView,
    chat: ChatView,
    primary: Option<Seq<char>>,
    n: Notification,
    now_ms: u64,
)
    requires
        s.agents.dom().finite(),
        s.agents.len() + 1 < MAX_THREADS,
        n.target is Some,
        !s.agents.contains_key(n.target->0@),
        primary != Some(n.target->0@),
        !(n.event is ThreadStarted),
    ensures
        s.after_selected(chat, primary).after_observe(n, now_ms).needs_metadata(n.target),
{
    let id = n.target->0@;
    let s1 = s.after_selected(chat, primary);
    assert(s1.agents.dom().finite() && s1.agents.len() <= s.agents.len() + 1) by {
        match chat.thread_id {
            Some(x) => {
                if s.agents.contains_key(x@) {
                    assert(s1.agents.dom() =~= s.agents.dom());
                } else {
                    assert(s1.agents.dom() =~= s.agents.dom().insert(x@));
                }
            },
            None => {},
        }
    }
    assert(s1.has_room(id));
    assert(s1.agents.contains_key(id) ==> !s1.agents[id].metadata_requested);
    let (a, flag) = s1.agent_or_fresh(id, unknown_label()).after_event(n.event, now_ms);
    assert(!a.metadata_requested);
}

} // verus!
