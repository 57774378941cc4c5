//! The session ledger: every agent thread seen, its usage, and how server
//! notifications change it.
use vstd::prelude::*;
use crate::agent::{AgentUsage, AgentView, Turn, MAX_TURNS, clone_opt, opt_view, unknown_label,
    unknown_string, lemma_map_values_entries, tok_field, tokens_at, recent_part, recorded};
use crate::keyed::{sorted_keys, is_sorted, entries_map, has_key, key_index, find_key, insert_sorted,
    lemma_entry_in_map, lemma_update_value, lemma_map_len};
use crate::text::text_of;
use crate::tokens::{Tokens, UsageBreakdown};

verus! {

/// At most this many agent threads are kept; later ones mark the ledger
/// incomplete.
pub const MAX_THREADS: usize = 4096;

/// A display name is cut to this many characters.
pub const MAX_NAME_CHARS: usize = 120;

/// How a sub-agent thread was spawned.
#[derive(Debug)]
pub struct SpawnSource {
    pub parent_thread_id: String,
    pub agent_path: Option<String>,
}

/// Thread metadata as the server reports it.
#[derive(Debug)]
pub struct ThreadInfo {
    pub id: String,
    pub parent_thread_id: Option<String>,
    /// Set when the thread was spawned by another agent.
    pub spawn: Option<SpawnSource>,
    pub agent_nickname: Option<String>,
    pub name: Option<String>,
    pub model: Option<String>,
    /// The reasoning effort, as displayed.
    pub reasoning_effort: Option<String>,
    /// The thread status, as displayed.
    pub status: String,
}

/// What a server notification says, as far as usage accounting reads it.
#[derive(Debug)]
pub enum UsageEvent {
    ThreadStarted(ThreadInfo),
    TokenUsageUpdated { turn_id: String, total: UsageBreakdown, last: UsageBreakdown },
    SettingsUpdated { model: String, effort: Option<String> },
    ModelRerouted { to_model: String },
    TurnStarted { turn_id: String },
    TurnCompleted { turn_id: String, duration_ms: Option<i64>, status: String },
    /// `active` tells whether the new status is an active one.
    StatusChanged { status: String, active: bool },
    /// The thread was closed, archived or deleted.
    Closed,
    /// The thread history was rolled back.
    Reverted,
    /// Any other notification.
    Other,
}

/// A server notification: the thread it concerns, if any, and what it says.
#[derive(Debug)]
pub struct Notification {
    pub target: Option<String>,
    pub event: UsageEvent,
}

/// The ledger as values.
#[verifier::ext_equal]
pub struct SessionView {
    pub agents: Map<Seq<char>, AgentView>,
    pub incomplete: bool,
}

/// Maps that agree but at `k` agree everywhere once `k` is set alike.
pub proof fn lemma_insert_over<K, V>(m1: Map<K, V>, m2: Map<K, V>, k: K, v: V)
    requires
        m1.remove(k) == m2.remove(k),
    ensures
        m1.insert(k, v) == m2.insert(k, v),
{
    assert forall|x: K| #[trigger] m1.insert(k, v).contains_key(x) <==> m2.insert(k, v).contains_key(x) by {
        if x != k {
            assert(m1.contains_key(x) == m1.remove(k).contains_key(x));
            assert(m2.contains_key(x) == m2.remove(k).contains_key(x));
        }
    }
    assert forall|x: K| #[trigger] m1.insert(k, v).contains_key(x) implies m1.insert(k, v)[x] == m2.insert(k, v)[x] by {
        if x != k {
            assert(m1[x] == m1.remove(k)[x]);
            assert(m2[x] == m2.remove(k)[x]);
        }
    }
    assert(m1.insert(k, v) =~= m2.insert(k, v));
}

/// The first `n` characters of `s`.
pub open spec fn take_chars(s: Seq<char>, n: nat) -> Seq<char> {
    if s.len() <= n {
        s
    } else {
        s.subrange(0, n as int)
    }
}

/// The name a thread is shown under when no agent path is known: its
/// nickname, else its name, else its id.
pub open spec fn display_source(t: ThreadInfo) -> Seq<char> {
    match t.agent_nickname {
        Some(n) => n@,
        None => match t.name {
            Some(n) => n@,
            None => t.id@,
        },
    }
}

impl AgentView {
    /// The agent after thread metadata `t` is applied.
    pub open spec fn with_metadata(self, t: ThreadInfo) -> AgentView {
        let parent = match t.spawn {
            Some(sp) => Some(sp.parent_thread_id@),
            None => opt_view(t.parent_thread_id),
        };
        let named = match t.spawn {
            Some(sp) => match sp.agent_path {
                Some(p) => p@,
                None => self.name,
            },
            None => self.name,
        };
        let name = if named.len() == 0 {
            take_chars(display_source(t), MAX_NAME_CHARS as nat)
        } else {
            named
        };
        let model = match t.model {
            Some(m) => m@,
            None => if self.model.len() == 0 {
                unknown_label()
            } else {
                self.model
            },
        };
        AgentView {
            metadata_requested: true,
            parent,
            name,
            model,
            reasoning_effort: opt_view(t.reasoning_effort),
            status: t.status@,
            ..self
        }
    }

    /// The agent after event `ev` at `now_ms`, and whether the ledger becomes
    /// incomplete by it.
    pub open spec fn after_event(self, ev: UsageEvent, now_ms: u64) -> (AgentView, bool) {
        match ev {
            UsageEvent::TokenUsageUpdated { turn_id, total, last } => (
                self.after_update(
                    Tokens::spec_from_usage(total),
                    Tokens::spec_from_usage(last),
                    turn_id@,
                ),
                false,
            ),
            UsageEvent::SettingsUpdated { model, effort } => (
                AgentView { model: model@, reasoning_effort: opt_view(effort), ..self },
                false,
            ),
            UsageEvent::ModelRerouted { to_model } => (AgentView { model: to_model@, ..self }, false),
            UsageEvent::TurnStarted { turn_id } => if self.turns.len() < MAX_TURNS {
                (AgentView { status: "Running"@, ..self.after_start_turn(turn_id@, now_ms) }, false)
            } else {
                (AgentView { status: "Running"@, ..self }, true)
            },
            UsageEvent::TurnCompleted { turn_id, duration_ms, status } => (
                AgentView { status: status@, ..self.after_complete_turn(turn_id@, duration_ms, now_ms) },
                false,
            ),
            UsageEvent::StatusChanged { status, active } => if active {
                (AgentView { status: status@, ..self }, false)
            } else {
                (AgentView { status: status@, ..self.after_close_turns(now_ms) }, false)
            },
            UsageEvent::Closed => (AgentView { status: "Closed"@, ..self.after_close_turns(now_ms) }, false),
            UsageEvent::Reverted => (AgentView { previous: None, reset: true, ..self }, true),
            _ => (self, false),
        }
    }
}

impl SessionView {
    /// The agent kept under `id`, or a fresh one whose model is `model`.
    pub open spec fn agent_or_fresh(self, id: Seq<char>, model: Seq<char>) -> AgentView {
        if self.agents.contains_key(id) {
            self.agents[id]
        } else {
            AgentView::fresh(model)
        }
    }

    /// There is room for thread `id`: it is kept already, or fewer than
    /// [`MAX_THREADS`] threads are.
    pub open spec fn has_room(self, id: Seq<char>) -> bool {
        self.agents.contains_key(id) || self.agents.len() < MAX_THREADS
    }

    /// The ledger after thread metadata `t` is applied.
    pub open spec fn after_metadata(self, t: ThreadInfo) -> SessionView {
        if !self.has_room(t.id@) {
            SessionView { incomplete: true, ..self }
        } else {
            SessionView {
                agents: self.agents.insert(
                    t.id@,
                    self.agent_or_fresh(t.id@, Seq::empty()).with_metadata(t),
                ),
                ..self
            }
        }
    }

    /// The ledger after the part of notification `n` that concerns its
    /// target thread.
    pub open spec fn after_target(self, n: Notification, now_ms: u64) -> SessionView {
        match n.target {
            None => self,
            Some(id) => if !self.has_room(id@) {
                SessionView { incomplete: true, ..self }
            } else {
                let (a, flag) = self.agent_or_fresh(id@, unknown_label()).after_event(n.event, now_ms);
                SessionView { agents: self.agents.insert(id@, a), incomplete: self.incomplete || flag }
            },
        }
    }

    /// The ledger after notification `n` at `now_ms`.
    pub open spec fn after_observe(self, n: Notification, now_ms: u64) -> SessionView {
        let s = match n.event {
            UsageEvent::ThreadStarted(t) => self.after_metadata(t),
            _ => self,
        };
        s.after_target(n, now_ms)
    }

    /// Where following parent links from `id` for at most `steps` steps ends.
    pub open spec fn walk(self, id: Seq<char>, steps: nat) -> Seq<char>
        decreases steps,
    {
        if steps == 0 {
            id
        } else if self.agents.contains_key(id) && self.agents[id].parent is Some {
            self.walk(self.agents[id].parent->0, (steps - 1) as nat)
        } else {
            id
        }
    }

    /// Thread `id` is kept and its parent is known.
    pub open spec fn has_parent(self, id: Seq<char>) -> bool {
        self.agents.contains_key(id) && self.agents[id].parent is Some
    }

    /// One step along the parent links from `id`: its parent, or `id`
    /// itself when it has none.
    pub open spec fn step(self, id: Seq<char>) -> Seq<char> {
        if self.has_parent(id) {
            self.agents[id].parent->0
        } else {
            id
        }
    }

    /// The parent links from `id` hold no cycle within as many steps as
    /// there are kept threads: no thread with a parent comes back later on
    /// the chain.
    pub open spec fn chain_acyclic(self, id: Seq<char>) -> bool {
        forall|i: nat, j: nat| #![trigger self.walk(id, i), self.walk(id, j)]
            i < j <= self.agents.len() && self.has_parent(self.walk(id, i))
                ==> self.walk(id, i) != self.walk(id, j)
    }

    /// The root of `id`: where its parent links lead, followed at most once
    /// per kept thread.
    pub open spec fn root_of(self, id: Seq<char>) -> Seq<char> {
        self.walk(id, self.agents.len())
    }
}

/// The session ledger.
#[derive(Debug)]
pub struct SessionUsage {
    /// Agents by thread id, in id order.
    pub agents: Vec<(String, AgentUsage)>,
    /// Some details may be missing: metadata could not be loaded, history
    /// changed, or a tracking limit was reached.
    pub incomplete: bool,
}

impl View for SessionUsage {
    type V = SessionView;

    open spec fn view(&self) -> SessionView {
        SessionView {
            agents: entries_map(self.agents@).map_values(|a: AgentUsage| a@),
            incomplete: self.incomplete,
        }
    }
}

impl SessionUsage {
    /// Agents are in id order and each is well formed.
    pub open spec fn wf(&self) -> bool {
        &&& sorted_keys(self.agents@)
        &&& forall|i: int| 0 <= i < self.agents@.len() ==> (#[trigger] self.agents@[i]).1.wf()
    }

    /// Whether the ledger is well formed; its fields can be written from
    /// outside, so a caller that did so checks this before the next call.
    pub fn is_wf(&self) -> (r: bool)
        ensures
            r == self.wf(),
    {
        if !is_sorted(&self.agents) {
            return false;
        }
        let n = self.agents.len();
        let mut i: usize = 0;
        while i < n
            invariant
                n == self.agents@.len(),
                i <= n,
                forall|j: int| 0 <= j < i ==> (#[trigger] self.agents@[j]).1.wf(),
            decreases n - i,
        {
            if !self.agents[i].1.is_wf() {
                return false;
            }
            i = i + 1;
        }
        true
    }

    /// An empty ledger.
    pub fn new() -> (r: SessionUsage)
        ensures
            r.wf(),
            r@.agents == Map::<Seq<char>, AgentView>::empty(),
            !r@.incomplete,
    {
        let r = SessionUsage { agents: Vec::new(), incomplete: false };
        proof {
            assert(r@.agents =~= Map::<Seq<char>, AgentView>::empty());
        }
        r
    }

    /// The agent kept under `id`, if any.
    pub fn agent(&self, id: &String) -> (r: Option<&AgentUsage>)
        requires
            self.wf(),
        ensures
            match r {
                Some(a) => self@.agents.contains_key(id@) && a@ == self@.agents[id@] && a.wf(),
                None => !self@.agents.contains_key(id@),
            },
    {
        match find_key(&self.agents, id) {
            Some(i) => {
                proof {
                    lemma_entry_in_map(self.agents@, i as int);
                }
                Some(&self.agents[i].1)
            },
            None => None,
        }
    }

    /// Number of agents kept.
    pub fn len(&self) -> (r: usize)
        requires
            self.wf(),
        ensures
            r == self@.agents.len(),
    {
        proof {
            self.lemma_view_len();
        }
        self.agents.len()
    }

    proof fn lemma_view_len(&self)
        requires
            sorted_keys(self.agents@),
        ensures
            self@.agents.len() == self.agents@.len(),
            self@.agents.dom().finite(),
    {
        lemma_map_len(self.agents@);
        assert(self@.agents.dom() =~= entries_map(self.agents@).dom());
    }

    /// Finds the agent `id`, adding a fresh one with model `model` when it is
    /// new; returns its index.
    fn entry_index(&mut self, id: &String, model: String) -> (i: usize)
        requires
            old(self).wf(),
        ensures
            final(self).wf(),
            i < final(self).agents@.len(),
            final(self).agents@[i as int].0@ == id@,
            final(self).incomplete == old(self).incomplete,
            final(self)@.agents == if old(self)@.agents.contains_key(id@) {
                old(self)@.agents
            } else {
                old(self)@.agents.insert(id@, AgentView::fresh(model@))
            },
    {
        match find_key(&self.agents, id) {
            Some(i) => {
                proof {
                    lemma_entry_in_map(self.agents@, i as int);
                }
                i
            },
            None => {
                let ghost s = self.agents@;
                let fresh = AgentUsage::with_model(model);
                assert(fresh@.models =~= Map::<Seq<char>, Tokens>::empty());
                assert(fresh@.turns =~= Map::<Seq<char>, Turn>::empty());
                assert(fresh@ == AgentView::fresh(model@));
                let pos = insert_sorted(&mut self.agents, id.clone(), fresh);
                proof {
                    assert forall|j: int| 0 <= j < self.agents@.len() implies (#[trigger] self.agents@[j]).1.wf() by {
                        if j < pos {
                            assert(self.agents@[j] == s[j]);
                        } else if j > pos {
                            assert(self.agents@[j] == s[j - 1]);
                        }
                    }
                    assert(self@.agents =~= old(self)@.agents.insert(id@, AgentView::fresh(model@)));
                }
                pos
            },
        }
    }

    /// Takes the agent at `i` out, leaving an empty one in its place.
    fn take_agent(&mut self, i: usize) -> (r: (String, AgentUsage))
        requires
            i < old(self).agents@.len(),
        ensures
            r == old(self).agents@[i as int],
            final(self).agents@.len() == old(self).agents@.len(),
            forall|j: int| 0 <= j < old(self).agents@.len() && j != i ==> #[trigger] final(self).agents@[j] == old(self).agents@[j],
            final(self).incomplete == old(self).incomplete,
    {
        let mut slot = (String::new(), AgentUsage::default());
        self.agents.set_and_swap(i, &mut slot);
        slot
    }

    /// Puts agent `a` back at `i`, where `orig` held `(key, _)`.
    fn put_agent(&mut self, i: usize, key: String, a: AgentUsage, Ghost(orig): Ghost<Seq<(String, AgentUsage)>>)
        requires
            i < orig.len(),
            old(self).agents@.len() == orig.len(),
            forall|j: int| 0 <= j < orig.len() && j != i ==> #[trigger] old(self).agents@[j] == orig[j],
            key == orig[i as int].0,
            sorted_keys(orig),
            forall|j: int| 0 <= j < orig.len() ==> (#[trigger] orig[j]).1.wf(),
            a.wf(),
        ensures
            final(self).wf(),
            final(self).incomplete == old(self).incomplete,
            final(self)@.agents == entries_map(orig).map_values(|x: AgentUsage| x@).insert(key@, a@),
    {
        self.agents.set(i, (key, a));
        proof {
            assert(self.agents@ =~= orig.update(i as int, (orig[i as int].0, a)));
            lemma_update_value(orig, i as int, a);
            assert forall|j: int| 0 <= j < self.agents@.len() implies (#[trigger] self.agents@[j]).1.wf() by {
                if j != i {
                    assert(self.agents@[j] == orig[j]);
                }
            }
            assert(self@.agents =~= entries_map(orig).map_values(|x: AgentUsage| x@).insert(key@, a@));
        }
    }

    /// Takes agent `id` out of the ledger, or a fresh one with no model when it
    /// is not kept; put it back with [`SessionUsage::store`].
    pub fn take_or_fresh(&mut self, id: &String) -> (a: AgentUsage)
        requires
            old(self).wf(),
        ensures
            final(self).wf(),
            a.wf(),
            a@ == old(self)@.agent_or_fresh(id@, Seq::empty()),
            final(self)@.agents.remove(id@) == old(self)@.agents.remove(id@),
            final(self).incomplete == old(self).incomplete,
    {
        match find_key(&self.agents, id) {
            Some(i) => {
                let ghost orig = self.agents@;
                proof {
                    lemma_entry_in_map(orig, i as int);
                    assert(entries_map(orig).map_values(|x: AgentUsage| x@)[id@] == orig[i as int].1@);
                }
                let (key, agent) = self.take_agent(i);
                let placeholder = AgentUsage::default();
                self.put_agent(i, key, placeholder, Ghost(orig));
                proof {
                    assert(self@.agents.remove(id@) =~= old(self)@.agents.remove(id@));
                }
                agent
            },
            None => {
                let a = AgentUsage::default();
                assert(a@.models =~= Map::<Seq<char>, Tokens>::empty());
                assert(a@.turns =~= Map::<Seq<char>, Turn>::empty());
                a
            },
        }
    }

    /// Keeps `a` as agent `id`.
    pub fn store(&mut self, id: &String, a: AgentUsage)
        requires
            old(self).wf(),
            a.wf(),
        ensures
            final(self).wf(),
            final(self)@.agents == old(self)@.agents.insert(id@, a@),
            final(self).incomplete == old(self).incomplete,
    {
        match find_key(&self.agents, id) {
            Some(i) => {
                let ghost orig = self.agents@;
                let (key, _old) = self.take_agent(i);
                self.put_agent(i, key, a, Ghost(orig));
            },
            None => {
                let ghost s = self.agents@;
                let pos = insert_sorted(&mut self.agents, id.clone(), a);
                proof {
                    assert forall|j: int| 0 <= j < self.agents@.len() implies (#[trigger] self.agents@[j]).1.wf() by {
                        if j < pos {
                            assert(self.agents@[j] == s[j]);
                        } else if j > pos {
                            assert(self.agents@[j] == s[j - 1]);
                        }
                    }
                    assert(self@.agents =~= old(self)@.agents.insert(id@, a@));
                }
            },
        }
    }

    /// Applies thread metadata `t`: its parent, a display name when none is
    /// known, its model (the unknown model when none is known), its reasoning
    /// effort and status. A new thread beyond [`MAX_THREADS`] only marks the
    /// ledger incomplete.
    pub fn metadata(&mut self, t: &ThreadInfo)
        requires
            old(self).wf(),
        ensures
            final(self).wf(),
            final(self)@ == old(self)@.after_metadata(*t),
    {
        proof {
            self.lemma_view_len();
        }
        let known = find_key(&self.agents, &t.id).is_some();
        if !known && self.agents.len() >= MAX_THREADS {
            self.incomplete = true;
            return;
        }
        let ghost before = self@;
        let i = self.entry_index(&t.id, String::new());
        let ghost orig = self.agents@;
        proof {
            lemma_entry_in_map(orig, i as int);
        }
        proof {
            assert(entries_map(orig).map_values(|x: AgentUsage| x@)[t.id@] == orig[i as int].1@);
        }
        let (key, mut agent) = self.take_agent(i);
        assert(agent@ == before.agent_or_fresh(t.id@, Seq::empty()));
        apply_metadata(&mut agent, t);
        self.put_agent(i, key, agent, Ghost(orig));
        proof {
            assert(self@.agents =~= before.after_metadata(*t).agents);
        }
    }

    /// Accounts for notification `n`, received at `now_ms`.
    pub fn observe(&mut self, n: &Notification, now_ms: u64)
        requires
            old(self).wf(),
        ensures
            final(self).wf(),
            final(self)@ == old(self)@.after_observe(*n, now_ms),
    {
        match &n.event {
            UsageEvent::ThreadStarted(t) => self.metadata(t),
            _ => {},
        }
        let ghost mid = self@;
        let id = match &n.target {
            Some(id) => id,
            None => return ,
        };
        proof {
            self.lemma_view_len();
        }
        if find_key(&self.agents, id).is_none() && self.agents.len() >= MAX_THREADS {
            self.incomplete = true;
            return;
        }
        let i = self.entry_index(id, unknown_string());
        let ghost orig = self.agents@;
        proof {
            lemma_entry_in_map(orig, i as int);
        }
        proof {
            assert(entries_map(orig).map_values(|x: AgentUsage| x@)[id@] == orig[i as int].1@);
        }
        let (key, mut agent) = self.take_agent(i);
        assert(agent@ == mid.agent_or_fresh(id@, unknown_label()));
        let flag = apply_event(&mut agent, &n.event, now_ms);
        self.put_agent(i, key, agent, Ghost(orig));
        if flag {
            self.incomplete = true;
        }
        proof {
            assert(self@.agents =~= mid.after_target(*n, now_ms).agents);
        }
    }

    /// The root thread of `id`: where its parent links lead, followed at most
    /// once per kept thread.
    pub fn root(&self, id: &String) -> (r: String)
        requires
            self.wf(),
        ensures
            r@ == self@.root_of(id@),
    {
        proof {
            self.lemma_view_len();
        }
        let n = self.agents.len();
        let mut root = id.clone();
        let mut k: usize = 0;
        while k < n
            invariant
                self.wf(),
                n == self@.agents.len(),
                k <= n,
                self@.walk(id@, n as nat) == self@.walk(root@, (n - k) as nat),
            ensures
                self@.walk(id@, n as nat) == root@,
            decreases n - k,
        {
            let next = match self.agent(&root) {
                Some(a) => match &a.parent {
                    Some(p) => p.clone(),
                    None => break,
                },
                None => break,
            };
            root = next;
            k = k + 1;
        }
        root
    }
}

/// Applies thread metadata `t` to agent `a`.
fn apply_metadata(a: &mut AgentUsage, t: &ThreadInfo)
    requires
        old(a).wf(),
    ensures
        final(a).wf(),
        final(a)@ == old(a)@.with_metadata(*t),
{
    a.metadata_requested = true;
    a.parent = clone_opt(&t.parent_thread_id);
    match &t.spawn {
        Some(sp) => {
            a.parent = Some(sp.parent_thread_id.clone());
            match &sp.agent_path {
                Some(p) => {
                    a.name = p.clone();
                },
                None => {},
            }
        },
        None => {},
    }
    if a.name.as_str().is_empty() {
        let source: &String = match &t.agent_nickname {
            Some(n) => n,
            None => match &t.name {
                Some(n) => n,
                None => &t.id,
            },
        };
        let len = source.as_str().unicode_len();
        let end = if len < MAX_NAME_CHARS { len } else { MAX_NAME_CHARS };
        let cut = source.as_str().substring_char(0, end);
        a.name = text_of(cut);
        proof {
            if source@.len() <= MAX_NAME_CHARS {
                assert(source@.subrange(0, end as int) =~= source@);
            }
        }
    }
    match &t.model {
        Some(m) => {
            a.model = m.clone();
        },
        None => {
            if a.model.as_str().is_empty() {
                a.model = unknown_string();
            }
        },
    }
    a.reasoning_effort = clone_opt(&t.reasoning_effort);
    a.status = t.status.clone();
}

/// Applies event `ev` at `now_ms` to agent `a`; returns whether the ledger
/// becomes incomplete by it.
fn apply_event(a: &mut AgentUsage, ev: &UsageEvent, now_ms: u64) -> (flag: bool)
    requires
        old(a).wf(),
    ensures
        final(a).wf(),
        (final(a)@, flag) == old(a)@.after_event(*ev, now_ms),
{
    proof {
        lemma_map_len(a.turns@);
    }
    match ev {
        UsageEvent::TokenUsageUpdated { turn_id, total, last } => {
            a.update(Tokens::from_usage(total), Tokens::from_usage(last), turn_id);
            false
        },
        UsageEvent::SettingsUpdated { model, effort } => {
            a.model = model.clone();
            a.reasoning_effort = clone_opt(effort);
            false
        },
        UsageEvent::ModelRerouted { to_model } => {
            a.model = to_model.clone();
            false
        },
        UsageEvent::TurnStarted { turn_id } => {
            let timed = a.start_turn(turn_id.clone(), now_ms);
            a.status = text_of("Running");
            !timed
        },
        UsageEvent::TurnCompleted { turn_id, duration_ms, status } => {
            a.complete_turn(turn_id, *duration_ms, now_ms);
            a.status = status.clone();
            false
        },
        UsageEvent::StatusChanged { status, active } => {
            a.status = status.clone();
            if !*active {
                a.close_open_turns(now_ms);
            }
            false
        },
        UsageEvent::Closed => {
            a.status = text_of("Closed");
            a.close_open_turns(now_ms);
            false
        },
        UsageEvent::Reverted => {
            a.previous = None;
            a.reset = true;
            true
        },
        _ => false,
    }
}

} // verus!

verus! {

/// The ledger's view has one agent per kept entry.
pub proof fn lemma_map_values_len(u: SessionUsage)
    requires
        sorted_keys(u.agents@),
    ensures
        u@.agents.len() == u.agents@.len(),
        u@.agents.dom().finite(),
{
    lemma_map_len(u.agents@);
    assert(u@.agents.dom() =~= entries_map(u.agents@).dom());
}

/// Completed and closed agents are retained: a notification never removes
/// an agent from the ledger, nor changes one it does not concern.
pub proof fn lemma_observe_retains_agents(s: SessionView, n: Notification, now_ms: u64)
    ensures
        forall|k: Seq<char>| s.agents.contains_key(k) ==> #[trigger] s.after_observe(n, now_ms).agents.contains_key(k),
        forall|k: Seq<char>| #![trigger s.after_observe(n, now_ms).agents[k]]
            s.agents.contains_key(k) && Some(k) != opt_view(n.target) && (match n.event {
                UsageEvent::ThreadStarted(t) => t.id@ != k,
                _ => true,
            }) ==> s.after_observe(n, now_ms).agents[k] == s.agents[k],
{
}

/// The tracking limit holds: a ledger with at most [`MAX_THREADS`] agents
/// keeps at most that many whatever notification arrives.
pub proof fn lemma_observe_respects_thread_limit(s: SessionView, n: Notification, now_ms: u64)
    requires
        s.agents.dom().finite(),
        s.agents.len() <= MAX_THREADS,
    ensures
        s.after_observe(n, now_ms).agents.dom().finite(),
        s.after_observe(n, now_ms).agents.len() <= MAX_THREADS,
{
    let s1 = match n.event {
        UsageEvent::ThreadStarted(t) => s.after_metadata(t),
        _ => s,
    };
    assert(s1.agents.dom().finite() && s1.agents.len() <= MAX_THREADS) by {
        match n.event {
            UsageEvent::ThreadStarted(t) => {
                if s.has_room(t.id@) && !s.agents.contains_key(t.id@) {
                    assert(s1.agents.dom() == s.agents.dom().insert(t.id@));
                } else if s.has_room(t.id@) {
                    assert(s1.agents.dom() =~= s.agents.dom());
                }
            },
            _ => {},
        }
    }
    match n.target {
        Some(id) => {
            if s1.has_room(id@) && !s1.agents.contains_key(id@) {
                assert(s1.after_target(n, now_ms).agents.dom() == s1.agents.dom().insert(id@));
            } else if s1.has_room(id@) {
                assert(s1.after_target(n, now_ms).agents.dom() =~= s1.agents.dom());
            }
        },
        None => {},
    }
}

/// A thread with no known parent is its own root, so the dashboard of a
/// root counts the root itself as the parent.
pub proof fn lemma_root_without_parent(s: SessionView, id: Seq<char>)
    requires
        !s.agents.contains_key(id) || s.agents[id].parent is None,
    ensures
        s.root_of(id) == id,
{
}

/// The root of an agent whose parent is known is where the parent's links
/// lead, followed once less.
pub proof fn lemma_root_follows_parent(s: SessionView, id: Seq<char>)
    requires
        s.agents.contains_key(id),
        s.agents[id].parent is Some,
        s.agents.len() > 0,
    ensures
        s.root_of(id) == s.walk(s.agents[id].parent->0, (s.agents.len() - 1) as nat),
{
}

/// Walking one step further takes one more step from where the walk was.
proof fn lemma_walk_next(s: SessionView, id: Seq<char>, n: nat)
    ensures
        s.walk(id, n + 1) == s.step(s.walk(id, n)),
    decreases n,
{
    let p = s.agents[id].parent->0;
    if n == 0 {
        assert(s.walk(id, 0) == id);
        if s.has_parent(id) {
            assert(s.walk(p, 0) == p);
        }
    } else if s.has_parent(id) {
        lemma_walk_next(s, p, (n - 1) as nat);
        assert(s.walk(id, n + 1) == s.walk(p, n));
        assert(s.walk(id, n) == s.walk(p, (n - 1) as nat));
    } else {
        assert(s.walk(id, n) == id);
    }
}

/// Once the walk reaches a thread without a parent it stays there.
proof fn lemma_walk_stays(s: SessionView, id: Seq<char>, i: nat, j: nat)
    requires
        i <= j,
        !s.has_parent(s.walk(id, i)),
    ensures
        s.walk(id, j) == s.walk(id, i),
    decreases j - i,
{
    if i < j {
        lemma_walk_stays(s, id, i, (j - 1) as nat);
        lemma_walk_next(s, id, (j - 1) as nat);
    }
}

/// On a chain of parent links without a cycle, the root has no parent of
/// its own, and the root of the root is the root itself.
pub proof fn lemma_root_ends_chain(s: SessionView, id: Seq<char>)
    requires
        s.agents.dom().finite(),
        s.chain_acyclic(id),
    ensures
        !s.has_parent(s.root_of(id)),
        s.root_of(s.root_of(id)) == s.root_of(id),
{
    let n = s.agents.len();
    if s.has_parent(s.walk(id, n)) {
        assert forall|i: nat| i <= n implies #[trigger] s.has_parent(s.walk(id, i)) by {
            if !s.has_parent(s.walk(id, i)) {
                lemma_walk_stays(s, id, i, n);
            }
        }
        let q = Seq::new(n + 1, |i: int| s.walk(id, i as nat));
        assert forall|a: int, b: int| 0 <= a < q.len() && 0 <= b < q.len() && a != b
            implies q[a] != q[b] by {
            let (x, y) = if a < b { (a as nat, b as nat) } else { (b as nat, a as nat) };
            assert(s.has_parent(s.walk(id, x)));
            assert(s.walk(id, x) != s.walk(id, y));
        }
        assert(q.no_duplicates());
        q.unique_seq_to_set();
        assert forall|x: Seq<char>| q.to_set().contains(x) implies s.agents.dom().contains(x) by {
            let k = choose|k: int| 0 <= k < q.len() && q[k] == x;
            assert(s.has_parent(s.walk(id, k as nat)));
        }
        vstd::set_lib::lemma_len_subset(q.to_set(), s.agents.dom());
        assert(false);
    }
    lemma_walk_stays(s, s.root_of(id), 0, n);
}

/// The first usage report a thread sends in a turn the ledger saw start
/// splits its cumulative total: the report's last response goes to the
/// thread's current model, counter by counter never more than the total,
/// and the rest of the total, history from before the thread was observed,
/// is counted as unknown. The total becomes the baseline.
pub proof fn lemma_first_report_split(
    s: SessionView,
    id: String,
    turn_id: String,
    total: UsageBreakdown,
    last: UsageBreakdown,
    now_ms: u64,
    f: int,
)
    requires
        s.agents.contains_key(id@),
        s.agents[id@].previous is None,
        !s.agents[id@].reset,
        s.agents[id@].models == Map::<Seq<char>, Tokens>::empty(),
        s.agents[id@].turns.contains_key(turn_id@),
        s.agents[id@].model != unknown_label(),
        0 <= f < 5,
    ensures
        ({
            let a = s.agents[id@];
            let t = tok_field(Tokens::spec_from_usage(total), f);
            let l = tok_field(Tokens::spec_from_usage(last), f);
            let shown = if l < t { l } else { t };
            let n = Notification {
                target: Some(id),
                event: UsageEvent::TokenUsageUpdated { turn_id, total, last },
            };
            let b = s.after_observe(n, now_ms).agents[id@];
            &&& b.previous == Some(Tokens::spec_from_usage(total))
            &&& tok_field(tokens_at(b.models, a.model), f) == shown
            &&& tok_field(tokens_at(b.models, unknown_label()), f) == t - shown
        }),
{
    let a = s.agents[id@];
    let tt = Tokens::spec_from_usage(total);
    let ll = Tokens::spec_from_usage(last);
    let recent = recent_part(tt, ll);
    let rest = tt.minus(recent);
    let m1 = recorded(a.models, unknown_label(), rest);
    assert(m1.dom().finite() && m1.dom().len() <= 1 && !m1.contains_key(a.model)) by {
        if rest != Tokens::zero() {
            assert(m1.dom() =~= Set::empty().insert(unknown_label()));
        } else {
            assert(m1.dom() =~= Set::<Seq<char>>::empty());
        }
    }
    assert(a.after_update(tt, ll, turn_id@).models == recorded(m1, a.model, recent));
}

} // verus!
