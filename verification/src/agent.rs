//! What the ledger knows of one agent thread: its identity, its current
//! model, its token usage per model, and the turns seen live.
use vstd::prelude::*;
use crate::keyed::{sorted_keys, is_sorted, entries_map, has_key, find_key, insert_sorted,
    lemma_entry_in_map, lemma_update_value, lemma_map_len};
use crate::text::text_of;
use crate::tokens::Tokens;

verus! {

/// At most this many models are kept apart per agent; usage of further models
/// is counted under the unknown model.
pub const MAX_MODELS: usize = 64;

/// At most this many turns are timed per agent.
pub const MAX_TURNS: usize = 2048;

/// The model name under which usage of unknown attribution is counted.
pub const UNKNOWN: &'static str = "unknown / before observation";

/// The text of [`UNKNOWN`].
pub open spec fn unknown_label() -> Seq<char> {
    UNKNOWN@
}

/// A new string holding [`UNKNOWN`].
pub fn unknown_string() -> (r: String)
    ensures
        r@ == unknown_label(),
{
    text_of(UNKNOWN)
}

/// A copy of an optional string.
pub fn clone_opt(o: &Option<String>) -> (r: Option<String>)
    ensures
        r == *o,
{
    match o {
        Some(s) => Some(s.clone()),
        None => None,
    }
}

/// A turn seen live: when it started and, once it ended, how long it took,
/// both in milliseconds.
#[derive(Clone, Copy, Debug, PartialEq, Eq, Structural)]
pub struct Turn {
    pub start_ms: u64,
    pub done_ms: Option<u64>,
}

/// Counter `f` of `t`: input, cached, write, output, reasoning for `f` from
/// 0 to 4.
pub open spec fn tok_field(t: Tokens, f: int) -> int {
    if f == 0 {
        t.input as int
    } else if f == 1 {
        t.cached as int
    } else if f == 2 {
        t.write as int
    } else if f == 3 {
        t.output as int
    } else {
        t.reasoning as int
    }
}

/// Counter `f` summed over all entries, exactly.
pub open spec fn entries_sum(s: Seq<(String, Tokens)>, f: int) -> int
    decreases s.len(),
{
    if s.len() == 0 {
        0
    } else {
        entries_sum(s.drop_last(), f) + tok_field(s.last().1, f)
    }
}

/// No entry holds a negative counter.
pub open spec fn entries_non_negative(s: Seq<(String, Tokens)>) -> bool {
    forall|i: int| 0 <= i < s.len() ==> (#[trigger] s[i]).1.is_non_negative()
}

/// Adding `t` to the sums of `s` stays within `i64`.
pub open spec fn sums_fit(s: Seq<(String, Tokens)>, t: Tokens) -> bool {
    forall|f: int| 0 <= f < 5 ==> entries_sum(s, f) + tok_field(t, f) <= i64::MAX
}

/// Every counter of `s` sums to the matching counter of `t`.
pub open spec fn sums_equal(s: Seq<(String, Tokens)>, t: Tokens) -> bool {
    forall|f: int| 0 <= f < 5 ==> #[trigger] entries_sum(s, f) == tok_field(t, f)
}

/// Entries without a negative counter sum to at least zero.
pub proof fn lemma_sum_non_negative(s: Seq<(String, Tokens)>, f: int)
    requires
        entries_non_negative(s),
    ensures
        entries_sum(s, f) >= 0,
    decreases s.len(),
{
    if s.len() > 0 {
        assert(s[s.len() - 1] == s.last());
        assert(entries_non_negative(s.drop_last())) by {
            assert forall|i: int| 0 <= i < s.drop_last().len() implies (#[trigger] s.drop_last()[i]).1.is_non_negative() by {
                assert(s.drop_last()[i] == s[i]);
            }
        }
        lemma_sum_non_negative(s.drop_last(), f);
    }
}

proof fn lemma_entry_below_sum(s: Seq<(String, Tokens)>, i: int, f: int)
    requires
        entries_non_negative(s),
        0 <= i < s.len(),
    ensures
        tok_field(s[i].1, f) <= entries_sum(s, f),
    decreases s.len(),
{
    let p = s.drop_last();
    assert(entries_non_negative(p)) by {
        assert forall|j: int| 0 <= j < p.len() implies (#[trigger] p[j]).1.is_non_negative() by {
            assert(p[j] == s[j]);
        }
    }
    assert(s[s.len() - 1] == s.last());
    if i == s.len() - 1 {
        lemma_sum_non_negative(p, f);
    } else {
        assert(p[i] == s[i]);
        lemma_entry_below_sum(p, i, f);
    }
}

proof fn lemma_sum_update(s: Seq<(String, Tokens)>, i: int, e: (String, Tokens), f: int)
    requires
        0 <= i < s.len(),
    ensures
        entries_sum(s.update(i, e), f) == entries_sum(s, f) - tok_field(s[i].1, f) + tok_field(e.1, f),
    decreases s.len(),
{
    let t = s.update(i, e);
    if i == s.len() - 1 {
        assert(t.drop_last() =~= s.drop_last());
    } else {
        assert(t.drop_last() =~= s.drop_last().update(i, e));
        lemma_sum_update(s.drop_last(), i, e, f);
    }
}

proof fn lemma_sum_insert(s: Seq<(String, Tokens)>, i: int, e: (String, Tokens), f: int)
    requires
        0 <= i <= s.len(),
    ensures
        entries_sum(s.insert(i, e), f) == entries_sum(s, f) + tok_field(e.1, f),
    decreases s.len(),
{
    let t = s.insert(i, e);
    if i == s.len() {
        assert(t.drop_last() =~= s);
    } else {
        assert(t.drop_last() =~= s.drop_last().insert(i, e));
        lemma_sum_insert(s.drop_last(), i, e, f);
    }
}

/// The usage counted under `k` in `m`, zero when there is none.
pub open spec fn tokens_at(m: Map<Seq<char>, Tokens>, k: Seq<char>) -> Tokens {
    if m.contains_key(k) {
        m[k]
    } else {
        Tokens::zero()
    }
}

/// The model under which usage reported for `model` is counted: the model
/// itself, unless [`MAX_MODELS`] other models are already kept.
pub open spec fn record_key(m: Map<Seq<char>, Tokens>, model: Seq<char>) -> Seq<char> {
    if m.dom().len() >= MAX_MODELS && !m.contains_key(model) {
        unknown_label()
    } else {
        model
    }
}

/// `m` after `t` is counted for `model`; zero usage changes nothing.
pub open spec fn recorded(m: Map<Seq<char>, Tokens>, model: Seq<char>, t: Tokens) -> Map<
    Seq<char>,
    Tokens,
> {
    if t == Tokens::zero() {
        m
    } else {
        let k = record_key(m, model);
        m.insert(k, tokens_at(m, k).plus(t))
    }
}

/// The part of a cumulative `total` that the last response `last` accounts
/// for, never more than `total`.
pub open spec fn recent_part(total: Tokens, last: Tokens) -> Tokens {
    total.minus(total.minus(last))
}

/// How long a turn has run by `now_ms`: its recorded duration once it ended.
pub open spec fn turn_ms(t: Turn, now_ms: u64) -> u64 {
    match t.done_ms {
        Some(d) => d,
        None => if now_ms >= t.start_ms {
            (now_ms - t.start_ms) as u64
        } else {
            0
        },
    }
}

/// `a + b`, saturating at `u64::MAX`.
pub open spec fn sat_add_u64(a: u64, b: u64) -> u64 {
    if a + b > u64::MAX {
        u64::MAX
    } else {
        (a + b) as u64
    }
}

/// The durations of the turns in `s` summed in order, saturating.
pub open spec fn elapsed_sum(s: Seq<(String, Turn)>, now_ms: u64) -> u64
    decreases s.len(),
{
    if s.len() == 0 {
        0
    } else {
        sat_add_u64(elapsed_sum(s.drop_last(), now_ms), turn_ms(s.last().1, now_ms))
    }
}

/// A turn that has ended by `now_ms`: an open turn gets the time since its
/// start.
pub open spec fn closed_turn(t: Turn, now_ms: u64) -> Turn {
    match t.done_ms {
        Some(_) => t,
        None => Turn {
            start_ms: t.start_ms,
            done_ms: Some(if now_ms >= t.start_ms { (now_ms - t.start_ms) as u64 } else { 0 }),
        },
    }
}

/// The text of an optional string.
pub open spec fn opt_view(o: Option<String>) -> Option<Seq<char>> {
    match o {
        Some(s) => Some(s@),
        None => None,
    }
}

/// What the ledger knows of one agent, as values.
#[verifier::ext_equal]
pub struct AgentView {
    pub parent: Option<Seq<char>>,
    pub name: Seq<char>,
    pub model: Seq<char>,
    pub reasoning_effort: Option<Seq<char>>,
    pub status: Seq<char>,
    pub previous: Option<Tokens>,
    /// Usage per model.
    pub models: Map<Seq<char>, Tokens>,
    /// Turns by id.
    pub turns: Map<Seq<char>, Turn>,
    pub reset: bool,
    pub metadata_requested: bool,
}

impl AgentView {
    /// An agent of which nothing is known but its current model.
    pub open spec fn fresh(model: Seq<char>) -> AgentView {
        AgentView {
            parent: None,
            name: Seq::empty(),
            model,
            reasoning_effort: None,
            status: Seq::empty(),
            previous: None,
            models: Map::empty(),
            turns: Map::empty(),
            reset: false,
            metadata_requested: false,
        }
    }

    /// `total` is not below the accepted total in any counter.
    pub open spec fn accepts(self, total: Tokens) -> bool {
        match self.previous {
            Some(p) => total.covers(p),
            None => true,
        }
    }

    /// The usage per model after an accepted cumulative `total` whose last
    /// response used `last` in turn `turn`.
    pub open spec fn updated_models(self, total: Tokens, last: Tokens, turn: Seq<char>) -> Map<
        Seq<char>,
        Tokens,
    > {
        match self.previous {
            Some(p) => recorded(self.models, self.model, total.minus(p)),
            None => if self.reset {
                self.models
            } else {
                let recent = if self.turns.contains_key(turn) {
                    recent_part(total, last)
                } else {
                    Tokens::zero()
                };
                recorded(recorded(self.models, unknown_label(), total.minus(recent)), self.model, recent)
            },
        }
    }

    /// The agent after taking the cumulative `total`: a stale total changes
    /// nothing; an accepted one becomes the baseline.
    pub open spec fn after_update(self, total: Tokens, last: Tokens, turn: Seq<char>) -> AgentView {
        if !self.accepts(total) {
            self
        } else {
            AgentView {
                previous: Some(total),
                reset: false,
                models: self.updated_models(total, last, turn),
                ..self
            }
        }
    }

    /// The agent with turn `id` timed from `now_ms`, unless already timed.
    pub open spec fn after_start_turn(self, id: Seq<char>, now_ms: u64) -> AgentView {
        if self.turns.contains_key(id) {
            self
        } else {
            AgentView { turns: self.turns.insert(id, Turn { start_ms: now_ms, done_ms: None }), ..self }
        }
    }

    /// The agent with turn `id` ended, if it is timed.
    pub open spec fn after_complete_turn(self, id: Seq<char>, duration_ms: Option<i64>, now_ms: u64) -> AgentView {
        if self.turns.contains_key(id) {
            let t = self.turns[id];
            AgentView {
                turns: self.turns.insert(
                    id,
                    Turn { start_ms: t.start_ms, done_ms: Some(completed_ms(t, duration_ms, now_ms)) },
                ),
                ..self
            }
        } else {
            self
        }
    }

    /// The agent with every open turn ended at `now_ms`.
    pub open spec fn after_close_turns(self, now_ms: u64) -> AgentView {
        AgentView { turns: self.turns.map_values(|t: Turn| closed_turn(t, now_ms)), ..self }
    }
}

impl View for AgentUsage {
    type V = AgentView;

    open spec fn view(&self) -> AgentView {
        AgentView {
            parent: opt_view(self.parent),
            name: self.name@,
            model: self.model@,
            reasoning_effort: opt_view(self.reasoning_effort),
            status: self.status@,
            previous: self.previous,
            models: entries_map(self.models@),
            turns: entries_map(self.turns@),
            reset: self.reset,
            metadata_requested: self.metadata_requested,
        }
    }
}

/// Giving each entry a new value by `f` gives the map its values by `f`.
pub proof fn lemma_map_values_entries<V, W>(s: Seq<(String, V)>, t: Seq<(String, W)>, f: spec_fn(V) -> W)
    requires
        sorted_keys(s),
        t.len() == s.len(),
        forall|i: int| 0 <= i < s.len() ==> #[trigger] t[i] == (s[i].0, f(s[i].1)),
    ensures
        sorted_keys(t),
        entries_map(t) == entries_map(s).map_values(f),
{
    assert(sorted_keys(t)) by {
        assert forall|a: int, b: int| 0 <= a < b < t.len() implies crate::text::seq_less(#[trigger] t[a].0@, #[trigger] t[b].0@) by {
            assert(t[a].0 == s[a].0);
            assert(t[b].0 == s[b].0);
        }
    }
    let m = entries_map(s).map_values(f);
    assert forall|k: Seq<char>| #[trigger] entries_map(t).contains_key(k) <==> m.contains_key(k) by {
        if has_key(t, k) {
            let j = crate::keyed::key_index(t, k);
            assert(t[j].0 == s[j].0);
            assert(s[j].0@ == k);
        }
        if has_key(s, k) {
            let j = crate::keyed::key_index(s, k);
            assert(t[j].0 == s[j].0);
            assert(t[j].0@ == k);
        }
    }
    assert forall|k: Seq<char>| #[trigger] entries_map(t).contains_key(k) implies entries_map(t)[k] == m[k] by {
        let j = crate::keyed::key_index(t, k);
        lemma_entry_in_map(t, j);
        assert(t[j].0 == s[j].0);
        lemma_entry_in_map(s, j);
    }
    assert(entries_map(t) =~= m);
}

/// What the ledger knows of one agent thread.
#[derive(Debug)]
pub struct AgentUsage {
    /// The thread that spawned this one, if known.
    pub parent: Option<String>,
    /// A display name; empty until known.
    pub name: String,
    /// The model the agent currently uses; empty until known.
    pub model: String,
    /// The reasoning effort it currently uses, as displayed.
    pub reasoning_effort: Option<String>,
    /// The last status seen, as displayed.
    pub status: String,
    /// The last cumulative total accepted.
    pub previous: Option<Tokens>,
    /// Usage per model, in model order.
    pub models: Vec<(String, Tokens)>,
    /// Turns seen live, by id in id order.
    pub turns: Vec<(String, Turn)>,
    /// History changed: the next total only sets a new baseline.
    pub reset: bool,
    /// Thread metadata was applied or asked for.
    pub metadata_requested: bool,
}

impl Default for AgentUsage {
    fn default() -> (r: AgentUsage)
        ensures
            r.is_fresh(),
            r.model@ == Seq::<char>::empty(),
    {
        AgentUsage {
            parent: None,
            name: String::new(),
            model: String::new(),
            reasoning_effort: None,
            status: String::new(),
            previous: None,
            models: Vec::new(),
            turns: Vec::new(),
            reset: false,
            metadata_requested: false,
        }
    }
}

impl AgentUsage {
    /// The per-model usage list and the turn list are in key order.
    pub open spec fn wf(&self) -> bool {
        sorted_keys(self.models@) && sorted_keys(self.turns@)
    }

    /// Whether the agent is well formed; its lists can be written from
    /// outside, so a caller that did so checks this before the next call.
    pub fn is_wf(&self) -> (r: bool)
        ensures
            r == self.wf(),
    {
        is_sorted(&self.models) && is_sorted(&self.turns)
    }

    /// An agent of which nothing is known yet, but perhaps its model.
    pub open spec fn is_fresh(&self) -> bool {
        &&& self.wf()
        &&& self.parent is None
        &&& self.name@ == Seq::<char>::empty()
        &&& self.reasoning_effort is None
        &&& self.status@ == Seq::<char>::empty()
        &&& self.previous is None
        &&& self.models@.len() == 0
        &&& self.turns@.len() == 0
        &&& !self.reset
        &&& !self.metadata_requested
    }

    /// Usage per model, in model order.
    pub open spec fn model_entries(&self) -> Seq<(String, Tokens)> {
        self.models@
    }

    /// Turns by id, in id order.
    pub open spec fn turn_entries(&self) -> Seq<(String, Turn)> {
        self.turns@
    }

    /// Usage per model.
    pub open spec fn models_map(&self) -> Map<Seq<char>, Tokens> {
        entries_map(self.model_entries())
    }

    /// Turns by id.
    pub open spec fn turns_map(&self) -> Map<Seq<char>, Turn> {
        entries_map(self.turn_entries())
    }

    /// Everything but the usage list is the same in `self` and `o`.
    pub open spec fn same_but_models(&self, o: &AgentUsage) -> bool {
        &&& self.parent == o.parent
        &&& self.name == o.name
        &&& self.model == o.model
        &&& self.reasoning_effort == o.reasoning_effort
        &&& self.status == o.status
        &&& self.previous == o.previous
        &&& self.turn_entries() == o.turn_entries()
        &&& self.reset == o.reset
        &&& self.metadata_requested == o.metadata_requested
    }

    /// Everything but the turn list is the same in `self` and `o`.
    pub open spec fn same_but_turns(&self, o: &AgentUsage) -> bool {
        &&& self.parent == o.parent
        &&& self.name == o.name
        &&& self.model == o.model
        &&& self.reasoning_effort == o.reasoning_effort
        &&& self.status == o.status
        &&& self.previous == o.previous
        &&& self.model_entries() == o.model_entries()
        &&& self.reset == o.reset
        &&& self.metadata_requested == o.metadata_requested
    }

    /// A fresh agent whose current model is `model`.
    pub fn with_model(model: String) -> (r: AgentUsage)
        ensures
            r.is_fresh(),
            r.model == model,
    {
        let mut a = AgentUsage::default();
        a.model = model;
        a
    }

    /// Usage per model, in model order.
    pub fn models(&self) -> (r: &Vec<(String, Tokens)>)
        ensures
            r@ == self.model_entries(),
    {
        &self.models
    }

    /// Turns by id, in id order.
    pub fn turns(&self) -> (r: &Vec<(String, Turn)>)
        ensures
            r@ == self.turn_entries(),
    {
        &self.turns
    }

    /// Counts `tokens` for `model`, or for the unknown model once
    /// [`MAX_MODELS`] other models are kept; zero usage is not recorded.
    pub fn record(&mut self, model: String, tokens: Tokens)
        requires
            old(self).wf(),
        ensures
            final(self).wf(),
            final(self).same_but_models(old(self)),
            final(self).models_map() == recorded(old(self).models_map(), model@, tokens),
            final(self)@ == (AgentView { models: recorded(old(self)@.models, model@, tokens), ..old(self)@ }),
            entries_non_negative(old(self).models@) && tokens.is_non_negative() && sums_fit(old(self).models@, tokens) ==> {
                &&& entries_non_negative(final(self).models@)
                &&& forall|f: int| 0 <= f < 5 ==> #[trigger] entries_sum(final(self).models@, f) == entries_sum(old(self).models@, f) + tok_field(tokens, f)
            },
    {
        proof {
            lemma_map_len(self.models@);
        }
        if tokens.is_zero() {
            return;
        }
        let key = match find_key(&self.models, &model) {
            Some(_) => model,
            None => if self.models.len() >= MAX_MODELS {
                unknown_string()
            } else {
                model
            },
        };
        proof {
            if has_key(self.models@, model@) {
                let i = choose|i: int| 0 <= i < self.models@.len() && #[trigger] self.models@[i].0@ == model@;
                lemma_entry_in_map(self.models@, i);
            }
        }
        add_to_entry(&mut self.models, key, tokens);
    }

    /// Takes a cumulative usage `total` whose last response used `last`, in
    /// turn `turn`.
    ///
    /// A total below the one already accepted in any counter is stale and
    /// ignored. Otherwise the growth since the accepted total is counted for
    /// the current model. The first total after the agent became known counts
    /// what `last` accounts for under the current model, if `turn` was seen
    /// live, and the rest under the unknown model; after a history reset the
    /// first total only becomes the new baseline.
    pub fn update(&mut self, total: Tokens, last: Tokens, turn: &String)
        requires
            old(self).wf(),
        ensures
            AgentUsage::update_step(*old(self), *final(self), total, last, turn@),
            final(self)@ == old(self)@.after_update(total, last, turn@),
            old(self).conserves() && !old(self).reset && total.is_non_negative()
                ==> final(self).conserves(),
    {
        let ghost before = *self;
        match self.previous {
            Some(previous) => {
                if total.input < previous.input || total.output < previous.output
                    || total.cached < previous.cached || total.write < previous.write
                    || total.reasoning < previous.reasoning {
                    return;
                }
                let delta = total.subtract(previous);
                proof {
                    if before.conserves() && total.is_non_negative() {
                        assert forall|f: int| 0 <= f < 5 implies tok_field(previous, f) >= 0 by {
                            lemma_sum_non_negative(before.models@, f);
                        }
                        assert(tok_field(previous, 0) >= 0 && tok_field(previous, 1) >= 0
                            && tok_field(previous, 2) >= 0 && tok_field(previous, 3) >= 0
                            && tok_field(previous, 4) >= 0);
                        assert forall|f: int| 0 <= f < 5 implies #[trigger] tok_field(delta, f) == tok_field(total, f) - tok_field(previous, f) by {
                        }
                        assert(sums_fit(before.models@, delta));
                    }
                }
                let model = self.model.clone();
                self.record(model, delta);
            },
            None => {
                if !self.reset {
                    let live = find_key(&self.turns, turn).is_some();
                    let recent = if live {
                        total.subtract(total.subtract(last))
                    } else {
                        Tokens::default()
                    };
                    let rest = total.subtract(recent);
                    proof {
                        if before.conserves() && total.is_non_negative() {
                            assert forall|f: int| 0 <= f < 5 implies 0 <= #[trigger] tok_field(recent, f) <= tok_field(total, f)
                                && tok_field(rest, f) == tok_field(total, f) - tok_field(recent, f) by {
                            }
                            assert(sums_fit(before.models@, rest));
                        }
                    }
                    self.record(unknown_string(), rest);
                    proof {
                        if before.conserves() && total.is_non_negative() {
                            assert(sums_fit(self.models@, recent));
                        }
                    }
                    let model = self.model.clone();
                    self.record(model, recent);
                }
            },
        }
        self.previous = Some(total);
        self.reset = false;
    }

    /// The usage per model sums to the accepted total (zero before any), and no
    /// counter is negative.
    pub open spec fn conserves(&self) -> bool {
        &&& entries_non_negative(self.models@)
        &&& sums_equal(self.models@, match self.previous {
            Some(p) => p,
            None => Tokens::zero(),
        })
    }

    /// `after` is `before` after `update(total, last, turn)`.
    pub open spec fn update_step(
        before: AgentUsage,
        after: AgentUsage,
        total: Tokens,
        last: Tokens,
        turn: Seq<char>,
    ) -> bool {
        &&& after.wf()
        &&& !before@.accepts(total) ==> after == before
        &&& before@.accepts(total) ==> {
            &&& after.previous == Some(total)
            &&& !after.reset
            &&& after.parent == before.parent
            &&& after.name == before.name
            &&& after.model == before.model
            &&& after.reasoning_effort == before.reasoning_effort
            &&& after.status == before.status
            &&& after.turn_entries() == before.turn_entries()
            &&& after.metadata_requested == before.metadata_requested
            &&& after.models_map() == before@.updated_models(total, last, turn)
        }
    }

    /// Milliseconds spent in the turns seen live by `now_ms`: the recorded
    /// duration of each ended turn plus the time since the start of each open
    /// one, summed in turn order and saturating.
    pub fn elapsed_ms(&self, now_ms: u64) -> (r: u64)
        ensures
            r == elapsed_sum(self.turn_entries(), now_ms),
    {
        let mut total: u64 = 0;
        let mut i: usize = 0;
        while i < self.turns.len()
            invariant
                i <= self.turns@.len(),
                total == elapsed_sum(self.turns@.take(i as int), now_ms),
            decreases self.turns@.len() - i,
        {
            let t = self.turns[i].1;
            let ms = match t.done_ms {
                Some(d) => d,
                None => now_ms.saturating_sub(t.start_ms),
            };
            total = total.saturating_add(ms);
            proof {
                assert(self.turns@.take(i + 1).drop_last() =~= self.turns@.take(i as int));
            }
            i = i + 1;
        }
        proof {
            assert(self.turns@.take(self.turns@.len() as int) =~= self.turns@);
        }
        total
    }

    /// Starts timing turn `id` at `now_ms` unless it is already timed. Returns
    /// false, changing nothing, when [`MAX_TURNS`] turns are already timed.
    pub fn start_turn(&mut self, id: String, now_ms: u64) -> (timed: bool)
        requires
            old(self).wf(),
        ensures
            final(self).wf(),
            final(self).same_but_turns(old(self)),
            timed == (old(self).turn_entries().len() < MAX_TURNS),
            timed ==> final(self).turns_map() == if old(self).turns_map().contains_key(id@) {
                old(self).turns_map()
            } else {
                old(self).turns_map().insert(id@, Turn { start_ms: now_ms, done_ms: None })
            },
            !timed ==> final(self).turn_entries() == old(self).turn_entries(),
            final(self)@ == if timed { old(self)@.after_start_turn(id@, now_ms) } else { old(self)@ },
    {
        if self.turns.len() >= MAX_TURNS {
            return false;
        }
        if find_key(&self.turns, &id).is_none() {
            insert_sorted(&mut self.turns, id, Turn { start_ms: now_ms, done_ms: None });
        } else {
            proof {
                assert(entries_map(self.turns@) =~= entries_map(self.turns@));
            }
        }
        true
    }

    /// Ends turn `id`, if it is timed: it took `duration_ms` when that is
    /// given and not negative, else the time since its start.
    pub fn complete_turn(&mut self, id: &String, duration_ms: Option<i64>, now_ms: u64)
        requires
            old(self).wf(),
        ensures
            final(self).wf(),
            final(self).same_but_turns(old(self)),
            final(self).turns_map() == if old(self).turns_map().contains_key(id@) {
                let t = old(self).turns_map()[id@];
                old(self).turns_map().insert(
                    id@,
                    Turn { start_ms: t.start_ms, done_ms: Some(completed_ms(t, duration_ms, now_ms)) },
                )
            } else {
                old(self).turns_map()
            },
            final(self)@ == old(self)@.after_complete_turn(id@, duration_ms, now_ms),
    {
        match find_key(&self.turns, id) {
            Some(i) => {
                let t = self.turns[i].1;
                let done = match duration_ms {
                    Some(d) => if d >= 0 {
                        d as u64
                    } else {
                        now_ms.saturating_sub(t.start_ms)
                    },
                    None => now_ms.saturating_sub(t.start_ms),
                };
                let key = self.turns[i].0.clone();
                proof {
                    lemma_entry_in_map(self.turns@, i as int);
                    lemma_update_value(self.turns@, i as int, Turn { start_ms: t.start_ms, done_ms: Some(done) });
                }
                self.turns.set(i, (key, Turn { start_ms: t.start_ms, done_ms: Some(done) }));
            },
            None => {
                proof {
                    assert(entries_map(self.turns@) =~= entries_map(self.turns@));
                }
            },
        }
    }

    /// Ends every open turn with the time since its start.
    pub fn close_open_turns(&mut self, now_ms: u64)
        requires
            old(self).wf(),
        ensures
            final(self).wf(),
            final(self).same_but_turns(old(self)),
            final(self).turn_entries().len() == old(self).turn_entries().len(),
            forall|i: int| 0 <= i < old(self).turn_entries().len() ==>
                #[trigger] final(self).turn_entries()[i] == (
                    old(self).turn_entries()[i].0,
                    closed_turn(old(self).turn_entries()[i].1, now_ms),
                ),
            final(self)@ == old(self)@.after_close_turns(now_ms),
    {
        let ghost start = self.turns@;
        let mut i: usize = 0;
        while i < self.turns.len()
            invariant
                self.turns@.len() == start.len(),
                i <= start.len(),
                sorted_keys(start),
                forall|j: int| 0 <= j < start.len() ==> #[trigger] self.turns@[j].0 == start[j].0,
                forall|j: int| 0 <= j < i ==> #[trigger] self.turns@[j].1 == closed_turn(start[j].1, now_ms),
                forall|j: int| i <= j < start.len() ==> #[trigger] self.turns@[j].1 == start[j].1,
                self.parent == old(self).parent,
                self.name == old(self).name,
                self.model == old(self).model,
                self.reasoning_effort == old(self).reasoning_effort,
                self.status == old(self).status,
                self.previous == old(self).previous,
                self.models == old(self).models,
                self.reset == old(self).reset,
                self.metadata_requested == old(self).metadata_requested,
                start == old(self).turns@,
            decreases start.len() - i,
        {
            let t = self.turns[i].1;
            if t.done_ms.is_none() {
                let key = self.turns[i].0.clone();
                let done = now_ms.saturating_sub(t.start_ms);
                self.turns.set(i, (key, Turn { start_ms: t.start_ms, done_ms: Some(done) }));
            }
            i = i + 1;
        }
        proof {
            assert forall|a: int, b: int| 0 <= a < b < self.turns@.len() implies seq_less_keys(self.turns@, a, b) by {
                assert(self.turns@[a].0 == start[a].0);
                assert(self.turns@[b].0 == start[b].0);
                assert(seq_less_keys(start, a, b));
            }
            let f = |t: Turn| closed_turn(t, now_ms);
            assert forall|j: int| 0 <= j < start.len() implies #[trigger] self.turns@[j] == (start[j].0, f(start[j].1)) by {
                assert(self.turns@[j].0 == start[j].0);
                assert(self.turns@[j].1 == closed_turn(start[j].1, now_ms));
            }
            lemma_map_values_entries(start, self.turns@, f);
            assert(self@.turns =~= old(self)@.after_close_turns(now_ms).turns);
        }
    }
}

/// Repeated snapshots are not additional consumption: taking the same
/// cumulative total a second time changes neither the usage per model nor the
/// accepted baseline.
pub proof fn lemma_repeated_snapshot(
    a0: AgentUsage,
    a1: AgentUsage,
    a2: AgentUsage,
    total: Tokens,
    last1: Tokens,
    turn1: Seq<char>,
    last2: Tokens,
    turn2: Seq<char>,
)
    requires
        a0.wf(),
        AgentUsage::update_step(a0, a1, total, last1, turn1),
        AgentUsage::update_step(a1, a2, total, last2, turn2),
    ensures
        a2.models_map() == a1.models_map(),
        a2.previous == a1.previous,
        a2.reset == a1.reset,
{
    if a0@.accepts(total) {
        assert(a1@.accepts(total));
        assert(total.minus(total) == Tokens::zero());
    }
}

/// A delayed snapshot never lowers the baseline: after any update every
/// counter of the accepted total is at least what it was.
pub proof fn lemma_baseline_never_lowers(
    a0: AgentUsage,
    a1: AgentUsage,
    total: Tokens,
    last: Tokens,
    turn: Seq<char>,
)
    requires
        AgentUsage::update_step(a0, a1, total, last, turn),
        a0.previous is Some,
    ensures
        a1.previous is Some,
        a1.previous->0.covers(a0.previous->0),
{
}

/// The entry at `a` comes before the one at `b`.
pub open spec fn seq_less_keys<V>(s: Seq<(String, V)>, a: int, b: int) -> bool {
    crate::text::seq_less(s[a].0@, s[b].0@)
}

/// The duration a completed turn gets.
pub open spec fn completed_ms(t: Turn, duration_ms: Option<i64>, now_ms: u64) -> u64 {
    match duration_ms {
        Some(d) => if d >= 0 {
            d as u64
        } else {
            turn_ms(Turn { start_ms: t.start_ms, done_ms: None }, now_ms)
        },
        None => turn_ms(Turn { start_ms: t.start_ms, done_ms: None }, now_ms),
    }
}

/// Adds `t` to the entry of `key`, creating it when absent.
pub fn add_to_entry(v: &mut Vec<(String, Tokens)>, key: String, t: Tokens)
    requires
        sorted_keys(old(v)@),
    ensures
        sorted_keys(final(v)@),
        entries_map(final(v)@) == entries_map(old(v)@).insert(
            key@,
            tokens_at(entries_map(old(v)@), key@).plus(t),
        ),
        entries_non_negative(old(v)@) && t.is_non_negative() && sums_fit(old(v)@, t) ==> {
            &&& entries_non_negative(final(v)@)
            &&& forall|f: int| 0 <= f < 5 ==> #[trigger] entries_sum(final(v)@, f) == entries_sum(old(v)@, f) + tok_field(t, f)
        },
{
    let ghost s = v@;
    match find_key(v, &key) {
        Some(i) => {
            let mut cur = v[i].1;
            cur.add(t);
            let k = v[i].0.clone();
            proof {
                lemma_entry_in_map(v@, i as int);
                lemma_update_value(v@, i as int, cur);
                if entries_non_negative(s) && t.is_non_negative() && sums_fit(s, t) {
                    assert forall|f: int| 0 <= f < 5 implies tok_field(s[i as int].1, f) + tok_field(t, f) <= i64::MAX by {
                        lemma_entry_below_sum(s, i as int, f);
                    }
                    assert(tok_field(s[i as int].1, 0) + tok_field(t, 0) <= i64::MAX);
                    assert(tok_field(s[i as int].1, 1) + tok_field(t, 1) <= i64::MAX);
                    assert(tok_field(s[i as int].1, 2) + tok_field(t, 2) <= i64::MAX);
                    assert(tok_field(s[i as int].1, 3) + tok_field(t, 3) <= i64::MAX);
                    assert(tok_field(s[i as int].1, 4) + tok_field(t, 4) <= i64::MAX);
                    assert forall|f: int| 0 <= f < 5 implies #[trigger] entries_sum(s.update(i as int, (k, cur)), f) == entries_sum(s, f) + tok_field(t, f) by {
                        lemma_sum_update(s, i as int, (k, cur), f);
                    }
                }
            }
            v.set(i, (k, cur));
        },
        None => {
            let mut cur = Tokens::default();
            cur.add(t);
            let pos = insert_sorted(v, key, cur);
            proof {
                if entries_non_negative(s) && t.is_non_negative() && sums_fit(s, t) {
                    assert forall|f: int| 0 <= f < 5 implies #[trigger] entries_sum(v@, f) == entries_sum(s, f) + tok_field(t, f) by {
                        lemma_sum_insert(s, pos as int, v@[pos as int], f);
                    }
                }
            }
        },
    }
}

} // verus!

verus! {

/// At most [`MAX_MODELS`] models are kept apart: recording usage never grows
/// the usage per model beyond them plus the unknown model.
pub proof fn lemma_record_respects_model_limit(m: Map<Seq<char>, Tokens>, model: Seq<char>, t: Tokens)
    requires
        m.dom().finite(),
        m.len() <= MAX_MODELS + 1,
        m.len() == MAX_MODELS + 1 ==> m.contains_key(unknown_label()),
    ensures
        recorded(m, model, t).dom().finite(),
        recorded(m, model, t).len() <= MAX_MODELS + 1,
        recorded(m, model, t).len() == MAX_MODELS + 1 ==> recorded(m, model, t).contains_key(unknown_label()),
{
    if t != Tokens::zero() {
        let k = record_key(m, model);
        if m.contains_key(k) {
            assert(m.insert(k, tokens_at(m, k).plus(t)).dom() =~= m.dom());
        } else {
            assert(m.insert(k, tokens_at(m, k).plus(t)).dom() == m.dom().insert(k));
        }
    }
}

/// Once every turn of an agent has ended, its active time no longer grows.
pub proof fn lemma_ended_turns_stop_clock(s: Seq<(String, Turn)>, now1: u64, now2: u64)
    requires
        forall|i: int| 0 <= i < s.len() ==> (#[trigger] s[i]).1.done_ms is Some,
    ensures
        elapsed_sum(s, now1) == elapsed_sum(s, now2),
    decreases s.len(),
{
    if s.len() > 0 {
        assert(s[s.len() - 1] == s.last());
        assert forall|i: int| 0 <= i < s.drop_last().len() implies (#[trigger] s.drop_last()[i]).1.done_ms is Some by {
            assert(s.drop_last()[i] == s[i]);
        }
        lemma_ended_turns_stop_clock(s.drop_last(), now1, now2);
    }
}

/// Closing an agent stops its clock: after its open turns are ended, its
/// active time is the same at any later reading.
pub proof fn lemma_close_stops_clock(
    before: Seq<(String, Turn)>,
    after: Seq<(String, Turn)>,
    now_ms: u64,
    now1: u64,
    now2: u64,
)
    requires
        after.len() == before.len(),
        forall|i: int| 0 <= i < before.len() ==> #[trigger] after[i] == (before[i].0, closed_turn(before[i].1, now_ms)),
    ensures
        elapsed_sum(after, now1) == elapsed_sum(after, now2),
{
    assert forall|i: int| 0 <= i < after.len() implies (#[trigger] after[i]).1.done_ms is Some by {
        assert(after[i] == (before[i].0, closed_turn(before[i].1, now_ms)));
    }
    lemma_ended_turns_stop_clock(after, now1, now2);
}

/// A turn completed without a usable duration took the time from its start
/// to its completion: at any later reading it counts what it counted when it
/// was completed. A usable duration is taken as it is.
pub proof fn lemma_completed_turn_time(a: AgentView, id: Seq<char>, duration_ms: Option<i64>, now_ms: u64, later_ms: u64)
    requires
        a.turns.contains_key(id),
        a.turns[id].done_ms is None,
    ensures
        ({
            let done = a.after_complete_turn(id, duration_ms, now_ms).turns[id];
            &&& done.start_ms == a.turns[id].start_ms
            &&& done.done_ms is Some
            &&& (match duration_ms {
                Some(d) => d >= 0,
                None => false,
            }) ==> turn_ms(done, later_ms) == duration_ms->0
            &&& !(match duration_ms {
                Some(d) => d >= 0,
                None => false,
            }) ==> turn_ms(done, later_ms) == turn_ms(a.turns[id], now_ms)
                && (a.turns[id].start_ms <= now_ms ==> turn_ms(done, later_ms) == now_ms - a.turns[id].start_ms)
        }),
{
}

} // verus!
