//! The usage dashboard: the token totals of a root thread and its
//! descendants, usage by model, and per-agent details, as lines of text.
use vstd::prelude::*;
use crate::agent::{AgentUsage, elapsed_sum, tokens_at, add_to_entry, tok_field, entries_sum,
    entries_non_negative, lemma_sum_non_negative};
use crate::keyed::{sorted_keys, lemma_sorted_distinct, entries_map, has_key, key_views, sorted_listing, lemma_key_views_listing,
    view_sorted, view_map, view_has_key, lemma_view_entry};
use crate::text::lemma_seq_less_irreflexive;
use crate::ledger::SessionUsage;
use crate::text::{text_of, append_str, append_i64, int_text};
use crate::tokens::{Tokens, saturate, saturating_add};

verus! {

/// How a line is shown.
#[derive(Clone, Copy, Debug, PartialEq, Eq, Structural)]
pub enum LineStyle {
    Plain,
    Bold,
    Dim,
    /// Calls for attention.
    Attention,
}

/// A line of the dashboard.
#[derive(Debug)]
pub enum UsageLine {
    Text { text: String, style: LineStyle },
    /// The activity of an agent: shown as `  {status} · current model {model}
    /// · reasoning {reasoning} · {turns} observed turns · active time {s}s`,
    /// the active time in seconds with one decimal.
    Activity { status: String, model: String, reasoning: String, turns: usize, active_ms: u64 },
}

/// A line of the dashboard, as values.
pub enum LineView {
    Text(Seq<char>, LineStyle),
    Activity(Seq<char>, Seq<char>, Seq<char>, nat, u64),
}

impl View for UsageLine {
    type V = LineView;

    open spec fn view(&self) -> LineView {
        match self {
            UsageLine::Text { text, style } => LineView::Text(text@, *style),
            UsageLine::Activity { status, model, reasoning, turns, active_ms } => LineView::Activity(
                status@,
                model@,
                reasoning@,
                *turns as nat,
                *active_ms,
            ),
        }
    }
}

/// The lines as values.
pub open spec fn lines_view(v: Seq<UsageLine>) -> Seq<LineView> {
    v.map_values(|l: UsageLine| l@)
}

/// The message shown while a ledger is incomplete.
pub open spec fn partial_data_message() -> Seq<char> {
    "Partial data: some agent details may be incomplete because metadata could not be loaded, history changed, or the tracking limit was reached."@
}

/// `{input + output} total · {input} input · {cached} cached · {output} output`.
pub open spec fn spec_token_text(t: Tokens) -> Seq<char> {
    int_text(saturate(t.input + t.output) as int) + " total · "@ + int_text(t.input as int) + " input · "@
        + int_text(t.cached as int) + " cached · "@ + int_text(t.output as int) + " output"@
}

/// The tokens of an entry list added to `acc` in order, saturating.
pub open spec fn fold_plus(acc: Tokens, s: Seq<(String, Tokens)>) -> Tokens
    decreases s.len(),
{
    if s.len() == 0 {
        acc
    } else {
        fold_plus(acc, s.drop_last()).plus(s.last().1)
    }
}

/// The entries of `s` added into `m` per key, in order.
pub open spec fn fold_entries(m: Map<Seq<char>, Tokens>, s: Seq<(String, Tokens)>) -> Map<Seq<char>, Tokens>
    decreases s.len(),
{
    if s.len() == 0 {
        m
    } else {
        let m1 = fold_entries(m, s.drop_last());
        let k = s.last().0@;
        m1.insert(k, tokens_at(m1, k).plus(s.last().1))
    }
}

/// The first lines: title, root, caveats, and the parent, sub-agent and
/// overall totals.
pub open spec fn header_lines(root: Seq<char>, p: Tokens, c: Tokens) -> Seq<LineView> {
    seq![
        LineView::Text("Session usage · live"@, LineStyle::Bold),
        LineView::Text("Root: "@ + root, LineStyle::Dim),
        LineView::Text("Tokens, not a bill. Monetary cost unavailable without verified pricing."@, LineStyle::Dim),
        LineView::Text("Observed threads only; updates arrive after model responses, not per token."@, LineStyle::Dim),
        LineView::Text(Seq::empty(), LineStyle::Plain),
        LineView::Text("Parent     "@ + spec_token_text(p), LineStyle::Plain),
        LineView::Text("Subagents  "@ + spec_token_text(c), LineStyle::Plain),
        LineView::Text("Total      "@ + spec_token_text(p.plus(c)), LineStyle::Bold),
        LineView::Text(Seq::empty(), LineStyle::Plain),
        LineView::Text("Usage by model"@, LineStyle::Bold),
    ]
}

/// Two lines per model of a group: `{role} · {model}` and its usage.
pub open spec fn group_lines(role: Seq<char>, g: Seq<(Seq<char>, Tokens)>) -> Seq<LineView>
    decreases g.len(),
{
    if g.len() == 0 {
        Seq::empty()
    } else {
        group_lines(role, g.drop_last()) + seq![
            LineView::Text(role + " · "@ + g.last().0, LineStyle::Plain),
            LineView::Text("  "@ + spec_token_text(g.last().1), LineStyle::Plain),
        ]
    }
}

/// Two lines per model of an agent: its usage, and its reasoning and cache
/// write counters.
pub open spec fn model_detail_lines(s: Seq<(String, Tokens)>) -> Seq<LineView>
    decreases s.len(),
{
    if s.len() == 0 {
        Seq::empty()
    } else {
        let t = s.last().1;
        model_detail_lines(s.drop_last()) + seq![
            LineView::Text("  "@ + s.last().0@ + ": "@ + spec_token_text(t), LineStyle::Plain),
            LineView::Text(
                "    reasoning "@ + int_text(t.reasoning as int) + " (included in output) · cache writes "@
                    + int_text(t.write as int) + " (provider counter)"@,
                LineStyle::Dim,
            ),
        ]
    }
}

/// The detail lines of agent `id`.
pub open spec fn agent_lines(id: Seq<char>, a: AgentUsage, root: Seq<char>, now_ms: u64) -> Seq<LineView> {
    let role = if id == root { "Parent"@ } else { "Agent"@ };
    let shown = if a.name@.len() == 0 { id } else { a.name@ };
    let parent = match a.parent {
        Some(p) => p@,
        None => "—"@,
    };
    let reasoning = match a.reasoning_effort {
        Some(e) => e@,
        None => "unknown"@,
    };
    seq![
        LineView::Text(role + ": "@ + shown, LineStyle::Bold),
        LineView::Text("  ID "@ + id + " · parent "@ + parent, LineStyle::Dim),
        LineView::Activity(a.status@, a.model@, reasoning, a.turns@.len(), elapsed_sum(a.turns@, now_ms)),
    ] + (if a.previous is None {
        seq![LineView::Text("  Usage not yet reported"@, LineStyle::Dim)]
    } else {
        Seq::empty()
    }) + model_detail_lines(a.models@)
}

/// The usage by model: a waiting note when there is none, then the root's
/// models and its descendants' models.
pub open spec fn model_section(pg: Seq<(Seq<char>, Tokens)>, sg: Seq<(Seq<char>, Tokens)>) -> Seq<LineView> {
    (if pg.len() == 0 && sg.len() == 0 {
        seq![LineView::Text("Waiting for usage notifications…"@, LineStyle::Dim)]
    } else {
        Seq::empty()
    }) + group_lines("Parent"@, pg) + group_lines("Subagents"@, sg)
}

/// The closing lines.
pub open spec fn footer_lines(incomplete: bool) -> Seq<LineView> {
    seq![
        LineView::Text("Input includes cached input; total = input + output. Cache and reasoning are not added twice."@, LineStyle::Dim),
        LineView::Text("Unknown = history/model attribution unavailable. Closed agents are retained until this TUI exits."@, LineStyle::Dim),
    ] + if incomplete {
        seq![LineView::Text(partial_data_message(), LineStyle::Attention)]
    } else {
        Seq::empty()
    }
}

impl SessionUsage {
    /// Agent `id` belongs to the tree of `root`.
    pub open spec fn is_member(&self, id: Seq<char>, root: Seq<char>) -> bool {
        self@.root_of(id) == root
    }

    /// The usage of the root and of its descendants among the first agents
    /// `s`, each summed in agent and model order.
    pub open spec fn group_totals(&self, s: Seq<(String, AgentUsage)>, root: Seq<char>) -> (Tokens, Tokens)
        decreases s.len(),
    {
        if s.len() == 0 {
            (Tokens::zero(), Tokens::zero())
        } else {
            let (p, c) = self.group_totals(s.drop_last(), root);
            let e = s.last();
            if !self.is_member(e.0@, root) {
                (p, c)
            } else if e.0@ == root {
                (fold_plus(p, e.1.models@), c)
            } else {
                (p, fold_plus(c, e.1.models@))
            }
        }
    }

    /// The usage per model of the descendants of `root` among the first
    /// agents `s`.
    pub open spec fn descendant_models(&self, s: Seq<(String, AgentUsage)>, root: Seq<char>) -> Map<Seq<char>, Tokens>
        decreases s.len(),
    {
        if s.len() == 0 {
            Map::empty()
        } else {
            let m = self.descendant_models(s.drop_last(), root);
            let e = s.last();
            if self.is_member(e.0@, root) && e.0@ != root {
                fold_entries(m, e.1.models@)
            } else {
                m
            }
        }
    }

    /// The usage per model of `root` itself, when it belongs to its own tree.
    pub open spec fn root_models(&self, s: Seq<(String, AgentUsage)>, root: Seq<char>) -> Seq<(Seq<char>, Tokens)>
        decreases s.len(),
    {
        if s.len() == 0 {
            Seq::empty()
        } else if s.last().0@ == root && self.is_member(root, root) {
            key_views(s.last().1.models@)
        } else {
            self.root_models(s.drop_last(), root)
        }
    }

    /// The detail lines of the members of the tree of `root` among `s`.
    pub open spec fn detail_lines(&self, s: Seq<(String, AgentUsage)>, root: Seq<char>, now_ms: u64) -> Seq<LineView>
        decreases s.len(),
    {
        if s.len() == 0 {
            Seq::empty()
        } else {
            let e = s.last();
            self.detail_lines(s.drop_last(), root, now_ms) + if self.is_member(e.0@, root) {
                agent_lines(e.0@, e.1, root, now_ms)
            } else {
                Seq::empty()
            }
        }
    }

    /// The usage of `root` and of its descendants.
    pub open spec fn spec_totals(&self, root: Seq<char>) -> (Tokens, Tokens) {
        self.group_totals(self.agents@, root)
    }

    /// The per-agent section: every member's details when `detailed`, else a
    /// pointer to the detailed view.
    pub open spec fn detail_section(&self, root: Seq<char>, detailed: bool, now_ms: u64) -> Seq<LineView> {
        if detailed {
            seq![
                LineView::Text(Seq::empty(), LineStyle::Plain),
                LineView::Text("Agents · completed agents remain included"@, LineStyle::Bold),
            ] + self.detail_lines(self.agents@, root, now_ms) + seq![
                LineView::Text(Seq::empty(), LineStyle::Plain),
                LineView::Text("Active time sums observed turns, including tool execution and waiting; it is not inference time."@, LineStyle::Dim),
            ]
        } else {
            seq![
                LineView::Text(Seq::empty(), LineStyle::Plain),
                LineView::Text("Close and run /detailed-status for per-agent models, tokens and active time."@, LineStyle::Dim),
            ]
        }
    }

    /// The dashboard of the tree of `root` at `now_ms`.
    pub open spec fn spec_lines(&self, root: Seq<char>, detailed: bool, now_ms: u64) -> Seq<LineView> {
        let (p, c) = self.spec_totals(root);
        header_lines(root, p, c)
            + model_section(
                self.root_models(self.agents@, root),
                sorted_listing(self.descendant_models(self.agents@, root)),
            )
            + self.detail_section(root, detailed, now_ms)
            + footer_lines(self.incomplete)
    }

    /// The usage of `root` itself and of its descendants.
    pub fn totals(&self, root: &String) -> (r: (Tokens, Tokens))
        requires
            self.wf(),
        ensures
            r == self.spec_totals(root@),
    {
        let mut parent = Tokens::default();
        let mut children = Tokens::default();
        let mut i: usize = 0;
        while i < self.agents.len()
            invariant
                self.wf(),
                i <= self.agents@.len(),
                (parent, children) == self.group_totals(self.agents@.take(i as int), root@),
            decreases self.agents@.len() - i,
        {
            proof {
                assert(self.agents@.take(i + 1).drop_last() =~= self.agents@.take(i as int));
            }
            let id = &self.agents[i].0;
            let member = self.root(id) == *root;
            if member {
                let models = &self.agents[i].1.models;
                let is_root = *id == *root;
                let mut j: usize = 0;
                let ghost p0 = parent;
                let ghost c0 = children;
                while j < models.len()
                    invariant
                        j <= models@.len(),
                        is_root ==> parent == fold_plus(p0, models@.take(j as int)) && children == c0,
                        !is_root ==> children == fold_plus(c0, models@.take(j as int)) && parent == p0,
                    decreases models@.len() - j,
                {
                    proof {
                        assert(models@.take(j + 1).drop_last() =~= models@.take(j as int));
                    }
                    if is_root {
                        parent.add(models[j].1);
                    } else {
                        children.add(models[j].1);
                    }
                    j = j + 1;
                }
                proof {
                    assert(models@.take(models@.len() as int) =~= models@);
                }
            }
            i = i + 1;
        }
        proof {
            assert(self.agents@.take(self.agents@.len() as int) =~= self.agents@);
        }
        (parent, children)
    }

    /// The three counts of the compact usage line: input plus output of the
    /// whole tree of `root`, of `root` itself, and of its descendants.
    pub fn compact_counts(&self, root: &String) -> (r: (i64, i64, i64))
        requires
            self.wf(),
        ensures
            ({
                let (p, c) = self.spec_totals(root@);
                let t = p.plus(c);
                r == (saturate(t.input + t.output), saturate(p.input + p.output), saturate(c.input + c.output))
            }),
    {
        let (parent, children) = self.totals(root);
        let mut total = parent;
        total.add(children);
        (
            saturating_add(total.input, total.output),
            saturating_add(parent.input, parent.output),
            saturating_add(children.input, children.output),
        )
    }
}

/// Appends a line of text.
fn push_text(lines: &mut Vec<UsageLine>, text: String, style: LineStyle)
    ensures
        lines_view(final(lines)@) == lines_view(old(lines)@).push(LineView::Text(text@, style)),
{
    let ghost t = text@;
    lines.push(UsageLine::Text { text, style });
    proof {
        assert(lines_view(lines@) =~= lines_view(old(lines)@).push(LineView::Text(t, style)));
    }
}

/// Appends a line holding `s`.
fn push_str(lines: &mut Vec<UsageLine>, s: &str, style: LineStyle)
    ensures
        lines_view(final(lines)@) == lines_view(old(lines)@).push(LineView::Text(s@, style)),
{
    push_text(lines, text_of(s), style);
}

/// Appends the lines of a model group.
fn push_group(lines: &mut Vec<UsageLine>, role: &str, g: &Vec<(String, Tokens)>)
    ensures
        lines_view(final(lines)@) == lines_view(old(lines)@) + group_lines(role@, key_views(g@)),
{
    let mut j: usize = 0;
    while j < g.len()
        invariant
            j <= g@.len(),
            lines_view(lines@) == lines_view(old(lines)@) + group_lines(role@, key_views(g@.take(j as int))),
        decreases g@.len() - j,
    {
        proof {
            assert(key_views(g@.take(j + 1)).drop_last() =~= key_views(g@.take(j as int)));
        }
        let ghost before = lines_view(lines@);
        let mut first = text_of(role);
        append_str(&mut first, " · ");
        append_str(&mut first, g[j].0.as_str());
        push_text(lines, first, LineStyle::Plain);
        let mut second = text_of("  ");
        let tt = token_text(g[j].1);
        append_str(&mut second, tt.as_str());
        push_text(lines, second, LineStyle::Plain);
        proof {
            let kv = key_views(g@.take(j + 1));
            assert(kv.last() == (g@[j as int].0@, g@[j as int].1));
            assert(lines_view(lines@) =~= lines_view(old(lines)@) + group_lines(role@, kv));
        }
        j = j + 1;
    }
    proof {
        assert(g@.take(g@.len() as int) =~= g@);
    }
}

/// Appends the detail lines of a model list.
fn push_model_details(lines: &mut Vec<UsageLine>, models: &Vec<(String, Tokens)>)
    ensures
        lines_view(final(lines)@) == lines_view(old(lines)@) + model_detail_lines(models@),
{
    let mut j: usize = 0;
    while j < models.len()
        invariant
            j <= models@.len(),
            lines_view(lines@) == lines_view(old(lines)@) + model_detail_lines(models@.take(j as int)),
        decreases models@.len() - j,
    {
        proof {
            assert(models@.take(j + 1).drop_last() =~= models@.take(j as int));
        }
        let t = models[j].1;
        let mut first = text_of("  ");
        append_str(&mut first, models[j].0.as_str());
        append_str(&mut first, ": ");
        let tt = token_text(t);
        append_str(&mut first, tt.as_str());
        push_text(lines, first, LineStyle::Plain);
        let mut second = text_of("    reasoning ");
        append_i64(&mut second, t.reasoning);
        append_str(&mut second, " (included in output) · cache writes ");
        append_i64(&mut second, t.write);
        append_str(&mut second, " (provider counter)");
        push_text(lines, second, LineStyle::Dim);
        proof {
            assert(lines_view(lines@) =~= lines_view(old(lines)@) + model_detail_lines(models@.take(j + 1)));
        }
        j = j + 1;
    }
    proof {
        assert(models@.take(models@.len() as int) =~= models@);
    }
}

/// Appends the detail lines of agent `id`.
fn push_agent_lines(lines: &mut Vec<UsageLine>, id: &String, a: &AgentUsage, root: &String, now_ms: u64)
    ensures
        lines_view(final(lines)@) == lines_view(old(lines)@) + agent_lines(id@, *a, root@, now_ms),
{
    let mut first = if *id == *root { text_of("Parent") } else { text_of("Agent") };
    append_str(&mut first, ": ");
    if a.name.as_str().is_empty() {
        append_str(&mut first, id.as_str());
    } else {
        append_str(&mut first, a.name.as_str());
    }
    push_text(lines, first, LineStyle::Bold);
    let mut second = text_of("  ID ");
    append_str(&mut second, id.as_str());
    append_str(&mut second, " · parent ");
    match &a.parent {
        Some(p) => append_str(&mut second, p.as_str()),
        None => append_str(&mut second, "—"),
    }
    push_text(lines, second, LineStyle::Dim);
    let reasoning = match &a.reasoning_effort {
        Some(e) => e.clone(),
        None => text_of("unknown"),
    };
    let ghost before = lines_view(lines@);
    let activity = UsageLine::Activity {
        status: a.status.clone(),
        model: a.model.clone(),
        reasoning,
        turns: a.turns.len(),
        active_ms: a.elapsed_ms(now_ms),
    };
    let ghost av = activity@;
    lines.push(activity);
    proof {
        assert(lines_view(lines@) =~= before.push(av));
    }
    if a.previous.is_none() {
        push_str(lines, "  Usage not yet reported", LineStyle::Dim);
    }
    push_model_details(lines, &a.models);
    proof {
        assert(lines_view(lines@) =~= lines_view(old(lines)@) + agent_lines(id@, *a, root@, now_ms));
    }
}

/// Appends an empty line.
fn push_blank(lines: &mut Vec<UsageLine>)
    ensures
        lines_view(final(lines)@) == lines_view(old(lines)@).push(LineView::Text(Seq::empty(), LineStyle::Plain)),
{
    push_text(lines, String::new(), LineStyle::Plain);
}

/// Appends the first lines of the dashboard.
fn push_header(lines: &mut Vec<UsageLine>, root: &String, parent: Tokens, children: Tokens)
    ensures
        lines_view(final(lines)@) == lines_view(old(lines)@) + header_lines(root@, parent, children),
{
    let ghost v0 = lines_view(lines@);
    let mut total = parent;
    total.add(children);
    push_str(lines, "Session usage · live", LineStyle::Bold);
    let mut r = text_of("Root: ");
    append_str(&mut r, root.as_str());
    push_text(lines, r, LineStyle::Dim);
    push_str(lines, "Tokens, not a bill. Monetary cost unavailable without verified pricing.", LineStyle::Dim);
    push_str(lines, "Observed threads only; updates arrive after model responses, not per token.", LineStyle::Dim);
    push_blank(lines);
    let mut t1 = text_of("Parent     ");
    let tt = token_text(parent);
    append_str(&mut t1, tt.as_str());
    push_text(lines, t1, LineStyle::Plain);
    let mut t2 = text_of("Subagents  ");
    let tt = token_text(children);
    append_str(&mut t2, tt.as_str());
    push_text(lines, t2, LineStyle::Plain);
    let mut t3 = text_of("Total      ");
    let tt = token_text(total);
    append_str(&mut t3, tt.as_str());
    push_text(lines, t3, LineStyle::Bold);
    push_blank(lines);
    push_str(lines, "Usage by model", LineStyle::Bold);
    proof {
        assert(lines_view(lines@) =~= v0 + header_lines(root@, parent, children));
    }
}

/// Appends the closing lines.
fn push_footer(lines: &mut Vec<UsageLine>, incomplete: bool)
    ensures
        lines_view(final(lines)@) == lines_view(old(lines)@) + footer_lines(incomplete),
{
    let ghost v0 = lines_view(lines@);
    push_str(lines, "Input includes cached input; total = input + output. Cache and reasoning are not added twice.", LineStyle::Dim);
    push_str(lines, "Unknown = history/model attribution unavailable. Closed agents are retained until this TUI exits.", LineStyle::Dim);
    if incomplete {
        push_str(lines, "Partial data: some agent details may be incomplete because metadata could not be loaded, history changed, or the tracking limit was reached.", LineStyle::Attention);
    }
    proof {
        assert(lines_view(lines@) =~= v0 + footer_lines(incomplete));
    }
}

impl SessionUsage {
    /// The model groups of the tree of `root`: the usage of `root` itself by
    /// model, and that of its descendants summed by model.
    fn model_groups<'a>(&'a self, root: &String) -> (r: (Option<&'a Vec<(String, Tokens)>>, Vec<(String, Tokens)>))
        requires
            self.wf(),
        ensures
            match r.0 {
                Some(g) => key_views(g@) == self.root_models(self.agents@, root@),
                None => self.root_models(self.agents@, root@) == Seq::<(Seq<char>, Tokens)>::empty(),
            },
            key_views(r.1@) == sorted_listing(self.descendant_models(self.agents@, root@)),
    {
        let root_member = self.root(root) == *root;
        let mut pg: Option<&Vec<(String, Tokens)>> = None;
        let mut sub: Vec<(String, Tokens)> = Vec::new();
        let mut i: usize = 0;
        proof {
            assert(entries_map(sub@) =~= Map::<Seq<char>, Tokens>::empty());
            assert(key_views(Seq::<(String, Tokens)>::empty()) =~= Seq::<(Seq<char>, Tokens)>::empty());
        }
        while i < self.agents.len()
            invariant
                self.wf(),
                i <= self.agents@.len(),
                root_member == self.is_member(root@, root@),
                match pg {
                    Some(g) => key_views(g@) == self.root_models(self.agents@.take(i as int), root@),
                    None => self.root_models(self.agents@.take(i as int), root@) == Seq::<(Seq<char>, Tokens)>::empty(),
                },
                sorted_keys(sub@),
                entries_map(sub@) == self.descendant_models(self.agents@.take(i as int), root@),
            decreases self.agents@.len() - i,
        {
            proof {
                assert(self.agents@.take(i + 1).drop_last() =~= self.agents@.take(i as int));
                assert(self.agents@.take(i + 1).last() == self.agents@[i as int]);
            }
            let id = &self.agents[i].0;
            let models = &self.agents[i].1.models;
            if *id == *root {
                if root_member {
                    pg = Some(models);
                }
            } else if self.root(id) == *root {
                let mut j: usize = 0;
                let ghost m0 = entries_map(sub@);
                while j < models.len()
                    invariant
                        j <= models@.len(),
                        sorted_keys(sub@),
                        entries_map(sub@) == fold_entries(m0, models@.take(j as int)),
                    decreases models@.len() - j,
                {
                    proof {
                        assert(models@.take(j + 1).drop_last() =~= models@.take(j as int));
                    }
                    add_to_entry(&mut sub, models[j].0.clone(), models[j].1);
                    j = j + 1;
                }
                proof {
                    assert(models@.take(models@.len() as int) =~= models@);
                }
            }
            i = i + 1;
        }
        proof {
            assert(self.agents@.take(self.agents@.len() as int) =~= self.agents@);
            lemma_key_views_listing(sub@);
        }
        (pg, sub)
    }

    /// Appends the detail lines of every member of the tree of `root`.
    fn push_details(&self, lines: &mut Vec<UsageLine>, root: &String, now_ms: u64)
        requires
            self.wf(),
        ensures
            lines_view(final(lines)@) == lines_view(old(lines)@) + self.detail_lines(self.agents@, root@, now_ms),
    {
        let ghost base = lines_view(lines@);
        let mut i: usize = 0;
        proof {
            assert(base =~= base + self.detail_lines(self.agents@.take(0), root@, now_ms));
        }
        while i < self.agents.len()
            invariant
                self.wf(),
                i <= self.agents@.len(),
                lines_view(lines@) == base + self.detail_lines(self.agents@.take(i as int), root@, now_ms),
            decreases self.agents@.len() - i,
        {
            proof {
                assert(self.agents@.take(i + 1).drop_last() =~= self.agents@.take(i as int));
                assert(self.agents@.take(i + 1).last() == self.agents@[i as int]);
            }
            let id = &self.agents[i].0;
            if self.root(id) == *root {
                push_agent_lines(lines, id, &self.agents[i].1, root, now_ms);
            }
            proof {
                assert(lines_view(lines@) =~= base + self.detail_lines(self.agents@.take(i + 1), root@, now_ms));
            }
            i = i + 1;
        }
        proof {
            assert(self.agents@.take(self.agents@.len() as int) =~= self.agents@);
        }
    }

    /// Appends the per-agent section.
    fn push_detail_section(&self, lines: &mut Vec<UsageLine>, root: &String, detailed: bool, now_ms: u64)
        requires
            self.wf(),
        ensures
            lines_view(final(lines)@) == lines_view(old(lines)@) + self.detail_section(root@, detailed, now_ms),
    {
        let ghost v0 = lines_view(lines@);
        if detailed {
            push_blank(lines);
            push_str(lines, "Agents · completed agents remain included", LineStyle::Bold);
            let ghost v1 = lines_view(lines@);
            self.push_details(lines, root, now_ms);
            let ghost v2 = lines_view(lines@);
            push_blank(lines);
            push_str(lines, "Active time sums observed turns, including tool execution and waiting; it is not inference time.", LineStyle::Dim);
            proof {
                assert(lines_view(lines@) =~= v0 + self.detail_section(root@, detailed, now_ms));
            }
        } else {
            push_blank(lines);
            push_str(lines, "Close and run /detailed-status for per-agent models, tokens and active time.", LineStyle::Dim);
            proof {
                assert(lines_view(lines@) =~= v0 + self.detail_section(root@, detailed, now_ms));
            }
        }
    }

    /// The dashboard of the tree of `root` at `now_ms`: totals, usage by
    /// model of the root and of its descendants, per-agent details when
    /// `detailed`, and notes.
    pub fn lines(&self, root: &String, detailed: bool, now_ms: u64) -> (r: Vec<UsageLine>)
        requires
            self.wf(),
        ensures
            lines_view(r@) == self.spec_lines(root@, detailed, now_ms),
    {
        let (parent, children) = self.totals(root);
        let (pg, sub) = self.model_groups(root);
        let mut lines: Vec<UsageLine> = Vec::new();
        proof {
            assert(lines_view(lines@) =~= Seq::<LineView>::empty());
        }
        push_header(&mut lines, root, parent, children);
        let ghost v1 = lines_view(lines@);
        push_model_section(&mut lines, pg, &sub);
        let ghost v2 = lines_view(lines@);
        self.push_detail_section(&mut lines, root, detailed, now_ms);
        let ghost v3 = lines_view(lines@);
        push_footer(&mut lines, self.incomplete);
        proof {
            let (p, c) = self.spec_totals(root@);
            let a = header_lines(root@, p, c);
            let b = model_section(
                self.root_models(self.agents@, root@),
                sorted_listing(self.descendant_models(self.agents@, root@)),
            );
            let d = self.detail_section(root@, detailed, now_ms);
            let e = footer_lines(self.incomplete);
            assert(v1 =~= a);
            assert(v2 =~= a + b);
            assert(v3 =~= a + b + d);
            assert(lines_view(lines@) =~= a + b + d + e);
        }
        lines
    }
}

/// Appends the usage by model.
fn push_model_section(lines: &mut Vec<UsageLine>, pg: Option<&Vec<(String, Tokens)>>, sub: &Vec<(String, Tokens)>)
    ensures
        lines_view(final(lines)@) == lines_view(old(lines)@) + model_section(
            match pg {
                Some(g) => key_views(g@),
                None => Seq::empty(),
            },
            key_views(sub@),
        ),
{
    let ghost v0 = lines_view(lines@);
    let ghost pgv: Seq<(Seq<char>, Tokens)> = match pg {
        Some(g) => key_views(g@),
        None => Seq::empty(),
    };
    let no_parent_models = match pg {
        Some(g) => g.len() == 0,
        None => true,
    };
    assert(no_parent_models == (pgv.len() == 0));
    assert(key_views(sub@).len() == sub@.len());
    if no_parent_models && sub.len() == 0 {
        push_str(lines, "Waiting for usage notifications…", LineStyle::Dim);
    }
    let ghost v1 = lines_view(lines@);
    match pg {
        Some(g) => push_group(lines, "Parent", g),
        None => {},
    }
    let ghost v2 = lines_view(lines@);
    assert(v2 =~= v1 + group_lines("Parent"@, pgv));
    push_group(lines, "Subagents", sub);
    proof {
        assert(lines_view(lines@) =~= v0 + model_section(pgv, key_views(sub@)));
    }
}

/// `{input + output} total · {input} input · {cached} cached · {output} output`.
pub fn token_text(tokens: Tokens) -> (r: String)
    ensures
        r@ == spec_token_text(tokens),
{
    let mut s = String::new();
    append_i64(&mut s, saturating_add(tokens.input, tokens.output));
    append_str(&mut s, " total · ");
    append_i64(&mut s, tokens.input);
    append_str(&mut s, " input · ");
    append_i64(&mut s, tokens.cached);
    append_str(&mut s, " cached · ");
    append_i64(&mut s, tokens.output);
    append_str(&mut s, " output");
    proof {
        assert(s@ =~= spec_token_text(tokens));
    }
    s
}

} // verus!

verus! {

/// Following parent links gives the same result in two ledgers with the same
/// threads and the same parents.
proof fn lemma_walk_same_parents(s1: crate::ledger::SessionView, s2: crate::ledger::SessionView, id: Seq<char>, steps: nat)
    requires
        s1.agents.dom() == s2.agents.dom(),
        forall|k: Seq<char>| s1.agents.contains_key(k) ==> #[trigger] s1.agents[k].parent == s2.agents[k].parent,
    ensures
        s1.walk(id, steps) == s2.walk(id, steps),
    decreases steps,
{
    if steps > 0 && s1.agents.contains_key(id) && s1.agents[id].parent is Some {
        assert(s2.agents.contains_key(id));
        lemma_walk_same_parents(s1, s2, s1.agents[id].parent->0, (steps - 1) as nat);
    } else if steps > 0 {
        assert(s1.agents.contains_key(id) == s2.agents.contains_key(id));
    }
}

/// Usage of agents outside the tree of `root` never enters its totals:
/// changing the usage of such an agent, its parent kept, leaves them as they
/// were.
pub proof fn lemma_other_trees_not_counted(u1: SessionUsage, u2: SessionUsage, i: int, root: Seq<char>)
    requires
        u1.wf(),
        u2.wf(),
        0 <= i < u1.agents@.len(),
        u2.agents@.len() == u1.agents@.len(),
        forall|j: int| 0 <= j < u1.agents@.len() && j != i ==> #[trigger] u2.agents@[j] == u1.agents@[j],
        u2.agents@[i].0 == u1.agents@[i].0,
        u2.agents@[i].1.parent == u1.agents@[i].1.parent,
        !u1.is_member(u1.agents@[i].0@, root),
    ensures
        u2.spec_totals(root) == u1.spec_totals(root),
{
    let s1 = u1.agents@;
    let s2 = u2.agents@;
    assert forall|k: Seq<char>| #[trigger] u1@.agents.contains_key(k) <==> u2@.agents.contains_key(k) by {
        if has_key(s1, k) {
            let j = crate::keyed::key_index(s1, k);
            assert(s2[j].0 == s1[j].0);
        }
        if has_key(s2, k) {
            let j = crate::keyed::key_index(s2, k);
            assert(s1[j].0 == s2[j].0);
        }
    }
    assert(u1@.agents.dom() =~= u2@.agents.dom());
    assert forall|k: Seq<char>| u1@.agents.contains_key(k) implies #[trigger] u1@.agents[k].parent == u2@.agents[k].parent by {
        let j = crate::keyed::key_index(s1, k);
        crate::keyed::lemma_entry_in_map(s1, j);
        assert(s2[j].0 == s1[j].0);
        crate::keyed::lemma_entry_in_map(s2, j);
    }
    assert forall|k: Seq<char>| #[trigger] u1.is_member(k, root) == u2.is_member(k, root) by {
        crate::ledger::lemma_map_values_len(u1);
        crate::ledger::lemma_map_values_len(u2);
        lemma_walk_same_parents(u1@, u2@, k, u1@.agents.len());
    }
    lemma_group_totals_prefix(u1, u2, i, root, s1.len() as int);
    assert(s1.take(s1.len() as int) =~= s1);
    assert(s2.take(s2.len() as int) =~= s2);
}

proof fn lemma_group_totals_prefix(u1: SessionUsage, u2: SessionUsage, i: int, root: Seq<char>, n: int)
    requires
        0 <= n <= u1.agents@.len(),
        0 <= i < u1.agents@.len(),
        u2.agents@.len() == u1.agents@.len(),
        forall|j: int| 0 <= j < u1.agents@.len() && j != i ==> #[trigger] u2.agents@[j] == u1.agents@[j],
        u2.agents@[i].0 == u1.agents@[i].0,
        !u1.is_member(u1.agents@[i].0@, root),
        forall|k: Seq<char>| #[trigger] u1.is_member(k, root) == u2.is_member(k, root),
    ensures
        u2.group_totals(u2.agents@.take(n), root) == u1.group_totals(u1.agents@.take(n), root),
    decreases n,
{
    if n > 0 {
        let t1 = u1.agents@.take(n);
        let t2 = u2.agents@.take(n);
        assert(t1.drop_last() =~= u1.agents@.take(n - 1));
        assert(t2.drop_last() =~= u2.agents@.take(n - 1));
        lemma_group_totals_prefix(u1, u2, i, root, n - 1);
        assert(t1.last() == u1.agents@[n - 1]);
        assert(t2.last() == u2.agents@[n - 1]);
    }
}

} // verus!

verus! {

/// Counter `f` summed exactly over the usage lines `g`.
pub open spec fn listing_sum(g: Seq<(Seq<char>, Tokens)>, f: int) -> int
    decreases g.len(),
{
    if g.len() == 0 {
        0
    } else {
        listing_sum(g.drop_last(), f) + tok_field(g.last().1, f)
    }
}

/// Counter `f` of the usage that `m` keeps under the keys of `g`, summed.
spec fn keyed_sum(m: Map<Seq<char>, Tokens>, g: Seq<(Seq<char>, Tokens)>, f: int) -> int
    decreases g.len(),
{
    if g.len() == 0 {
        0
    } else {
        keyed_sum(m, g.drop_last(), f) + tok_field(tokens_at(m, g.last().0), f)
    }
}

/// No two entries of `g` share a key.
spec fn distinct_keys(g: Seq<(Seq<char>, Tokens)>) -> bool {
    forall|i: int, j: int| 0 <= i < j < g.len() ==> #[trigger] g[i].0 != #[trigger] g[j].0
}

impl SessionUsage {
    /// Counter `f` summed exactly over every model of every descendant of
    /// `root` among the agents `s`.
    pub open spec fn descendant_sum(&self, s: Seq<(String, AgentUsage)>, root: Seq<char>, f: int) -> int
        decreases s.len(),
    {
        if s.len() == 0 {
            0
        } else {
            let e = s.last();
            self.descendant_sum(s.drop_last(), root, f) + if self.is_member(e.0@, root) && e.0@ != root {
                entries_sum(e.1.models@, f)
            } else {
                0
            }
        }
    }
}

impl SessionUsage {
    /// Counter `f` summed exactly over every model of `root` among the
    /// agents `s`, when `root` belongs to its own tree.
    pub open spec fn root_sum(&self, s: Seq<(String, AgentUsage)>, root: Seq<char>, f: int) -> int
        decreases s.len(),
    {
        if s.len() == 0 {
            0
        } else {
            let e = s.last();
            self.root_sum(s.drop_last(), root, f) + if self.is_member(e.0@, root) && e.0@ == root {
                entries_sum(e.1.models@, f)
            } else {
                0
            }
        }
    }
}

/// No agent among `s` has a negative counter in its usage.
pub open spec fn agents_non_negative(s: Seq<(String, AgentUsage)>) -> bool {
    forall|i: int| 0 <= i < s.len() ==> entries_non_negative(#[trigger] s[i].1.models@)
}

proof fn lemma_field_non_negative(t: Tokens, f: int)
    requires
        t.is_non_negative(),
    ensures
        tok_field(t, f) >= 0,
{
}

proof fn lemma_drop_last_non_negative(s: Seq<(String, Tokens)>)
    requires
        entries_non_negative(s),
        s.len() > 0,
    ensures
        entries_non_negative(s.drop_last()),
        s.last().1.is_non_negative(),
{
    assert(s[s.len() - 1] == s.last());
    assert forall|i: int| 0 <= i < s.drop_last().len() implies (#[trigger] s.drop_last()[i]).1.is_non_negative() by {
        assert(s.drop_last()[i] == s[i]);
    }
}

/// Adding non-negative usage that stays within `i64` is exact.
proof fn lemma_fold_plus_exact(acc: Tokens, s: Seq<(String, Tokens)>, f: int)
    requires
        tok_field(acc, f) >= 0,
        entries_non_negative(s),
        tok_field(acc, f) + entries_sum(s, f) <= i64::MAX,
    ensures
        tok_field(fold_plus(acc, s), f) == tok_field(acc, f) + entries_sum(s, f),
    decreases s.len(),
{
    if s.len() > 0 {
        lemma_drop_last_non_negative(s);
        lemma_field_non_negative(s.last().1, f);
        lemma_fold_plus_exact(acc, s.drop_last(), f);
    }
}

/// The usage of the descendants in the totals is their exact sum, as long
/// as it stays within `i64`.
proof fn lemma_group_children_exact(u: SessionUsage, s: Seq<(String, AgentUsage)>, root: Seq<char>, f: int)
    requires
        agents_non_negative(s),
        u.descendant_sum(s, root, f) <= i64::MAX,
    ensures
        u.descendant_sum(s, root, f) >= 0,
        tok_field(u.group_totals(s, root).1, f) == u.descendant_sum(s, root, f),
    decreases s.len(),
{
    if s.len() > 0 {
        let p = s.drop_last();
        let e = s.last();
        assert(s[s.len() - 1] == e);
        assert(agents_non_negative(p)) by {
            assert forall|i: int| 0 <= i < p.len() implies entries_non_negative(#[trigger] p[i].1.models@) by {
                assert(p[i] == s[i]);
            }
        }
        assert(entries_non_negative(e.1.models@));
        lemma_sum_non_negative(e.1.models@, f);
        lemma_group_children_exact(u, p, root, f);
        if u.is_member(e.0@, root) && e.0@ != root {
            lemma_fold_plus_exact(u.group_totals(p, root).1, e.1.models@, f);
        }
    }
}

/// Summing the lines of a listing sums what its map keeps under their keys.
proof fn lemma_listing_keyed(m: Map<Seq<char>, Tokens>, g: Seq<(Seq<char>, Tokens)>, f: int)
    requires
        forall|i: int| 0 <= i < g.len() ==> tokens_at(m, #[trigger] g[i].0) == g[i].1,
    ensures
        listing_sum(g, f) == keyed_sum(m, g, f),
    decreases g.len(),
{
    if g.len() > 0 {
        let p = g.drop_last();
        assert forall|i: int| 0 <= i < p.len() implies tokens_at(m, #[trigger] p[i].0) == p[i].1 by {
            assert(p[i] == g[i]);
        }
        lemma_listing_keyed(m, p, f);
        assert(g[g.len() - 1] == g.last());
    }
}

/// Changing `m` under a key that `g` lacks leaves the keyed sum alone.
proof fn lemma_keyed_sum_other(m: Map<Seq<char>, Tokens>, g: Seq<(Seq<char>, Tokens)>, k: Seq<char>, v: Tokens, f: int)
    requires
        !view_has_key(g, k),
    ensures
        keyed_sum(m.insert(k, v), g, f) == keyed_sum(m, g, f),
    decreases g.len(),
{
    if g.len() > 0 {
        let p = g.drop_last();
        assert(!view_has_key(p, k)) by {
            if view_has_key(p, k) {
                let i = choose|i: int| 0 <= i < p.len() && #[trigger] p[i].0 == k;
                assert(g[i].0 == k);
            }
        }
        assert(g[g.len() - 1] == g.last());
        lemma_keyed_sum_other(m, p, k, v, f);
    }
}

/// Changing `m` under a key that `g` holds once changes the keyed sum by the
/// change of that counter.
proof fn lemma_keyed_sum_insert(m: Map<Seq<char>, Tokens>, g: Seq<(Seq<char>, Tokens)>, k: Seq<char>, v: Tokens, f: int)
    requires
        distinct_keys(g),
        view_has_key(g, k),
    ensures
        keyed_sum(m.insert(k, v), g, f) == keyed_sum(m, g, f) - tok_field(tokens_at(m, k), f) + tok_field(v, f),
    decreases g.len(),
{
    let p = g.drop_last();
    let n = g.len() - 1;
    assert(g[n] == g.last());
    assert(distinct_keys(p)) by {
        assert forall|i: int, j: int| 0 <= i < j < p.len() implies #[trigger] p[i].0 != #[trigger] p[j].0 by {
            assert(p[i] == g[i] && p[j] == g[j]);
        }
    }
    if g.last().0 == k {
        assert(!view_has_key(p, k)) by {
            if view_has_key(p, k) {
                let i = choose|i: int| 0 <= i < p.len() && #[trigger] p[i].0 == k;
                assert(g[i].0 == g[n].0);
            }
        }
        lemma_keyed_sum_other(m, p, k, v, f);
    } else {
        assert(view_has_key(p, k)) by {
            let i = choose|i: int| 0 <= i < g.len() && #[trigger] g[i].0 == k;
            assert(i != n);
            assert(p[i].0 == k);
        }
        lemma_keyed_sum_insert(m, p, k, v, f);
    }
}

/// A counter kept under one key of `g` is at most the keyed sum, when no
/// counter is negative.
proof fn lemma_keyed_sum_bound(m: Map<Seq<char>, Tokens>, g: Seq<(Seq<char>, Tokens)>, k: Seq<char>, f: int)
    requires
        forall|x: Seq<char>| tok_field(#[trigger] tokens_at(m, x), f) >= 0,
    ensures
        keyed_sum(m, g, f) >= 0,
        view_has_key(g, k) ==> tok_field(tokens_at(m, k), f) <= keyed_sum(m, g, f),
    decreases g.len(),
{
    if g.len() > 0 {
        let p = g.drop_last();
        let n = g.len() - 1;
        assert(g[n] == g.last());
        lemma_keyed_sum_bound(m, p, k, f);
        assert(tok_field(tokens_at(m, g.last().0), f) >= 0);
        if view_has_key(g, k) && g.last().0 != k {
            let i = choose|i: int| 0 <= i < g.len() && #[trigger] g[i].0 == k;
            assert(i != n);
            assert(p[i].0 == k);
        }
    }
}

/// Adding usage entries into `m` per key adds their exact sum to the keyed
/// sum, when `g` holds every key once and nothing saturates.
proof fn lemma_fold_entries_sum(m: Map<Seq<char>, Tokens>, e: Seq<(String, Tokens)>, g: Seq<(Seq<char>, Tokens)>, f: int)
    requires
        distinct_keys(g),
        forall|i: int| 0 <= i < e.len() ==> view_has_key(g, #[trigger] e[i].0@),
        entries_non_negative(e),
        forall|x: Seq<char>| tok_field(#[trigger] tokens_at(m, x), f) >= 0,
        keyed_sum(m, g, f) + entries_sum(e, f) <= i64::MAX,
    ensures
        keyed_sum(fold_entries(m, e), g, f) == keyed_sum(m, g, f) + entries_sum(e, f),
        forall|x: Seq<char>| tok_field(#[trigger] tokens_at(fold_entries(m, e), x), f) >= 0,
    decreases e.len(),
{
    if e.len() > 0 {
        let p = e.drop_last();
        let n = e.len() - 1;
        assert(e[n] == e.last());
        lemma_drop_last_non_negative(e);
        lemma_sum_non_negative(p, f);
        lemma_field_non_negative(e.last().1, f);
        assert forall|i: int| 0 <= i < p.len() implies view_has_key(g, #[trigger] p[i].0@) by {
            assert(p[i] == e[i]);
        }
        lemma_fold_entries_sum(m, p, g, f);
        let m1 = fold_entries(m, p);
        let k = e.last().0@;
        let v = e.last().1;
        assert(view_has_key(g, e[n].0@));
        lemma_keyed_sum_bound(m1, g, k, f);
        let w = tokens_at(m1, k).plus(v);
        assert(tok_field(w, f) == tok_field(tokens_at(m1, k), f) + tok_field(v, f));
        lemma_keyed_sum_insert(m1, g, k, w, f);
        assert forall|x: Seq<char>| tok_field(#[trigger] tokens_at(fold_entries(m, e), x), f) >= 0 by {
            assert(tok_field(tokens_at(m1, x), f) >= 0);
        }
    }
}

/// Adding usage entries into `m` keeps its keys and adds theirs.
proof fn lemma_fold_entries_keys(m: Map<Seq<char>, Tokens>, e: Seq<(String, Tokens)>)
    ensures
        forall|x: Seq<char>| m.contains_key(x) ==> #[trigger] fold_entries(m, e).contains_key(x),
        forall|j: int| 0 <= j < e.len() ==> fold_entries(m, e).contains_key(#[trigger] e[j].0@),
    decreases e.len(),
{
    if e.len() > 0 {
        let p = e.drop_last();
        lemma_fold_entries_keys(m, p);
        assert forall|x: Seq<char>| m.contains_key(x) implies #[trigger] fold_entries(m, e).contains_key(x) by {
            assert(fold_entries(m, p).contains_key(x));
        }
        assert forall|j: int| 0 <= j < e.len() implies fold_entries(m, e).contains_key(#[trigger] e[j].0@) by {
            if j < e.len() - 1 {
                assert(p[j] == e[j]);
            }
        }
    }
}

/// Every model of every descendant among `s` has its line in the usage by
/// model.
proof fn lemma_descendant_keys(u: SessionUsage, s: Seq<(String, AgentUsage)>, root: Seq<char>, i: int, j: int)
    requires
        0 <= i < s.len(),
        u.is_member(s[i].0@, root),
        s[i].0@ != root,
        0 <= j < s[i].1.models@.len(),
    ensures
        u.descendant_models(s, root).contains_key(s[i].1.models@[j].0@),
    decreases s.len(),
{
    let p = s.drop_last();
    let e = s.last();
    assert(s[s.len() - 1] == e);
    let k = s[i].1.models@[j].0@;
    if i == s.len() - 1 {
        lemma_fold_entries_keys(u.descendant_models(p, root), e.1.models@);
    } else {
        assert(p[i] == s[i]);
        lemma_descendant_keys(u, p, root, i, j);
        lemma_fold_entries_keys(u.descendant_models(p, root), e.1.models@);
    }
}

/// The usage by model of the descendants among `s`, summed over the keys of
/// `g`, is the exact sum of their usage.
proof fn lemma_descendant_models_exact(u: SessionUsage, s: Seq<(String, AgentUsage)>, root: Seq<char>, g: Seq<(Seq<char>, Tokens)>, f: int)
    requires
        distinct_keys(g),
        forall|i: int, j: int| 0 <= i < s.len() && u.is_member(s[i].0@, root) && s[i].0@ != root
            && 0 <= j < s[i].1.models@.len() ==> view_has_key(g, #[trigger] s[i].1.models@[j].0@),
        agents_non_negative(s),
        u.descendant_sum(s, root, f) <= i64::MAX,
    ensures
        keyed_sum(u.descendant_models(s, root), g, f) == u.descendant_sum(s, root, f),
        forall|x: Seq<char>| tok_field(#[trigger] tokens_at(u.descendant_models(s, root), x), f) >= 0,
    decreases s.len(),
{
    if s.len() == 0 {
        assert forall|x: Seq<char>| tok_field(#[trigger] tokens_at(u.descendant_models(s, root), x), f) >= 0 by {}
        lemma_keyed_zero(g, f);
    } else {
        let p = s.drop_last();
        let e = s.last();
        let n = s.len() - 1;
        assert(s[n] == e);
        assert(agents_non_negative(p)) by {
            assert forall|i: int| 0 <= i < p.len() implies entries_non_negative(#[trigger] p[i].1.models@) by {
                assert(p[i] == s[i]);
            }
        }
        assert forall|i: int, j: int| 0 <= i < p.len() && u.is_member(p[i].0@, root) && p[i].0@ != root
            && 0 <= j < p[i].1.models@.len() implies view_has_key(g, #[trigger] p[i].1.models@[j].0@) by {
            assert(p[i] == s[i]);
        }
        assert(entries_non_negative(e.1.models@));
        lemma_sum_non_negative(e.1.models@, f);
        lemma_group_children_exact(u, p, root, f);
        lemma_descendant_models_exact(u, p, root, g, f);
        if u.is_member(e.0@, root) && e.0@ != root {
            assert forall|j: int| 0 <= j < e.1.models@.len() implies view_has_key(g, #[trigger] e.1.models@[j].0@) by {
                assert(view_has_key(g, s[n].1.models@[j].0@));
            }
            lemma_fold_entries_sum(u.descendant_models(p, root), e.1.models@, g, f);
        }
    }
}

/// The keyed sum of the empty map is zero.
proof fn lemma_keyed_zero(g: Seq<(Seq<char>, Tokens)>, f: int)
    ensures
        keyed_sum(Map::empty(), g, f) == 0,
    decreases g.len(),
{
    if g.len() > 0 {
        lemma_keyed_zero(g.drop_last(), f);
    }
}

/// The usage by model of the descendants adds up to their total: summed
/// over the lines `g` that list it in key order, each counter equals the
/// descendants' total of the dashboard header, as long as no counter is
/// negative and the exact sum stays within `i64` (beyond it the total
/// saturates once while the lines saturate one by one).
pub proof fn lemma_subagent_lines_add_up(u: SessionUsage, root: Seq<char>, g: Seq<(Seq<char>, Tokens)>, f: int)
    requires
        view_sorted(g),
        view_map(g) == u.descendant_models(u.agents@, root),
        agents_non_negative(u.agents@),
        u.descendant_sum(u.agents@, root, f) <= i64::MAX,
    ensures
        listing_sum(g, f) == tok_field(u.spec_totals(root).1, f),
{
    let m = u.descendant_models(u.agents@, root);
    assert forall|i: int| 0 <= i < g.len() implies tokens_at(m, #[trigger] g[i].0) == g[i].1 by {
        lemma_view_entry(g, i);
    }
    lemma_listing_keyed(m, g, f);
    assert(distinct_keys(g)) by {
        assert forall|i: int, j: int| 0 <= i < j < g.len() implies #[trigger] g[i].0 != #[trigger] g[j].0 by {
            if g[i].0 == g[j].0 {
                lemma_seq_less_irreflexive(g[i].0);
            }
        }
    }
    let s = u.agents@;
    assert forall|i: int, j: int| 0 <= i < s.len() && u.is_member(s[i].0@, root) && s[i].0@ != root
        && 0 <= j < s[i].1.models@.len() implies view_has_key(g, #[trigger] s[i].1.models@[j].0@) by {
        lemma_descendant_keys(u, s, root, i, j);
        assert(view_map(g).contains_key(s[i].1.models@[j].0@));
    }
    lemma_descendant_models_exact(u, s, root, g, f);
    lemma_group_children_exact(u, s, root, f);
}

/// The root's usage in the totals is its exact sum, as long as it stays
/// within `i64`.
proof fn lemma_group_parent_exact(u: SessionUsage, s: Seq<(String, AgentUsage)>, root: Seq<char>, f: int)
    requires
        agents_non_negative(s),
        u.root_sum(s, root, f) <= i64::MAX,
    ensures
        u.root_sum(s, root, f) >= 0,
        tok_field(u.group_totals(s, root).0, f) == u.root_sum(s, root, f),
    decreases s.len(),
{
    if s.len() > 0 {
        let p = s.drop_last();
        let e = s.last();
        assert(s[s.len() - 1] == e);
        assert(agents_non_negative(p)) by {
            assert forall|i: int| 0 <= i < p.len() implies entries_non_negative(#[trigger] p[i].1.models@) by {
                assert(p[i] == s[i]);
            }
        }
        assert(entries_non_negative(e.1.models@));
        lemma_sum_non_negative(e.1.models@, f);
        lemma_group_parent_exact(u, p, root, f);
        if u.is_member(e.0@, root) && e.0@ == root {
            lemma_fold_plus_exact(u.group_totals(p, root).0, e.1.models@, f);
        }
    }
}

/// Listing entries by their texts keeps their sum.
proof fn lemma_key_views_sum(s: Seq<(String, Tokens)>, f: int)
    ensures
        listing_sum(key_views(s), f) == entries_sum(s, f),
    decreases s.len(),
{
    if s.len() > 0 {
        lemma_key_views_sum(s.drop_last(), f);
        assert(key_views(s).drop_last() =~= key_views(s.drop_last()));
    }
}

/// With every agent kept once, the root's lines sum to its exact usage.
proof fn lemma_root_models_sum(u: SessionUsage, s: Seq<(String, AgentUsage)>, root: Seq<char>, f: int)
    requires
        sorted_keys(s),
    ensures
        listing_sum(u.root_models(s, root), f) == u.root_sum(s, root, f),
    decreases s.len(),
{
    if s.len() > 0 {
        let p = s.drop_last();
        let n = s.len() - 1;
        assert(s[n] == s.last());
        assert(sorted_keys(p)) by {
            assert forall|i: int, j: int| 0 <= i < j < p.len() implies crate::text::seq_less(#[trigger] p[i].0@, #[trigger] p[j].0@) by {
                assert(p[i] == s[i] && p[j] == s[j]);
            }
        }
        lemma_root_models_sum(u, p, root, f);
        if s.last().0@ == root && u.is_member(root, root) {
            lemma_key_views_sum(s.last().1.models@, f);
            assert forall|i: int| 0 <= i < p.len() implies #[trigger] p[i].0@ != root by {
                lemma_sorted_distinct(s, i, n);
                assert(p[i] == s[i]);
            }
            lemma_root_absent(u, p, root, f);
        }
    }
}

/// Without an agent keyed `root`, the root has no lines and no usage.
proof fn lemma_root_absent(u: SessionUsage, s: Seq<(String, AgentUsage)>, root: Seq<char>, f: int)
    ensures
        (forall|i: int| 0 <= i < s.len() ==> #[trigger] s[i].0@ != root) ==> u.root_models(s, root).len() == 0
            && u.root_sum(s, root, f) == 0,
    decreases s.len(),
{
    if s.len() > 0 {
        let p = s.drop_last();
        lemma_root_absent(u, p, root, f);
        if forall|i: int| 0 <= i < s.len() ==> #[trigger] s[i].0@ != root {
            assert(s[s.len() - 1] == s.last());
            assert forall|i: int| 0 <= i < p.len() implies #[trigger] p[i].0@ != root by {
                assert(p[i] == s[i]);
            }
        }
    }
}

/// The root's usage by model adds up to its total: summed over its lines,
/// each counter equals the parent total of the dashboard header, as long as
/// no counter is negative and the exact sum stays within `i64`.
pub proof fn lemma_parent_lines_add_up(u: SessionUsage, root: Seq<char>, f: int)
    requires
        u.wf(),
        agents_non_negative(u.agents@),
        u.root_sum(u.agents@, root, f) <= i64::MAX,
    ensures
        listing_sum(u.root_models(u.agents@, root), f) == tok_field(u.spec_totals(root).0, f),
{
    lemma_root_models_sum(u, u.agents@, root, f);
    lemma_group_parent_exact(u, u.agents@, root, f);
}

} // verus!
