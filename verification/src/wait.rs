//! The `wait_agent` tool: which timeout applies, when a wait ends and what it
//! answers. The waiting itself (subscribing to activity, listing agents,
//! sleeping until a deadline) is done by the caller, which feeds what it sees
//! back into these functions.
use vstd::prelude::*;
use crate::text::{text_of, append_str, append_i64, int_text};

verus! {

/// How a wait ends.
#[derive(Clone, Copy, Debug, PartialEq, Eq, Structural)]
pub enum WaitMode {
    /// At the latest when the timeout elapses.
    Timeout,
    /// Only on an event: mail, new input, or no agent left to wait for.
    UntilEvent,
}

/// The arguments of a `wait_agent` call.
#[derive(Clone, Copy, Debug, PartialEq, Eq, Structural)]
pub struct WaitArgs {
    /// The mode named by the call, if any; see [`wait_mode`].
    pub mode: Option<WaitMode>,
    pub timeout_ms: Option<i64>,
}

/// The mode a call waits in: the one it names; without one, a timed wait
/// when it gives a timeout, and else a wait for an event.
pub open spec fn effective_mode(args: WaitArgs) -> WaitMode {
    match args.mode {
        Some(m) => m,
        None => if args.timeout_ms is Some {
            WaitMode::Timeout
        } else {
            WaitMode::UntilEvent
        },
    }
}

/// The mode a call with `args` waits in.
pub fn wait_mode(args: &WaitArgs) -> (r: WaitMode)
    ensures
        r == effective_mode(*args),
{
    match args.mode {
        Some(m) => m,
        None => if args.timeout_ms.is_some() {
            WaitMode::Timeout
        } else {
            WaitMode::UntilEvent
        },
    }
}

/// The timeouts a wait may use.
#[derive(Clone, Copy, Debug, PartialEq, Eq, Structural)]
pub struct WaitAgentTimeoutOptions {
    pub min_timeout_ms: i64,
    pub max_timeout_ms: i64,
    pub default_timeout_ms: i64,
}

/// The `wait_agent` tool.
#[derive(Clone, Copy, Debug)]
pub struct Handler {
    pub options: WaitAgentTimeoutOptions,
}

impl Handler {
    pub fn new(options: WaitAgentTimeoutOptions) -> (r: Handler)
        ensures
            r.options == options,
    {
        Handler { options }
    }

    /// The name the tool is called by.
    pub fn tool_name(&self) -> (r: String)
        ensures
            r@ == "wait_agent"@,
    {
        text_of("wait_agent")
    }
}

/// What woke a waiting agent.
#[derive(Clone, Copy, Debug, PartialEq, Eq, Structural)]
pub enum InputQueueActivity {
    /// Mail from another agent.
    Mailbox,
    /// New input from the user.
    Steer,
}

/// How a wait ended.
#[derive(Clone, Copy, Debug, PartialEq, Eq, Structural)]
pub enum WaitOutcome {
    MailboxActivity,
    Steered,
    TimedOut,
    NoActiveAgents,
}

/// An error answered to the model.
#[derive(Debug)]
pub enum FunctionCallError {
    RespondToModel(String),
}

/// The answer of a finished wait.
#[derive(Debug)]
pub struct WaitAgentResult {
    pub message: String,
    pub timed_out: bool,
}

/// The lifecycle state of an agent, as far as waiting reads it.
#[derive(Clone, Copy, Debug, PartialEq, Eq, Structural)]
pub enum AgentStatus {
    PendingInit,
    Running,
    /// Any state in which the agent does no work.
    Inactive,
}

/// An agent of the session, as listed.
#[derive(Debug)]
pub struct ListedAgent {
    pub thread_id: String,
    pub status: AgentStatus,
}

/// What the waiter sees while it waits.
#[derive(Clone, Copy, Debug, PartialEq, Eq, Structural)]
pub enum ActivityEvent {
    /// The activity channel got a new value.
    Changed(InputQueueActivity),
    /// The activity channel closed.
    Closed,
    /// The clock reads this many milliseconds.
    Clock(u64),
}

/// What the waiter does next.
#[derive(Debug)]
pub enum WaitStep {
    /// List the agents of the session and call [`WaitCall::after_agents_listed`].
    ListAgents,
    /// Subscribe to activity again and call [`WaitCall::after_recheck`].
    Recheck,
    /// Wait for activity events and call [`wait_for_activity`] on each.
    Await,
    /// The wait is over.
    Finished(Result<WaitOutcome, FunctionCallError>),
}

/// The outcome a piece of queued activity gives.
pub open spec fn outcome_of(a: InputQueueActivity) -> WaitOutcome {
    match a {
        InputQueueActivity::Mailbox => WaitOutcome::MailboxActivity,
        InputQueueActivity::Steer => WaitOutcome::Steered,
    }
}

fn activity_outcome(a: InputQueueActivity) -> (r: WaitOutcome)
    ensures
        r == outcome_of(a),
{
    match a {
        InputQueueActivity::Mailbox => WaitOutcome::MailboxActivity,
        InputQueueActivity::Steer => WaitOutcome::Steered,
    }
}

/// The message of `until_event` with a timeout.
pub open spec fn until_event_timeout_message() -> Seq<char> {
    "until_event does not accept timeout_ms"@
}

/// The message of a timeout above the maximum.
pub open spec fn timeout_too_long_message(max_ms: i64) -> Seq<char> {
    "timeout_ms must be at most "@ + int_text(max_ms as int)
}

/// The message of a closed activity channel.
pub open spec fn channel_closed_message() -> Seq<char> {
    "Agent activity channel closed."@
}

/// The timeout a call with `args` waits for, or why it is refused.
pub open spec fn spec_timeout(args: WaitArgs, limits: WaitAgentTimeoutOptions) -> Result<i64, Seq<char>> {
    if effective_mode(args) == WaitMode::UntilEvent && args.timeout_ms is Some {
        Err(until_event_timeout_message())
    } else {
        match args.timeout_ms {
            Some(ms) => if ms > limits.max_timeout_ms {
                Err(timeout_too_long_message(limits.max_timeout_ms))
            } else if ms < limits.min_timeout_ms {
                Ok(limits.min_timeout_ms)
            } else {
                Ok(ms)
            },
            None => Ok(limits.default_timeout_ms),
        }
    }
}

/// The message of an error.
pub open spec fn error_message(e: FunctionCallError) -> Seq<char> {
    match e {
        FunctionCallError::RespondToModel(m) => m@,
    }
}

/// The timeout a call with `args` waits for: the requested one raised to the
/// minimum, or the default when none is requested. A timeout above the
/// maximum, or one given with `until_event`, is refused.
pub fn resolve_timeout(args: &WaitArgs, limits: &WaitAgentTimeoutOptions) -> (r: Result<i64, FunctionCallError>)
    ensures
        match (r, spec_timeout(*args, *limits)) {
            (Ok(ms), Ok(expected)) => ms == expected,
            (Err(e), Err(m)) => error_message(e) == m,
            _ => false,
        },
{
    if wait_mode(args) == WaitMode::UntilEvent && args.timeout_ms.is_some() {
        return Err(FunctionCallError::RespondToModel(text_of("until_event does not accept timeout_ms")));
    }
    match args.timeout_ms {
        Some(ms) => if ms > limits.max_timeout_ms {
            let mut m = text_of("timeout_ms must be at most ");
            append_i64(&mut m, limits.max_timeout_ms);
            Err(FunctionCallError::RespondToModel(m))
        } else if ms < limits.min_timeout_ms {
            Ok(limits.min_timeout_ms)
        } else {
            Ok(ms)
        },
        None => Ok(limits.default_timeout_ms),
    }
}

/// `now_ms + ms`, saturating; a negative `ms` wraps as an unsigned number.
pub open spec fn deadline_after(now_ms: u64, ms: i64) -> u64 {
    let d: u64 = ms as u64;
    if now_ms + d > u64::MAX {
        u64::MAX
    } else {
        (now_ms + d) as u64
    }
}

/// A `wait_agent` call in progress.
#[derive(Clone, Copy, Debug)]
pub struct WaitCall {
    pub mode: WaitMode,
    pub requested_timeout_ms: Option<i64>,
    pub timeout_ms: i64,
    /// When a timed wait ends, in clock milliseconds.
    pub deadline_ms: Option<u64>,
}

/// Whether some agent other than `self_id` is starting or running.
pub open spec fn spec_has_active_agents(agents: Seq<ListedAgent>, self_id: Seq<char>) -> bool {
    exists|i: int| 0 <= i < agents.len() && #[trigger] agents[i].thread_id@ != self_id
        && (agents[i].status == AgentStatus::PendingInit || agents[i].status == AgentStatus::Running)
}

/// Whether some agent other than `self_id` is starting or running.
pub fn has_active_agents(agents: &Vec<ListedAgent>, self_id: &String) -> (r: bool)
    ensures
        r == spec_has_active_agents(agents@, self_id@),
{
    let mut i: usize = 0;
    while i < agents.len()
        invariant
            i <= agents@.len(),
            forall|j: int| 0 <= j < i ==> !(#[trigger] agents@[j].thread_id@ != self_id@
                && (agents@[j].status == AgentStatus::PendingInit || agents@[j].status == AgentStatus::Running)),
        decreases agents@.len() - i,
    {
        let a = &agents[i];
        if !(a.thread_id == *self_id) && (a.status == AgentStatus::PendingInit || a.status == AgentStatus::Running) {
            return true;
        }
        i = i + 1;
    }
    false
}

/// What a wait gives on `event`, or `None` to keep waiting. Queued activity
/// ends it at once; otherwise new activity ends it, a closed channel is an
/// error, and the clock ends it only once it reaches the deadline, never
/// without one.
pub open spec fn spec_wait_for_activity(
    pending: Option<InputQueueActivity>,
    deadline_ms: Option<u64>,
    event: ActivityEvent,
) -> Option<Result<WaitOutcome, Seq<char>>> {
    match pending {
        Some(a) => Some(Ok(outcome_of(a))),
        None => match event {
            ActivityEvent::Changed(a) => Some(Ok(outcome_of(a))),
            ActivityEvent::Closed => Some(Err(channel_closed_message())),
            ActivityEvent::Clock(now) => match deadline_ms {
                Some(d) => if now >= d {
                    Some(Ok(WaitOutcome::TimedOut))
                } else {
                    None
                },
                None => None,
            },
        },
    }
}

/// The view of a wait result with error messages as text.
pub open spec fn result_view(r: Result<WaitOutcome, FunctionCallError>) -> Result<WaitOutcome, Seq<char>> {
    match r {
        Ok(o) => Ok(o),
        Err(e) => Err(error_message(e)),
    }
}

/// What a wait gives on `event`; see [`spec_wait_for_activity`].
pub fn wait_for_activity(
    pending: Option<InputQueueActivity>,
    deadline_ms: Option<u64>,
    event: ActivityEvent,
) -> (r: Option<Result<WaitOutcome, FunctionCallError>>)
    ensures
        match (r, spec_wait_for_activity(pending, deadline_ms, event)) {
            (Some(x), Some(y)) => result_view(x) == y,
            (None, None) => true,
            _ => false,
        },
{
    if let Some(a) = pending {
        return Some(Ok(activity_outcome(a)));
    }
    match event {
        ActivityEvent::Changed(a) => Some(Ok(activity_outcome(a))),
        ActivityEvent::Closed => Some(Err(FunctionCallError::RespondToModel(text_of("Agent activity channel closed.")))),
        ActivityEvent::Clock(now) => match deadline_ms {
            Some(d) => if now >= d {
                Some(Ok(WaitOutcome::TimedOut))
            } else {
                None
            },
            None => None,
        },
    }
}

/// The text an outcome answers.
pub open spec fn outcome_message(o: WaitOutcome) -> Seq<char> {
    match o {
        WaitOutcome::MailboxActivity => "Wait completed."@,
        WaitOutcome::Steered => "Wait interrupted by new input."@,
        WaitOutcome::TimedOut => "Wait timed out."@,
        WaitOutcome::NoActiveAgents => "no_active_agents"@,
    }
}

/// The message a wait answers: the outcome's text, and a note when the
/// requested timeout was raised to the minimum.
pub open spec fn result_message(o: WaitOutcome, requested_timeout_ms: Option<i64>, timeout_ms: i64) -> Seq<char> {
    match requested_timeout_ms {
        Some(r) => if r < timeout_ms {
            outcome_message(o) + "\n\nRequested timeout of "@ + int_text(r as int)
                + "ms was clamped to the minimum of "@ + int_text(timeout_ms as int) + "ms."@
        } else {
            outcome_message(o)
        },
        None => outcome_message(o),
    }
}

impl WaitAgentResult {
    /// The answer of a wait that ended with `outcome`.
    pub fn from_outcome(outcome: WaitOutcome, requested_timeout_ms: Option<i64>, timeout_ms: i64) -> (r: WaitAgentResult)
        ensures
            r.message@ == result_message(outcome, requested_timeout_ms, timeout_ms),
            r.timed_out == (outcome == WaitOutcome::TimedOut),
    {
        let mut message = match outcome {
            WaitOutcome::MailboxActivity => text_of("Wait completed."),
            WaitOutcome::Steered => text_of("Wait interrupted by new input."),
            WaitOutcome::TimedOut => text_of("Wait timed out."),
            WaitOutcome::NoActiveAgents => text_of("no_active_agents"),
        };
        match requested_timeout_ms {
            Some(r) => if r < timeout_ms {
                append_str(&mut message, "\n\nRequested timeout of ");
                append_i64(&mut message, r);
                append_str(&mut message, "ms was clamped to the minimum of ");
                append_i64(&mut message, timeout_ms);
                append_str(&mut message, "ms.");
            },
            None => {},
        }
        WaitAgentResult { message, timed_out: outcome == WaitOutcome::TimedOut }
    }
}

impl WaitCall {
    /// Starts a call with `args` at `now_ms`, or refuses it; see
    /// [`resolve_timeout`]. A timed wait gets a deadline `timeout_ms` after
    /// `now_ms`; an event wait none.
    pub fn start(args: &WaitArgs, limits: &WaitAgentTimeoutOptions, now_ms: u64) -> (r: Result<WaitCall, FunctionCallError>)
        ensures
            match (r, spec_timeout(*args, *limits)) {
                (Ok(c), Ok(ms)) => c.mode == effective_mode(*args) && c.requested_timeout_ms == args.timeout_ms
                    && c.timeout_ms == ms && c.deadline_ms == (match effective_mode(*args) {
                        WaitMode::Timeout => Some(deadline_after(now_ms, ms)),
                        WaitMode::UntilEvent => None,
                    }),
                (Err(e), Err(m)) => error_message(e) == m,
                _ => false,
            },
    {
        let timeout_ms = match resolve_timeout(args, limits) {
            Ok(ms) => ms,
            Err(e) => return Err(e),
        };
        let mode = wait_mode(args);
        let deadline_ms = match mode {
            WaitMode::Timeout => Some(now_ms.saturating_add(timeout_ms as u64)),
            WaitMode::UntilEvent => None,
        };
        Ok(WaitCall { mode, requested_timeout_ms: args.timeout_ms, timeout_ms, deadline_ms })
    }

    /// The next step once activity was subscribed to, with `pending` already
    /// queued: an event wait with nothing queued first checks for active
    /// agents; otherwise queued activity ends the wait and else it waits.
    pub fn after_subscribe(&self, pending: Option<InputQueueActivity>) -> (r: WaitStep)
        ensures
            match r {
                WaitStep::ListAgents => self.mode == WaitMode::UntilEvent && pending is None,
                WaitStep::Await => pending is None && self.mode == WaitMode::Timeout,
                WaitStep::Finished(Ok(o)) => pending is Some && o == outcome_of(pending->0),
                _ => false,
            },
    {
        if self.mode == WaitMode::UntilEvent && pending.is_none() {
            return WaitStep::ListAgents;
        }
        match pending {
            Some(a) => WaitStep::Finished(Ok(activity_outcome(a))),
            None => WaitStep::Await,
        }
    }

    /// The next step once the agents are listed: a listing error ends the
    /// wait with it; with another agent starting or running it waits;
    /// otherwise it checks the queue once more.
    pub fn after_agents_listed(&self, listed: Result<Vec<ListedAgent>, FunctionCallError>, self_id: &String) -> (r: WaitStep)
        ensures
            match listed {
                Err(e) => r == WaitStep::Finished(Err(e)),
                Ok(agents) => if spec_has_active_agents(agents@, self_id@) {
                    r is Await
                } else {
                    r is Recheck
                },
            },
    {
        match listed {
            Err(e) => WaitStep::Finished(Err(e)),
            Ok(agents) => if has_active_agents(&agents, self_id) {
                WaitStep::Await
            } else {
                WaitStep::Recheck
            },
        }
    }

    /// The outcome once the queue was checked again: queued activity, or no
    /// active agents.
    pub fn after_recheck(&self, pending: Option<InputQueueActivity>) -> (r: WaitOutcome)
        ensures
            r == match pending {
                Some(a) => outcome_of(a),
                None => WaitOutcome::NoActiveAgents,
            },
    {
        match pending {
            Some(a) => activity_outcome(a),
            None => WaitOutcome::NoActiveAgents,
        }
    }

    /// Whether the finished call succeeded, and its answer.
    pub fn finish(&self, outcome: Result<WaitOutcome, FunctionCallError>) -> (r: (bool, Result<WaitAgentResult, FunctionCallError>))
        ensures
            r.0 == outcome is Ok,
            match (outcome, r.1) {
                (Ok(o), Ok(res)) => res.message@ == result_message(o, self.requested_timeout_ms, self.timeout_ms)
                    && res.timed_out == (o == WaitOutcome::TimedOut),
                (Err(e), Err(f)) => f == e,
                _ => false,
            },
    {
        match outcome {
            Ok(o) => (true, Ok(WaitAgentResult::from_outcome(o, self.requested_timeout_ms, self.timeout_ms))),
            Err(e) => (false, Err(e)),
        }
    }
}

} // verus!

verus! {

/// Elapsed time never ends an event wait: without a deadline no clock
/// reading ends a wait with nothing queued.
pub proof fn lemma_event_wait_ignores_time(now_ms: u64)
    ensures
        spec_wait_for_activity(None, None, ActivityEvent::Clock(now_ms)) is None,
{
}

/// An event wait never has a deadline, and a timed wait always has one.
pub proof fn lemma_only_timed_waits_have_deadlines(args: WaitArgs, limits: WaitAgentTimeoutOptions, now_ms: u64, c: WaitCall)
    requires
        spec_timeout(args, limits) is Ok,
        c.mode == effective_mode(args),
        c.deadline_ms == (match effective_mode(args) {
            WaitMode::Timeout => Some(deadline_after(now_ms, spec_timeout(args, limits)->Ok_0)),
            WaitMode::UntilEvent => None,
        }),
    ensures
        (c.mode == WaitMode::UntilEvent) <==> c.deadline_ms is None,
{
}

/// A call that names neither a mode nor a timeout waits for an event, with
/// no deadline; one that gives only a timeout is a timed wait.
pub proof fn lemma_omitted_mode(args: WaitArgs, limits: WaitAgentTimeoutOptions)
    requires
        args.mode is None,
    ensures
        args.timeout_ms is None ==> effective_mode(args) == WaitMode::UntilEvent
            && spec_timeout(args, limits) == Ok::<i64, Seq<char>>(limits.default_timeout_ms),
        args.timeout_ms is Some ==> effective_mode(args) == WaitMode::Timeout,
{
}

/// A requested timeout that is accepted lies between the minimum and the
/// maximum, and is the request itself unless the request was below the
/// minimum.
pub proof fn lemma_accepted_timeout_bounds(args: WaitArgs, limits: WaitAgentTimeoutOptions)
    requires
        args.timeout_ms is Some,
        limits.min_timeout_ms <= limits.max_timeout_ms,
        spec_timeout(args, limits) is Ok,
    ensures
        limits.min_timeout_ms <= spec_timeout(args, limits)->Ok_0 <= limits.max_timeout_ms,
        args.timeout_ms->0 >= limits.min_timeout_ms ==> spec_timeout(args, limits)->Ok_0 == args.timeout_ms->0,
{
}

/// The answer notes a raised timeout exactly when the requested timeout was
/// below the one used.
pub proof fn lemma_clamp_note(o: WaitOutcome, requested_timeout_ms: Option<i64>, timeout_ms: i64)
    ensures
        (match requested_timeout_ms {
            Some(r) => r < timeout_ms,
            None => false,
        }) ==> result_message(o, requested_timeout_ms, timeout_ms).len() > outcome_message(o).len(),
        !(match requested_timeout_ms {
            Some(r) => r < timeout_ms,
            None => false,
        }) ==> result_message(o, requested_timeout_ms, timeout_ms) == outcome_message(o),
{
}

/// Any listed agent other than the caller that is starting or running keeps
/// an event wait going, wherever it stands in the listing.
pub proof fn lemma_any_active_agent_counts(agents: Seq<ListedAgent>, self_id: Seq<char>, i: int)
    requires
        0 <= i < agents.len(),
        agents[i].thread_id@ != self_id,
        agents[i].status == AgentStatus::PendingInit || agents[i].status == AgentStatus::Running,
    ensures
        spec_has_active_agents(agents, self_id),
{
}

/// Without another agent starting or running, no agent is active: the
/// caller's own entry and inactive agents never count.
pub proof fn lemma_only_active_agents_count(agents: Seq<ListedAgent>, self_id: Seq<char>)
    requires
        forall|i: int| 0 <= i < agents.len() ==> #[trigger] agents[i].thread_id@ == self_id
            || agents[i].status == AgentStatus::Inactive,
    ensures
        !spec_has_active_agents(agents, self_id),
{
}

} // verus!
