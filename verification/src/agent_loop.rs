//! The decisions of the agent loop: one agent call owns a bounded number of
//! model turns, each of which may request a bounded number of tool calls.
//!
//! The loop itself talks to outside services (cancellation, control, model
//! invocation, tool execution, progress). Here it is a state machine: the
//! caller performs the action that a step hands back and reports what came of
//! it as the next event.
use vstd::prelude::*;

verus! {

pub const AGENT_LOOP_PLUGIN: &'static str = "phenix.agent-loop";

pub const AGENT_LOOP_SERVICE: &'static str = "phenix.agent-loop@1";

pub const AGENT_TOOL_EXECUTION_SERVICE: &'static str = "phenix.agent-tool-execution@1";

pub const AGENT_LOOP_PROGRESS_SERVICE: &'static str = "phenix.agent-loop-progress@1";

pub const AGENT_LOOP_CONTROL_SERVICE: &'static str = "phenix.agent-loop-control@1";

pub const DEFAULT_MAX_MODEL_TURNS: u32 = 16;

pub const DEFAULT_MAX_TOOL_CALLS_PER_TURN: u32 = 10;

/// How far one agent call may progress: at most `max_model_turns` model
/// invocations, each answered with at most `max_tool_calls_per_turn` tool calls.
/// Both limits are positive.
#[derive(Clone, Copy, Debug, PartialEq, Eq)]
pub struct AgentLoopPolicy {
    max_model_turns: u32,
    max_tool_calls_per_turn: u32,
}

impl AgentLoopPolicy {
    pub closed spec fn turns(self) -> u32 {
        self.max_model_turns
    }

    pub closed spec fn calls_per_turn(self) -> u32 {
        self.max_tool_calls_per_turn
    }

    pub closed spec fn wf(self) -> bool {
        self.max_model_turns > 0 && self.max_tool_calls_per_turn > 0
    }

    pub fn new(max_model_turns: u32, max_tool_calls_per_turn: u32) -> (p: Self)
        requires
            max_model_turns > 0,
            max_tool_calls_per_turn > 0,
        ensures
            p.wf(),
            p.turns() == max_model_turns,
            p.calls_per_turn() == max_tool_calls_per_turn,
    {
        AgentLoopPolicy { max_model_turns, max_tool_calls_per_turn }
    }

    pub fn max_model_turns(self) -> (r: u32)
        ensures
            r == self.turns(),
    {
        self.max_model_turns
    }

    pub fn max_tool_calls_per_turn(self) -> (r: u32)
        ensures
            r == self.calls_per_turn(),
    {
        self.max_tool_calls_per_turn
    }
}

impl Default for AgentLoopPolicy {
    /// The policy with the limits the loop has always had.
    fn default() -> (p: Self)
        ensures
            p.wf(),
            p.turns() == DEFAULT_MAX_MODEL_TURNS,
            p.calls_per_turn() == DEFAULT_MAX_TOOL_CALLS_PER_TURN,
    {
        AgentLoopPolicy::new(DEFAULT_MAX_MODEL_TURNS, DEFAULT_MAX_TOOL_CALLS_PER_TURN)
    }
}

/// How much work one agent call did.
#[derive(Clone, Copy, Debug, PartialEq, Eq)]
pub struct AgentLoopUsage {
    pub model_calls: u32,
    pub tool_calls: u32,
}

/// Why an agent call stopped at a policy limit.
#[derive(Clone, Copy, Debug, PartialEq, Eq)]
pub enum AgentLoopFailure {
    ModelTurnLimitExceeded { limit: u32 },
    ToolCallLimitExceeded { limit: u32, actual: u32 },
}

/// The control service's answer before each model turn.
#[derive(Clone, Copy, Debug, PartialEq, Eq)]
pub enum AgentLoopControlResponse {
    Continue,
    Cancelled,
}

/// The progress service's acknowledgement of one progress record.
#[derive(Clone, Copy, Debug, PartialEq, Eq)]
pub enum AgentLoopProgressResponse {
    Recorded,
}

/// Faults that end an agent call with an error rather than a response.
#[derive(Clone, Copy, Debug, PartialEq, Eq)]
pub enum AgentLoopError {
    ToolCallUsageOverflow,
    TooManyToolCalls,
    ToolIdentityChanged { index: usize },
}

/// How an agent call ended.
#[derive(Clone, Copy, Debug, PartialEq, Eq)]
pub enum AgentLoopOutcome {
    /// The last model answer requested no tool: its output is the result.
    Completed { usage: AgentLoopUsage },
    Cancelled { usage: AgentLoopUsage },
    Failed { failure: AgentLoopFailure, usage: AgentLoopUsage },
    Error { error: AgentLoopError },
}

/// What the caller does next.
#[derive(Clone, Copy, Debug, PartialEq, Eq)]
pub enum AgentLoopAction {
    /// Check the kernel's cancellation token (this starts a model turn; when
    /// tool results were gathered, they first join the continuation).
    ObserveCancellation,
    /// Ask the control service whether to go on.
    AskControl,
    /// Invoke the model with the input, the tools and the continuation so far.
    InvokeModel,
    /// Report the tool call at `index` of the current answer as progress, then execute it.
    ExecuteTool { index: usize },
    /// Report the result of the tool call at `index` as progress.
    RecordToolResult { index: usize },
    /// The agent call is over.
    Finish { outcome: AgentLoopOutcome },
}

/// What came of the last action.
#[derive(Clone, Copy, Debug, PartialEq, Eq)]
pub enum AgentLoopEvent {
    CancellationObserved { cancelled: bool },
    ControlAnswered { response: AgentLoopControlResponse },
    /// The model answered, requesting `tool_calls` tool calls.
    ModelAnswered { tool_calls: usize },
    /// The tool executor completed the call; `identity_preserved` tells whether
    /// its result names the same call and callable.
    ToolCompleted { identity_preserved: bool },
    ToolCancelled,
    ToolResultRecorded,
}

/// Where an agent call stands.
#[derive(Clone, Copy, Debug, PartialEq, Eq)]
pub enum AgentLoopStage {
    ObservingCancellation,
    AwaitingControl,
    AwaitingModel,
    AwaitingTool { index: usize, count: usize },
    RecordingTool { index: usize, count: usize },
    Finished,
}

/// The state of one agent call: the policy, the model turns begun so far,
/// the usage so far, and the stage.
#[derive(Clone, Copy, Debug, PartialEq, Eq)]
pub struct AgentLoopRun {
    pub policy: AgentLoopPolicy,
    pub turns: u32,
    pub usage: AgentLoopUsage,
    pub stage: AgentLoopStage,
}

/// The event that the action of a stage answers.
pub open spec fn expects(stage: AgentLoopStage, event: AgentLoopEvent) -> bool {
    match stage {
        AgentLoopStage::ObservingCancellation => event is CancellationObserved,
        AgentLoopStage::AwaitingControl => event is ControlAnswered,
        AgentLoopStage::AwaitingModel => event is ModelAnswered,
        AgentLoopStage::AwaitingTool { .. } => event is ToolCompleted || event is ToolCancelled,
        AgentLoopStage::RecordingTool { .. } => event is ToolResultRecorded,
        AgentLoopStage::Finished => false,
    }
}

/// The invariant of a running agent call.
pub open spec fn run_wf(r: AgentLoopRun) -> bool {
    &&& r.policy.wf()
    &&& 1 <= r.turns <= r.policy.turns()
    &&& r.usage.model_calls <= r.turns
    &&& match r.stage {
        AgentLoopStage::ObservingCancellation | AgentLoopStage::AwaitingControl
        | AgentLoopStage::AwaitingModel => r.usage.model_calls + 1 == r.turns,
        AgentLoopStage::AwaitingTool { index, count } | AgentLoopStage::RecordingTool {
            index,
            count,
        } => {
            &&& r.usage.model_calls == r.turns
            &&& index < count <= r.policy.calls_per_turn()
        },
        AgentLoopStage::Finished => true,
    }
}

pub open spec fn finish(r: AgentLoopRun, outcome: AgentLoopOutcome) -> (AgentLoopRun, AgentLoopAction) {
    (AgentLoopRun { stage: AgentLoopStage::Finished, ..r }, AgentLoopAction::Finish { outcome })
}

/// The transition of an agent call on one event.
pub open spec fn transition(r: AgentLoopRun, event: AgentLoopEvent) -> (AgentLoopRun, AgentLoopAction) {
    match (r.stage, event) {
        (AgentLoopStage::ObservingCancellation, AgentLoopEvent::CancellationObserved { cancelled }) => {
            if cancelled {
                finish(r, AgentLoopOutcome::Cancelled { usage: r.usage })
            } else {
                (
                    AgentLoopRun { stage: AgentLoopStage::AwaitingControl, ..r },
                    AgentLoopAction::AskControl,
                )
            }
        },
        (AgentLoopStage::AwaitingControl, AgentLoopEvent::ControlAnswered { response }) => {
            match response {
                AgentLoopControlResponse::Cancelled => finish(
                    r,
                    AgentLoopOutcome::Cancelled { usage: r.usage },
                ),
                AgentLoopControlResponse::Continue => (
                    AgentLoopRun { stage: AgentLoopStage::AwaitingModel, ..r },
                    AgentLoopAction::InvokeModel,
                ),
            }
        },
        (AgentLoopStage::AwaitingModel, AgentLoopEvent::ModelAnswered { tool_calls }) => {
            let usage = AgentLoopUsage {
                model_calls: (r.usage.model_calls + 1) as u32,
                tool_calls: r.usage.tool_calls,
            };
            if tool_calls == 0 {
                finish(r, AgentLoopOutcome::Completed { usage })
            } else if tool_calls > u32::MAX {
                finish(r, AgentLoopOutcome::Error { error: AgentLoopError::TooManyToolCalls })
            } else if tool_calls > r.policy.calls_per_turn() {
                finish(
                    r,
                    AgentLoopOutcome::Failed {
                        failure: AgentLoopFailure::ToolCallLimitExceeded {
                            limit: r.policy.calls_per_turn(),
                            actual: tool_calls as u32,
                        },
                        usage,
                    },
                )
            } else {
                (
                    AgentLoopRun {
                        usage,
                        stage: AgentLoopStage::AwaitingTool { index: 0, count: tool_calls },
                        ..r
                    },
                    AgentLoopAction::ExecuteTool { index: 0 },
                )
            }
        },
        (AgentLoopStage::AwaitingTool { index, count }, AgentLoopEvent::ToolCancelled) => {
            finish(r, AgentLoopOutcome::Cancelled { usage: r.usage })
        },
        (
            AgentLoopStage::AwaitingTool { index, count },
            AgentLoopEvent::ToolCompleted { identity_preserved },
        ) => {
            if !identity_preserved {
                finish(
                    r,
                    AgentLoopOutcome::Error { error: AgentLoopError::ToolIdentityChanged { index } },
                )
            } else if r.usage.tool_calls == u32::MAX {
                finish(r, AgentLoopOutcome::Error { error: AgentLoopError::ToolCallUsageOverflow })
            } else {
                (
                    AgentLoopRun {
                        usage: AgentLoopUsage {
                            model_calls: r.usage.model_calls,
                            tool_calls: (r.usage.tool_calls + 1) as u32,
                        },
                        stage: AgentLoopStage::RecordingTool { index, count },
                        ..r
                    },
                    AgentLoopAction::RecordToolResult { index },
                )
            }
        },
        (AgentLoopStage::RecordingTool { index, count }, AgentLoopEvent::ToolResultRecorded) => {
            if index + 1 < count {
                (
                    AgentLoopRun {
                        stage: AgentLoopStage::AwaitingTool { index: (index + 1) as usize, count },
                        ..r
                    },
                    AgentLoopAction::ExecuteTool { index: (index + 1) as usize },
                )
            } else if r.turns < r.policy.turns() {
                (
                    AgentLoopRun {
                        turns: (r.turns + 1) as u32,
                        stage: AgentLoopStage::ObservingCancellation,
                        ..r
                    },
                    AgentLoopAction::ObserveCancellation,
                )
            } else {
                finish(
                    r,
                    AgentLoopOutcome::Failed {
                        failure: AgentLoopFailure::ModelTurnLimitExceeded {
                            limit: r.policy.turns(),
                        },
                        usage: r.usage,
                    },
                )
            }
        },
        _ => (r, AgentLoopAction::Finish { outcome: AgentLoopOutcome::Cancelled { usage: r.usage } }),
    }
}

impl AgentLoopRun {
    /// The state an agent call begins in.
    pub open spec fn start_state(policy: AgentLoopPolicy) -> AgentLoopRun {
        AgentLoopRun {
            policy,
            turns: 1,
            usage: AgentLoopUsage { model_calls: 0, tool_calls: 0 },
            stage: AgentLoopStage::ObservingCancellation,
        }
    }

    /// Begins an agent call: the first model turn starts by checking cancellation.
    pub fn start(policy: AgentLoopPolicy) -> (out: (AgentLoopRun, AgentLoopAction))
        requires
            policy.wf(),
        ensures
            run_wf(out.0),
            out.0 == (AgentLoopRun {
                policy,
                turns: 1,
                usage: AgentLoopUsage { model_calls: 0, tool_calls: 0 },
                stage: AgentLoopStage::ObservingCancellation,
            }),
            out.1 == AgentLoopAction::ObserveCancellation,
    {
        (
            AgentLoopRun {
                policy,
                turns: 1,
                usage: AgentLoopUsage { model_calls: 0, tool_calls: 0 },
                stage: AgentLoopStage::ObservingCancellation,
            },
            AgentLoopAction::ObserveCancellation,
        )
    }

    /// Decides what follows the event that answered the last action.
    pub fn step(self, event: AgentLoopEvent) -> (out: (AgentLoopRun, AgentLoopAction))
        requires
            run_wf(self),
            expects(self.stage, event),
        ensures
            out == transition(self, event),
            run_wf(out.0),
    {
        let r = self;
        match (r.stage, event) {
            (
                AgentLoopStage::ObservingCancellation,
                AgentLoopEvent::CancellationObserved { cancelled },
            ) => {
                if cancelled {
                    (
                        AgentLoopRun { stage: AgentLoopStage::Finished, ..r },
                        AgentLoopAction::Finish {
                            outcome: AgentLoopOutcome::Cancelled { usage: r.usage },
                        },
                    )
                } else {
                    (
                        AgentLoopRun { stage: AgentLoopStage::AwaitingControl, ..r },
                        AgentLoopAction::AskControl,
                    )
                }
            },
            (AgentLoopStage::AwaitingControl, AgentLoopEvent::ControlAnswered { response }) => {
                match response {
                    AgentLoopControlResponse::Cancelled => (
                        AgentLoopRun { stage: AgentLoopStage::Finished, ..r },
                        AgentLoopAction::Finish {
                            outcome: AgentLoopOutcome::Cancelled { usage: r.usage },
                        },
                    ),
                    AgentLoopControlResponse::Continue => (
                        AgentLoopRun { stage: AgentLoopStage::AwaitingModel, ..r },
                        AgentLoopAction::InvokeModel,
                    ),
                }
            },
            (AgentLoopStage::AwaitingModel, AgentLoopEvent::ModelAnswered { tool_calls }) => {
                let usage = AgentLoopUsage {
                    model_calls: r.usage.model_calls + 1,
                    tool_calls: r.usage.tool_calls,
                };
                let done = AgentLoopRun { stage: AgentLoopStage::Finished, ..r };
                if tool_calls == 0 {
                    (
                        done,
                        AgentLoopAction::Finish {
                            outcome: AgentLoopOutcome::Completed { usage },
                        },
                    )
                } else if tool_calls > u32::MAX as usize {
                    (
                        done,
                        AgentLoopAction::Finish {
                            outcome: AgentLoopOutcome::Error {
                                error: AgentLoopError::TooManyToolCalls,
                            },
                        },
                    )
                } else if tool_calls > r.policy.max_tool_calls_per_turn as usize {
                    (
                        done,
                        AgentLoopAction::Finish {
                            outcome: AgentLoopOutcome::Failed {
                                failure: AgentLoopFailure::ToolCallLimitExceeded {
                                    limit: r.policy.max_tool_calls_per_turn,
                                    actual: tool_calls as u32,
                                },
                                usage,
                            },
                        },
                    )
                } else {
                    (
                        AgentLoopRun {
                            usage,
                            stage: AgentLoopStage::AwaitingTool { index: 0, count: tool_calls },
                            ..r
                        },
                        AgentLoopAction::ExecuteTool { index: 0 },
                    )
                }
            },
            (AgentLoopStage::AwaitingTool { index, count }, AgentLoopEvent::ToolCancelled) => {
                (
                    AgentLoopRun { stage: AgentLoopStage::Finished, ..r },
                    AgentLoopAction::Finish {
                        outcome: AgentLoopOutcome::Cancelled { usage: r.usage },
                    },
                )
            },
            (
                AgentLoopStage::AwaitingTool { index, count },
                AgentLoopEvent::ToolCompleted { identity_preserved },
            ) => {
                let done = AgentLoopRun { stage: AgentLoopStage::Finished, ..r };
                if !identity_preserved {
                    (
                        done,
                        AgentLoopAction::Finish {
                            outcome: AgentLoopOutcome::Error {
                                error: AgentLoopError::ToolIdentityChanged { index },
                            },
                        },
                    )
                } else if r.usage.tool_calls == u32::MAX {
                    (
                        done,
                        AgentLoopAction::Finish {
                            outcome: AgentLoopOutcome::Error {
                                error: AgentLoopError::ToolCallUsageOverflow,
                            },
                        },
                    )
                } else {
                    (
                        AgentLoopRun {
                            usage: AgentLoopUsage {
                                model_calls: r.usage.model_calls,
                                tool_calls: r.usage.tool_calls + 1,
                            },
                            stage: AgentLoopStage::RecordingTool { index, count },
                            ..r
                        },
                        AgentLoopAction::RecordToolResult { index },
                    )
                }
            },
            (
                AgentLoopStage::RecordingTool { index, count },
                AgentLoopEvent::ToolResultRecorded,
            ) => {
                if index + 1 < count {
                    (
                        AgentLoopRun {
                            stage: AgentLoopStage::AwaitingTool { index: index + 1, count },
                            ..r
                        },
                        AgentLoopAction::ExecuteTool { index: index + 1 },
                    )
                } else if r.turns < r.policy.max_model_turns {
                    (
                        AgentLoopRun {
                            turns: r.turns + 1,
                            stage: AgentLoopStage::ObservingCancellation,
                            ..r
                        },
                        AgentLoopAction::ObserveCancellation,
                    )
                } else {
                    (
                        AgentLoopRun { stage: AgentLoopStage::Finished, ..r },
                        AgentLoopAction::Finish {
                            outcome: AgentLoopOutcome::Failed {
                                failure: AgentLoopFailure::ModelTurnLimitExceeded {
                                    limit: r.policy.max_model_turns,
                                },
                                usage: r.usage,
                            },
                        },
                    )
                }
            },
            _ => {
                proof {
                    assert(false);
                }
                (r, AgentLoopAction::Finish { outcome: AgentLoopOutcome::Cancelled { usage: r.usage } })
            },
        }
    }
}

/// Every state an agent call passes through has made at most as many model
/// calls as the policy allows turns, and its next step keeps that so.
pub proof fn lemma_model_calls_within_turn_limit(r: AgentLoopRun, event: AgentLoopEvent)
    requires
        run_wf(r),
        expects(r.stage, event),
    ensures
        r.usage.model_calls <= r.policy.turns(),
        transition(r, event).0.usage.model_calls <= r.policy.turns(),
        transition(r, event).0.policy == r.policy,
{
}

/// The model is invoked only while a turn remains: the call it makes is
/// within the policy's turn limit.
pub proof fn lemma_model_invoked_only_within_limit(r: AgentLoopRun, event: AgentLoopEvent)
    requires
        run_wf(r),
        expects(r.stage, event),
        transition(r, event).1 == AgentLoopAction::InvokeModel,
    ensures
        r.usage.model_calls + 1 <= r.policy.turns(),
{
}

/// A model answer that asks for more tool calls than a turn allows fails the
/// call before any tool runs.
pub proof fn lemma_excess_tool_calls_fail_before_tools(r: AgentLoopRun, tool_calls: usize)
    requires
        run_wf(r),
        r.stage == AgentLoopStage::AwaitingModel,
        r.policy.calls_per_turn() < tool_calls <= u32::MAX,
    ensures
        transition(r, AgentLoopEvent::ModelAnswered { tool_calls }).1 == (AgentLoopAction::Finish {
            outcome: AgentLoopOutcome::Failed {
                failure: AgentLoopFailure::ToolCallLimitExceeded {
                    limit: r.policy.calls_per_turn(),
                    actual: tool_calls as u32,
                },
                usage: AgentLoopUsage {
                    model_calls: (r.usage.model_calls + 1) as u32,
                    tool_calls: r.usage.tool_calls,
                },
            },
        }),
{
}

/// A tool is executed only at a position within the turn's allowance.
pub proof fn lemma_tool_index_within_allowance(r: AgentLoopRun, event: AgentLoopEvent, index: usize)
    requires
        run_wf(r),
        expects(r.stage, event),
        transition(r, event).1 == (AgentLoopAction::ExecuteTool { index }),
    ensures
        index < r.policy.calls_per_turn(),
{
}

/// After the last tool result of the last allowed turn the call fails at the
/// turn limit instead of invoking the model again.
pub proof fn lemma_turn_limit_ends_the_call(r: AgentLoopRun, index: usize, count: usize)
    requires
        run_wf(r),
        r.stage == (AgentLoopStage::RecordingTool { index, count }),
        index + 1 == count,
        r.turns == r.policy.turns(),
    ensures
        transition(r, AgentLoopEvent::ToolResultRecorded).1 == (AgentLoopAction::Finish {
            outcome: AgentLoopOutcome::Failed {
                failure: AgentLoopFailure::ModelTurnLimitExceeded { limit: r.policy.turns() },
                usage: r.usage,
            },
        }),
{
}

/// Cancellation observed between turns, or answered by the control service,
/// ends the call before the next model invocation.
pub proof fn lemma_cancellation_stops_before_model(r: AgentLoopRun, event: AgentLoopEvent)
    requires
        run_wf(r),
        expects(r.stage, event),
        event == (AgentLoopEvent::CancellationObserved { cancelled: true }) || event
            == (AgentLoopEvent::ControlAnswered { response: AgentLoopControlResponse::Cancelled }),
    ensures
        transition(r, event).1 == (AgentLoopAction::Finish {
            outcome: AgentLoopOutcome::Cancelled { usage: r.usage },
        }),
        transition(r, event).0.stage == AgentLoopStage::Finished,
{
}

/// A tool that completes, even with a failure result, continues the call: its
/// result is recorded and the tool call is counted.
pub proof fn lemma_tool_failure_is_continuation(r: AgentLoopRun, index: usize, count: usize)
    requires
        run_wf(r),
        r.stage == (AgentLoopStage::AwaitingTool { index, count }),
        r.usage.tool_calls < u32::MAX,
    ensures
        transition(r, AgentLoopEvent::ToolCompleted { identity_preserved: true }).1 == (
        AgentLoopAction::RecordToolResult { index }),
        transition(r, AgentLoopEvent::ToolCompleted { identity_preserved: true }).0.usage.tool_calls
            == r.usage.tool_calls + 1,
{
}


// ---------------------------------------------------------------------------
// The agent call with its data: model outputs, tool calls and results
// ---------------------------------------------------------------------------

/// A tool call the model requested.
#[derive(Clone, Debug, PartialEq, Eq)]
pub struct ModelToolCall {
    pub call_id: String,
    pub callable_id: String,
    pub input: Vec<u8>,
}

/// What the tool executor answered for one call; an error result is still a result.
#[derive(Clone, Debug, PartialEq, Eq)]
pub struct ModelToolResult {
    pub call_id: String,
    pub callable_id: String,
    pub output: Vec<u8>,
    pub is_error: bool,
}

/// One finished model turn as later turns see it: what the model said, the
/// calls it made and their results.
#[derive(Clone, Debug, PartialEq, Eq)]
pub struct ModelToolTurn {
    pub assistant_output: Vec<u8>,
    pub tool_calls: Vec<ModelToolCall>,
    pub tool_results: Vec<ModelToolResult>,
}

pub struct ToolCallView {
    pub call_id: Seq<char>,
    pub callable_id: Seq<char>,
    pub input: Seq<u8>,
}

pub struct ToolResultView {
    pub call_id: Seq<char>,
    pub callable_id: Seq<char>,
    pub output: Seq<u8>,
    pub is_error: bool,
}

pub struct ToolTurnView {
    pub assistant_output: Seq<u8>,
    pub tool_calls: Seq<ToolCallView>,
    pub tool_results: Seq<ToolResultView>,
}

pub open spec fn call_view(c: ModelToolCall) -> ToolCallView {
    ToolCallView { call_id: c.call_id@, callable_id: c.callable_id@, input: c.input@ }
}

pub open spec fn result_view(r: ModelToolResult) -> ToolResultView {
    ToolResultView { call_id: r.call_id@, callable_id: r.callable_id@, output: r.output@, is_error: r.is_error }
}

pub open spec fn calls_view(s: Seq<ModelToolCall>) -> Seq<ToolCallView> {
    s.map_values(|c: ModelToolCall| call_view(c))
}

pub open spec fn results_view(s: Seq<ModelToolResult>) -> Seq<ToolResultView> {
    s.map_values(|r: ModelToolResult| result_view(r))
}

pub open spec fn turn_view(t: ModelToolTurn) -> ToolTurnView {
    ToolTurnView {
        assistant_output: t.assistant_output@,
        tool_calls: calls_view(t.tool_calls@),
        tool_results: results_view(t.tool_results@),
    }
}

pub open spec fn turns_view(s: Seq<ModelToolTurn>) -> Seq<ToolTurnView> {
    s.map_values(|t: ModelToolTurn| turn_view(t))
}

/// How an agent call ended, with the final model output when it completed.
#[derive(Clone, Debug, PartialEq, Eq)]
pub enum AgentLoopResponse {
    Completed { output: Vec<u8>, usage: AgentLoopUsage },
    Cancelled { usage: AgentLoopUsage },
    Failed { failure: AgentLoopFailure, usage: AgentLoopUsage },
    Error { error: AgentLoopError },
}

pub enum ResponseView {
    Completed { output: Seq<u8>, usage: AgentLoopUsage },
    Cancelled { usage: AgentLoopUsage },
    Failed { failure: AgentLoopFailure, usage: AgentLoopUsage },
    Error { error: AgentLoopError },
}

pub open spec fn response_view(r: AgentLoopResponse) -> ResponseView {
    match r {
        AgentLoopResponse::Completed { output, usage } => ResponseView::Completed { output: output@, usage },
        AgentLoopResponse::Cancelled { usage } => ResponseView::Cancelled { usage },
        AgentLoopResponse::Failed { failure, usage } => ResponseView::Failed { failure, usage },
        AgentLoopResponse::Error { error } => ResponseView::Error { error },
    }
}

/// What came of the last task.
#[derive(Clone, Debug, PartialEq, Eq)]
pub enum AgentLoopAnswer {
    CancellationObserved { cancelled: bool },
    ControlAnswered { response: AgentLoopControlResponse },
    /// The model answered with its output and the tool calls it requests.
    ModelAnswered { output: Vec<u8>, tool_calls: Vec<ModelToolCall> },
    /// The tool executor completed the call with this result.
    ToolCompleted { result: ModelToolResult },
    ToolCancelled,
    ToolResultRecorded,
}

/// What the caller does next.
#[derive(Clone, Debug, PartialEq, Eq)]
pub enum AgentLoopTask {
    /// Check the kernel's cancellation token.
    ObserveCancellation,
    /// Ask the control service whether to go on.
    AskControl,
    /// Invoke the model with the input, the tools and this continuation.
    InvokeModel { continuation: Vec<ModelToolTurn> },
    /// Report this tool call as progress, then execute it.
    ExecuteTool { index: usize, call: ModelToolCall },
    /// Report this tool result as progress.
    RecordToolResult { index: usize, result: ModelToolResult },
    /// The agent call is over.
    Finish { response: AgentLoopResponse },
}

pub enum TaskView {
    ObserveCancellation,
    AskControl,
    InvokeModel { continuation: Seq<ToolTurnView> },
    ExecuteTool { index: usize, call: ToolCallView },
    RecordToolResult { index: usize, result: ToolResultView },
    Finish { response: ResponseView },
}

pub open spec fn task_view(t: AgentLoopTask) -> TaskView {
    match t {
        AgentLoopTask::ObserveCancellation => TaskView::ObserveCancellation,
        AgentLoopTask::AskControl => TaskView::AskControl,
        AgentLoopTask::InvokeModel { continuation } => TaskView::InvokeModel {
            continuation: turns_view(continuation@),
        },
        AgentLoopTask::ExecuteTool { index, call } => TaskView::ExecuteTool { index, call: call_view(call) },
        AgentLoopTask::RecordToolResult { index, result } => TaskView::RecordToolResult {
            index,
            result: result_view(result),
        },
        AgentLoopTask::Finish { response } => TaskView::Finish { response: response_view(response) },
    }
}

/// An agent call with its data: the control state, the turns finished so
/// far, and the current model answer's output, calls and the results gathered
/// for them.
pub struct AgentLoop {
    run: AgentLoopRun,
    continuation: Vec<ModelToolTurn>,
    output: Vec<u8>,
    calls: Vec<ModelToolCall>,
    results: Vec<ModelToolResult>,
}

pub struct LoopView {
    pub run: AgentLoopRun,
    pub continuation: Seq<ToolTurnView>,
    pub output: Seq<u8>,
    pub calls: Seq<ToolCallView>,
    pub results: Seq<ToolResultView>,
}

/// Every gathered result names the call it answers and that call's callable.
pub open spec fn results_answer_calls(calls: Seq<ToolCallView>, results: Seq<ToolResultView>) -> bool {
    &&& results.len() <= calls.len()
    &&& forall|j: int|
        0 <= j < results.len() ==> (#[trigger] results[j]).call_id == calls[j].call_id
            && results[j].callable_id == calls[j].callable_id
}

/// The invariant of an agent call with its data.
pub open spec fn loop_wf(v: LoopView) -> bool {
    &&& run_wf(v.run)
    &&& results_answer_calls(v.calls, v.results)
    &&& match v.run.stage {
        AgentLoopStage::AwaitingTool { index, count } => v.calls.len() == count && v.results.len()
            == index,
        AgentLoopStage::RecordingTool { index, count } => v.calls.len() == count && v.results.len()
            == index + 1,
        _ => true,
    }
}

/// The answer a stage's task expects.
pub open spec fn answer_expected(stage: AgentLoopStage, a: AgentLoopAnswer) -> bool {
    match stage {
        AgentLoopStage::ObservingCancellation => a is CancellationObserved,
        AgentLoopStage::AwaitingControl => a is ControlAnswered,
        AgentLoopStage::AwaitingModel => a is ModelAnswered,
        AgentLoopStage::AwaitingTool { .. } => a is ToolCompleted || a is ToolCancelled,
        AgentLoopStage::RecordingTool { .. } => a is ToolResultRecorded,
        AgentLoopStage::Finished => false,
    }
}

/// The control event an answer amounts to: a model answer counts its calls,
/// and a tool result keeps the call's identity when it names the same call
/// and callable as the call it answers.
pub open spec fn control_event(v: LoopView, a: AgentLoopAnswer) -> AgentLoopEvent {
    match a {
        AgentLoopAnswer::CancellationObserved { cancelled } => AgentLoopEvent::CancellationObserved {
            cancelled,
        },
        AgentLoopAnswer::ControlAnswered { response } => AgentLoopEvent::ControlAnswered { response },
        AgentLoopAnswer::ModelAnswered { output, tool_calls } => AgentLoopEvent::ModelAnswered {
            tool_calls: tool_calls@.len() as usize,
        },
        AgentLoopAnswer::ToolCompleted { result } => AgentLoopEvent::ToolCompleted {
            identity_preserved: match v.run.stage {
                AgentLoopStage::AwaitingTool { index, count } => result.call_id@ == v.calls[index as int].call_id
                    && result.callable_id@ == v.calls[index as int].callable_id,
                _ => true,
            },
        },
        AgentLoopAnswer::ToolCancelled => AgentLoopEvent::ToolCancelled,
        AgentLoopAnswer::ToolResultRecorded => AgentLoopEvent::ToolResultRecorded,
    }
}

/// The task that carries out a control action on the call's data.
pub open spec fn task_for(
    act: AgentLoopAction,
    continuation: Seq<ToolTurnView>,
    output: Seq<u8>,
    calls: Seq<ToolCallView>,
    results: Seq<ToolResultView>,
) -> TaskView {
    match act {
        AgentLoopAction::ObserveCancellation => TaskView::ObserveCancellation,
        AgentLoopAction::AskControl => TaskView::AskControl,
        AgentLoopAction::InvokeModel => TaskView::InvokeModel { continuation },
        AgentLoopAction::ExecuteTool { index } => TaskView::ExecuteTool { index, call: calls[index as int] },
        AgentLoopAction::RecordToolResult { index } => TaskView::RecordToolResult {
            index,
            result: results[index as int],
        },
        AgentLoopAction::Finish { outcome } => TaskView::Finish {
            response: match outcome {
                AgentLoopOutcome::Completed { usage } => ResponseView::Completed { output, usage },
                AgentLoopOutcome::Cancelled { usage } => ResponseView::Cancelled { usage },
                AgentLoopOutcome::Failed { failure, usage } => ResponseView::Failed { failure, usage },
                AgentLoopOutcome::Error { error } => ResponseView::Error { error },
            },
        },
    }
}

/// One step of an agent call with its data. The control state moves as
/// `transition` says. A model answer becomes the current output and calls;
/// a completed tool's result joins the turn's results; when a turn's last
/// result is recorded and another turn follows, the turn (output, calls and
/// results) joins the continuation. The model is invoked with the
/// continuation of all finished turns, each tool call and result is handed
/// out as the model and the executor gave it, and a completed call returns
/// the last model output.
pub open spec fn loop_transition(v: LoopView, a: AgentLoopAnswer) -> (LoopView, TaskView) {
    let (run, act) = transition(v.run, control_event(v, a));
    let (output, calls, results) = match a {
        AgentLoopAnswer::ModelAnswered { output, tool_calls } => (
            output@,
            calls_view(tool_calls@),
            Seq::<ToolResultView>::empty(),
        ),
        AgentLoopAnswer::ToolCompleted { result } => if act is RecordToolResult {
            (v.output, v.calls, v.results.push(result_view(result)))
        } else {
            (v.output, v.calls, v.results)
        },
        _ => if act is ObserveCancellation && a is ToolResultRecorded {
            (Seq::<u8>::empty(), Seq::<ToolCallView>::empty(), Seq::<ToolResultView>::empty())
        } else {
            (v.output, v.calls, v.results)
        },
    };
    let continuation = if act is ObserveCancellation && a is ToolResultRecorded {
        v.continuation.push(
            ToolTurnView { assistant_output: v.output, tool_calls: v.calls, tool_results: v.results },
        )
    } else {
        v.continuation
    };
    (
        LoopView { run, continuation, output, calls, results },
        task_for(act, continuation, output, calls, results),
    )
}

fn copy_bytes(v: &Vec<u8>) -> (c: Vec<u8>)
    ensures
        c@ == v@,
{
    let mut c: Vec<u8> = Vec::new();
    let mut i: usize = 0;
    while i < v.len()
        invariant
            i <= v@.len(),
            c@ == v@.take(i as int),
        decreases v@.len() - i,
    {
        c.push(v[i]);
        i = i + 1;
        assert(c@ =~= v@.take(i as int));
    }
    assert(v@.take(i as int) =~= v@);
    c
}

fn copy_call(c: &ModelToolCall) -> (r: ModelToolCall)
    ensures
        call_view(r) == call_view(*c),
{
    ModelToolCall { call_id: c.call_id.clone(), callable_id: c.callable_id.clone(), input: copy_bytes(&c.input) }
}

fn copy_result(c: &ModelToolResult) -> (r: ModelToolResult)
    ensures
        result_view(r) == result_view(*c),
{
    ModelToolResult {
        call_id: c.call_id.clone(),
        callable_id: c.callable_id.clone(),
        output: copy_bytes(&c.output),
        is_error: c.is_error,
    }
}

fn copy_calls(v: &Vec<ModelToolCall>) -> (c: Vec<ModelToolCall>)
    ensures
        calls_view(c@) == calls_view(v@),
{
    let mut c: Vec<ModelToolCall> = Vec::new();
    let mut i: usize = 0;
    while i < v.len()
        invariant
            i <= v@.len(),
            calls_view(c@) == calls_view(v@.take(i as int)),
        decreases v@.len() - i,
    {
        let ghost before = c@;
        c.push(copy_call(&v[i]));
        proof {
            assert(c@ == before.push(c@.last()));
            assert(calls_view(c@) =~= calls_view(before).push(call_view(v@[i as int])));
            assert(calls_view(v@.take(i + 1)) =~= calls_view(v@.take(i as int)).push(call_view(v@[i as int])));
        }
        i = i + 1;
    }
    assert(v@.take(i as int) =~= v@);
    c
}

fn copy_results(v: &Vec<ModelToolResult>) -> (c: Vec<ModelToolResult>)
    ensures
        results_view(c@) == results_view(v@),
{
    let mut c: Vec<ModelToolResult> = Vec::new();
    let mut i: usize = 0;
    while i < v.len()
        invariant
            i <= v@.len(),
            results_view(c@) == results_view(v@.take(i as int)),
        decreases v@.len() - i,
    {
        let ghost before = c@;
        c.push(copy_result(&v[i]));
        proof {
            assert(results_view(c@) =~= results_view(before).push(result_view(v@[i as int])));
            assert(results_view(v@.take(i + 1)) =~= results_view(v@.take(i as int)).push(
                result_view(v@[i as int]),
            ));
        }
        i = i + 1;
    }
    assert(v@.take(i as int) =~= v@);
    c
}

fn copy_turns(v: &Vec<ModelToolTurn>) -> (c: Vec<ModelToolTurn>)
    ensures
        turns_view(c@) == turns_view(v@),
{
    let mut c: Vec<ModelToolTurn> = Vec::new();
    let mut i: usize = 0;
    while i < v.len()
        invariant
            i <= v@.len(),
            turns_view(c@) == turns_view(v@.take(i as int)),
        decreases v@.len() - i,
    {
        let ghost before = c@;
        let t = &v[i];
        let copy = ModelToolTurn {
            assistant_output: copy_bytes(&t.assistant_output),
            tool_calls: copy_calls(&t.tool_calls),
            tool_results: copy_results(&t.tool_results),
        };
        c.push(copy);
        proof {
            assert(turns_view(c@) =~= turns_view(before).push(turn_view(v@[i as int])));
            assert(turns_view(v@.take(i + 1)) =~= turns_view(v@.take(i as int)).push(turn_view(v@[i as int])));
        }
        i = i + 1;
    }
    assert(v@.take(i as int) =~= v@);
    c
}

impl AgentLoop {
    pub closed spec fn view(self) -> LoopView {
        LoopView {
            run: self.run,
            continuation: turns_view(self.continuation@),
            output: self.output@,
            calls: calls_view(self.calls@),
            results: results_view(self.results@),
        }
    }

    /// Begins an agent call with no finished turn.
    pub fn start(policy: AgentLoopPolicy) -> (out: (AgentLoop, AgentLoopTask))
        requires
            policy.wf(),
        ensures
            loop_wf(out.0.view()),
            out.0.view().run == AgentLoopRun::start_state(policy),
            out.0.view().continuation == Seq::<ToolTurnView>::empty(),
            out.1 == AgentLoopTask::ObserveCancellation,
    {
        let (run, _) = AgentLoopRun::start(policy);
        let l = AgentLoop {
            run,
            continuation: Vec::new(),
            output: Vec::new(),
            calls: Vec::new(),
            results: Vec::new(),
        };
        assert(turns_view(l.continuation@) =~= Seq::<ToolTurnView>::empty());
        assert(results_view(l.results@) =~= Seq::<ToolResultView>::empty());
        (l, AgentLoopTask::ObserveCancellation)
    }

    /// Decides what follows the answer to the last task.
    pub fn step(self, answer: AgentLoopAnswer) -> (out: (AgentLoop, AgentLoopTask))
        requires
            loop_wf(self.view()),
            answer_expected(self.view().run.stage, answer),
        ensures
            loop_wf(out.0.view()),
            (out.0.view(), task_view(out.1)) == loop_transition(self.view(), answer),
    {
        let ghost v = self.view();
        let AgentLoop { run, continuation, output, calls, results } = self;
        match answer {
            AgentLoopAnswer::CancellationObserved { cancelled } => {
                let (run, act) = run.step(AgentLoopEvent::CancellationObserved { cancelled });
                let task = match act {
                    AgentLoopAction::AskControl => AgentLoopTask::AskControl,
                    AgentLoopAction::Finish { outcome: AgentLoopOutcome::Cancelled { usage } } => {
                        AgentLoopTask::Finish { response: AgentLoopResponse::Cancelled { usage } }
                    },
                    _ => {
                        proof {
                            assert(false);
                        }
                        AgentLoopTask::AskControl
                    },
                };
                (AgentLoop { run, continuation, output, calls, results }, task)
            },
            AgentLoopAnswer::ControlAnswered { response } => {
                let (run, act) = run.step(AgentLoopEvent::ControlAnswered { response });
                let task = match act {
                    AgentLoopAction::InvokeModel => AgentLoopTask::InvokeModel {
                        continuation: copy_turns(&continuation),
                    },
                    AgentLoopAction::Finish { outcome: AgentLoopOutcome::Cancelled { usage } } => {
                        AgentLoopTask::Finish { response: AgentLoopResponse::Cancelled { usage } }
                    },
                    _ => {
                        proof {
                            assert(false);
                        }
                        AgentLoopTask::AskControl
                    },
                };
                (AgentLoop { run, continuation, output, calls, results }, task)
            },
            AgentLoopAnswer::ModelAnswered { output: answered, tool_calls } => {
                let (run, act) = run.step(AgentLoopEvent::ModelAnswered { tool_calls: tool_calls.len() });
                let fresh: Vec<ModelToolResult> = Vec::new();
                proof {
                    assert(results_view(fresh@) =~= Seq::<ToolResultView>::empty());
                }
                match act {
                    AgentLoopAction::ExecuteTool { index } => {
                        let call = copy_call(&tool_calls[0]);
                        proof {
                            assert(calls_view(tool_calls@)[0] == call_view(tool_calls@[0]));
                        }
                        (
                            AgentLoop { run, continuation, output: answered, calls: tool_calls, results: fresh },
                            AgentLoopTask::ExecuteTool { index: 0, call },
                        )
                    },
                    AgentLoopAction::Finish { outcome } => {
                        let response = match outcome {
                            AgentLoopOutcome::Completed { usage } => AgentLoopResponse::Completed {
                                output: copy_bytes(&answered),
                                usage,
                            },
                            AgentLoopOutcome::Cancelled { usage } => AgentLoopResponse::Cancelled { usage },
                            AgentLoopOutcome::Failed { failure, usage } => AgentLoopResponse::Failed {
                                failure,
                                usage,
                            },
                            AgentLoopOutcome::Error { error } => AgentLoopResponse::Error { error },
                        };
                        (
                            AgentLoop { run, continuation, output: answered, calls: tool_calls, results: fresh },
                            AgentLoopTask::Finish { response },
                        )
                    },
                    _ => {
                        proof {
                            assert(false);
                        }
                        (
                            AgentLoop { run, continuation, output: answered, calls: tool_calls, results: fresh },
                            AgentLoopTask::AskControl,
                        )
                    },
                }
            },
            AgentLoopAnswer::ToolCompleted { result } => {
                let index = match run.stage {
                    AgentLoopStage::AwaitingTool { index, count } => index,
                    _ => 0,
                };
                let preserved = result.call_id == calls[index].call_id && result.callable_id
                    == calls[index].callable_id;
                proof {
                    assert(calls_view(calls@)[index as int] == call_view(calls@[index as int]));
                }
                let (run, act) = run.step(AgentLoopEvent::ToolCompleted { identity_preserved: preserved });
                match act {
                    AgentLoopAction::RecordToolResult { index } => {
                        let copy = copy_result(&result);
                        let mut results = results;
                        let ghost before = results@;
                        results.push(result);
                        proof {
                            assert(results_view(results@) =~= results_view(before).push(result_view(result)));
                            assert(results_view(results@)[index as int] == result_view(result));
                        }
                        (
                            AgentLoop { run, continuation, output, calls, results },
                            AgentLoopTask::RecordToolResult { index, result: copy },
                        )
                    },
                    AgentLoopAction::Finish { outcome } => {
                        let response = match outcome {
                            AgentLoopOutcome::Error { error } => AgentLoopResponse::Error { error },
                            AgentLoopOutcome::Completed { usage } => AgentLoopResponse::Cancelled { usage },
                            AgentLoopOutcome::Cancelled { usage } => AgentLoopResponse::Cancelled { usage },
                            AgentLoopOutcome::Failed { failure, usage } => AgentLoopResponse::Failed {
                                failure,
                                usage,
                            },
                        };
                        proof {
                            assert(!(outcome is Completed));
                        }
                        (AgentLoop { run, continuation, output, calls, results }, AgentLoopTask::Finish { response })
                    },
                    _ => {
                        proof {
                            assert(false);
                        }
                        (AgentLoop { run, continuation, output, calls, results }, AgentLoopTask::AskControl)
                    },
                }
            },
            AgentLoopAnswer::ToolCancelled => {
                let (run, act) = run.step(AgentLoopEvent::ToolCancelled);
                let task = match act {
                    AgentLoopAction::Finish { outcome: AgentLoopOutcome::Cancelled { usage } } => {
                        AgentLoopTask::Finish { response: AgentLoopResponse::Cancelled { usage } }
                    },
                    _ => {
                        proof {
                            assert(false);
                        }
                        AgentLoopTask::AskControl
                    },
                };
                (AgentLoop { run, continuation, output, calls, results }, task)
            },
            AgentLoopAnswer::ToolResultRecorded => {
                let (run, act) = run.step(AgentLoopEvent::ToolResultRecorded);
                match act {
                    AgentLoopAction::ExecuteTool { index } => {
                        let call = copy_call(&calls[index]);
                        proof {
                            assert(calls_view(calls@)[index as int] == call_view(calls@[index as int]));
                        }
                        (
                            AgentLoop { run, continuation, output, calls, results },
                            AgentLoopTask::ExecuteTool { index, call },
                        )
                    },
                    AgentLoopAction::ObserveCancellation => {
                        let mut continuation = continuation;
                        let ghost before = continuation@;
                        let turn = ModelToolTurn { assistant_output: output, tool_calls: calls, tool_results: results };
                        let ghost tv = turn_view(turn);
                        continuation.push(turn);
                        let empty_calls: Vec<ModelToolCall> = Vec::new();
                        let empty_results: Vec<ModelToolResult> = Vec::new();
                        proof {
                            assert(turns_view(continuation@) =~= turns_view(before).push(tv));
                            assert(calls_view(empty_calls@) =~= Seq::<ToolCallView>::empty());
                            assert(results_view(empty_results@) =~= Seq::<ToolResultView>::empty());
                        }
                        (
                            AgentLoop {
                                run,
                                continuation,
                                output: Vec::new(),
                                calls: empty_calls,
                                results: empty_results,
                            },
                            AgentLoopTask::ObserveCancellation,
                        )
                    },
                    AgentLoopAction::Finish { outcome } => {
                        let response = match outcome {
                            AgentLoopOutcome::Failed { failure, usage } => AgentLoopResponse::Failed {
                                failure,
                                usage,
                            },
                            AgentLoopOutcome::Completed { usage } => AgentLoopResponse::Cancelled { usage },
                            AgentLoopOutcome::Cancelled { usage } => AgentLoopResponse::Cancelled { usage },
                            AgentLoopOutcome::Error { error } => AgentLoopResponse::Error { error },
                        };
                        proof {
                            assert(outcome is Failed);
                        }
                        (AgentLoop { run, continuation, output, calls, results }, AgentLoopTask::Finish { response })
                    },
                    _ => {
                        proof {
                            assert(false);
                        }
                        (AgentLoop { run, continuation, output, calls, results }, AgentLoopTask::AskControl)
                    },
                }
            },
        }
    }
}


/// Every model turn is invoked with the continuation of exactly the turns
/// finished before it.
pub proof fn lemma_model_sees_every_finished_turn(v: LoopView, a: AgentLoopAnswer)
    requires
        loop_wf(v),
        answer_expected(v.run.stage, a),
        loop_transition(v, a).1 is InvokeModel,
    ensures
        loop_transition(v, a).1 == (TaskView::InvokeModel { continuation: v.continuation }),
        loop_transition(v, a).0.continuation == v.continuation,
{
}

/// A finished turn joins the continuation with the model's output, its calls
/// and the results gathered for them, each result naming its call.
pub proof fn lemma_finished_turn_joins_continuation(v: LoopView)
    requires
        loop_wf(v),
        answer_expected(v.run.stage, AgentLoopAnswer::ToolResultRecorded),
        loop_transition(v, AgentLoopAnswer::ToolResultRecorded).1 is ObserveCancellation,
    ensures
        loop_transition(v, AgentLoopAnswer::ToolResultRecorded).0.continuation == v.continuation.push(
            ToolTurnView { assistant_output: v.output, tool_calls: v.calls, tool_results: v.results },
        ),
        v.results.len() == v.calls.len(),
        results_answer_calls(v.calls, v.results),
{
}

/// A call completes with the output of the model answer that requested no tool.
pub proof fn lemma_completed_call_returns_model_output(v: LoopView, output: Vec<u8>, tool_calls: Vec<ModelToolCall>)
    requires
        loop_wf(v),
        v.run.stage == AgentLoopStage::AwaitingModel,
        tool_calls@.len() == 0,
    ensures
        loop_transition(v, AgentLoopAnswer::ModelAnswered { output, tool_calls }).1 == (TaskView::Finish {
            response: ResponseView::Completed {
                output: output@,
                usage: AgentLoopUsage {
                    model_calls: (v.run.usage.model_calls + 1) as u32,
                    tool_calls: v.run.usage.tool_calls,
                },
            },
        }),
{
}

} // verus!
