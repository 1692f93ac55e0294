use phenix::agent_loop::{
    AgentLoop, AgentLoopAnswer, AgentLoopResponse, AgentLoopTask, ModelToolCall, ModelToolResult,
    ModelToolTurn, AgentLoopAction, AgentLoopControlResponse, AgentLoopError, AgentLoopEvent, AgentLoopFailure,
    AgentLoopOutcome,
    AgentLoopPolicy, AgentLoopRun, AgentLoopUsage, DEFAULT_MAX_MODEL_TURNS,
    DEFAULT_MAX_TOOL_CALLS_PER_TURN,
};

#[test]
fn default_progression_policy_preserves_existing_limits() {
    let policy = AgentLoopPolicy::default();
    assert_eq!(policy.max_model_turns(), DEFAULT_MAX_MODEL_TURNS);
    assert_eq!(policy.max_tool_calls_per_turn(), DEFAULT_MAX_TOOL_CALLS_PER_TURN);
    assert_eq!(DEFAULT_MAX_MODEL_TURNS, 16);
    assert_eq!(DEFAULT_MAX_TOOL_CALLS_PER_TURN, 10);
}

/// Drives one model turn up to the model's answer.
fn to_model(run: AgentLoopRun) -> AgentLoopRun {
    let (run, action) = run.step(AgentLoopEvent::CancellationObserved { cancelled: false });
    assert_eq!(action, AgentLoopAction::AskControl);
    let (run, action) =
        run.step(AgentLoopEvent::ControlAnswered { response: AgentLoopControlResponse::Continue });
    assert_eq!(action, AgentLoopAction::InvokeModel);
    run
}

#[test]
fn eleven_calls_fail_before_any_tool_executes() {
    let (run, action) = AgentLoopRun::start(AgentLoopPolicy::default());
    assert_eq!(action, AgentLoopAction::ObserveCancellation);
    let run = to_model(run);
    let (_, action) = run.step(AgentLoopEvent::ModelAnswered { tool_calls: 11 });
    assert_eq!(
        action,
        AgentLoopAction::Finish {
            outcome: AgentLoopOutcome::Failed {
                failure: AgentLoopFailure::ToolCallLimitExceeded {
                    limit: DEFAULT_MAX_TOOL_CALLS_PER_TURN,
                    actual: 11,
                },
                usage: AgentLoopUsage { model_calls: 1, tool_calls: 0 },
            },
        }
    );
}

#[test]
fn seventeenth_model_turn_fails_at_loop_boundary() {
    let (mut run, _) = AgentLoopRun::start(AgentLoopPolicy::default());
    let mut executions = 0;
    loop {
        run = to_model(run);
        let (next, action) = run.step(AgentLoopEvent::ModelAnswered { tool_calls: 1 });
        assert_eq!(action, AgentLoopAction::ExecuteTool { index: 0 });
        executions += 1;
        let (next, action) = next.step(AgentLoopEvent::ToolCompleted { identity_preserved: true });
        assert_eq!(action, AgentLoopAction::RecordToolResult { index: 0 });
        let (next, action) = next.step(AgentLoopEvent::ToolResultRecorded);
        run = next;
        match action {
            AgentLoopAction::ObserveCancellation => continue,
            AgentLoopAction::Finish { outcome } => {
                assert_eq!(
                    outcome,
                    AgentLoopOutcome::Failed {
                        failure: AgentLoopFailure::ModelTurnLimitExceeded {
                            limit: DEFAULT_MAX_MODEL_TURNS,
                        },
                        usage: AgentLoopUsage {
                            model_calls: DEFAULT_MAX_MODEL_TURNS,
                            tool_calls: DEFAULT_MAX_MODEL_TURNS,
                        },
                    }
                );
                break;
            }
            other => panic!("unexpected action {other:?}"),
        }
    }
    assert_eq!(executions, DEFAULT_MAX_MODEL_TURNS);
}

#[test]
fn one_agent_call_owns_two_model_turns_and_completes() {
    let (run, _) = AgentLoopRun::start(AgentLoopPolicy::default());
    let run = to_model(run);
    let (run, action) = run.step(AgentLoopEvent::ModelAnswered { tool_calls: 2 });
    assert_eq!(action, AgentLoopAction::ExecuteTool { index: 0 });
    let (run, _) = run.step(AgentLoopEvent::ToolCompleted { identity_preserved: true });
    let (run, action) = run.step(AgentLoopEvent::ToolResultRecorded);
    assert_eq!(action, AgentLoopAction::ExecuteTool { index: 1 });
    let (run, _) = run.step(AgentLoopEvent::ToolCompleted { identity_preserved: true });
    let (run, action) = run.step(AgentLoopEvent::ToolResultRecorded);
    assert_eq!(action, AgentLoopAction::ObserveCancellation);
    let run = to_model(run);
    let (_, action) = run.step(AgentLoopEvent::ModelAnswered { tool_calls: 0 });
    assert_eq!(
        action,
        AgentLoopAction::Finish {
            outcome: AgentLoopOutcome::Completed {
                usage: AgentLoopUsage { model_calls: 2, tool_calls: 2 },
            },
        }
    );
}

#[test]
fn cancellation_between_turns_stops_before_the_next_model_invocation() {
    let (run, _) = AgentLoopRun::start(AgentLoopPolicy::default());
    let (_, action) = run.step(AgentLoopEvent::CancellationObserved { cancelled: true });
    assert_eq!(
        action,
        AgentLoopAction::Finish {
            outcome: AgentLoopOutcome::Cancelled {
                usage: AgentLoopUsage { model_calls: 0, tool_calls: 0 },
            },
        }
    );
    let (run, _) = AgentLoopRun::start(AgentLoopPolicy::new(2, 2));
    let (run, _) = run.step(AgentLoopEvent::CancellationObserved { cancelled: false });
    let (_, action) =
        run.step(AgentLoopEvent::ControlAnswered { response: AgentLoopControlResponse::Cancelled });
    assert!(matches!(action, AgentLoopAction::Finish { outcome: AgentLoopOutcome::Cancelled { .. } }));
}

#[test]
fn cancellation_during_a_tool_terminates_the_run() {
    let (run, _) = AgentLoopRun::start(AgentLoopPolicy::default());
    let run = to_model(run);
    let (run, _) = run.step(AgentLoopEvent::ModelAnswered { tool_calls: 1 });
    let (_, action) = run.step(AgentLoopEvent::ToolCancelled);
    assert_eq!(
        action,
        AgentLoopAction::Finish {
            outcome: AgentLoopOutcome::Cancelled {
                usage: AgentLoopUsage { model_calls: 1, tool_calls: 0 },
            },
        }
    );
}

#[test]
fn a_tool_that_changes_its_call_identity_ends_the_run_with_an_error() {
    let (run, _) = AgentLoopRun::start(AgentLoopPolicy::default());
    let run = to_model(run);
    let (run, _) = run.step(AgentLoopEvent::ModelAnswered { tool_calls: 1 });
    let (_, action) = run.step(AgentLoopEvent::ToolCompleted { identity_preserved: false });
    assert_eq!(
        action,
        AgentLoopAction::Finish {
            outcome: AgentLoopOutcome::Error { error: AgentLoopError::ToolIdentityChanged { index: 0 } },
        }
    );
}

fn call(id: &str) -> ModelToolCall {
    ModelToolCall { call_id: id.into(), callable_id: "fixture.client.echo".into(), input: b"{}".to_vec() }
}

fn result_for(c: &ModelToolCall, output: &[u8], is_error: bool) -> ModelToolResult {
    ModelToolResult {
        call_id: c.call_id.clone(),
        callable_id: c.callable_id.clone(),
        output: output.to_vec(),
        is_error,
    }
}

/// Drives an agent call through cancellation and control up to the model
/// invocation, returning the continuation the model is invoked with.
fn to_invocation(l: AgentLoop) -> (AgentLoop, Vec<ModelToolTurn>) {
    let (l, task) = l.step(AgentLoopAnswer::CancellationObserved { cancelled: false });
    assert_eq!(task, AgentLoopTask::AskControl);
    let (l, task) = l.step(AgentLoopAnswer::ControlAnswered { response: AgentLoopControlResponse::Continue });
    match task {
        AgentLoopTask::InvokeModel { continuation } => (l, continuation),
        other => panic!("unexpected task {other:?}"),
    }
}

/// Runs two turns: the first requests one call answered by `tool_output`,
/// the second completes. Returns the final task and the progress records.
fn two_turns(is_error: bool) -> (AgentLoopTask, Vec<String>, Vec<ModelToolTurn>) {
    let mut progress = Vec::new();
    let (l, task) = AgentLoop::start(AgentLoopPolicy::default());
    assert_eq!(task, AgentLoopTask::ObserveCancellation);
    let (l, continuation) = to_invocation(l);
    assert!(continuation.is_empty());
    let first = call("fixture-call-1");
    let (l, task) = l.step(AgentLoopAnswer::ModelAnswered {
        output: b"provider-output-1".to_vec(),
        tool_calls: vec![first.clone()],
    });
    let executed = match task {
        AgentLoopTask::ExecuteTool { index: 0, call } => call,
        other => panic!("unexpected task {other:?}"),
    };
    assert_eq!(executed, first);
    progress.push(format!("call:{}", executed.call_id));
    let answer = result_for(&executed, b"echo", is_error);
    let (l, task) = l.step(AgentLoopAnswer::ToolCompleted { result: answer.clone() });
    match task {
        AgentLoopTask::RecordToolResult { index: 0, result } => {
            assert_eq!(result, answer);
            progress.push(format!("result:{}", result.call_id));
        }
        other => panic!("unexpected task {other:?}"),
    }
    let (l, task) = l.step(AgentLoopAnswer::ToolResultRecorded);
    assert_eq!(task, AgentLoopTask::ObserveCancellation);
    let (l, continuation) = to_invocation(l);
    let (_, task) = l.step(AgentLoopAnswer::ModelAnswered {
        output: b"provider-output-2".to_vec(),
        tool_calls: Vec::new(),
    });
    (task, progress, continuation)
}

#[test]
fn resolved_agent_loop_returns_central_invocation_output_with_usage() {
    let (l, _) = AgentLoop::start(AgentLoopPolicy::default());
    let (l, continuation) = to_invocation(l);
    assert!(continuation.is_empty());
    let (_, task) = l.step(AgentLoopAnswer::ModelAnswered {
        output: b"provider-output".to_vec(),
        tool_calls: Vec::new(),
    });
    assert_eq!(
        task,
        AgentLoopTask::Finish {
            response: AgentLoopResponse::Completed {
                output: b"provider-output".to_vec(),
                usage: AgentLoopUsage { model_calls: 1, tool_calls: 0 },
            },
        }
    );
}

#[test]
fn one_agent_call_owns_two_model_turns_and_typed_continuation() {
    let (task, progress, continuation) = two_turns(false);
    assert_eq!(
        task,
        AgentLoopTask::Finish {
            response: AgentLoopResponse::Completed {
                output: b"provider-output-2".to_vec(),
                usage: AgentLoopUsage { model_calls: 2, tool_calls: 1 },
            },
        }
    );
    assert_eq!(progress, ["call:fixture-call-1", "result:fixture-call-1"]);
    let first = call("fixture-call-1");
    assert_eq!(
        continuation,
        vec![ModelToolTurn {
            assistant_output: b"provider-output-1".to_vec(),
            tool_calls: vec![first.clone()],
            tool_results: vec![result_for(&first, b"echo", false)],
        }]
    );
}

#[test]
fn ordinary_tool_failure_is_continuation_not_run_failure() {
    let (task, progress, continuation) = two_turns(true);
    assert_eq!(
        task,
        AgentLoopTask::Finish {
            response: AgentLoopResponse::Completed {
                output: b"provider-output-2".to_vec(),
                usage: AgentLoopUsage { model_calls: 2, tool_calls: 1 },
            },
        }
    );
    assert_eq!(progress, ["call:fixture-call-1", "result:fixture-call-1"]);
    assert!(continuation[0].tool_results[0].is_error);
}

#[test]
fn a_result_for_another_call_ends_the_call_with_an_identity_error() {
    let (l, _) = AgentLoop::start(AgentLoopPolicy::default());
    let (l, _) = to_invocation(l);
    let first = call("fixture-call-1");
    let (l, _) = l.step(AgentLoopAnswer::ModelAnswered { output: b"o".to_vec(), tool_calls: vec![first.clone()] });
    let mut wrong = result_for(&first, b"echo", false);
    wrong.call_id = "fixture-call-9".into();
    let (_, task) = l.step(AgentLoopAnswer::ToolCompleted { result: wrong });
    assert_eq!(
        task,
        AgentLoopTask::Finish {
            response: AgentLoopResponse::Error { error: AgentLoopError::ToolIdentityChanged { index: 0 } },
        }
    );
}
