use platano::agent::{
    AgentAction, AgentEvent, Conversation, Phase, RunError, DEFAULT_MAX_ITERATIONS, SYSTEM_PROMPT,
};
use platano::llm::{ChatResponse, FunctionCall, Message, Role, ToolArgs, ToolCall};
use platano::tools::error::ToolError;

fn call(name: &str) -> ToolCall {
    ToolCall {
        function: FunctionCall {
            name: name.into(),
            arguments: ToolArgs { json: "{}".into(), fields: Some(Vec::new()) },
        },
    }
}

fn reply(content: &str, calls: Option<Vec<ToolCall>>) -> AgentEvent {
    AgentEvent::ModelReply(Ok(ChatResponse {
        model: "test".into(),
        message: Message { role: Role::Assistant, content: content.into(), tool_calls: calls },
        done: true,
    }))
}

fn tools() -> Vec<String> {
    vec!["read_file".into(), "write".into(), "list_directory".into()]
}

#[test]
fn conversation_opens_with_system_and_user() {
    let (c, a) = Conversation::start("hi".into(), tools(), DEFAULT_MAX_ITERATIONS);
    assert!(matches!(a, AgentAction::CallModel));
    assert_eq!(c.messages.len(), 2);
    assert_eq!(c.messages[0].role, Role::System);
    assert_eq!(c.messages[0].content, SYSTEM_PROMPT);
    assert!(SYSTEM_PROMPT.starts_with("You are a coding assistant working in a project directory.\n\nWhen using tools:\n"));
    assert!(SYSTEM_PROMPT.ends_with("edit specific sections instead.\n"));
    assert_eq!(c.messages[1].role, Role::User);
    assert_eq!(c.messages[1].content, "hi");
    assert_eq!(DEFAULT_MAX_ITERATIONS, 100);
}

#[test]
fn answer_without_tool_calls_ends_the_run() {
    let (mut c, _) = Conversation::start("hi".into(), tools(), 3);
    match c.on_event(reply("done", None)) {
        AgentAction::Finish(Ok(s)) => assert_eq!(s, "done"),
        _ => panic!("expected the answer"),
    }
    let (mut c, _) = Conversation::start("hi".into(), tools(), 3);
    match c.on_event(reply("also done", Some(Vec::new()))) {
        AgentAction::Finish(Ok(s)) => assert_eq!(s, "also done"),
        _ => panic!("expected the answer"),
    }
    assert_eq!(c.phase, Phase::Done);
}

#[test]
fn tool_calls_run_in_order_and_unknown_ones_are_answered() {
    let (mut c, _) = Conversation::start("hi".into(), tools(), 3);
    let a = c.on_event(reply("", Some(vec![call("nope"), call("write"), call("read_file")])));
    match a {
        AgentAction::RunTool { tool } => assert_eq!(tool, 1),
        _ => panic!("expected a tool run"),
    }
    assert_eq!(c.messages.len(), 4);
    assert_eq!(c.messages[2].role, Role::Assistant);
    assert_eq!(c.messages[3].content, "Error: tool 'nope' not found");
    assert_eq!(c.current_call().function.name, "write");
    let a = c.on_event(AgentEvent::ToolResult(Ok("Wrote 5 bytes to a".into())));
    match a {
        AgentAction::RunTool { tool } => assert_eq!(tool, 0),
        _ => panic!("expected a tool run"),
    }
    assert_eq!(c.messages[4].content, "Wrote 5 bytes to a");
    assert_eq!(c.messages[4].role, Role::Tool);
    let a = c.on_event(AgentEvent::ToolResult(Err(ToolError::NotAFile { path: "x".into() })));
    assert!(matches!(a, AgentAction::CallModel));
    assert_eq!(c.messages[5].content, "Error: Path is not a file: x");
    assert_eq!(c.iteration, 1);
    match c.on_event(reply("final", None)) {
        AgentAction::Finish(Ok(s)) => assert_eq!(s, "final"),
        _ => panic!("expected the answer"),
    }
}

#[test]
fn rounds_are_limited() {
    let (mut c, _) = Conversation::start("hi".into(), tools(), 2);
    assert!(matches!(c.on_event(reply("", Some(vec![call("nope")]))), AgentAction::CallModel));
    match c.on_event(reply("", Some(vec![call("nope")]))) {
        AgentAction::Finish(Err(e)) => {
            assert!(matches!(e, RunError::ExceededMaxIterations));
            assert_eq!(e.message(), "Agent exceeded max iterations");
        }
        _ => panic!("expected the allowance to run out"),
    }
    let (_, a) = Conversation::start("hi".into(), tools(), 0);
    assert!(matches!(a, AgentAction::Finish(Err(RunError::ExceededMaxIterations))));
}

#[test]
fn model_failure_ends_the_run() {
    let (mut c, _) = Conversation::start("hi".into(), tools(), 2);
    match c.on_event(AgentEvent::ModelReply(Err("connection refused".into()))) {
        AgentAction::Finish(Err(e)) => {
            assert_eq!(e.message(), "LLM request failed");
            assert_eq!(e.cause().as_deref(), Some("connection refused"));
        }
        _ => panic!("expected a failure"),
    }
}

#[test]
fn each_listed_call_runs_once_per_round() {
    let (mut c, _) = Conversation::start("hi".into(), tools(), 5);
    let mut positions = Vec::new();
    let mut a = c.on_event(reply("", Some(vec![call("write"), call("write")])));
    let mut runs = 0;
    while let AgentAction::RunTool { tool } = a {
        assert_eq!(tool, 1);
        positions.push((c.round, c.next));
        runs += 1;
        a = c.on_event(AgentEvent::ToolResult(Ok(format!("run {}", runs))));
    }
    assert!(matches!(a, AgentAction::CallModel));
    assert_eq!(positions, vec![(2, 0), (2, 1)]);
    assert_eq!(c.messages.len(), 5);
    assert_eq!(c.messages[3].content, "run 1");
    assert_eq!(c.messages[4].content, "run 2");
    let a = c.on_event(reply("", Some(vec![call("write")])));
    assert!(matches!(a, AgentAction::RunTool { tool: 1 }));
    assert_eq!((c.round, c.next), (5, 0));
}
