//! The messages exchanged with the chat model.
use vstd::prelude::*;

verus! {

/// Who a message is from.
#[derive(Clone, Copy, PartialEq, Eq, Debug)]
pub enum Role {
    System,
    User,
    Assistant,
    Tool,
}

/// A value of a tool-call argument: a JSON string, or any other JSON value
/// held as its compact JSON text.
#[derive(Debug)]
pub enum ArgValue {
    Text(String),
    Other(String),
}

/// One member of a JSON object of arguments.
#[derive(Debug)]
pub struct ArgField {
    pub key: String,
    pub value: ArgValue,
}

/// The arguments of a tool call: their compact JSON text, and, when they form
/// a JSON object, its members.
#[derive(Debug)]
pub struct ToolArgs {
    pub json: String,
    pub fields: Option<Vec<ArgField>>,
}

/// The function a tool call invokes.
#[derive(Debug)]
pub struct FunctionCall {
    pub name: String,
    pub arguments: ToolArgs,
}

/// A request by the model to run a tool.
#[derive(Debug)]
pub struct ToolCall {
    pub function: FunctionCall,
}

/// One message of a conversation.
#[derive(Debug)]
pub struct Message {
    pub role: Role,
    pub content: String,
    pub tool_calls: Option<Vec<ToolCall>>,
}

/// The model's reply to a chat request.
#[derive(Debug)]
pub struct ChatResponse {
    pub model: String,
    pub message: Message,
    pub done: bool,
}

/// The tool calls a message asks for; none when it carries no list.
pub open spec fn requested_calls(m: Message) -> Seq<ToolCall> {
    match m.tool_calls {
        Some(calls) => calls@,
        None => Seq::empty(),
    }
}

} // verus!
