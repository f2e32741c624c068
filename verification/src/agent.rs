//! The agent: a conversation with the model in which the model may ask for
//! tools to be run, and a compact rendering of tool calls for logs.
use vstd::prelude::*;
use vstd::utf8::{encode_utf8, is_char_boundary};
use crate::llm::{
    requested_calls, ArgField, ArgValue, ChatResponse, Message, Role, ToolArgs, ToolCall,
};
use crate::tools::error::ToolError;
use crate::text::{byte_len, decimal, fits, push_decimal, text_len, truncate, truncated};

verus! {

/// What the `Debug` rendering of a string slice is for `s`: the text quoted,
/// with its special characters escaped.
pub uninterp spec fn str_debug(s: Seq<char>) -> Seq<char>;

/// `<str as Debug>::fmt`: the contract names its result and states nothing more
/// of it; the escaping rules are not written out here.
#[verifier::external_body]
fn debug_text(s: &str) -> (r: String)
    ensures
        r@ == str_debug(s@),
{
    format!("{:?}", s)
}

/// Whether two texts are equal.
pub fn text_eq(a: &str, b: &str) -> (r: bool)
    ensures
        r == (a@ == b@),
{
    let x = a.to_owned();
    let y = b.to_owned();
    x == y
}

/// The argument keys shown for a call of `tool`.
pub open spec fn summary_keys(tool: Seq<char>) -> Seq<Seq<char>> {
    if tool == "read"@ || tool == "ls"@ {
        seq!["path"@]
    } else if tool == "write"@ {
        seq!["path"@, "contents"@]
    } else {
        Seq::empty()
    }
}

/// The value of the first member named `key`.
pub open spec fn lookup(fields: Seq<ArgField>, key: Seq<char>) -> Option<ArgValue>
    decreases fields.len(),
{
    if fields.len() == 0 {
        None
    } else if fields[0].key@ == key {
        Some(fields[0].value)
    } else {
        lookup(fields.drop_first(), key)
    }
}

/// How one argument is shown: long strings by their size in bytes, other
/// strings quoted, other values as JSON.
pub open spec fn render_arg(key: Seq<char>, v: ArgValue) -> Seq<char> {
    match v {
        ArgValue::Text(s) => if byte_len(s@) > 80 {
            key + "=<"@ + decimal(byte_len(s@)) + " bytes>"@
        } else {
            key + "="@ + str_debug(s@)
        },
        ArgValue::Other(j) => key + "="@ + j@,
    }
}

/// The shown arguments among `keys`, in order, skipping absent ones.
pub open spec fn rendered_args(keys: Seq<Seq<char>>, fields: Seq<ArgField>) -> Seq<Seq<char>>
    decreases keys.len(),
{
    if keys.len() == 0 {
        Seq::empty()
    } else {
        let r = rendered_args(keys.drop_last(), fields);
        match lookup(fields, keys.last()) {
            Some(v) => r.push(render_arg(keys.last(), v)),
            None => r,
        }
    }
}

/// `words` separated by single spaces.
pub open spec fn join_words(words: Seq<Seq<char>>) -> Seq<char>
    decreases words.len(),
{
    if words.len() == 0 {
        Seq::empty()
    } else if words.len() == 1 {
        words[0]
    } else {
        join_words(words.drop_last()).push(' ') + words.last()
    }
}

/// The log rendering of a call of `tool` with `args`: arguments that are not
/// an object as their JSON; for a known tool its chosen arguments; for another
/// tool the JSON cut to 120 bytes.
pub open spec fn summary(tool: Seq<char>, args: ToolArgs) -> Seq<char> {
    match args.fields {
        None => args.json@,
        Some(fs) => if summary_keys(tool).len() == 0 {
            truncated(args.json@, 120)
        } else {
            join_words(rendered_args(summary_keys(tool), fs@))
        },
    }
}

impl ToolArgs {
    /// The texts of the arguments have `usize` lengths.
    pub open spec fn wf(&self) -> bool {
        &&& fits(self.json@)
        &&& self.fields matches Some(fs) ==> forall|i: int|
            0 <= i < fs@.len() ==> (#[trigger] fs@[i].value matches ArgValue::Text(s) ==> fits(
                s@,
            ))
    }
}

proof fn lemma_lookup_fits(fields: Seq<ArgField>, key: Seq<char>)
    requires
        forall|i: int|
            0 <= i < fields.len() ==> (#[trigger] fields[i].value matches ArgValue::Text(s) ==> fits(
                s@,
            )),
    ensures
        lookup(fields, key) matches Some(ArgValue::Text(s)) ==> fits(s@),
    decreases fields.len(),
{
    if fields.len() > 0 && fields[0].key@ != key {
        assert forall|i: int|
            0 <= i < fields.drop_first().len() implies (#[trigger] fields.drop_first()[i].value matches ArgValue::Text(s) ==> fits(
            s@,
        )) by {
            assert(fields.drop_first()[i] == fields[i + 1]);
        }
        lemma_lookup_fits(fields.drop_first(), key);
    }
}

fn find_arg<'a>(fields: &'a Vec<ArgField>, key: &str) -> (r: Option<&'a ArgValue>)
    ensures
        match r {
            Some(v) => lookup(fields@, key@) == Some(*v),
            None => lookup(fields@, key@) is None,
        },
{
    let mut i: usize = 0;
    assert(fields@.skip(0) =~= fields@);
    while i < fields.len()
        invariant
            i <= fields.len(),
            lookup(fields@, key@) == lookup(fields@.skip(i as int), key@),
        decreases fields.len() - i,
    {
        assert(fields@.skip(i as int)[0] == fields@[i as int]);
        assert(fields@.skip(i as int).drop_first() =~= fields@.skip(i as int + 1));
        if text_eq(fields[i].key.as_str(), key) {
            return Some(&fields[i].value);
        }
        i = i + 1;
    }
    None
}

fn render_one(key: &str, v: &ArgValue) -> (r: String)
    requires
        v matches ArgValue::Text(s) ==> fits(s@),
    ensures
        r@ == render_arg(key@, *v),
{
    let mut r = key.to_owned();
    match v {
        ArgValue::Text(s) => {
            let n = text_len(s.as_str());
            if n > 80 {
                r.push_str("=<");
                push_decimal(&mut r, n as u64);
                r.push_str(" bytes>");
            } else {
                r.push_str("=");
                let d = debug_text(s.as_str());
                r.push_str(d.as_str());
            }
        },
        ArgValue::Other(j) => {
            r.push_str("=");
            r.push_str(j.as_str());
        },
    }
    r
}

/// Renders the arguments of a call of `tool` compactly for logs.
pub fn summarize_args(tool: &str, args: &ToolArgs) -> (r: String)
    requires
        args.wf(),
        args.fields is Some && summary_keys(tool@).len() == 0 ==> byte_len(args.json@) <= 120
            || is_char_boundary(encode_utf8(args.json@), 120),
    ensures
        r@ == summary(tool@, *args),
{
    proof {
        reveal_strlit("read");
        reveal_strlit("ls");
        reveal_strlit("write");
        reveal_strlit("path");
        reveal_strlit("contents");
    }
    match &args.fields {
        None => args.json.clone(),
        Some(fields) => {
            let mut keys: Vec<&str> = Vec::new();
            if text_eq(tool, "read") || text_eq(tool, "ls") {
                keys.push("path");
            } else if text_eq(tool, "write") {
                keys.push("path");
                keys.push("contents");
            }
            let ghost ks = summary_keys(tool@);
            assert(keys@.map_values(|k: &str| k@) =~= ks);
            if keys.len() == 0 {
                return truncate(args.json.as_str(), 120);
            }
            let mut r = String::new();
            let mut count: usize = 0;
            let mut i: usize = 0;
            assert(ks.take(0) =~= Seq::<Seq<char>>::empty());
            while i < keys.len()
                invariant
                    i <= keys.len(),
                    ks == keys@.map_values(|k: &str| k@),
                    args.wf(),
                    args.fields == Some(*fields),
                    count <= i,
                    count == rendered_args(ks.take(i as int), fields@).len(),
                    r@ == join_words(rendered_args(ks.take(i as int), fields@)),
                decreases keys.len() - i,
            {
                let ghost before = rendered_args(ks.take(i as int), fields@);
                let ghost t = ks.take(i as int + 1);
                assert(t.drop_last() =~= ks.take(i as int));
                assert(t.last() == keys@[i as int]@);
                proof {
                    lemma_lookup_fits(fields@, keys@[i as int]@);
                }
                match find_arg(fields, keys[i]) {
                    Some(v) => {
                        let piece = render_one(keys[i], v);
                        if count > 0 {
                            r.push(' ');
                        }
                        r.push_str(piece.as_str());
                        count = count + 1;
                        proof {
                            let after = before.push(piece@);
                            assert(after.drop_last() =~= before);
                            assert(r@ =~= join_words(after));
                        }
                    },
                    None => {},
                }
                i = i + 1;
            }
            assert(ks.take(keys.len() as int) =~= ks);
            r
        },
    }
}


/// How many model requests an agent makes at most, unless told otherwise.
pub const DEFAULT_MAX_ITERATIONS: usize = 100;

/// The instructions that open every conversation.
pub const SYSTEM_PROMPT: &'static str = "You are a coding assistant working in a project directory.\n\nWhen using tools:\n- For exploring the project, prefer `ls` and `read` to understand structure before making changes.\n- For modifying existing files, ALWAYS prefer `edit` over `write`. Use `edit` for any change to an existing file, even small ones. Multiple small edits are better than one large write.\n- For creating new files, use `write`.\n- When `edit` fails because of ambiguous or missing matches, add more surrounding context (3-5 lines) and try again.\n\nDo not guess at file paths. Use `ls` to discover the structure first.\nDo not regenerate file content if you can edit specific sections instead.\n";

/// Why a run ended without an answer.
#[derive(Debug)]
pub enum RunError {
    /// The model could not be reached or answered with an error.
    ModelFailed(String),
    /// The model kept asking for tools for the whole allowance of requests.
    ExceededMaxIterations,
}

impl RunError {
    /// The error's text: what went wrong, without the underlying cause.
    pub open spec fn text(&self) -> Seq<char> {
        match self {
            RunError::ModelFailed(_) => "LLM request failed"@,
            RunError::ExceededMaxIterations => "Agent exceeded max iterations"@,
        }
    }

    pub fn message(&self) -> (r: String)
        ensures
            r@ == self.text(),
    {
        match self {
            RunError::ModelFailed(_) => "LLM request failed".to_owned(),
            RunError::ExceededMaxIterations => "Agent exceeded max iterations".to_owned(),
        }
    }

    /// The underlying cause, where there is one: what the model client
    /// reported.
    pub fn cause(&self) -> (r: Option<String>)
        ensures
            self matches RunError::ModelFailed(d) ==> (r matches Some(c) && c@ == d@),
            self is ExceededMaxIterations ==> r is None,
    {
        match self {
            RunError::ModelFailed(d) => Some(d.clone()),
            RunError::ExceededMaxIterations => None,
        }
    }
}

/// What a conversation waits on.
#[derive(Clone, Copy, PartialEq, Eq, Debug)]
pub enum Phase {
    /// The model's reply to the messages so far.
    AwaitModel,
    /// The output of the tool call at `next` in the message at `round`.
    AwaitTool,
    /// Nothing: the run is over.
    Done,
}

/// What the caller is to do next.
pub enum AgentAction {
    /// Send the conversation's messages to the model.
    CallModel,
    /// Run registered tool number `tool` on the arguments of the current call.
    RunTool { tool: usize },
    /// The run is over, with the model's answer or an error.
    Finish(Result<String, RunError>),
}

/// What the caller reports back.
pub enum AgentEvent {
    /// The model's reply, or why it could not be had.
    ModelReply(Result<ChatResponse, String>),
    /// The output of the tool that was run, or its error.
    ToolResult(Result<String, ToolError>),
}

/// A conversation between the user, the model and the tools.
pub struct Conversation {
    /// Every message so far, oldest first.
    pub messages: Vec<Message>,
    /// The names of the registered tools, in registration order.
    pub tools: Vec<String>,
    /// How many rounds of tool calls have completed.
    pub iteration: usize,
    pub max_iterations: usize,
    pub phase: Phase,
    /// The index of the message whose tool calls are being run.
    pub round: usize,
    /// The index, among that message's tool calls, of the one being run.
    pub next: usize,
    /// The user's prompt.
    pub prompt: Ghost<Seq<char>>,
}

/// The position of the first registered tool named `name`, from `from` on.
pub open spec fn find_tool(tools: Seq<String>, name: Seq<char>, from: int) -> Option<int>
    decreases tools.len() - from,
{
    if from < 0 || from >= tools.len() {
        None
    } else if tools[from]@ == name {
        Some(from)
    } else {
        find_tool(tools, name, from + 1)
    }
}

/// Whether the tool a call names is registered.
pub open spec fn known(tools: Seq<String>, c: ToolCall) -> bool {
    find_tool(tools, c.function.name@, 0) is Some
}

/// The position of the first call from `from` on whose tool is registered, or
/// the number of calls when there is none.
pub open spec fn next_known(calls: Seq<ToolCall>, tools: Seq<String>, from: int) -> int
    decreases calls.len() - from,
{
    if from < 0 || from >= calls.len() {
        calls.len() as int
    } else if known(tools, calls[from]) {
        from
    } else {
        next_known(calls, tools, from + 1)
    }
}

/// The first message of every conversation.
pub open spec fn is_system_message(m: Message) -> bool {
    &&& m.role == Role::System
    &&& m.content@ == SYSTEM_PROMPT@
    &&& m.tool_calls matches Some(v) && v@.len() == 0
}

/// The answer to a call of a tool that is not registered.
pub open spec fn is_not_found_message(m: Message, c: ToolCall) -> bool {
    &&& m.role == Role::Tool
    &&& m.tool_calls is None
    &&& m.content@ == "Error: tool '"@ + c.function.name@ + "' not found"@
}

/// The answer to a tool call that ran with result `r`.
pub open spec fn is_result_message(m: Message, r: Result<String, ToolError>) -> bool {
    &&& m.role == Role::Tool
    &&& m.tool_calls is None
    &&& match r {
        Ok(out) => m.content@ == out@,
        Err(e) => m.content@ == "Error: "@ + e.text(),
    }
}

impl Conversation {
    /// The tool calls of the message being worked through.
    pub open spec fn calls(&self) -> Seq<ToolCall> {
        requested_calls(self.messages@[self.round as int])
    }

    /// The invariant of a conversation: it opens with the system prompt and the
    /// user's prompt; the round points at a message; rounds stay within the
    /// allowance; a tool is awaited only for a registered tool.
    pub open spec fn wf(&self) -> bool {
        &&& self.messages@.len() >= 2
        &&& self.round < self.messages@.len()
        &&& is_system_message(self.messages@[0])
        &&& self.messages@[1].role == Role::User
        &&& self.messages@[1].content@ == self.prompt@
        &&& self.messages@[1].tool_calls is None
        &&& self.iteration <= self.max_iterations
        &&& self.phase == Phase::AwaitModel ==> self.iteration < self.max_iterations
        &&& self.phase == Phase::AwaitTool ==> {
            &&& self.iteration < self.max_iterations
            &&& 2 <= self.round < self.messages@.len()
            &&& self.next < self.calls().len()
            &&& known(self.tools@, self.calls()[self.next as int])
        }
    }

    /// Whether `ev` is what the conversation waits on.
    pub open spec fn expects(&self, ev: AgentEvent) -> bool {
        match self.phase {
            Phase::AwaitModel => ev is ModelReply,
            Phase::AwaitTool => ev is ToolResult,
            Phase::Done => false,
        }
    }
}

/// How a round goes on once the messages are `ms` and the calls before `from`
/// have been answered: calls of unregistered tools are answered at once; then
/// the next registered tool is run, or, when none is left, the round ends and
/// either the model is asked again or the allowance is used up.
pub open spec fn continued(
    old: Conversation,
    ms: Seq<Message>,
    calls: Seq<ToolCall>,
    round: int,
    from: int,
    new: Conversation,
    action: AgentAction,
) -> bool {
    let k = next_known(calls, old.tools@, from);
    &&& new.messages@.len() == ms.len() + (k - from)
    &&& new.messages@.take(ms.len() as int) == ms
    &&& forall|j: int|
        0 <= j < k - from ==> is_not_found_message(#[trigger] new.messages@[ms.len() + j], calls[from + j])
    &&& new.tools == old.tools
    &&& new.max_iterations == old.max_iterations
    &&& new.prompt == old.prompt
    &&& new.round == round
    &&& new.next == k
    &&& if k < calls.len() {
        &&& new.phase == Phase::AwaitTool
        &&& new.iteration == old.iteration
        &&& action matches AgentAction::RunTool { tool } && Some(tool as int) == find_tool(
            old.tools@,
            calls[k].function.name@,
            0,
        )
    } else if old.iteration + 1 >= old.max_iterations {
        &&& new.phase == Phase::Done
        &&& new.iteration == old.iteration + 1
        &&& action matches AgentAction::Finish(Err(RunError::ExceededMaxIterations))
    } else {
        &&& new.phase == Phase::AwaitModel
        &&& new.iteration == old.iteration + 1
        &&& action is CallModel
    }
}

/// The step a conversation takes from `old` on `ev`.
pub open spec fn conversation_step(
    old: Conversation,
    ev: AgentEvent,
    new: Conversation,
    action: AgentAction,
) -> bool {
    match ev {
        AgentEvent::ModelReply(Err(d)) => {
            &&& action == AgentAction::Finish(Err(RunError::ModelFailed(d)))
            &&& new == Conversation { phase: Phase::Done, ..old }
        },
        AgentEvent::ModelReply(Ok(resp)) => if requested_calls(resp.message).len() == 0 {
            &&& action == AgentAction::Finish(Ok(resp.message.content))
            &&& new == Conversation { phase: Phase::Done, ..old }
        } else {
            continued(
                old,
                old.messages@.push(resp.message),
                requested_calls(resp.message),
                old.messages@.len() as int,
                0,
                new,
                action,
            )
        },
        AgentEvent::ToolResult(r) => exists|m: Message|
            is_result_message(m, r) && continued(
                old,
                old.messages@.push(m),
                old.calls(),
                old.round as int,
                old.next + 1,
                new,
                action,
            ),
    }
}

proof fn lemma_next_known_bounds(calls: Seq<ToolCall>, tools: Seq<String>, from: int)
    requires
        0 <= from <= calls.len(),
    ensures
        from <= next_known(calls, tools, from) <= calls.len(),
    decreases calls.len() - from,
{
    if from < calls.len() && !known(tools, calls[from]) {
        lemma_next_known_bounds(calls, tools, from + 1);
    }
}

proof fn lemma_prefix_of_prefix(a: Seq<Message>, b: Seq<Message>, c: Seq<Message>)
    requires
        b.len() <= a.len(),
        a.take(b.len() as int) == b,
        c.len() <= b.len(),
        b.take(c.len() as int) == c,
    ensures
        a.take(c.len() as int) == c,
{
    assert forall|i: int| 0 <= i < c.len() implies a.take(c.len() as int)[i] == c[i] by {
        assert(a.take(b.len() as int)[i] == a[i]);
        assert(b.take(c.len() as int)[i] == b[i]);
    }
    assert(a.take(c.len() as int) =~= c);
}

fn find_tool_index(tools: &Vec<String>, name: &str) -> (r: Option<usize>)
    ensures
        match r {
            Some(i) => find_tool(tools@, name@, 0) == Some(i as int),
            None => find_tool(tools@, name@, 0) is None,
        },
{
    let mut i: usize = 0;
    while i < tools.len()
        invariant
            i <= tools.len(),
            find_tool(tools@, name@, 0) == find_tool(tools@, name@, i as int),
        decreases tools.len() - i,
    {
        if text_eq(tools[i].as_str(), name) {
            return Some(i);
        }
        i = i + 1;
    }
    None
}

fn not_found_message(name: &str) -> (m: Message)
    ensures
        m.role == Role::Tool,
        m.tool_calls is None,
        m.content@ == "Error: tool '"@ + name@ + "' not found"@,
{
    let mut content = "Error: tool '".to_owned();
    content.push_str(name);
    content.push_str("' not found");
    Message { role: Role::Tool, content, tool_calls: None }
}

impl Conversation {
    /// Opens a conversation on `prompt` with the tools named in `tools`, allowed
    /// `max_iterations` model requests. With no allowance, the run is over at once.
    pub fn start(prompt: String, tools: Vec<String>, max_iterations: usize) -> (r: (
        Conversation,
        AgentAction,
    ))
        ensures
            r.0.wf(),
            r.0.prompt@ == prompt@,
            r.0.messages@.len() == 2,
            r.0.tools == tools,
            r.0.iteration == 0,
            r.0.max_iterations == max_iterations,
            max_iterations == 0 ==> r.0.phase == Phase::Done && r.1 matches AgentAction::Finish(
                Err(RunError::ExceededMaxIterations),
            ),
            max_iterations > 0 ==> r.0.phase == Phase::AwaitModel && r.1 is CallModel,
    {
        let system = Message {
            role: Role::System,
            content: SYSTEM_PROMPT.to_owned(),
            tool_calls: Some(Vec::new()),
        };
        let ghost p = prompt@;
        let user = Message { role: Role::User, content: prompt, tool_calls: None };
        let mut messages: Vec<Message> = Vec::new();
        messages.push(system);
        messages.push(user);
        let phase = if max_iterations == 0 {
            Phase::Done
        } else {
            Phase::AwaitModel
        };
        let c = Conversation {
            messages,
            tools,
            iteration: 0,
            max_iterations,
            phase,
            round: 0,
            next: 0,
            prompt: Ghost(p),
        };
        if max_iterations == 0 {
            (c, AgentAction::Finish(Err(RunError::ExceededMaxIterations)))
        } else {
            (c, AgentAction::CallModel)
        }
    }

    /// The tool call being run.
    pub fn current_call(&self) -> (r: &ToolCall)
        requires
            self.wf(),
            self.phase == Phase::AwaitTool,
        ensures
            *r == self.calls()[self.next as int],
    {
        match &self.messages[self.round].tool_calls {
            Some(calls) => &calls[self.next],
            None => {
                assert(false);
                &self.messages[self.round].tool_calls.as_ref().unwrap()[0]
            },
        }
    }

    /// Answers unregistered calls from `next` on, then runs the next registered
    /// one or ends the round.
    fn continue_round(&mut self) -> (action: AgentAction)
        requires
            old(self).messages@.len() >= 2,
            is_system_message(old(self).messages@[0]),
            old(self).messages@[1].role == Role::User,
            old(self).messages@[1].content@ == old(self).prompt@,
            old(self).messages@[1].tool_calls is None,
            old(self).iteration < old(self).max_iterations,
            2 <= old(self).round < old(self).messages@.len(),
            old(self).next <= old(self).calls().len(),
        ensures
            final(self).wf(),
            final(self).messages@.len() >= old(self).messages@.len(),
            continued(
                *old(self),
                old(self).messages@,
                old(self).calls(),
                old(self).round as int,
                old(self).next as int,
                *final(self),
                action,
            ),
    {
        let ghost start = *self;
        let ghost calls = self.calls();
        let ghost from = self.next as int;
        proof {
            lemma_next_known_bounds(calls, self.tools@, from);
        }
        loop
            invariant
                start == *old(self),
                from == start.next as int,
                start.messages@.len() >= 2,
                is_system_message(start.messages@[0]),
                start.messages@[1].role == Role::User,
                start.messages@[1].content@ == start.prompt@,
                start.messages@[1].tool_calls is None,
                self.tools == start.tools,
                self.max_iterations == start.max_iterations,
                self.prompt == start.prompt,
                self.iteration == start.iteration,
                self.round == start.round,
                self.iteration < self.max_iterations,
                2 <= self.round < start.messages@.len(),
                self.messages@.len() >= start.messages@.len(),
                self.messages@.take(start.messages@.len() as int) == start.messages@,
                calls == requested_calls(start.messages@[start.round as int]),
                from <= self.next <= calls.len(),
                self.messages@.len() == start.messages@.len() + (self.next - from),
                next_known(calls, start.tools@, from) == next_known(
                    calls,
                    start.tools@,
                    self.next as int,
                ),
                forall|j: int|
                    0 <= j < self.next - from ==> is_not_found_message(
                        #[trigger] self.messages@[start.messages@.len() + j],
                        calls[from + j],
                    ),
            ensures
                self.next == calls.len(),
                self.messages@.len() == start.messages@.len() + (self.next - from),
                self.messages@.take(start.messages@.len() as int) == start.messages@,
                next_known(calls, start.tools@, from) == calls.len(),
                forall|j: int|
                    0 <= j < self.next - from ==> is_not_found_message(
                        #[trigger] self.messages@[start.messages@.len() + j],
                        calls[from + j],
                    ),
            decreases calls.len() - self.next,
        {
            assert(self.messages@[self.round as int] == start.messages@[self.round as int]);
            assert(self.calls() == calls);
            let n = match &self.messages[self.round].tool_calls {
                Some(calls) => calls.len(),
                None => 0,
            };
            assert(n == calls.len());
            if self.next >= n {
                assert(next_known(calls, start.tools@, self.next as int) == calls.len());
                break;
            }
            let found = match &self.messages[self.round].tool_calls {
                Some(cs) => find_tool_index(&self.tools, cs[self.next].function.name.as_str()),
                None => None,
            };
            match found {
                Some(tool) => {
                    assert(known(start.tools@, calls[self.next as int]));
                    assert(next_known(calls, start.tools@, self.next as int) == self.next);
                    self.phase = Phase::AwaitTool;
                    assert(self.messages@[0] == start.messages@[0]);
                    assert(self.messages@[1] == start.messages@[1]);
                    let action = AgentAction::RunTool { tool };
                    return action;
                },
                None => {
                    let m = match &self.messages[self.round].tool_calls {
                        Some(cs) => not_found_message(cs[self.next].function.name.as_str()),
                        None => not_found_message(""),
                    };
                    assert(!known(start.tools@, calls[self.next as int]));
                    assert(next_known(calls, start.tools@, self.next as int) == next_known(
                        calls,
                        start.tools@,
                        self.next + 1,
                    ));
                    let ghost before = self.messages@;
                    self.messages.push(m);
                    assert(self.messages@.take(start.messages@.len() as int) =~= before.take(
                        start.messages@.len() as int,
                    ));
                    assert(self.messages@[start.messages@.len() + (self.next - from)] == m);
                    self.next = self.next + 1;
                },
            }
        }
        assert(self.messages@[0] == start.messages@[0]);
        assert(self.messages@[1] == start.messages@[1]);
        self.iteration = self.iteration + 1;
        if self.iteration >= self.max_iterations {
            self.phase = Phase::Done;
            AgentAction::Finish(Err(RunError::ExceededMaxIterations))
        } else {
            self.phase = Phase::AwaitModel;
            AgentAction::CallModel
        }
    }

    /// One decision of a run, from the conversation so far and what the caller
    /// reports back.
    ///
    /// Messages are only ever appended; the run makes a new model request only
    /// while fewer rounds than the allowance have completed, and each completed
    /// round adds one to the count.
    pub fn on_event(&mut self, ev: AgentEvent) -> (action: AgentAction)
        requires
            old(self).wf(),
            old(self).expects(ev),
        ensures
            final(self).wf(),
            conversation_step(*old(self), ev, *final(self), action),
            final(self).messages@.take(old(self).messages@.len() as int) == old(self).messages@,
            final(self).iteration == old(self).iteration || final(self).iteration
                == old(self).iteration + 1,
            action is CallModel ==> final(self).iteration < final(self).max_iterations
                && final(self).iteration == old(self).iteration + 1,
    {
        match ev {
            AgentEvent::ModelReply(Err(d)) => {
                self.phase = Phase::Done;
                assert(self.messages@.take(self.messages@.len() as int) =~= self.messages@);
                AgentAction::Finish(Err(RunError::ModelFailed(d)))
            },
            AgentEvent::ModelReply(Ok(resp)) => {
                let n = match &resp.message.tool_calls {
                    Some(calls) => calls.len(),
                    None => 0,
                };
                if n == 0 {
                    self.phase = Phase::Done;
                    assert(self.messages@.take(self.messages@.len() as int) =~= self.messages@);
                    return AgentAction::Finish(Ok(resp.message.content));
                }
                let ghost before = self.messages@;
                self.round = self.messages.len();
                self.next = 0;
                self.messages.push(resp.message);
                assert(self.messages@.take(before.len() as int) =~= before);
                let ghost pushed = self.messages@;
                let action = self.continue_round();
                proof {
                    lemma_prefix_of_prefix(self.messages@, pushed, before);
                }
                action
            },
            AgentEvent::ToolResult(r) => {
                let ghost rr = r;
                let content = match &r {
                    Ok(out) => out.clone(),
                    Err(e) => {
                        let mut c = "Error: ".to_owned();
                        let t = e.message();
                        c.push_str(t.as_str());
                        c
                    },
                };
                let m = Message { role: Role::Tool, content, tool_calls: None };
                let ghost mm = m;
                let n = match &self.messages[self.round].tool_calls {
                    Some(calls) => calls.len(),
                    None => 0,
                };
                assert(n == self.calls().len());
                let ghost before = self.messages@;
                self.messages.push(m);
                assert(self.messages@.take(before.len() as int) =~= before);
                assert(self.messages@[self.round as int] == before[self.round as int]);
                self.next = self.next + 1;
                let ghost pushed = self.messages@;
                let action = self.continue_round();
                proof {
                    lemma_prefix_of_prefix(self.messages@, pushed, before);
                }
                assert(is_result_message(mm, rr));
                action
            },
        }
    }
}


/// How many model requests the actions `acts` ask for.
pub open spec fn model_requests(acts: Seq<AgentAction>) -> nat
    decreases acts.len(),
{
    if acts.len() == 0 {
        0
    } else {
        model_requests(acts.drop_last()) + if acts.last() is CallModel {
            1nat
        } else {
            0nat
        }
    }
}

/// `cs` are the states of a conversation as it takes the events `evs`,
/// answering each with the action at the same position in `acts`.
pub open spec fn is_run(cs: Seq<Conversation>, evs: Seq<AgentEvent>, acts: Seq<AgentAction>) -> bool {
    &&& cs.len() == evs.len() + 1
    &&& acts.len() == evs.len()
    &&& forall|i: int| 0 <= i < cs.len() ==> (#[trigger] cs[i]).wf()
    &&& forall|i: int| 0 <= i < evs.len() ==> (#[trigger] cs[i]).expects(evs[i])
    &&& forall|i: int|
        0 <= i < evs.len() ==> conversation_step(cs[i], #[trigger] evs[i], cs[i + 1], acts[i])
}

/// A run stays within its allowance of model requests: every request that
/// follows an event completes a round, so after the opening request a run
/// allowed `max_iterations` requests makes fewer than `max_iterations` more.
pub proof fn lemma_model_requests_bounded(
    cs: Seq<Conversation>,
    evs: Seq<AgentEvent>,
    acts: Seq<AgentAction>,
)
    requires
        is_run(cs, evs, acts),
    ensures
        cs.last().max_iterations == cs[0].max_iterations,
        model_requests(acts) + cs[0].iteration <= cs.last().iteration,
        model_requests(acts) > 0 ==> model_requests(acts) + cs[0].iteration
            < cs[0].max_iterations,
    decreases evs.len(),
{
    if evs.len() > 0 {
        let n = evs.len() - 1;
        let cs1 = cs.drop_last();
        let evs1 = evs.drop_last();
        let acts1 = acts.drop_last();
        assert forall|i: int| 0 <= i < cs1.len() implies (#[trigger] cs1[i]).wf() by {
            assert(cs1[i] == cs[i]);
        }
        assert forall|i: int|
            0 <= i < evs1.len() implies conversation_step(cs1[i], #[trigger] evs1[i], cs1[i + 1], acts1[i]) by {
            assert(evs1[i] == evs[i]);
            assert(conversation_step(cs[i], evs[i], cs[i + 1], acts[i]));
        }
        lemma_model_requests_bounded(cs1, evs1, acts1);
        assert(conversation_step(cs[n], evs[n], cs[n + 1], acts[n]));
        assert(cs1.last() == cs[n]);
        assert(cs.last() == cs[n + 1]);
        assert(cs[n].wf());
    }
}

/// The position of the tool call a conversation is at: the index of the
/// message that lists it and its index among that message's calls.
pub open spec fn call_position(c: Conversation) -> (int, int) {
    (c.round as int, c.next as int)
}

/// Whether position `a` comes strictly before position `b`.
pub open spec fn position_before(a: (int, int), b: (int, int)) -> bool {
    a.0 < b.0 || (a.0 == b.0 && a.1 < b.1)
}

/// One step of a run keeps every message and never moves back to an earlier
/// call; a step that runs a tool moves on to a later call.
proof fn lemma_step_moves_forward(old: Conversation, ev: AgentEvent, new: Conversation, act: AgentAction)
    requires
        old.wf(),
        old.expects(ev),
        conversation_step(old, ev, new, act),
    ensures
        new.messages@.len() >= old.messages@.len(),
        new.messages@.take(old.messages@.len() as int) == old.messages@,
        call_position(old) == call_position(new) || position_before(
            call_position(old),
            call_position(new),
        ),
        act is RunTool ==> position_before(call_position(old), call_position(new)),
{
    let ol = old.messages@;
    assert(ol.take(ol.len() as int) =~= ol);
    match ev {
        AgentEvent::ModelReply(Err(_)) => {},
        AgentEvent::ModelReply(Ok(resp)) => {
            if requested_calls(resp.message).len() != 0 {
                let ms = ol.push(resp.message);
                lemma_next_known_bounds(requested_calls(resp.message), old.tools@, 0);
                assert(ms.take(ol.len() as int) =~= ol);
                lemma_prefix_of_prefix(new.messages@, ms, ol);
            }
        },
        AgentEvent::ToolResult(r) => {
            let m = choose|m: Message|
                is_result_message(m, r) && continued(
                    old,
                    old.messages@.push(m),
                    old.calls(),
                    old.round as int,
                    old.next + 1,
                    new,
                    act,
                );
            let ms = ol.push(m);
            lemma_next_known_bounds(old.calls(), old.tools@, old.next + 1);
            assert(ms.take(ol.len() as int) =~= ol);
            lemma_prefix_of_prefix(new.messages@, ms, ol);
        },
    }
}

/// A run only ever adds messages: each state's messages begin with those of
/// every earlier state, and the calls a conversation is at never move back.
pub proof fn lemma_run_keeps_history(
    cs: Seq<Conversation>,
    evs: Seq<AgentEvent>,
    acts: Seq<AgentAction>,
    i: int,
    j: int,
)
    requires
        is_run(cs, evs, acts),
        0 <= i <= j < cs.len(),
    ensures
        cs[j].messages@.len() >= cs[i].messages@.len(),
        cs[j].messages@.take(cs[i].messages@.len() as int) == cs[i].messages@,
        call_position(cs[i]) == call_position(cs[j]) || position_before(
            call_position(cs[i]),
            call_position(cs[j]),
        ),
    decreases j - i,
{
    if i < j {
        lemma_run_keeps_history(cs, evs, acts, i, j - 1);
        assert(cs[j - 1].wf());
        assert(cs[j - 1].expects(evs[j - 1]));
        assert(conversation_step(cs[j - 1], evs[j - 1], cs[j], acts[j - 1]));
        lemma_step_moves_forward(cs[j - 1], evs[j - 1], cs[j], acts[j - 1]);
        lemma_prefix_of_prefix(cs[j].messages@, cs[j - 1].messages@, cs[i].messages@);
    } else {
        assert(cs[i].messages@.take(cs[i].messages@.len() as int) =~= cs[i].messages@);
    }
}

/// Each tool call that the model lists is run at most once: two tool runs of
/// one run are at different calls, the later one at a later call, and the
/// message listing the earlier call is still in place when the later one runs.
pub proof fn lemma_each_call_runs_at_most_once(
    cs: Seq<Conversation>,
    evs: Seq<AgentEvent>,
    acts: Seq<AgentAction>,
    i: int,
    j: int,
)
    requires
        is_run(cs, evs, acts),
        0 <= i < j < acts.len(),
        acts[i] is RunTool,
        acts[j] is RunTool,
    ensures
        position_before(call_position(cs[i + 1]), call_position(cs[j + 1])),
        cs[j + 1].messages@[cs[i + 1].round as int] == cs[i + 1].messages@[cs[i + 1].round as int],
{
    lemma_run_keeps_history(cs, evs, acts, i + 1, j);
    assert(cs[j].wf());
    assert(cs[j].expects(evs[j]));
    assert(conversation_step(cs[j], evs[j], cs[j + 1], acts[j]));
    lemma_step_moves_forward(cs[j], evs[j], cs[j + 1], acts[j]);
    lemma_run_keeps_history(cs, evs, acts, i + 1, j + 1);
    let a = cs[i + 1].messages@;
    let b = cs[j + 1].messages@;
    assert(cs[i + 1].wf());
    assert(b.take(a.len() as int)[cs[i + 1].round as int] == b[cs[i + 1].round as int]);
}

/// Whether `m` answers call `c`: a registered tool's call with that tool's
/// result, any other call with the message that its tool is not found.
pub open spec fn answers(tools: Seq<String>, c: ToolCall, m: Message) -> bool {
    if known(tools, c) {
        exists|r: Result<String, ToolError>| #[trigger] is_result_message(m, r)
    } else {
        is_not_found_message(m, c)
    }
}

/// A conversation in the middle of the round that `reply` opened after the
/// messages `base`: the reply follows `base`, and the first `upto` of its calls
/// are answered in order right after it.
pub open spec fn in_round(c: Conversation, base: Seq<Message>, reply: Message, upto: int) -> bool {
    let calls = requested_calls(reply);
    &&& c.round == base.len()
    &&& 0 <= upto <= calls.len()
    &&& c.messages@.len() == base.len() + 1 + upto
    &&& c.messages@.take(base.len() as int) == base
    &&& c.messages@[base.len() as int] == reply
    &&& forall|j: int|
        0 <= j < upto ==> answers(c.tools@, calls[j], #[trigger] c.messages@[base.len() + 1 + j])
}

proof fn lemma_skipped_calls_unknown(calls: Seq<ToolCall>, tools: Seq<String>, from: int, j: int)
    requires
        0 <= from <= j < next_known(calls, tools, from),
    ensures
        !known(tools, calls[j]),
    decreases j - from,
{
    if from < j {
        lemma_skipped_calls_unknown(calls, tools, from + 1, j);
    }
}

/// The answers that `continued` appends keep a round's earlier answers and
/// add the not-found messages of the skipped calls.
proof fn lemma_continued_in_round(
    old: Conversation,
    ms: Seq<Message>,
    base: Seq<Message>,
    reply: Message,
    from: int,
    new: Conversation,
    act: AgentAction,
)
    requires
        ms.len() == base.len() + 1 + from,
        ms.take(base.len() as int) == base,
        ms[base.len() as int] == reply,
        0 <= from <= requested_calls(reply).len(),
        forall|j: int|
            0 <= j < from ==> answers(old.tools@, requested_calls(reply)[j], #[trigger] ms[base.len() + 1 + j]),
        continued(old, ms, requested_calls(reply), base.len() as int, from, new, act),
    ensures
        in_round(new, base, reply, new.next as int),
        new.next >= from,
        act is RunTool <==> new.next < requested_calls(reply).len(),
        act is RunTool ==> new.phase == Phase::AwaitTool,
{
    let calls = requested_calls(reply);
    lemma_next_known_bounds(calls, old.tools@, from);
    let k = next_known(calls, old.tools@, from);
    let nm = new.messages@;
    assert(nm.take(ms.len() as int) == ms);
    assert forall|i: int| 0 <= i < ms.len() implies nm[i] == ms[i] by {
        assert(nm.take(ms.len() as int)[i] == nm[i]);
    }
    assert(nm.take(base.len() as int) =~= base) by {
        assert forall|i: int| 0 <= i < base.len() implies nm.take(base.len() as int)[i] == base[i] by {
            assert(ms.take(base.len() as int)[i] == ms[i]);
        }
    }
    assert forall|j: int| 0 <= j < k implies answers(
        new.tools@,
        calls[j],
        #[trigger] nm[base.len() + 1 + j],
    ) by {
        if j < from {
            assert(nm[base.len() + 1 + j] == ms[base.len() + 1 + j]);
        } else {
            lemma_skipped_calls_unknown(calls, old.tools@, from, j);
            assert(is_not_found_message(nm[ms.len() + (j - from)], calls[from + (j - from)]));
        }
    }
}

/// The round opened by a model reply that lists tool calls, up to step `b`:
/// every step before `b` ran a tool.
proof fn lemma_round_progress(
    cs: Seq<Conversation>,
    evs: Seq<AgentEvent>,
    acts: Seq<AgentAction>,
    a: int,
    b: int,
    reply: Message,
)
    requires
        is_run(cs, evs, acts),
        0 <= a <= b < evs.len(),
        evs[a] matches AgentEvent::ModelReply(Ok(resp)) && resp.message == reply,
        requested_calls(reply).len() > 0,
        forall|t: int| a <= t < b ==> (#[trigger] acts[t]) is RunTool,
    ensures
        in_round(cs[b + 1], cs[a].messages@, reply, cs[b + 1].next as int),
        acts[b] is RunTool <==> cs[b + 1].next < requested_calls(reply).len(),
        acts[b] is RunTool ==> cs[b + 1].phase == Phase::AwaitTool,
        forall|t: int|
            a < t <= b ==> cs[t].next < cs[b + 1].next && (#[trigger] evs[t] matches AgentEvent::ToolResult(r)
                && is_result_message(
                cs[b + 1].messages@[cs[a].messages@.len() + 1 + cs[t].next],
                r,
            )),
    decreases b - a,
{
    let base = cs[a].messages@;
    let calls = requested_calls(reply);
    assert(cs[b].wf() && cs[b + 1].wf());
    assert(cs[b].expects(evs[b]));
    assert(conversation_step(cs[b], evs[b], cs[b + 1], acts[b]));
    if b == a {
        let ms = base.push(reply);
        assert(ms.take(base.len() as int) =~= base);
        lemma_continued_in_round(cs[a], ms, base, reply, 0, cs[b + 1], acts[b]);
    } else {
        assert(acts[b - 1] is RunTool);
        lemma_round_progress(cs, evs, acts, a, b - 1, reply);
        let old = cs[b];
        assert(old.phase == Phase::AwaitTool);
        let r = evs[b]->ToolResult_0;
        let m = choose|m: Message|
            is_result_message(m, r) && continued(
                old,
                old.messages@.push(m),
                old.calls(),
                old.round as int,
                old.next + 1,
                cs[b + 1],
                acts[b],
            );
        let ms = old.messages@.push(m);
        assert(old.calls() == calls);
        assert(ms.take(base.len() as int) =~= old.messages@.take(base.len() as int));
        assert(ms[base.len() as int] == old.messages@[base.len() as int]);
        assert(known(old.tools@, calls[old.next as int]));
        assert forall|j: int| 0 <= j < old.next + 1 implies answers(
            old.tools@,
            calls[j],
            #[trigger] ms[base.len() + 1 + j],
        ) by {
            if j < old.next {
                assert(ms[base.len() + 1 + j] == old.messages@[base.len() + 1 + j]);
            } else {
                assert(ms[base.len() + 1 + j] == m);
                assert(is_result_message(m, r));
            }
        }
        lemma_continued_in_round(old, ms, base, reply, old.next + 1, cs[b + 1], acts[b]);
        let nm = cs[b + 1].messages@;
        assert(nm.take(ms.len() as int) == ms);
        assert forall|t: int|
            a < t <= b implies cs[t].next < cs[b + 1].next && (#[trigger] evs[t] matches AgentEvent::ToolResult(r2)
            && is_result_message(nm[base.len() + 1 + cs[t].next], r2)) by {
            let i = base.len() + 1 + cs[t].next;
            if t < b {
                assert(cs[t].next < old.next);
                assert(nm.take(ms.len() as int)[i] == nm[i]);
                assert(ms[i] == old.messages@[i]);
            } else {
                assert(nm.take(ms.len() as int)[i] == nm[i]);
                assert(ms[i] == m);
            }
        }
    }
}

/// A round answers every call of the model's reply, in order: when a reply
/// lists tool calls and the run goes on through the tools they name, then by
/// the step that ends the round the messages are those before the reply, the
/// reply, and one answer per call in the order listed. The answer to the call a
/// tool was run for carries the result that was reported for it. The step that
/// ends the round either asks the model again or ends the run at the allowance.
pub proof fn lemma_round_answers_every_call(
    cs: Seq<Conversation>,
    evs: Seq<AgentEvent>,
    acts: Seq<AgentAction>,
    a: int,
    b: int,
    reply: Message,
)
    requires
        is_run(cs, evs, acts),
        0 <= a <= b < evs.len(),
        evs[a] matches AgentEvent::ModelReply(Ok(resp)) && resp.message == reply,
        requested_calls(reply).len() > 0,
        forall|t: int| a <= t < b ==> (#[trigger] acts[t]) is RunTool,
        !(acts[b] is RunTool),
    ensures
        cs[b + 1].messages@.len() == cs[a].messages@.len() + 1 + requested_calls(reply).len(),
        cs[b + 1].messages@.take(cs[a].messages@.len() as int) == cs[a].messages@,
        cs[b + 1].messages@[cs[a].messages@.len() as int] == reply,
        forall|j: int|
            0 <= j < requested_calls(reply).len() ==> answers(
                cs[b + 1].tools@,
                requested_calls(reply)[j],
                #[trigger] cs[b + 1].messages@[cs[a].messages@.len() + 1 + j],
            ),
        forall|t: int|
            a < t <= b ==> (#[trigger] evs[t] matches AgentEvent::ToolResult(r) && is_result_message(
                cs[b + 1].messages@[cs[a].messages@.len() + 1 + cs[t].next],
                r,
            )),
        acts[b] is CallModel || acts[b] == AgentAction::Finish(
            Err(RunError::ExceededMaxIterations),
        ),
{
    lemma_round_progress(cs, evs, acts, a, b, reply);
    assert(cs[b].wf());
    assert(cs[b].expects(evs[b]));
    assert(conversation_step(cs[b], evs[b], cs[b + 1], acts[b]));
    if b > a {
        assert(acts[b - 1] is RunTool);
        lemma_round_progress(cs, evs, acts, a, b - 1, reply);
    }
}

proof fn lemma_find_tool_from(tools: Seq<String>, name: Seq<char>, from: int, i: int)
    requires
        0 <= from <= i < tools.len(),
        tools[i]@ == name,
    ensures
        find_tool(tools, name, from) matches Some(j) && from <= j <= i && tools[j]@ == name && (
        forall|k: int| from <= k < j ==> (#[trigger] tools[k])@ != name),
    decreases i - from,
{
    if tools[from]@ != name {
        lemma_find_tool_from(tools, name, from + 1, i);
    }
}

/// Tools are looked up by name over the whole registry: when any registered
/// tool has the name, the lookup finds the first one that has it, wherever it
/// stands, the last one included; so a call of that name counts as known.
pub proof fn lemma_registered_tool_is_found(tools: Seq<String>, c: ToolCall, i: int)
    requires
        0 <= i < tools.len(),
        tools[i]@ == c.function.name@,
    ensures
        find_tool(tools, c.function.name@, 0) matches Some(j) && 0 <= j <= i && tools[j]@
            == c.function.name@ && (forall|k: int| 0 <= k < j ==> (#[trigger] tools[k])@
            != c.function.name@),
        known(tools, c),
{
    lemma_find_tool_from(tools, c.function.name@, 0, i);
}

/// A tool's outcome reaches the model unchanged: the message that answers a
/// tool run comes right after the messages so far, is a tool message, and
/// holds the tool's whole output, or `Error: ` and the error's text.
pub proof fn lemma_tool_output_is_answered_whole(
    old: Conversation,
    r: Result<String, ToolError>,
    new: Conversation,
    act: AgentAction,
)
    requires
        old.wf(),
        old.expects(AgentEvent::ToolResult(r)),
        conversation_step(old, AgentEvent::ToolResult(r), new, act),
    ensures
        new.messages@.len() > old.messages@.len(),
        new.messages@.take(old.messages@.len() as int) == old.messages@,
        new.messages@[old.messages@.len() as int].role == Role::Tool,
        new.messages@[old.messages@.len() as int].tool_calls is None,
        r matches Ok(out) ==> new.messages@[old.messages@.len() as int].content@ == out@,
        r matches Err(e) ==> new.messages@[old.messages@.len() as int].content@ == "Error: "@
            + e.text(),
{
    let m = choose|m: Message|
        is_result_message(m, r) && continued(
            old,
            old.messages@.push(m),
            old.calls(),
            old.round as int,
            old.next + 1,
            new,
            act,
        );
    let ol = old.messages@;
    let ms = ol.push(m);
    lemma_next_known_bounds(old.calls(), old.tools@, old.next + 1);
    let nm = new.messages@;
    assert(nm.take(ms.len() as int) == ms);
    assert(nm.take(ms.len() as int)[ol.len() as int] == nm[ol.len() as int]);
    assert(ms.take(ol.len() as int) =~= ol);
    lemma_prefix_of_prefix(nm, ms, ol);
}

} // verus!
