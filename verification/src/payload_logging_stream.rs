//! Accumulates response chunks for payload logging.
//!
//! Each accumulator observes items as they flow through a stream, gathers
//! content, reasoning and tool-call deltas, and yields a single
//! `openai.response` record when the stream is exhausted or dropped (client
//! disconnect), whichever comes first.

use crate::json::{
    add_item, json_array, json_flag, json_number, json_optional, json_text, write_json, Json,
    JsonObject, JsonShape, JsonTree, Says,
};
use crate::payload_logger::{PayloadLogger, ResponseLog};
use vstd::prelude::*;
use vstd::string::*;

verus! {

/// Why a choice ended.
#[derive(Clone, Copy, Debug, PartialEq, Eq, Structural)]
pub enum FinishReason {
    Stop,
    Length,
    ToolCalls,
    ContentFilter,
    FunctionCall,
}

impl FinishReason {
    pub open spec fn name(self) -> Seq<char> {
        match self {
            FinishReason::Stop => "stop"@,
            FinishReason::Length => "length"@,
            FinishReason::ToolCalls => "tool_calls"@,
            FinishReason::ContentFilter => "content_filter"@,
            FinishReason::FunctionCall => "function_call"@,
        }
    }

    /// The name on the wire.
    pub fn as_str(self) -> (name: &'static str)
        ensures
            name@ == self.name(),
    {
        match self {
            FinishReason::Stop => "stop",
            FinishReason::Length => "length",
            FinishReason::ToolCalls => "tool_calls",
            FinishReason::ContentFilter => "content_filter",
            FinishReason::FunctionCall => "function_call",
        }
    }
}

/// Token counts of a response.
#[derive(Clone, Copy, Debug, PartialEq, Eq, Structural)]
pub struct Usage {
    pub prompt_tokens: u32,
    pub completion_tokens: u32,
    pub total_tokens: u32,
}

/// The content of a chat delta.
#[derive(Debug)]
pub enum DeltaContent {
    Text(String),
    /// Multimodal parts: not logged.
    Parts,
}

/// The function part of a tool-call delta.
#[derive(Debug)]
pub struct FunctionDelta {
    pub name: Option<String>,
    pub arguments: Option<String>,
}

/// One tool-call delta.
#[derive(Debug)]
pub struct ToolCallDelta {
    pub index: u32,
    pub id: Option<String>,
    pub function: Option<FunctionDelta>,
}

/// One choice of a chat completion chunk.
#[derive(Debug)]
pub struct ChatChoiceDelta {
    pub index: u32,
    pub content: Option<DeltaContent>,
    pub reasoning_content: Option<String>,
    pub tool_calls: Option<Vec<ToolCallDelta>>,
    pub finish_reason: Option<FinishReason>,
}

/// One chat completion chunk.
#[derive(Debug)]
pub struct ChatChunk {
    pub id: String,
    pub model: String,
    pub usage: Option<Usage>,
    pub choices: Vec<ChatChoiceDelta>,
}

/// A tool call as it was put together.
#[derive(Debug)]
pub struct ToolCallLog {
    pub index: u32,
    pub id: Option<String>,
    pub name: Option<String>,
    pub arguments: String,
}

/// What is known of a tool call.
pub ghost struct ToolCall {
    pub id: Option<Seq<char>>,
    pub name: Option<Seq<char>>,
    pub arguments: Seq<char>,
}

/// The text in an optional field.
pub open spec fn text_of(field: Option<String>) -> Option<Seq<char>> {
    match field {
        Some(text) => Some(text@),
        None => None,
    }
}

/// A field keeps the first value that it gets.
pub open spec fn first_of(known: Option<Seq<char>>, new: Option<Seq<char>>) -> Option<Seq<char>> {
    if known is None {
        new
    } else {
        known
    }
}

/// A text with what an optional piece adds to it.
pub open spec fn extended(text: Seq<char>, piece: Option<String>) -> Seq<char> {
    match piece {
        Some(piece) => text + piece@,
        None => text,
    }
}

impl ToolCallLog {
    pub open spec fn call(self) -> ToolCall {
        ToolCall { id: text_of(self.id), name: text_of(self.name), arguments: self.arguments@ }
    }
}

/// A tool call of which nothing is known.
pub open spec fn blank_call() -> ToolCall {
    ToolCall { id: None, name: None, arguments: Seq::empty() }
}

/// A tool call after one delta.
pub open spec fn call_after(call: ToolCall, delta: ToolCallDelta) -> ToolCall {
    let id = first_of(call.id, text_of(delta.id));
    match delta.function {
        Some(function) => ToolCall {
            id,
            name: first_of(call.name, text_of(function.name)),
            arguments: extended(call.arguments, function.arguments),
        },
        None => ToolCall { id, ..call },
    }
}

/// The tool calls of a choice after some deltas.
pub open spec fn calls_after(calls: Map<u32, ToolCall>, deltas: Seq<ToolCallDelta>) -> Map<
    u32,
    ToolCall,
>
    decreases deltas.len(),
{
    if deltas.len() == 0 {
        calls
    } else {
        let before = calls_after(calls, deltas.drop_last());
        let delta = deltas.last();
        let call = if before.contains_key(delta.index) {
            before[delta.index]
        } else {
            blank_call()
        };
        before.insert(delta.index, call_after(call, delta))
    }
}

/// Strictly ascending by index.
pub open spec fn ascending(calls: Seq<ToolCallLog>) -> bool {
    forall|i: int, j: int|
        0 <= i < j < calls.len() ==> (#[trigger] calls[i]).index < (#[trigger] calls[j]).index
}

/// The calls stand by index and are exactly those of `map`.
pub open spec fn lists_calls(calls: Seq<ToolCallLog>, map: Map<u32, ToolCall>) -> bool {
    &&& ascending(calls)
    &&& forall|i: int|
        0 <= i < calls.len() ==> map.contains_key((#[trigger] calls[i]).index)
            && map[calls[i].index] == calls[i].call()
    &&& forall|index: u32| #[trigger]
        map.contains_key(index) ==> exists|i: int|
            0 <= i < calls.len() && (#[trigger] calls[i]).index == index
}

fn copied(field: &Option<String>) -> (copy: Option<String>)
    ensures
        copy == *field,
{
    match field {
        Some(text) => Some(text.clone()),
        None => None,
    }
}

/// Takes one tool-call delta into the table.
fn absorb_call(calls: &mut Vec<ToolCallLog>, delta: &ToolCallDelta, map: Ghost<Map<u32, ToolCall>>)
    requires
        lists_calls(old(calls)@, map@),
    ensures
        lists_calls(
            final(calls)@,
            map@.insert(
                delta.index,
                call_after(
                    if map@.contains_key(delta.index) {
                        map@[delta.index]
                    } else {
                        blank_call()
                    },
                    *delta,
                ),
            ),
        ),
{
    let ghost before = calls@;
    let mut at: usize = 0;
    while at < calls.len() && calls[at].index < delta.index
        invariant
            at <= calls@.len(),
            calls@ == before,
            forall|j: int| 0 <= j < at ==> (#[trigger] before[j]).index < delta.index,
        decreases calls@.len() - at,
    {
        at = at + 1;
    }
    let known: bool = at < calls.len() && calls[at].index == delta.index;
    let mut entry = if known {
        calls.remove(at)
    } else {
        ToolCallLog { index: delta.index, id: None, name: None, arguments: String::new() }
    };
    let ghost rest = calls@;
    let ghost start = if map@.contains_key(delta.index) {
        map@[delta.index]
    } else {
        blank_call()
    };
    proof {
        if !known {
            if map@.contains_key(delta.index) {
                let i = choose|i: int|
                    0 <= i < before.len() && (#[trigger] before[i]).index == delta.index;
                assert(at <= i);
                assert(before[at as int].index <= before[i].index);
            }
            assert(entry.call().arguments =~= Seq::<char>::empty());
        } else {
            assert(before[at as int].index == delta.index);
        }
        assert(entry.call() == start);
    }
    if entry.id.is_none() {
        entry.id = copied(&delta.id);
    }
    if let Some(function) = &delta.function {
        if entry.name.is_none() {
            entry.name = copied(&function.name);
        }
        if let Some(arguments) = &function.arguments {
            entry.arguments.append(arguments.as_str());
        }
    }
    assert(entry.call() == call_after(start, *delta));
    let ghost added = entry;
    calls.insert(at, entry);
    proof {
        let after = calls@;
        let target = map@.insert(delta.index, added.call());
        assert(after =~= rest.insert(at as int, added));
        // Every other entry comes from `before`, on its side of `at`.
        assert forall|i: int| 0 <= i < after.len() && i != at implies {
            let from = if known || i < at {
                i
            } else {
                i - 1
            };
            (#[trigger] after[i]) == before[from] && 0 <= from < before.len() && (i < at
                ==> after[i].index < delta.index) && (at < i ==> delta.index < after[i].index)
        } by {
            let from = if known || i < at {
                i
            } else {
                i - 1
            };
            assert(after[i] == before[from]);
            if at < i {
                assert(at < before.len());
                if from > at {
                    assert(before[at as int].index < before[from].index);
                }
            }
        }
        assert(ascending(after)) by {
            assert forall|i: int, j: int| 0 <= i < j < after.len() implies (
            #[trigger] after[i]).index < (#[trigger] after[j]).index by {
                if i != at && j != at {
                    let x = if known || i < at { i } else { i - 1 };
                    let y = if known || j < at { j } else { j - 1 };
                    assert(after[i] == before[x] && after[j] == before[y]);
                }
            }
        }
        assert forall|index: u32| #[trigger] target.contains_key(index) implies exists|i: int|
            0 <= i < after.len() && (#[trigger] after[i]).index == index by {
            if index == delta.index {
                assert(after[at as int].index == index);
            } else {
                let i = choose|i: int| 0 <= i < before.len() && (#[trigger] before[i]).index == index;
                let k = if known || i < at { i } else { i + 1 };
                assert(after[k] == before[i]);
            }
        }
    }
}

/// The tool calls in a table, by index.
pub open spec fn calls_in(calls: Seq<ToolCallLog>) -> Map<u32, ToolCall> {
    Map::new(
        |index: u32| exists|i: int| 0 <= i < calls.len() && (#[trigger] calls[i]).index == index,
        |index: u32|
            calls[choose|i: int| 0 <= i < calls.len() && (#[trigger] calls[i]).index == index].call(),
    )
}

proof fn lemma_lists_one_map(calls: Seq<ToolCallLog>, map: Map<u32, ToolCall>)
    requires
        lists_calls(calls, map),
    ensures
        calls_in(calls) == map,
{
    assert(calls_in(calls) =~= map);
}

proof fn lemma_lists_its_calls(calls: Seq<ToolCallLog>)
    requires
        ascending(calls),
    ensures
        lists_calls(calls, calls_in(calls)),
{
    let map = calls_in(calls);
    assert forall|i: int| 0 <= i < calls.len() implies map.contains_key((#[trigger] calls[i]).index)
        && map[calls[i].index] == calls[i].call() by {
        let j = choose|j: int| 0 <= j < calls.len() && (#[trigger] calls[j]).index == calls[i].index;
        assert(j == i);
    }
}

/// What is known of a chat choice.
pub ghost struct ChatChoice {
    pub content: Seq<char>,
    pub reasoning: Seq<char>,
    pub calls: Map<u32, ToolCall>,
    pub finish: Option<FinishReason>,
}

/// A choice of which nothing is known.
pub open spec fn blank_choice() -> ChatChoice {
    ChatChoice { content: Seq::empty(), reasoning: Seq::empty(), calls: Map::empty(), finish: None }
}

/// A choice after one delta.
pub open spec fn choice_after(choice: ChatChoice, delta: ChatChoiceDelta) -> ChatChoice {
    ChatChoice {
        content: match delta.content {
            Some(DeltaContent::Text(text)) => choice.content + text@,
            _ => choice.content,
        },
        reasoning: extended(choice.reasoning, delta.reasoning_content),
        calls: match delta.tool_calls {
            Some(deltas) => calls_after(choice.calls, deltas@),
            None => choice.calls,
        },
        finish: if delta.finish_reason is Some {
            delta.finish_reason
        } else {
            choice.finish
        },
    }
}

/// At least `len` choices: blank ones are added as needed.
pub open spec fn grown(choices: Seq<ChatChoice>, len: int) -> Seq<ChatChoice> {
    if choices.len() >= len {
        choices
    } else {
        Seq::new(
            len as nat,
            |i: int|
                if i < choices.len() {
                    choices[i]
                } else {
                    blank_choice()
                },
        )
    }
}

/// The choices after some deltas.
pub open spec fn choices_after(choices: Seq<ChatChoice>, deltas: Seq<ChatChoiceDelta>) -> Seq<
    ChatChoice,
>
    decreases deltas.len(),
{
    if deltas.len() == 0 {
        choices
    } else {
        let delta = deltas.last();
        let at = delta.index as int;
        let room = grown(choices_after(choices, deltas.drop_last()), at + 1);
        room.update(at, choice_after(room[at], delta))
    }
}

/// What is known of a chat response.
pub ghost struct ChatResponse {
    pub id: Seq<char>,
    pub model: Seq<char>,
    pub choices: Seq<ChatChoice>,
    pub usage: Option<Usage>,
}

/// The first non-empty text.
pub open spec fn first_text(known: Seq<char>, new: Seq<char>) -> Seq<char> {
    if known.len() == 0 {
        new
    } else {
        known
    }
}

pub open spec fn blank_response() -> ChatResponse {
    ChatResponse { id: Seq::empty(), model: Seq::empty(), choices: Seq::empty(), usage: None }
}

/// A response after one chunk.
pub open spec fn response_after(response: ChatResponse, chunk: ChatChunk) -> ChatResponse {
    ChatResponse {
        id: first_text(response.id, chunk.id@),
        model: first_text(response.model, chunk.model@),
        choices: choices_after(response.choices, chunk.choices@),
        usage: if chunk.usage is Some {
            chunk.usage
        } else {
            response.usage
        },
    }
}

/// The chunk's choice indices can be held in memory.
pub open spec fn addressable(chunk: ChatChunk) -> bool {
    forall|i: int| 0 <= i < chunk.choices@.len() ==> (#[trigger] chunk.choices@[i]).index < usize::MAX
}

/// Per-choice accumulated state from streaming chat completion chunks.
struct ChatChoiceAccum {
    content: String,
    reasoning_content: String,
    tool_calls: Vec<ToolCallLog>,
    finish_reason: Option<FinishReason>,
}

impl ChatChoiceAccum {
    spec fn choice(&self) -> ChatChoice {
        ChatChoice {
            content: self.content@,
            reasoning: self.reasoning_content@,
            calls: calls_in(self.tool_calls@),
            finish: self.finish_reason,
        }
    }

    spec fn wf(&self) -> bool {
        ascending(self.tool_calls@)
    }

    fn new() -> (accum: Self)
        ensures
            accum.wf(),
            accum.choice() == blank_choice(),
    {
        let accum = ChatChoiceAccum {
            content: String::new(),
            reasoning_content: String::new(),
            tool_calls: Vec::new(),
            finish_reason: None,
        };
        assert(accum.choice().calls =~= Map::<u32, ToolCall>::empty());
        assert(accum.choice().content =~= Seq::<char>::empty());
        assert(accum.choice().reasoning =~= Seq::<char>::empty());
        accum
    }

    fn absorb(&mut self, delta: &ChatChoiceDelta)
        requires
            old(self).wf(),
        ensures
            final(self).wf(),
            final(self).choice() == choice_after(old(self).choice(), *delta),
    {
        match &delta.content {
            Some(DeltaContent::Text(text)) => {
                self.content.append(text.as_str());
            },
            _ => {},
        }
        if let Some(reasoning) = &delta.reasoning_content {
            self.reasoning_content.append(reasoning.as_str());
        }
        let ghost start = calls_in(self.tool_calls@);
        if let Some(deltas) = &delta.tool_calls {
            let mut i: usize = 0;
            while i < deltas.len()
                invariant
                    i <= deltas@.len(),
                    ascending(self.tool_calls@),
                    calls_in(self.tool_calls@) == calls_after(start, deltas@.take(i as int)),
                    self.content@ == choice_after(old(self).choice(), *delta).content,
                    self.reasoning_content@ == choice_after(old(self).choice(), *delta).reasoning,
                    self.finish_reason == old(self).finish_reason,
                decreases deltas@.len() - i,
            {
                let ghost now = calls_in(self.tool_calls@);
                proof {
                    lemma_lists_its_calls(self.tool_calls@);
                    assert(deltas@.take(i + 1).drop_last() =~= deltas@.take(i as int));
                }
                absorb_call(&mut self.tool_calls, &deltas[i], Ghost(now));
                proof {
                    lemma_lists_one_map(
                        self.tool_calls@,
                        calls_after(start, deltas@.take(i + 1)),
                    );
                }
                i = i + 1;
            }
            assert(deltas@.take(deltas@.len() as int) =~= deltas@);
        }
        if delta.finish_reason.is_some() {
            self.finish_reason = delta.finish_reason;
        }
    }
}

/// One choice of a logged chat response.
#[derive(Debug)]
pub struct ChatPayloadChoice {
    pub index: usize,
    pub content: String,
    /// Present when there was any reasoning.
    pub reasoning_content: Option<String>,
    /// By index; left out of the payload when empty.
    pub tool_calls: Vec<ToolCallLog>,
    pub finish_reason: Option<FinishReason>,
}

/// The assembled response of a chat completion.
#[derive(Debug)]
pub struct ChatPayload {
    pub id: String,
    pub model: String,
    pub choices: Vec<ChatPayloadChoice>,
    pub stream: bool,
    pub usage: Option<Usage>,
}

/// `logged` shows `choice` at position `index`.
pub open spec fn shows_choice(logged: ChatPayloadChoice, choice: ChatChoice, index: int) -> bool {
    &&& logged.index == index
    &&& logged.content@ == choice.content
    &&& logged.reasoning_content is Some <==> choice.reasoning.len() > 0
    &&& logged.reasoning_content is Some ==> logged.reasoning_content->Some_0@ == choice.reasoning
    &&& lists_calls(logged.tool_calls@, choice.calls)
    &&& logged.finish_reason == choice.finish
}

/// `payload` shows `response`.
pub open spec fn shows_response(payload: ChatPayload, response: ChatResponse, stream: bool) -> bool {
    &&& payload.id@ == response.id
    &&& payload.model@ == response.model
    &&& payload.stream == stream
    &&& payload.usage == response.usage
    &&& payload.choices@.len() == response.choices.len()
    &&& forall|i: int|
        0 <= i < payload.choices@.len() ==> shows_choice(
            #[trigger] payload.choices@[i],
            response.choices[i],
            i,
        )
}

/// What the log says of a token count.
pub open spec fn says_usage(usage: Usage) -> Says {
    JsonShape::Object(
        seq![
            ("prompt_tokens"@, crate::json::says_number(usage.prompt_tokens as u64)),
            ("completion_tokens"@, crate::json::says_number(usage.completion_tokens as u64)),
            ("total_tokens"@, crate::json::says_number(usage.total_tokens as u64)),
        ],
    )
}

fn usage_json(usage: Usage) -> (json: Json)
    ensures
        crate::json::shape(json) == says_usage(usage),
{
    let object = JsonObject::new().with(
        "prompt_tokens",
        json_number(usage.prompt_tokens as u64),
    ).with("completion_tokens", json_number(usage.completion_tokens as u64)).with(
        "total_tokens",
        json_number(usage.total_tokens as u64),
    );
    assert(object@ =~= says_usage(usage)->Object_0);
    object.finish()
}

/// What the log says of a finish reason.
pub open spec fn says_finish(reason: Option<FinishReason>) -> Says {
    crate::json::says_optional(
        match reason {
            Some(reason) => Some(reason.name()),
            None => None,
        },
    )
}

fn finish_json(reason: Option<FinishReason>) -> (json: Json)
    ensures
        crate::json::shape(json) == says_finish(reason),
{
    match reason {
        Some(reason) => json_text(reason.as_str()),
        None => JsonTree::Null,
    }
}

/// What the log says of a tool call.
pub open spec fn says_call(call: ToolCallLog) -> Says {
    JsonShape::Object(
        seq![
            ("index"@, crate::json::says_number(call.index as u64)),
            ("id"@, crate::json::says_optional(text_of(call.id))),
            ("type"@, crate::json::says_text("function"@)),
            (
                "function"@,
                JsonShape::Object(
                    seq![
                        ("name"@, crate::json::says_optional(text_of(call.name))),
                        ("arguments"@, crate::json::says_text(call.arguments@)),
                    ],
                ),
            ),
        ],
    )
}

fn call_json(call: &ToolCallLog) -> (json: Json)
    ensures
        crate::json::shape(json) == says_call(*call),
{
    let function = JsonObject::new().with("name", json_optional(&call.name)).with(
        "arguments",
        json_text(call.arguments.as_str()),
    );
    assert(function@ =~= says_call(*call)->Object_0[3].1->Object_0);
    let object = JsonObject::new().with("index", json_number(call.index as u64)).with(
        "id",
        json_optional(&call.id),
    ).with("type", json_text("function")).with("function", function.finish());
    assert(object@ =~= says_call(*call)->Object_0);
    object.finish()
}

/// What the log says of tool calls.
pub open spec fn says_calls(calls: Seq<ToolCallLog>) -> Seq<Says> {
    calls.map_values(|call: ToolCallLog| says_call(call))
}

/// What the log says of the message of a choice. Reasoning and tool calls stand
/// there only if there are any.
pub open spec fn says_message(choice: ChatPayloadChoice) -> Says {
    let plain = seq![
        ("role"@, crate::json::says_text("assistant"@)),
        ("content"@, crate::json::says_text(choice.content@)),
    ];
    let reasoned = match choice.reasoning_content {
        Some(reasoning) => plain.push(
            ("reasoning_content"@, crate::json::says_text(reasoning@)),
        ),
        None => plain,
    };
    JsonShape::Object(
        if choice.tool_calls@.len() > 0 {
            reasoned.push(
                ("tool_calls"@, JsonShape::Array(says_calls(choice.tool_calls@))),
            )
        } else {
            reasoned
        },
    )
}

fn message_json(choice: &ChatPayloadChoice) -> (json: Json)
    ensures
        crate::json::shape(json) == says_message(*choice),
{
    let plain = JsonObject::new().with("role", json_text("assistant")).with(
        "content",
        json_text(choice.content.as_str()),
    );
    assert(plain@ =~= seq![
        ("role"@, crate::json::says_text("assistant"@)),
        ("content"@, crate::json::says_text(choice.content@)),
    ]);
    let reasoned = match &choice.reasoning_content {
        Some(reasoning) => plain.with("reasoning_content", json_text(reasoning.as_str())),
        None => plain,
    };
    if choice.tool_calls.len() == 0 {
        return reasoned.finish();
    }
    let mut calls: Vec<Json> = Vec::new();
    let mut i: usize = 0;
    assert(crate::json::says_items(calls@) =~= says_calls(choice.tool_calls@.take(0)));
    while i < choice.tool_calls.len()
        invariant
            i <= choice.tool_calls@.len(),
            crate::json::says_items(calls@) == says_calls(choice.tool_calls@.take(i as int)),
        decreases choice.tool_calls@.len() - i,
    {
        add_item(&mut calls, call_json(&choice.tool_calls[i]));
        assert(says_calls(choice.tool_calls@.take(i + 1)) =~= says_calls(
            choice.tool_calls@.take(i as int),
        ).push(says_call(choice.tool_calls@[i as int])));
        i = i + 1;
    }
    assert(choice.tool_calls@.take(i as int) =~= choice.tool_calls@);
    reasoned.with("tool_calls", json_array(calls)).finish()
}

/// What the log says of a choice.
pub open spec fn says_choice(choice: ChatPayloadChoice) -> Says {
    JsonShape::Object(
        seq![
            ("index"@, crate::json::says_number(choice.index as u64)),
            ("message"@, says_message(choice)),
            ("finish_reason"@, says_finish(choice.finish_reason)),
        ],
    )
}

/// What the log says of choices.
pub open spec fn says_choices(choices: Seq<ChatPayloadChoice>) -> Seq<Says> {
    choices.map_values(|choice: ChatPayloadChoice| says_choice(choice))
}

/// What the log says of a response. Its usage stands there only if it is known.
pub open spec fn says_response(payload: ChatPayload) -> Says {
    let plain = seq![
        ("id"@, crate::json::says_text(payload.id@)),
        ("model"@, crate::json::says_text(payload.model@)),
        ("choices"@, JsonShape::Array(says_choices(payload.choices@))),
        ("stream"@, crate::json::says_flag(payload.stream)),
    ];
    JsonShape::Object(
        match payload.usage {
            Some(usage) => plain.push(("usage"@, says_usage(usage))),
            None => plain,
        },
    )
}

/// The JSON value that is logged of a response.
pub fn chat_payload_json(payload: &ChatPayload) -> (json: Json)
    ensures
        crate::json::shape(json) == says_response(*payload),
{
    let mut choices: Vec<Json> = Vec::new();
    let mut i: usize = 0;
    assert(crate::json::says_items(choices@) =~= says_choices(payload.choices@.take(0)));
    while i < payload.choices.len()
        invariant
            i <= payload.choices@.len(),
            crate::json::says_items(choices@) == says_choices(payload.choices@.take(i as int)),
        decreases payload.choices@.len() - i,
    {
        let choice = &payload.choices[i];
        let object = JsonObject::new().with("index", json_number(choice.index as u64)).with(
            "message",
            message_json(choice),
        ).with("finish_reason", finish_json(choice.finish_reason));
        assert(object@ =~= says_choice(*choice)->Object_0);
        add_item(&mut choices, object.finish());
        assert(says_choices(payload.choices@.take(i + 1)) =~= says_choices(
            payload.choices@.take(i as int),
        ).push(says_choice(payload.choices@[i as int])));
        i = i + 1;
    }
    assert(payload.choices@.take(i as int) =~= payload.choices@);
    let plain = JsonObject::new().with("id", json_text(payload.id.as_str())).with(
        "model",
        json_text(payload.model.as_str()),
    ).with("choices", json_array(choices)).with("stream", json_flag(payload.stream));
    let object = match payload.usage {
        Some(usage) => plain.with("usage", usage_json(usage)),
        None => plain,
    };
    assert(object@ =~= says_response(*payload)->Object_0);
    object.finish()
}

/// Accumulated chat completion response state, built chunk by chunk.
pub struct ChatPayloadAccumulator {
    id: String,
    model: String,
    choices: Vec<ChatChoiceAccum>,
    usage: Option<Usage>,
}

impl ChatPayloadAccumulator {
    pub closed spec fn response(&self) -> ChatResponse {
        ChatResponse {
            id: self.id@,
            model: self.model@,
            choices: self.choices@.map_values(|accum: ChatChoiceAccum| accum.choice()),
            usage: self.usage,
        }
    }

    pub closed spec fn wf(&self) -> bool {
        forall|i: int| 0 <= i < self.choices@.len() ==> (#[trigger] self.choices@[i]).wf()
    }

    pub fn new() -> (accum: Self)
        ensures
            accum.wf(),
            accum.response() == blank_response(),
    {
        let accum = ChatPayloadAccumulator {
            id: String::new(),
            model: String::new(),
            choices: Vec::new(),
            usage: None,
        };
        assert(accum.response().choices =~= Seq::<ChatChoice>::empty());
        assert(accum.response().id =~= Seq::<char>::empty());
        assert(accum.response().model =~= Seq::<char>::empty());
        accum
    }

    /// Makes room for `len` choices.
    fn grow(&mut self, len: usize)
        requires
            old(self).wf(),
        ensures
            final(self).wf(),
            final(self).response().choices == grown(old(self).response().choices, len as int),
            final(self).id == old(self).id,
            final(self).model == old(self).model,
            final(self).usage == old(self).usage,
            final(self).choices@.len() >= len,
    {
        let ghost start = self.response().choices;
        assert(grown(start, self.choices@.len() as int) =~= start);
        while self.choices.len() < len
            invariant
                self.wf(),
                start.len() <= self.choices@.len(),
                self.choices@.len() > start.len() ==> self.choices@.len() <= len,
                self.response().choices == grown(start, self.choices@.len() as int),
                self.id == old(self).id,
                self.model == old(self).model,
                self.usage == old(self).usage,
            decreases len - self.choices@.len(),
        {
            let ghost before = self.choices@;
            self.choices.push(ChatChoiceAccum::new());
            proof {
                assert forall|i: int| 0 <= i < self.choices@.len() implies (
                #[trigger] self.choices@[i]).wf() by {
                    if i < before.len() {
                        assert(self.choices@[i] == before[i]);
                    }
                }
                assert(self.response().choices =~= before.map_values(
                    |accum: ChatChoiceAccum| accum.choice(),
                ).push(blank_choice()));
                assert(self.response().choices =~= grown(start, self.choices@.len() as int));
            }
        }
        assert(self.response().choices =~= grown(start, len as int));
    }

    /// Observe one streaming chunk, accumulating its deltas.
    pub fn observe(&mut self, chunk: &ChatChunk)
        requires
            old(self).wf(),
            addressable(*chunk),
        ensures
            final(self).wf(),
            final(self).response() == response_after(old(self).response(), *chunk),
    {
        if self.id.as_str().is_empty() {
            self.id = chunk.id.clone();
        }
        if self.model.as_str().is_empty() {
            self.model = chunk.model.clone();
        }
        // The final chunk carries usage when it was asked for.

        if let Some(usage) = chunk.usage {
            self.usage = Some(usage);
        }
        let ghost target = response_after(old(self).response(), *chunk);
        let ghost start = self.response().choices;
        let mut i: usize = 0;
        while i < chunk.choices.len()
            invariant
                i <= chunk.choices@.len(),
                addressable(*chunk),
                self.wf(),
                self.id@ == target.id,
                self.model@ == target.model,
                self.usage == target.usage,
                self.response().choices == choices_after(start, chunk.choices@.take(i as int)),
            decreases chunk.choices@.len() - i,
        {
            let delta = &chunk.choices[i];
            let at: usize = delta.index as usize;
            assert(chunk.choices@.take(i + 1).drop_last() =~= chunk.choices@.take(i as int));
            self.grow(at + 1);
            let ghost room = self.response().choices;
            let ghost before = self.choices@;
            let mut entry = self.choices.remove(at);
            entry.absorb(delta);
            let ghost absorbed = entry;
            self.choices.insert(at, entry);
            proof {
                assert(room[at as int] == before[at as int].choice());
                assert(self.choices@ =~= before.update(at as int, absorbed));
                assert(self.response().choices =~= room.update(
                    at as int,
                    choice_after(room[at as int], *delta),
                ));
            }
            i = i + 1;
        }
        assert(chunk.choices@.take(chunk.choices@.len() as int) =~= chunk.choices@);
        assert(self.response() == target);
    }

    /// The accumulated state as the payload of `openai.response`.
    pub fn into_payload(self, streaming: bool) -> (payload: ChatPayload)
        requires
            self.wf(),
        ensures
            shows_response(payload, self.response(), streaming),
    {
        let ghost all = self.choices@;
        let mut choices: Vec<ChatPayloadChoice> = Vec::new();
        let mut index: usize = 0;
        let total: usize = self.choices.len();
        for accum in it: self.choices
            invariant
                it.seq() == all,
                index == it.index(),
                total == all.len(),
                choices@.len() == index,
                forall|i: int| 0 <= i < all.len() ==> (#[trigger] all[i]).wf(),
                forall|i: int|
                    0 <= i < choices@.len() ==> shows_choice(
                        #[trigger] choices@[i],
                        all[i].choice(),
                        i,
                    ),
        {
            proof {
                assert(accum == all[index as int]);
                lemma_lists_its_calls(accum.tool_calls@);
            }
            let reasoning_content = if accum.reasoning_content.as_str().is_empty() {
                None
            } else {
                Some(accum.reasoning_content)
            };
            choices.push(
                ChatPayloadChoice {
                    index,
                    content: accum.content,
                    reasoning_content,
                    tool_calls: accum.tool_calls,
                    finish_reason: accum.finish_reason,
                },
            );
            index = index + 1;
        }
        ChatPayload { id: self.id, model: self.model, choices, stream: streaming, usage: self.usage }
    }

    /// The accumulated state as the JSON text of `openai.response`.
    pub fn into_payload_json(self, streaming: bool) -> (text: String)
        requires
            self.wf(),
        ensures
            logs_response(text@, self.response(), streaming),
    {
        let payload = self.into_payload(streaming);
        write_json(&chat_payload_json(&payload))
    }
}

/// `text` is what is logged of `response`.
pub open spec fn logs_response(text: Seq<char>, response: ChatResponse, stream: bool) -> bool {
    exists|payload: ChatPayload| #[trigger]
        shows_response(payload, response, stream) && text == crate::json::json_text_of(
            says_response(payload),
        )
}

/// Payload logging of a `/v1/chat/completions` streaming response.
///
/// Observes the items that flow through the stream, and gives one
/// `openai.response` record when the stream completes or is dropped.
pub struct ChatPayloadLoggingStream {
    accum: ChatPayloadAccumulator,
    logger: PayloadLogger,
    rid: String,
    endpoint: &'static str,
    emitted: bool,
}

impl ChatPayloadLoggingStream {
    pub closed spec fn wf(&self) -> bool {
        self.accum.wf()
    }

    pub closed spec fn on(&self) -> bool {
        self.logger.on()
    }

    /// The record was given.
    pub closed spec fn done(&self) -> bool {
        self.emitted
    }

    pub closed spec fn response(&self) -> ChatResponse {
        self.accum.response()
    }

    pub closed spec fn origin(&self) -> (Seq<char>, &'static str) {
        (self.rid@, self.endpoint)
    }

    /// Log a stream under the given `rid` and `endpoint`.
    pub fn new(logger: PayloadLogger, rid: String, endpoint: &'static str) -> (stream: Self)
        ensures
            stream.wf(),
            stream.on() == logger.on(),
            !stream.done(),
            stream.response() == blank_response(),
            stream.origin() == (rid@, endpoint),
    {
        ChatPayloadLoggingStream {
            accum: ChatPayloadAccumulator::new(),
            logger,
            rid,
            endpoint,
            emitted: false,
        }
    }

    /// Observes an item on its way. Nothing is accumulated while logging is
    /// disabled.
    pub fn observe(&mut self, data: Option<&ChatChunk>)
        requires
            old(self).wf(),
            data is Some ==> addressable(*data->Some_0),
        ensures
            final(self).wf(),
            final(self).on() == old(self).on(),
            final(self).done() == old(self).done(),
            final(self).origin() == old(self).origin(),
            final(self).response() == (if old(self).on() && data is Some {
                response_after(old(self).response(), *data->Some_0)
            } else {
                old(self).response()
            }),
    {
        if self.logger.is_enabled() {
            if let Some(chunk) = data {
                self.accum.observe(chunk);
            }
        }
    }

    /// The record of the response: once, at the end of the stream or when it is
    /// dropped.
    pub fn emit_log_once(&mut self, streaming: bool) -> (record: Option<ResponseLog<String>>)
        requires
            old(self).wf(),
        ensures
            final(self).wf(),
            final(self).done(),
            final(self).on() == old(self).on(),
            final(self).origin() == old(self).origin(),
            final(self).response() == (if old(self).done() {
                old(self).response()
            } else {
                blank_response()
            }),
            record is Some <==> !old(self).done() && old(self).on(),
            record is Some ==> {
                &&& record->Some_0.target@ == "dynamo_payload"@
                &&& record->Some_0.rid@ == old(self).origin().0
                &&& record->Some_0.endpoint == old(self).origin().1
                &&& logs_response(record->Some_0.payload@, old(self).response(), streaming)
            },
    {
        if self.emitted {
            return None;
        }
        self.emitted = true;
        let mut accum = ChatPayloadAccumulator::new();
        std::mem::swap(&mut self.accum, &mut accum);
        let payload = accum.into_payload_json(streaming);
        self.logger.log_response(self.rid.as_str(), self.endpoint, payload)
    }
}

/// One choice of a completion chunk.
#[derive(Debug)]
pub struct CompletionChoiceDelta {
    pub index: u32,
    pub text: String,
    pub finish_reason: Option<FinishReason>,
}

/// One completion chunk.
#[derive(Debug)]
pub struct CompletionChunk {
    pub id: String,
    pub model: String,
    pub usage: Option<Usage>,
    pub choices: Vec<CompletionChoiceDelta>,
}

/// What is known of a completion choice.
pub ghost struct CompletionChoice {
    pub text: Seq<char>,
    pub finish: Option<FinishReason>,
}

/// What is known of a completion response.
pub ghost struct CompletionResponse {
    pub id: Seq<char>,
    pub model: Seq<char>,
    pub choices: Seq<CompletionChoice>,
    pub usage: Option<Usage>,
}

pub open spec fn blank_completion() -> CompletionResponse {
    CompletionResponse { id: Seq::empty(), model: Seq::empty(), choices: Seq::empty(), usage: None }
}

/// At least `len` completion choices.
pub open spec fn widened(choices: Seq<CompletionChoice>, len: int) -> Seq<CompletionChoice> {
    if choices.len() >= len {
        choices
    } else {
        Seq::new(
            len as nat,
            |i: int|
                if i < choices.len() {
                    choices[i]
                } else {
                    CompletionChoice { text: Seq::empty(), finish: None }
                },
        )
    }
}

/// The completion choices after some deltas.
pub open spec fn completions_after(
    choices: Seq<CompletionChoice>,
    deltas: Seq<CompletionChoiceDelta>,
) -> Seq<CompletionChoice>
    decreases deltas.len(),
{
    if deltas.len() == 0 {
        choices
    } else {
        let delta = deltas.last();
        let at = delta.index as int;
        let room = widened(completions_after(choices, deltas.drop_last()), at + 1);
        room.update(
            at,
            CompletionChoice {
                text: room[at].text + delta.text@,
                finish: if delta.finish_reason is Some {
                    delta.finish_reason
                } else {
                    room[at].finish
                },
            },
        )
    }
}

/// A completion response after one chunk.
pub open spec fn completion_after(
    response: CompletionResponse,
    chunk: CompletionChunk,
) -> CompletionResponse {
    CompletionResponse {
        id: first_text(response.id, chunk.id@),
        model: first_text(response.model, chunk.model@),
        choices: completions_after(response.choices, chunk.choices@),
        usage: if chunk.usage is Some {
            chunk.usage
        } else {
            response.usage
        },
    }
}

/// The chunk's choice indices can be held in memory.
pub open spec fn completion_addressable(chunk: CompletionChunk) -> bool {
    forall|i: int| 0 <= i < chunk.choices@.len() ==> (#[trigger] chunk.choices@[i]).index < usize::MAX
}

/// One choice of a logged completion response.
#[derive(Debug)]
pub struct CompletionPayloadChoice {
    pub index: usize,
    pub text: String,
    pub finish_reason: Option<FinishReason>,
}

/// The assembled response of a completion.
#[derive(Debug)]
pub struct CompletionPayload {
    pub id: String,
    pub model: String,
    pub choices: Vec<CompletionPayloadChoice>,
    pub stream: bool,
    pub usage: Option<Usage>,
}

/// `payload` shows `response`.
pub open spec fn shows_completion(
    payload: CompletionPayload,
    response: CompletionResponse,
    stream: bool,
) -> bool {
    &&& payload.id@ == response.id
    &&& payload.model@ == response.model
    &&& payload.stream == stream
    &&& payload.usage == response.usage
    &&& payload.choices@.len() == response.choices.len()
    &&& forall|i: int|
        0 <= i < payload.choices@.len() ==> {
            &&& (#[trigger] payload.choices@[i]).index == i
            &&& payload.choices@[i].text@ == response.choices[i].text
            &&& payload.choices@[i].finish_reason == response.choices[i].finish
        }
}

/// What the log says of a choice.
pub open spec fn says_completion_choice(choice: CompletionPayloadChoice) -> Says {
    JsonShape::Object(
        seq![
            ("index"@, crate::json::says_number(choice.index as u64)),
            ("text"@, crate::json::says_text(choice.text@)),
            ("finish_reason"@, says_finish(choice.finish_reason)),
        ],
    )
}

/// What the log says of choices.
pub open spec fn says_completion_choices(choices: Seq<CompletionPayloadChoice>) -> Seq<Says> {
    choices.map_values(|choice: CompletionPayloadChoice| says_completion_choice(choice))
}

/// What the log says of a response. Its usage stands there only if it is known.
pub open spec fn says_completion(payload: CompletionPayload) -> Says {
    let plain = seq![
        ("id"@, crate::json::says_text(payload.id@)),
        ("model"@, crate::json::says_text(payload.model@)),
        ("choices"@, JsonShape::Array(says_completion_choices(payload.choices@))),
        ("stream"@, crate::json::says_flag(payload.stream)),
    ];
    JsonShape::Object(
        match payload.usage {
            Some(usage) => plain.push(("usage"@, says_usage(usage))),
            None => plain,
        },
    )
}

/// The JSON value that is logged of a response.
pub fn completion_payload_json(payload: &CompletionPayload) -> (json: Json)
    ensures
        crate::json::shape(json) == says_completion(*payload),
{
    let mut choices: Vec<Json> = Vec::new();
    let mut i: usize = 0;
    assert(crate::json::says_items(choices@) =~= says_completion_choices(payload.choices@.take(0)));
    while i < payload.choices.len()
        invariant
            i <= payload.choices@.len(),
            crate::json::says_items(choices@) == says_completion_choices(
                payload.choices@.take(i as int),
            ),
        decreases payload.choices@.len() - i,
    {
        let choice = &payload.choices[i];
        let object = JsonObject::new().with("index", json_number(choice.index as u64)).with(
            "text",
            json_text(choice.text.as_str()),
        ).with("finish_reason", finish_json(choice.finish_reason));
        assert(object@ =~= says_completion_choice(*choice)->Object_0);
        add_item(&mut choices, object.finish());
        assert(says_completion_choices(payload.choices@.take(i + 1)) =~= says_completion_choices(
            payload.choices@.take(i as int),
        ).push(says_completion_choice(payload.choices@[i as int])));
        i = i + 1;
    }
    assert(payload.choices@.take(i as int) =~= payload.choices@);
    let plain = JsonObject::new().with("id", json_text(payload.id.as_str())).with(
        "model",
        json_text(payload.model.as_str()),
    ).with("choices", json_array(choices)).with("stream", json_flag(payload.stream));
    let object = match payload.usage {
        Some(usage) => plain.with("usage", usage_json(usage)),
        None => plain,
    };
    assert(object@ =~= says_completion(*payload)->Object_0);
    object.finish()
}

/// Accumulated completions response state, built chunk by chunk.
pub struct CompletionPayloadAccumulator {
    id: String,
    model: String,
    /// Per-choice state (completions support batch prompts).
    choices: Vec<(String, Option<FinishReason>)>,
    usage: Option<Usage>,
}

spec fn completion_choices(choices: Seq<(String, Option<FinishReason>)>) -> Seq<CompletionChoice> {
    choices.map_values(
        |choice: (String, Option<FinishReason>)|
            CompletionChoice { text: choice.0@, finish: choice.1 },
    )
}

impl CompletionPayloadAccumulator {
    pub closed spec fn response(&self) -> CompletionResponse {
        CompletionResponse {
            id: self.id@,
            model: self.model@,
            choices: completion_choices(self.choices@),
            usage: self.usage,
        }
    }

    pub fn new() -> (accum: Self)
        ensures
            accum.response() == blank_completion(),
    {
        let accum = CompletionPayloadAccumulator {
            id: String::new(),
            model: String::new(),
            choices: Vec::new(),
            usage: None,
        };
        assert(accum.response().choices =~= Seq::<CompletionChoice>::empty());
        assert(accum.response().id =~= Seq::<char>::empty());
        assert(accum.response().model =~= Seq::<char>::empty());
        accum
    }

    fn grow(&mut self, len: usize)
        ensures
            completion_choices(final(self).choices@) == widened(
                completion_choices(old(self).choices@),
                len as int,
            ),
            final(self).id == old(self).id,
            final(self).model == old(self).model,
            final(self).usage == old(self).usage,
            final(self).choices@.len() >= len,
    {
        let ghost start = completion_choices(self.choices@);
        assert(widened(start, self.choices@.len() as int) =~= start);
        while self.choices.len() < len
            invariant
                start.len() <= self.choices@.len(),
                self.choices@.len() > start.len() ==> self.choices@.len() <= len,
                completion_choices(self.choices@) == widened(start, self.choices@.len() as int),
                self.id == old(self).id,
                self.model == old(self).model,
                self.usage == old(self).usage,
            decreases len - self.choices@.len(),
        {
            let ghost before = self.choices@;
            self.choices.push((String::new(), None));
            proof {
                let blank = CompletionChoice { text: Seq::empty(), finish: None };
                let last = self.choices@.last();
                assert(last.0@ =~= Seq::<char>::empty());
                assert(completion_choices(self.choices@) =~= completion_choices(before).push(blank));
                assert(completion_choices(self.choices@) =~= widened(
                    start,
                    self.choices@.len() as int,
                ));
            }
        }
        assert(completion_choices(self.choices@) =~= widened(start, len as int));
    }

    pub fn observe(&mut self, chunk: &CompletionChunk)
        requires
            completion_addressable(*chunk),
        ensures
            final(self).response() == completion_after(old(self).response(), *chunk),
    {
        if self.id.as_str().is_empty() {
            self.id = chunk.id.clone();
        }
        if self.model.as_str().is_empty() {
            self.model = chunk.model.clone();
        }
        if let Some(usage) = chunk.usage {
            self.usage = Some(usage);
        }
        let ghost target = completion_after(old(self).response(), *chunk);
        let ghost start = self.response().choices;
        let mut i: usize = 0;
        while i < chunk.choices.len()
            invariant
                i <= chunk.choices@.len(),
                completion_addressable(*chunk),
                self.id@ == target.id,
                self.model@ == target.model,
                self.usage == target.usage,
                completion_choices(self.choices@) == completions_after(
                    start,
                    chunk.choices@.take(i as int),
                ),
            decreases chunk.choices@.len() - i,
        {
            let delta = &chunk.choices[i];
            let at: usize = delta.index as usize;
            assert(chunk.choices@.take(i + 1).drop_last() =~= chunk.choices@.take(i as int));
            self.grow(at + 1);
            let ghost before = self.choices@;
            let ghost room = completion_choices(before);
            let (mut text, mut finish) = self.choices.remove(at);
            text.append(delta.text.as_str());
            if delta.finish_reason.is_some() {
                finish = delta.finish_reason;
            }
            let ghost entry = (text, finish);
            self.choices.insert(at, (text, finish));
            proof {
                assert(self.choices@ =~= before.update(at as int, entry));
                assert(completion_choices(self.choices@) =~= room.update(
                    at as int,
                    CompletionChoice {
                        text: room[at as int].text + delta.text@,
                        finish: if delta.finish_reason is Some {
                            delta.finish_reason
                        } else {
                            room[at as int].finish
                        },
                    },
                ));
            }
            i = i + 1;
        }
        assert(chunk.choices@.take(chunk.choices@.len() as int) =~= chunk.choices@);
        assert(self.response() == target);
    }

    /// The accumulated state as the payload of `openai.response`.
    pub fn into_payload(self, streaming: bool) -> (payload: CompletionPayload)
        ensures
            shows_completion(payload, self.response(), streaming),
    {
        let ghost all = self.choices@;
        let mut choices: Vec<CompletionPayloadChoice> = Vec::new();
        let mut index: usize = 0;
        let total: usize = self.choices.len();
        for choice in it: self.choices
            invariant
                it.seq() == all,
                index == it.index(),
                total == all.len(),
                choices@.len() == index,
                forall|i: int|
                    0 <= i < choices@.len() ==> {
                        &&& (#[trigger] choices@[i]).index == i
                        &&& choices@[i].text@ == all[i].0@
                        &&& choices@[i].finish_reason == all[i].1
                    },
        {
            choices.push(
                CompletionPayloadChoice { index, text: choice.0, finish_reason: choice.1 },
            );
            index = index + 1;
        }
        CompletionPayload {
            id: self.id,
            model: self.model,
            choices,
            stream: streaming,
            usage: self.usage,
        }
    }

    /// The accumulated state as the JSON text of `openai.response`.
    pub fn into_payload_json(self, streaming: bool) -> (text: String)
        ensures
            logs_completion(text@, self.response(), streaming),
    {
        let payload = self.into_payload(streaming);
        write_json(&completion_payload_json(&payload))
    }
}

/// `text` is what is logged of `response`.
pub open spec fn logs_completion(
    text: Seq<char>,
    response: CompletionResponse,
    stream: bool,
) -> bool {
    exists|payload: CompletionPayload| #[trigger]
        shows_completion(payload, response, stream) && text == crate::json::json_text_of(
            says_completion(payload),
        )
}

/// Payload logging of a `/v1/completions` streaming response.
pub struct CompletionPayloadLoggingStream {
    accum: CompletionPayloadAccumulator,
    logger: PayloadLogger,
    rid: String,
    emitted: bool,
}

impl CompletionPayloadLoggingStream {
    pub closed spec fn on(&self) -> bool {
        self.logger.on()
    }

    /// The record was given.
    pub closed spec fn done(&self) -> bool {
        self.emitted
    }

    pub closed spec fn response(&self) -> CompletionResponse {
        self.accum.response()
    }

    pub closed spec fn id(&self) -> Seq<char> {
        self.rid@
    }

    pub fn new(logger: PayloadLogger, rid: String) -> (stream: Self)
        ensures
            stream.on() == logger.on(),
            !stream.done(),
            stream.response() == blank_completion(),
            stream.id() == rid@,
    {
        CompletionPayloadLoggingStream {
            accum: CompletionPayloadAccumulator::new(),
            logger,
            rid,
            emitted: false,
        }
    }

    /// Observes an item on its way. Nothing is accumulated while logging is
    /// disabled.
    pub fn observe(&mut self, data: Option<&CompletionChunk>)
        requires
            data is Some ==> completion_addressable(*data->Some_0),
        ensures
            final(self).on() == old(self).on(),
            final(self).done() == old(self).done(),
            final(self).id() == old(self).id(),
            final(self).response() == (if old(self).on() && data is Some {
                completion_after(old(self).response(), *data->Some_0)
            } else {
                old(self).response()
            }),
    {
        if self.logger.is_enabled() {
            if let Some(chunk) = data {
                self.accum.observe(chunk);
            }
        }
    }

    /// The record of the response: once, at the end of the stream or when it is
    /// dropped.
    pub fn emit_log_once(&mut self, streaming: bool) -> (record: Option<ResponseLog<String>>)
        ensures
            final(self).done(),
            final(self).on() == old(self).on(),
            final(self).id() == old(self).id(),
            final(self).response() == (if old(self).done() {
                old(self).response()
            } else {
                blank_completion()
            }),
            record is Some <==> !old(self).done() && old(self).on(),
            record is Some ==> {
                &&& record->Some_0.target@ == "dynamo_payload"@
                &&& record->Some_0.rid@ == old(self).id()
                &&& record->Some_0.endpoint@ == "OpenAIServingCompletions"@
                &&& logs_completion(record->Some_0.payload@, old(self).response(), streaming)
            },
    {
        if self.emitted {
            return None;
        }
        self.emitted = true;
        let mut accum = CompletionPayloadAccumulator::new();
        std::mem::swap(&mut self.accum, &mut accum);
        let payload = accum.into_payload_json(streaming);
        self.logger.log_response(self.rid.as_str(), "OpenAIServingCompletions", payload)
    }
}

/// How a text is cut into deltas does not matter to what is logged of it.
pub proof fn law_text_is_independent_of_chunking(
    choices: Seq<CompletionChoice>,
    whole: CompletionChoiceDelta,
    head: CompletionChoiceDelta,
    tail: CompletionChoiceDelta,
)
    requires
        whole.index == head.index == tail.index,
        whole.text@ == head.text@ + tail.text@,
        whole.finish_reason == tail.finish_reason,
        head.finish_reason is None,
    ensures
        completions_after(choices, seq![whole]) == completions_after(choices, seq![head, tail]),
{
    let at = whole.index as int;
    assert(seq![whole].drop_last() =~= Seq::<CompletionChoiceDelta>::empty());
    assert(seq![head, tail].drop_last() =~= seq![head]);
    assert(seq![head].drop_last() =~= Seq::<CompletionChoiceDelta>::empty());
    assert(completions_after(choices, Seq::<CompletionChoiceDelta>::empty()) == choices);
    let once = completions_after(choices, seq![whole]);
    let first = completions_after(choices, seq![head]);
    let twice = completions_after(choices, seq![head, tail]);
    let room = widened(choices, at + 1);
    assert(first.len() == room.len());
    assert(widened(first, at + 1) == first);
    assert((room[at].text + head.text@) + tail.text@ =~= room[at].text + whole.text@);
    assert(once =~= twice);
}

/// What a delta adds to the content.
pub open spec fn content_in(delta: ChatChoiceDelta) -> Seq<char> {
    match delta.content {
        Some(DeltaContent::Text(text)) => text@,
        _ => Seq::empty(),
    }
}

/// How content and reasoning are cut into deltas does not matter to what is
/// logged of a chat.
pub proof fn law_chat_text_is_independent_of_chunking(
    choices: Seq<ChatChoice>,
    whole: ChatChoiceDelta,
    head: ChatChoiceDelta,
    tail: ChatChoiceDelta,
)
    requires
        whole.index == head.index == tail.index,
        content_in(whole) == content_in(head) + content_in(tail),
        extended(Seq::empty(), whole.reasoning_content) == extended(
            Seq::empty(),
            head.reasoning_content,
        ) + extended(Seq::empty(), tail.reasoning_content),
        whole.tool_calls == tail.tool_calls,
        head.tool_calls is None,
        whole.finish_reason == tail.finish_reason,
        head.finish_reason is None,
    ensures
        choices_after(choices, seq![whole]) == choices_after(choices, seq![head, tail]),
{
    let at = whole.index as int;
    assert(seq![whole].drop_last() =~= Seq::<ChatChoiceDelta>::empty());
    assert(seq![head, tail].drop_last() =~= seq![head]);
    assert(seq![head].drop_last() =~= Seq::<ChatChoiceDelta>::empty());
    assert(choices_after(choices, Seq::<ChatChoiceDelta>::empty()) == choices);
    let once = choices_after(choices, seq![whole]);
    let first = choices_after(choices, seq![head]);
    let twice = choices_after(choices, seq![head, tail]);
    let room = grown(choices, at + 1);
    assert(first.len() == room.len());
    assert(grown(first, at + 1) == first);
    assert(once[at].content =~= twice[at].content);
    assert(once[at].reasoning =~= twice[at].reasoning);
    assert(once[at].calls == twice[at].calls);
    assert(once =~= twice);
}

} // verus!
