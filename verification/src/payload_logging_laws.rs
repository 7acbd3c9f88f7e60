//! What holds of a logged response, whatever chunks it came in.

use crate::json::{JsonLeaf, JsonShape};
use crate::payload_logging_stream::{
    ChatChoice, ChatChoiceDelta, ChatChunk, ChatPayload, ChatResponse, CompletionChoice,
    CompletionChoiceDelta, CompletionChunk, CompletionPayload, CompletionResponse, DeltaContent,
    FinishReason, ToolCall, ToolCallDelta,
};
use vstd::prelude::*;

verus! {

/// What is known of a chat response when all chunks have been observed.
pub open spec fn observed(chunks: Seq<ChatChunk>) -> ChatResponse
    decreases chunks.len(),
{
    if chunks.len() == 0 {
        crate::payload_logging_stream::blank_response()
    } else {
        crate::payload_logging_stream::response_after(observed(chunks.drop_last()), chunks.last())
    }
}

/// What is known of a text completion when all chunks have been observed.
pub open spec fn observed_completion(chunks: Seq<CompletionChunk>) -> CompletionResponse
    decreases chunks.len(),
{
    if chunks.len() == 0 {
        crate::payload_logging_stream::blank_completion()
    } else {
        crate::payload_logging_stream::completion_after(
            observed_completion(chunks.drop_last()),
            chunks.last(),
        )
    }
}

/// Deltas that give no reason leave the reason of a choice as it is.
proof fn lemma_finish_kept(choices: Seq<ChatChoice>, deltas: Seq<ChatChoiceDelta>, i: int)
    requires
        0 <= i,
        forall|d: int|
            0 <= d < deltas.len() && (#[trigger] deltas[d]).index == i
                ==> deltas[d].finish_reason is None,
    ensures
        ({
            let after = crate::payload_logging_stream::choices_after(choices, deltas);
            &&& after.len() >= choices.len()
            &&& i < choices.len() ==> after[i].finish == choices[i].finish
            &&& choices.len() <= i < after.len() ==> after[i].finish is None
        }),
    decreases deltas.len(),
{
    if deltas.len() > 0 {
        let front = deltas.drop_last();
        assert forall|d: int|
            0 <= d < front.len() && (#[trigger] front[d]).index
                == i implies front[d].finish_reason is None by {
            assert(front[d] == deltas[d]);
        }
        lemma_finish_kept(choices, front, i);
        assert(deltas[deltas.len() - 1] == deltas.last());
    }
}

/// The last reason that deltas give is the reason of the choice.
proof fn lemma_finish_given(
    choices: Seq<ChatChoice>,
    deltas: Seq<ChatChoiceDelta>,
    i: int,
    at: int,
)
    requires
        0 <= at < deltas.len(),
        deltas[at].index == i,
        deltas[at].finish_reason is Some,
        forall|d: int|
            at < d < deltas.len() && (#[trigger] deltas[d]).index == i
                ==> deltas[d].finish_reason is None,
    ensures
        ({
            let after = crate::payload_logging_stream::choices_after(choices, deltas);
            i < after.len() && after[i].finish == deltas[at].finish_reason
        }),
    decreases deltas.len(),
{
    let front = deltas.drop_last();
    assert(deltas[deltas.len() - 1] == deltas.last());
    if at < deltas.len() - 1 {
        assert(front[at] == deltas[at]);
        assert forall|d: int|
            at < d < front.len() && (#[trigger] front[d]).index
                == i implies front[d].finish_reason is None by {
            assert(front[d] == deltas[d]);
        }
        lemma_finish_given(choices, front, i, at);
    }
}

proof fn lemma_observed_none(chunks: Seq<ChatChunk>, i: int)
    requires
        0 <= i,
        forall|c: int, d: int|
            0 <= c < chunks.len() && 0 <= d < chunks[c].choices@.len()
                && (#[trigger] chunks[c].choices@[d]).index == i
                ==> chunks[c].choices@[d].finish_reason is None,
    ensures
        i < observed(chunks).choices.len() ==> observed(chunks).choices[i].finish is None,
    decreases chunks.len(),
{
    if chunks.len() > 0 {
        let front = chunks.drop_last();
        assert forall|c: int, d: int|
            0 <= c < front.len() && 0 <= d < front[c].choices@.len()
                && (#[trigger] front[c].choices@[d]).index
                == i implies front[c].choices@[d].finish_reason is None by {
            assert(front[c].choices@[d] == chunks[c].choices@[d]);
        }
        lemma_observed_none(front, i);
        let deltas = chunks.last().choices@;
        assert forall|d: int|
            0 <= d < deltas.len() && (#[trigger] deltas[d]).index
                == i implies deltas[d].finish_reason is None by {
            assert(deltas[d] == chunks[chunks.len() - 1].choices@[d]);
        }
        lemma_finish_kept(observed(front).choices, deltas, i);
    }
}

proof fn lemma_observed_finish(chunks: Seq<ChatChunk>, i: int, c: int, d: int)
    requires
        0 <= c < chunks.len(),
        0 <= d < chunks[c].choices@.len(),
        chunks[c].choices@[d].index == i,
        chunks[c].choices@[d].finish_reason is Some,
        forall|c2: int, d2: int|
            0 <= c2 < chunks.len() && 0 <= d2 < chunks[c2].choices@.len()
                && (#[trigger] chunks[c2].choices@[d2]).index == i && (c < c2 || (c == c2 && d
                < d2)) ==> chunks[c2].choices@[d2].finish_reason is None,
    ensures
        i < observed(chunks).choices.len(),
        observed(chunks).choices[i].finish == chunks[c].choices@[d].finish_reason,
    decreases chunks.len(),
{
    let front = chunks.drop_last();
    let deltas = chunks.last().choices@;
    let last = chunks.len() - 1;
    assert(chunks.last() == chunks[last]);
    if c == last {
        assert forall|d2: int|
            d < d2 < deltas.len() && (#[trigger] deltas[d2]).index
                == i implies deltas[d2].finish_reason is None by {
            assert(deltas[d2] == chunks[last].choices@[d2]);
        }
        lemma_finish_given(observed(front).choices, deltas, i, d);
    } else {
        assert forall|c2: int, d2: int|
            0 <= c2 < front.len() && 0 <= d2 < front[c2].choices@.len()
                && (#[trigger] front[c2].choices@[d2]).index == i && (c < c2 || (c == c2 && d
                < d2)) implies front[c2].choices@[d2].finish_reason is None by {
            assert(front[c2].choices@[d2] == chunks[c2].choices@[d2]);
        }
        assert(front[c].choices@[d] == chunks[c].choices@[d]);
        lemma_observed_finish(front, i, c, d);
        assert forall|d2: int|
            0 <= d2 < deltas.len() && (#[trigger] deltas[d2]).index
                == i implies deltas[d2].finish_reason is None by {
            assert(deltas[d2] == chunks[last].choices@[d2]);
        }
        lemma_finish_kept(observed(front).choices, deltas, i);
    }
}

/// The logged reason of a choice is the last one that any chunk gave for it, by
/// its name on the wire. The delta at `d` of the chunk at `c` is the one that
/// gave it.
pub proof fn law_last_finish_reason_is_logged(
    chunks: Seq<ChatChunk>,
    payload: ChatPayload,
    stream: bool,
    i: int,
    c: int,
    d: int,
)
    requires
        crate::payload_logging_stream::shows_response(payload, observed(chunks), stream),
        0 <= c < chunks.len(),
        0 <= d < chunks[c].choices@.len(),
        chunks[c].choices@[d].index == i,
        chunks[c].choices@[d].finish_reason is Some,
        forall|c2: int, d2: int|
            0 <= c2 < chunks.len() && 0 <= d2 < chunks[c2].choices@.len()
                && (#[trigger] chunks[c2].choices@[d2]).index == i && (c < c2 || (c == c2 && d
                < d2)) ==> chunks[c2].choices@[d2].finish_reason is None,
    ensures
        ({
            let fields = crate::payload_logging_stream::says_response(payload)->Object_0;
            let choices = fields[2].1->Array_0;
            let choice = choices[i]->Object_0;
            &&& crate::payload_logging_stream::says_response(payload) is Object
            &&& fields.len() > 2
            &&& fields[2].0 == "choices"@
            &&& fields[2].1 is Array
            &&& i < choices.len()
            &&& choices[i] is Object
            &&& choice.len() == 3
            &&& choice[2].0 == "finish_reason"@
            &&& choice[2].1 == JsonShape::<JsonLeaf>::Text(
                match chunks[c].choices@[d].finish_reason->Some_0 {
                    FinishReason::Stop => "stop"@,
                    FinishReason::Length => "length"@,
                    FinishReason::ToolCalls => "tool_calls"@,
                    FinishReason::ContentFilter => "content_filter"@,
                    FinishReason::FunctionCall => "function_call"@,
                },
            )
        }),
{
    lemma_observed_finish(chunks, i, c, d);
    assert(crate::payload_logging_stream::shows_choice(
        payload.choices@[i],
        observed(chunks).choices[i],
        i,
    ));
}

/// Without a reason in any chunk, a choice is logged with `null` in its place.
pub proof fn law_missing_finish_reason_is_null(
    chunks: Seq<ChatChunk>,
    payload: ChatPayload,
    stream: bool,
    i: int,
)
    requires
        crate::payload_logging_stream::shows_response(payload, observed(chunks), stream),
        0 <= i < payload.choices@.len(),
        forall|c: int, d: int|
            0 <= c < chunks.len() && 0 <= d < chunks[c].choices@.len()
                && (#[trigger] chunks[c].choices@[d]).index == i
                ==> chunks[c].choices@[d].finish_reason is None,
    ensures
        ({
            let fields = crate::payload_logging_stream::says_response(payload)->Object_0;
            let choice = fields[2].1->Array_0[i]->Object_0;
            &&& fields[2].0 == "choices"@
            &&& fields[2].1 is Array
            &&& fields[2].1->Array_0[i] is Object
            &&& choice[2] == ("finish_reason"@, JsonShape::<JsonLeaf>::Null)
        }),
{
    lemma_observed_none(chunks, i);
    assert(crate::payload_logging_stream::shows_choice(
        payload.choices@[i],
        observed(chunks).choices[i],
        i,
    ));
}

/// A chat delta touches its own choice alone. It adds its texts at the end of
/// what the choice holds and replaces the reason if it gives one; choices that
/// had to be made room for are empty.
pub proof fn law_delta_extends_its_own_choice(
    choices: Seq<ChatChoice>,
    deltas: Seq<ChatChoiceDelta>,
    delta: ChatChoiceDelta,
    other: int,
)
    requires
        other != delta.index,
        0 <= other,
    ensures
        ({
            let before = crate::payload_logging_stream::choices_after(choices, deltas);
            let after = crate::payload_logging_stream::choices_after(choices, deltas.push(delta));
            let i = delta.index as int;
            let known = if i < before.len() {
                before[i].content
            } else {
                Seq::empty()
            };
            let thought = if i < before.len() {
                before[i].reasoning
            } else {
                Seq::empty()
            };
            &&& after.len() == (if before.len() > i {
                before.len() as int
            } else {
                i + 1
            })
            &&& after[i].content == known + (match delta.content {
                Some(DeltaContent::Text(text)) => text@,
                _ => Seq::empty(),
            })
            &&& after[i].reasoning == thought + (match delta.reasoning_content {
                Some(text) => text@,
                None => Seq::empty(),
            })
            &&& delta.finish_reason is Some ==> after[i].finish == delta.finish_reason
            &&& delta.finish_reason is None && i < before.len() ==> after[i].finish
                == before[i].finish
            &&& delta.finish_reason is None && i >= before.len() ==> after[i].finish is None
            &&& delta.tool_calls is None && i < before.len() ==> after[i].calls == before[i].calls
            &&& delta.tool_calls is None && i >= before.len() ==> after[i].calls == Map::<
                u32,
                ToolCall,
            >::empty()
            &&& other < before.len() ==> after[other] == before[other]
            &&& before.len() <= other < after.len() ==> {
                &&& after[other].content.len() == 0
                &&& after[other].reasoning.len() == 0
                &&& after[other].calls == Map::<u32, ToolCall>::empty()
                &&& after[other].finish is None
            }
        }),
{
    let after = crate::payload_logging_stream::choices_after(choices, deltas.push(delta));
    let before = crate::payload_logging_stream::choices_after(choices, deltas);
    let i = delta.index as int;
    assert(deltas.push(delta).drop_last() =~= deltas);
    let room = crate::payload_logging_stream::grown(before, i + 1);
    assert(after == room.update(
        i,
        crate::payload_logging_stream::choice_after(room[i], delta),
    ));
    let known = if i < before.len() {
        before[i].content
    } else {
        Seq::empty()
    };
    let thought = if i < before.len() {
        before[i].reasoning
    } else {
        Seq::empty()
    };
    assert(known + Seq::<char>::empty() =~= known);
    assert(thought + Seq::<char>::empty() =~= thought);
}

/// A tool-call delta touches its own call alone. The first identifier and the
/// first name stay, and arguments are added at the end.
pub proof fn law_call_delta_extends_its_own_call(
    calls: Map<u32, ToolCall>,
    deltas: Seq<ToolCallDelta>,
    delta: ToolCallDelta,
    other: u32,
)
    requires
        other != delta.index,
    ensures
        ({
            let before = crate::payload_logging_stream::calls_after(calls, deltas);
            let after = crate::payload_logging_stream::calls_after(calls, deltas.push(delta));
            let i = delta.index;
            let known = before.contains_key(i);
            let name = match delta.function {
                Some(function) => function.name,
                None => None,
            };
            let arguments = match delta.function {
                Some(function) => function.arguments,
                None => None,
            };
            &&& after.contains_key(i)
            &&& after.contains_key(other) == before.contains_key(other)
            &&& before.contains_key(other) ==> after[other] == before[other]
            &&& known && before[i].id is Some ==> after[i].id == before[i].id
            &&& !known || before[i].id is None ==> match delta.id {
                Some(id) => after[i].id == Some(id@),
                None => after[i].id is None,
            }
            &&& known && before[i].name is Some ==> after[i].name == before[i].name
            &&& !known || before[i].name is None ==> match name {
                Some(name) => after[i].name == Some(name@),
                None => after[i].name is None,
            }
            &&& after[i].arguments == (if known {
                before[i].arguments
            } else {
                Seq::empty()
            }) + (match arguments {
                Some(arguments) => arguments@,
                None => Seq::empty(),
            })
        }),
{
    let before = crate::payload_logging_stream::calls_after(calls, deltas);
    let i = delta.index;
    assert(deltas.push(delta).drop_last() =~= deltas);
    let known = if before.contains_key(i) {
        before[i].arguments
    } else {
        Seq::empty()
    };
    assert(known + Seq::<char>::empty() =~= known);
}

/// Tool calls of a chat delta are those of the choice with each delta taken in,
/// in order.
pub proof fn law_tool_calls_follow_their_deltas(
    choices: Seq<ChatChoice>,
    deltas: Seq<ChatChoiceDelta>,
    delta: ChatChoiceDelta,
)
    requires
        delta.tool_calls is Some,
    ensures
        ({
            let before = crate::payload_logging_stream::choices_after(choices, deltas);
            let after = crate::payload_logging_stream::choices_after(choices, deltas.push(delta));
            let i = delta.index as int;
            let known = if i < before.len() {
                before[i].calls
            } else {
                Map::empty()
            };
            after[i].calls == crate::payload_logging_stream::calls_after(
                known,
                delta.tool_calls->Some_0@,
            )
        }),
{
    assert(deltas.push(delta).drop_last() =~= deltas);
}

/// A chunk sets the identifier and the model of a response that has none yet,
/// and its usage is the response's from now on.
pub proof fn law_chunk_identifies_the_response(response: ChatResponse, chunk: ChatChunk)
    ensures
        ({
            let after = crate::payload_logging_stream::response_after(response, chunk);
            &&& response.id.len() > 0 ==> after.id == response.id
            &&& response.id.len() == 0 ==> after.id == chunk.id@
            &&& response.model.len() > 0 ==> after.model == response.model
            &&& response.model.len() == 0 ==> after.model == chunk.model@
            &&& chunk.usage is Some ==> after.usage == chunk.usage
            &&& chunk.usage is None ==> after.usage == response.usage
            &&& chunk.choices@.len() == 0 ==> after.choices == response.choices
            &&& after.choices == crate::payload_logging_stream::choices_after(
                response.choices,
                chunk.choices@,
            )
        }),
{
}

/// What is written of a response, field by field.
pub proof fn law_logged_response_says_it_all(
    payload: ChatPayload,
    response: ChatResponse,
    stream: bool,
)
    requires
        crate::payload_logging_stream::shows_response(payload, response, stream),
    ensures
        ({
            let says = crate::payload_logging_stream::says_response(payload);
            let fields = says->Object_0;
            &&& says is Object
            &&& fields.len() == (if response.usage is Some {
                5int
            } else {
                4
            })
            &&& fields[0] == ("id"@, JsonShape::<JsonLeaf>::Text(response.id))
            &&& fields[1] == ("model"@, JsonShape::<JsonLeaf>::Text(response.model))
            &&& fields[2].0 == "choices"@
            &&& fields[2].1 is Array
            &&& fields[2].1->Array_0.len() == response.choices.len()
            &&& fields[3] == ("stream"@, JsonShape::Other(JsonLeaf::Flag(stream)))
            &&& response.usage is Some ==> {
                let usage = response.usage->Some_0;
                &&& fields[4].0 == "usage"@
                &&& fields[4].1 is Object
                &&& fields[4].1->Object_0.len() == 3
                &&& fields[4].1->Object_0[0] == (
                    "prompt_tokens"@,
                    JsonShape::Other(JsonLeaf::Number(usage.prompt_tokens as u64)),
                )
                &&& fields[4].1->Object_0[1] == (
                    "completion_tokens"@,
                    JsonShape::Other(JsonLeaf::Number(usage.completion_tokens as u64)),
                )
                &&& fields[4].1->Object_0[2] == (
                    "total_tokens"@,
                    JsonShape::Other(JsonLeaf::Number(usage.total_tokens as u64)),
                )
            }
        }),
{
}

/// What is written of a choice, field by field. Reasoning and tool calls stand
/// in its message only if there are any.
pub proof fn law_logged_choice_says_it_all(
    payload: ChatPayload,
    response: ChatResponse,
    stream: bool,
    i: int,
)
    requires
        crate::payload_logging_stream::shows_response(payload, response, stream),
        0 <= i < response.choices.len(),
    ensures
        ({
            let says = crate::payload_logging_stream::says_response(payload);
            let written = says->Object_0[2].1->Array_0[i];
            let choice = response.choices[i];
            let message = written->Object_0[1].1->Object_0;
            let reasons = if choice.reasoning.len() > 0 {
                1int
            } else {
                0
            };
            &&& written is Object
            &&& written->Object_0.len() == 3
            &&& written->Object_0[0] == ("index"@, JsonShape::Other(JsonLeaf::Number(i as u64)))
            &&& written->Object_0[1].0 == "message"@
            &&& written->Object_0[1].1 is Object
            &&& message[0] == ("role"@, JsonShape::<JsonLeaf>::Text("assistant"@))
            &&& message[1] == ("content"@, JsonShape::<JsonLeaf>::Text(choice.content))
            &&& choice.reasoning.len() > 0 ==> message[2] == (
                "reasoning_content"@,
                JsonShape::<JsonLeaf>::Text(choice.reasoning),
            )
            &&& choice.calls == Map::<u32, ToolCall>::empty() ==> message.len() == 2 + reasons
            &&& choice.calls != Map::<u32, ToolCall>::empty() ==> message.len() == 3 + reasons
            &&& written->Object_0[2].0 == "finish_reason"@
            &&& written->Object_0[2].1 == (match choice.finish {
                Some(FinishReason::Stop) => JsonShape::<JsonLeaf>::Text("stop"@),
                Some(FinishReason::Length) => JsonShape::Text("length"@),
                Some(FinishReason::ToolCalls) => JsonShape::Text("tool_calls"@),
                Some(FinishReason::ContentFilter) => JsonShape::Text("content_filter"@),
                Some(FinishReason::FunctionCall) => JsonShape::Text("function_call"@),
                None => JsonShape::Null,
            })
        }),
{
    let logged = payload.choices@[i];
    let choice = response.choices[i];
    assert(crate::payload_logging_stream::shows_choice(logged, choice, i));
    let all = logged.tool_calls@;
    if all.len() == 0 {
        assert(choice.calls =~= Map::<u32, ToolCall>::empty());
    } else {
        assert(choice.calls.contains_key(all[0].index));
    }
}

/// Every tool call of a choice is written, at some place `k` of the last field
/// of its message.
pub proof fn law_every_tool_call_is_logged(
    payload: ChatPayload,
    response: ChatResponse,
    stream: bool,
    i: int,
    index: u32,
) -> (k: int)
    requires
        crate::payload_logging_stream::shows_response(payload, response, stream),
        0 <= i < response.choices.len(),
        response.choices[i].calls.contains_key(index),
    ensures
        ({
            let says = crate::payload_logging_stream::says_response(payload);
            let message = says->Object_0[2].1->Array_0[i]->Object_0[1].1->Object_0;
            let calls = message.last().1->Array_0;
            &&& message.last().0 == "tool_calls"@
            &&& message.last().1 is Array
            &&& 0 <= k < calls.len()
            &&& says_tool_call(calls[k], index, response.choices[i].calls[index])
        }),
{
    let logged = payload.choices@[i];
    let choice = response.choices[i];
    assert(crate::payload_logging_stream::shows_choice(logged, choice, i));
    let all = logged.tool_calls@;
    let k = choose|k: int| 0 <= k < all.len() && (#[trigger] all[k]).index == index;
    assert(choice.calls[all[k].index] == all[k].call());
    k
}

/// No other tool calls are written, and they stand by ascending index.
pub proof fn law_only_tool_calls_are_logged(
    payload: ChatPayload,
    response: ChatResponse,
    stream: bool,
    i: int,
    k: int,
) -> (index: u32)
    requires
        crate::payload_logging_stream::shows_response(payload, response, stream),
        0 <= i < response.choices.len(),
        response.choices[i].calls != Map::<u32, ToolCall>::empty(),
        ({
            let says = crate::payload_logging_stream::says_response(payload);
            let message = says->Object_0[2].1->Array_0[i]->Object_0[1].1->Object_0;
            0 <= k < message.last().1->Array_0.len()
        }),
    ensures
        ({
            let says = crate::payload_logging_stream::says_response(payload);
            let message = says->Object_0[2].1->Array_0[i]->Object_0[1].1->Object_0;
            let calls = message.last().1->Array_0;
            &&& response.choices[i].calls.contains_key(index)
            &&& says_tool_call(calls[k], index, response.choices[i].calls[index])
        }),
{
    let logged = payload.choices@[i];
    let choice = response.choices[i];
    assert(crate::payload_logging_stream::shows_choice(logged, choice, i));
    let all = logged.tool_calls@;
    if all.len() == 0 {
        assert(choice.calls =~= Map::<u32, ToolCall>::empty());
    }
    assert(choice.calls[all[k].index] == all[k].call());
    all[k].index
}

/// `says` is what is written of the tool call `call` under `index`.
pub open spec fn says_tool_call(
    says: JsonShape<JsonLeaf>,
    index: u32,
    call: ToolCall,
) -> bool {
    let fields = says->Object_0;
    let function = fields[3].1->Object_0;
    &&& says is Object
    &&& fields.len() == 4
    &&& fields[0] == ("index"@, JsonShape::Other(JsonLeaf::Number(index as u64)))
    &&& fields[1].0 == "id"@
    &&& fields[1].1 == (match call.id {
        Some(id) => JsonShape::<JsonLeaf>::Text(id),
        None => JsonShape::Null,
    })
    &&& fields[2] == ("type"@, JsonShape::<JsonLeaf>::Text("function"@))
    &&& fields[3].0 == "function"@
    &&& fields[3].1 is Object
    &&& function.len() == 2
    &&& function[0].0 == "name"@
    &&& function[0].1 == (match call.name {
        Some(name) => JsonShape::<JsonLeaf>::Text(name),
        None => JsonShape::Null,
    })
    &&& function[1] == ("arguments"@, JsonShape::<JsonLeaf>::Text(call.arguments))
}

/// Tool calls are written in ascending order of their indices.
pub proof fn law_logged_calls_stand_by_index(
    payload: ChatPayload,
    response: ChatResponse,
    stream: bool,
    i: int,
    j: int,
    k: int,
)
    requires
        crate::payload_logging_stream::shows_response(payload, response, stream),
        0 <= i < payload.choices@.len(),
        0 <= j < k < payload.choices@[i].tool_calls@.len(),
    ensures
        payload.choices@[i].tool_calls@[j].index < payload.choices@[i].tool_calls@[k].index,
{
    assert(crate::payload_logging_stream::shows_choice(
        payload.choices@[i],
        response.choices[i],
        i,
    ));
}

/// The text that is logged is that of a payload that shows the response, and
/// says whether it was streamed.
pub proof fn law_logged_text_shows_the_response(
    text: Seq<char>,
    response: ChatResponse,
    stream: bool,
) -> (payload: ChatPayload)
    requires
        crate::payload_logging_stream::logs_response(text, response, stream),
    ensures
        crate::payload_logging_stream::shows_response(payload, response, stream),
        payload.stream == stream,
        text == crate::json::json_text_of(crate::payload_logging_stream::says_response(payload)),
{
    choose|payload: ChatPayload| #[trigger]
        crate::payload_logging_stream::shows_response(payload, response, stream) && text
            == crate::json::json_text_of(crate::payload_logging_stream::says_response(payload))
}

/// A completion delta touches its own choice alone: its text comes at the end,
/// and a reason that it gives replaces the one before.
pub proof fn law_completion_delta_extends_its_own_choice(
    choices: Seq<CompletionChoice>,
    deltas: Seq<CompletionChoiceDelta>,
    delta: CompletionChoiceDelta,
    other: int,
)
    requires
        other != delta.index,
        0 <= other,
    ensures
        ({
            let before = crate::payload_logging_stream::completions_after(choices, deltas);
            let after = crate::payload_logging_stream::completions_after(
                choices,
                deltas.push(delta),
            );
            let i = delta.index as int;
            &&& after.len() == (if before.len() > i {
                before.len() as int
            } else {
                i + 1
            })
            &&& after[i].text == (if i < before.len() {
                before[i].text
            } else {
                Seq::empty()
            }) + delta.text@
            &&& delta.finish_reason is Some ==> after[i].finish == delta.finish_reason
            &&& delta.finish_reason is None && i < before.len() ==> after[i].finish
                == before[i].finish
            &&& delta.finish_reason is None && i >= before.len() ==> after[i].finish is None
            &&& other < before.len() ==> after[other] == before[other]
            &&& before.len() <= other < after.len() ==> after[other].text.len() == 0
                && after[other].finish is None
        }),
{
    assert(deltas.push(delta).drop_last() =~= deltas);
}

/// Completion deltas that give no reason leave the reason of a choice as it is.
proof fn lemma_completion_finish_kept(choices: Seq<CompletionChoice>, deltas: Seq<CompletionChoiceDelta>, i: int)
    requires
        0 <= i,
        forall|d: int|
            0 <= d < deltas.len() && (#[trigger] deltas[d]).index == i
                ==> deltas[d].finish_reason is None,
    ensures
        ({
            let after = crate::payload_logging_stream::completions_after(choices, deltas);
            &&& after.len() >= choices.len()
            &&& i < choices.len() ==> after[i].finish == choices[i].finish
            &&& choices.len() <= i < after.len() ==> after[i].finish is None
        }),
    decreases deltas.len(),
{
    if deltas.len() > 0 {
        let front = deltas.drop_last();
        assert forall|d: int|
            0 <= d < front.len() && (#[trigger] front[d]).index
                == i implies front[d].finish_reason is None by {
            assert(front[d] == deltas[d]);
        }
        lemma_completion_finish_kept(choices, front, i);
        assert(deltas[deltas.len() - 1] == deltas.last());
    }
}

/// The last reason that completion deltas give is the reason of the choice.
proof fn lemma_completion_finish_given(
    choices: Seq<CompletionChoice>,
    deltas: Seq<CompletionChoiceDelta>,
    i: int,
    at: int,
)
    requires
        0 <= at < deltas.len(),
        deltas[at].index == i,
        deltas[at].finish_reason is Some,
        forall|d: int|
            at < d < deltas.len() && (#[trigger] deltas[d]).index == i
                ==> deltas[d].finish_reason is None,
    ensures
        ({
            let after = crate::payload_logging_stream::completions_after(choices, deltas);
            i < after.len() && after[i].finish == deltas[at].finish_reason
        }),
    decreases deltas.len(),
{
    let front = deltas.drop_last();
    assert(deltas[deltas.len() - 1] == deltas.last());
    if at < deltas.len() - 1 {
        assert(front[at] == deltas[at]);
        assert forall|d: int|
            at < d < front.len() && (#[trigger] front[d]).index
                == i implies front[d].finish_reason is None by {
            assert(front[d] == deltas[d]);
        }
        lemma_completion_finish_given(choices, front, i, at);
    }
}

proof fn lemma_completion_observed_none(chunks: Seq<CompletionChunk>, i: int)
    requires
        0 <= i,
        forall|c: int, d: int|
            0 <= c < chunks.len() && 0 <= d < chunks[c].choices@.len()
                && (#[trigger] chunks[c].choices@[d]).index == i
                ==> chunks[c].choices@[d].finish_reason is None,
    ensures
        i < observed_completion(chunks).choices.len() ==> observed_completion(chunks).choices[i].finish is None,
    decreases chunks.len(),
{
    if chunks.len() > 0 {
        let front = chunks.drop_last();
        assert forall|c: int, d: int|
            0 <= c < front.len() && 0 <= d < front[c].choices@.len()
                && (#[trigger] front[c].choices@[d]).index
                == i implies front[c].choices@[d].finish_reason is None by {
            assert(front[c].choices@[d] == chunks[c].choices@[d]);
        }
        lemma_completion_observed_none(front, i);
        let deltas = chunks.last().choices@;
        assert forall|d: int|
            0 <= d < deltas.len() && (#[trigger] deltas[d]).index
                == i implies deltas[d].finish_reason is None by {
            assert(deltas[d] == chunks[chunks.len() - 1].choices@[d]);
        }
        lemma_completion_finish_kept(observed_completion(front).choices, deltas, i);
    }
}

proof fn lemma_completion_observed_finish(chunks: Seq<CompletionChunk>, i: int, c: int, d: int)
    requires
        0 <= c < chunks.len(),
        0 <= d < chunks[c].choices@.len(),
        chunks[c].choices@[d].index == i,
        chunks[c].choices@[d].finish_reason is Some,
        forall|c2: int, d2: int|
            0 <= c2 < chunks.len() && 0 <= d2 < chunks[c2].choices@.len()
                && (#[trigger] chunks[c2].choices@[d2]).index == i && (c < c2 || (c == c2 && d
                < d2)) ==> chunks[c2].choices@[d2].finish_reason is None,
    ensures
        i < observed_completion(chunks).choices.len(),
        observed_completion(chunks).choices[i].finish == chunks[c].choices@[d].finish_reason,
    decreases chunks.len(),
{
    let front = chunks.drop_last();
    let deltas = chunks.last().choices@;
    let last = chunks.len() - 1;
    assert(chunks.last() == chunks[last]);
    if c == last {
        assert forall|d2: int|
            d < d2 < deltas.len() && (#[trigger] deltas[d2]).index
                == i implies deltas[d2].finish_reason is None by {
            assert(deltas[d2] == chunks[last].choices@[d2]);
        }
        lemma_completion_finish_given(observed_completion(front).choices, deltas, i, d);
    } else {
        assert forall|c2: int, d2: int|
            0 <= c2 < front.len() && 0 <= d2 < front[c2].choices@.len()
                && (#[trigger] front[c2].choices@[d2]).index == i && (c < c2 || (c == c2 && d
                < d2)) implies front[c2].choices@[d2].finish_reason is None by {
            assert(front[c2].choices@[d2] == chunks[c2].choices@[d2]);
        }
        assert(front[c].choices@[d] == chunks[c].choices@[d]);
        lemma_completion_observed_finish(front, i, c, d);
        assert forall|d2: int|
            0 <= d2 < deltas.len() && (#[trigger] deltas[d2]).index
                == i implies deltas[d2].finish_reason is None by {
            assert(deltas[d2] == chunks[last].choices@[d2]);
        }
        lemma_completion_finish_kept(observed_completion(front).choices, deltas, i);
    }
}

/// The logged reason of a completion is the last one that any chunk gave for it,
/// by its name on the wire. The delta at `d` of the chunk at `c` is the one that
/// gave it.
pub proof fn law_last_completion_reason_is_logged(
    chunks: Seq<CompletionChunk>,
    payload: CompletionPayload,
    stream: bool,
    i: int,
    c: int,
    d: int,
)
    requires
        crate::payload_logging_stream::shows_completion(payload, observed_completion(chunks), stream),
        0 <= c < chunks.len(),
        0 <= d < chunks[c].choices@.len(),
        chunks[c].choices@[d].index == i,
        chunks[c].choices@[d].finish_reason is Some,
        forall|c2: int, d2: int|
            0 <= c2 < chunks.len() && 0 <= d2 < chunks[c2].choices@.len()
                && (#[trigger] chunks[c2].choices@[d2]).index == i && (c < c2 || (c == c2 && d
                < d2)) ==> chunks[c2].choices@[d2].finish_reason is None,
    ensures
        ({
            let fields = crate::payload_logging_stream::says_completion(payload)->Object_0;
            let choices = fields[2].1->Array_0;
            let choice = choices[i]->Object_0;
            &&& crate::payload_logging_stream::says_completion(payload) is Object
            &&& fields.len() > 2
            &&& fields[2].0 == "choices"@
            &&& fields[2].1 is Array
            &&& i < choices.len()
            &&& choices[i] is Object
            &&& choice.len() == 3
            &&& choice[2].0 == "finish_reason"@
            &&& choice[2].1 == JsonShape::<JsonLeaf>::Text(
                match chunks[c].choices@[d].finish_reason->Some_0 {
                    FinishReason::Stop => "stop"@,
                    FinishReason::Length => "length"@,
                    FinishReason::ToolCalls => "tool_calls"@,
                    FinishReason::ContentFilter => "content_filter"@,
                    FinishReason::FunctionCall => "function_call"@,
                },
            )
        }),
{
    lemma_completion_observed_finish(chunks, i, c, d);
}

/// Without a reason in any chunk, a completion is logged with `null` in its place.
pub proof fn law_missing_completion_reason_is_null(
    chunks: Seq<CompletionChunk>,
    payload: CompletionPayload,
    stream: bool,
    i: int,
)
    requires
        crate::payload_logging_stream::shows_completion(payload, observed_completion(chunks), stream),
        0 <= i < payload.choices@.len(),
        forall|c: int, d: int|
            0 <= c < chunks.len() && 0 <= d < chunks[c].choices@.len()
                && (#[trigger] chunks[c].choices@[d]).index == i
                ==> chunks[c].choices@[d].finish_reason is None,
    ensures
        ({
            let fields = crate::payload_logging_stream::says_completion(payload)->Object_0;
            let choice = fields[2].1->Array_0[i]->Object_0;
            &&& fields[2].0 == "choices"@
            &&& fields[2].1 is Array
            &&& fields[2].1->Array_0[i] is Object
            &&& choice[2] == ("finish_reason"@, JsonShape::<JsonLeaf>::Null)
        }),
{
    lemma_completion_observed_none(chunks, i);
}

/// A chunk sets the identifier and the model of a completion that has none yet,
/// and its usage is the completion's from now on.
pub proof fn law_chunk_identifies_the_completion(
    response: CompletionResponse,
    chunk: CompletionChunk,
)
    ensures
        ({
            let after = crate::payload_logging_stream::completion_after(response, chunk);
            &&& response.id.len() > 0 ==> after.id == response.id
            &&& response.id.len() == 0 ==> after.id == chunk.id@
            &&& response.model.len() > 0 ==> after.model == response.model
            &&& response.model.len() == 0 ==> after.model == chunk.model@
            &&& chunk.usage is Some ==> after.usage == chunk.usage
            &&& chunk.usage is None ==> after.usage == response.usage
            &&& after.choices == crate::payload_logging_stream::completions_after(
                response.choices,
                chunk.choices@,
            )
        }),
{
}

/// What is written of a completion, field by field.
pub proof fn law_logged_completion_says_it_all(
    payload: CompletionPayload,
    response: CompletionResponse,
    stream: bool,
    i: int,
)
    requires
        crate::payload_logging_stream::shows_completion(payload, response, stream),
    ensures
        ({
            let says = crate::payload_logging_stream::says_completion(payload);
            let fields = says->Object_0;
            let written = fields[2].1->Array_0[i];
            let choice = response.choices[i];
            &&& says is Object
            &&& fields.len() == (if response.usage is Some {
                5int
            } else {
                4
            })
            &&& fields[0] == ("id"@, JsonShape::<JsonLeaf>::Text(response.id))
            &&& fields[1] == ("model"@, JsonShape::<JsonLeaf>::Text(response.model))
            &&& fields[2].0 == "choices"@
            &&& fields[2].1 is Array
            &&& fields[2].1->Array_0.len() == response.choices.len()
            &&& fields[3] == ("stream"@, JsonShape::Other(JsonLeaf::Flag(stream)))
            &&& response.usage is Some ==> {
                let usage = response.usage->Some_0;
                &&& fields[4].0 == "usage"@
                &&& fields[4].1 is Object
                &&& fields[4].1->Object_0.len() == 3
                &&& fields[4].1->Object_0[0] == (
                    "prompt_tokens"@,
                    JsonShape::Other(JsonLeaf::Number(usage.prompt_tokens as u64)),
                )
                &&& fields[4].1->Object_0[1] == (
                    "completion_tokens"@,
                    JsonShape::Other(JsonLeaf::Number(usage.completion_tokens as u64)),
                )
                &&& fields[4].1->Object_0[2] == (
                    "total_tokens"@,
                    JsonShape::Other(JsonLeaf::Number(usage.total_tokens as u64)),
                )
            }
            &&& 0 <= i < response.choices.len() ==> {
                &&& written is Object
                &&& written->Object_0.len() == 3
                &&& written->Object_0[0] == (
                    "index"@,
                    JsonShape::Other(JsonLeaf::Number(i as u64)),
                )
                &&& written->Object_0[1] == ("text"@, JsonShape::<JsonLeaf>::Text(choice.text))
                &&& written->Object_0[2].0 == "finish_reason"@
                &&& written->Object_0[2].1 == (match choice.finish {
                    Some(FinishReason::Stop) => JsonShape::<JsonLeaf>::Text("stop"@),
                    Some(FinishReason::Length) => JsonShape::Text("length"@),
                    Some(FinishReason::ToolCalls) => JsonShape::Text("tool_calls"@),
                    Some(FinishReason::ContentFilter) => JsonShape::Text("content_filter"@),
                    Some(FinishReason::FunctionCall) => JsonShape::Text("function_call"@),
                    None => JsonShape::Null,
                })
            }
        }),
{
}

/// The text that is logged of a completion is that of a payload that shows it.
pub proof fn law_logged_text_shows_the_completion(
    text: Seq<char>,
    response: CompletionResponse,
    stream: bool,
) -> (payload: CompletionPayload)
    requires
        crate::payload_logging_stream::logs_completion(text, response, stream),
    ensures
        crate::payload_logging_stream::shows_completion(payload, response, stream),
        payload.stream == stream,
        text == crate::json::json_text_of(crate::payload_logging_stream::says_completion(payload)),
{
    choose|payload: CompletionPayload| #[trigger]
        crate::payload_logging_stream::shows_completion(payload, response, stream) && text
            == crate::json::json_text_of(crate::payload_logging_stream::says_completion(payload))
}

/// A response of which nothing was observed is empty.
pub proof fn law_nothing_observed_is_nothing_known()
    ensures
        ({
            let blank = crate::payload_logging_stream::blank_response();
            let none = crate::payload_logging_stream::blank_completion();
            &&& blank.id.len() == 0 && blank.model.len() == 0 && blank.choices.len() == 0
            &&& blank.usage is None
            &&& none.id.len() == 0 && none.model.len() == 0 && none.choices.len() == 0
            &&& none.usage is None
        }),
{
}

} // verus!
