//! Prompt and response payload logging.
//!
//! When logging is enabled, two records are emitted per request:
//! - `openai.request`, on request arrival, with the request headers and payload;
//! - `openai.response`, after the last token is sent or on client disconnect,
//!   with the assembled response payload.

use crate::json::{json_text, write_json, Json, JsonObject, JsonShape, Says};
use vstd::prelude::*;

verus! {

/// Environment variable to enable payload logging. Set to `1`, `true`, `on`, or `yes`.
pub const DYN_LOG_PAYLOADS: &'static str = "DYN_LOG_PAYLOADS";

/// Which values of a switch turn it on.
pub open spec fn truthy(value: Seq<char>) -> bool {
    let folded = crate::text::lowered(value);
    folded == "1"@ || folded == "true"@ || folded == "on"@ || folded == "yes"@
}

/// Whether the value of a switch turns it on.
pub fn is_truthy(value: &str) -> (on: bool)
    ensures
        on == truthy(value@),
{
    let folded = crate::text::lower(value);
    let folded: &str = folded.as_str();
    crate::text::same_text(folded, "1") || crate::text::same_text(folded, "true")
        || crate::text::same_text(folded, "on") || crate::text::same_text(folded, "yes")
}

/// The target of both records. Consoles leave it out, so that payloads are only
/// exported.
pub const PAYLOAD_LOG_TARGET: &'static str = "dynamo_payload";

/// An `openai.request` record.
pub struct RequestLog<P> {
    pub target: &'static str,
    pub rid: String,
    pub endpoint: &'static str,
    pub payload: P,
    pub headers: String,
}

/// An `openai.response` record.
pub struct ResponseLog<P> {
    pub target: &'static str,
    pub rid: String,
    pub endpoint: &'static str,
    pub payload: P,
}

/// Decides which payload records are emitted.
#[derive(Clone, Copy, Debug, PartialEq, Eq, Structural)]
pub struct PayloadLogger {
    enabled: bool,
}

impl PayloadLogger {
    pub closed spec fn on(&self) -> bool {
        self.enabled
    }

    /// Create a logger from the value of `DYN_LOG_PAYLOADS`, if it is set.
    pub fn new(setting: Option<&str>) -> (logger: Self)
        ensures
            logger.on() == (setting is Some && truthy(setting->Some_0@)),
    {
        PayloadLogger {
            enabled: match setting {
                Some(value) => is_truthy(value),
                None => false,
            },
        }
    }

    /// Returns `true` if payload logging is enabled.
    pub fn is_enabled(&self) -> (enabled: bool)
        ensures
            enabled == self.on(),
    {
        self.enabled
    }

    /// The `openai.request` log record of a request, if it is logged.
    ///
    /// - `rid`: request ID (e.g., `"chatcmpl-<uuid>"`)
    /// - `endpoint`: one of `"OpenAIServingChat"`, `"OpenAIServingCompletions"`,
    ///   `"OpenAIServingResponses"`
    /// - `payload`: request body
    /// - `headers`: JSON-serialized request headers (sensitive headers must be pre-filtered)
    pub fn log_request<P>(
        &self,
        rid: &str,
        endpoint: &'static str,
        payload: P,
        headers: &str,
    ) -> (record: Option<RequestLog<P>>)
        ensures
            record is Some <==> self.on(),
            record is Some ==> {
                &&& record->Some_0.target@ == "dynamo_payload"@
                &&& record->Some_0.rid@ == rid@
                &&& record->Some_0.endpoint == endpoint
                &&& record->Some_0.payload == payload
                &&& record->Some_0.headers@ == headers@
            },
    {
        if !self.enabled {
            return None;
        }
        Some(
            RequestLog {
                target: PAYLOAD_LOG_TARGET,
                rid: rid.to_owned(),
                endpoint,
                payload,
                headers: headers.to_owned(),
            },
        )
    }

    /// The `openai.response` log record of a request, if it is logged.
    ///
    /// For streaming responses this is called once after the stream is exhausted (or on
    /// client disconnect), not per chunk.
    pub fn log_response<P>(&self, rid: &str, endpoint: &'static str, payload: P) -> (record: Option<
        ResponseLog<P>,
    >)
        ensures
            record is Some <==> self.on(),
            record is Some ==> {
                &&& record->Some_0.target@ == "dynamo_payload"@
                &&& record->Some_0.rid@ == rid@
                &&& record->Some_0.endpoint == endpoint
                &&& record->Some_0.payload == payload
            },
    {
        if !self.enabled {
            return None;
        }
        Some(ResponseLog { target: PAYLOAD_LOG_TARGET, rid: rid.to_owned(), endpoint, payload })
    }
}

/// One header line of a request.
#[derive(Debug)]
pub struct HeaderLine {
    pub name: String,
    pub value: Vec<u8>,
}

/// Headers that are never logged.
pub open spec fn sensitive(name: Seq<char>) -> bool {
    name == "authorization"@ || name == "cookie"@ || name == "set-cookie"@
}

/// What the lines up to a point show: visible values of headers that may be
/// logged; a later line of the same name replaces an earlier one.
pub open spec fn shown(lines: Seq<HeaderLine>) -> Map<Seq<char>, Seq<char>>
    decreases lines.len(),
{
    if lines.len() == 0 {
        Map::empty()
    } else {
        let line = lines.last();
        let before = shown(lines.drop_last());
        if sensitive(line.name@) || !crate::text::all_visible(line.value@) {
            before
        } else {
            before.insert(line.name@, crate::text::spelled(line.value@))
        }
    }
}

/// A name and its value.
pub type Field = (String, String);

/// The fields as plain texts.
pub open spec fn texts(fields: Seq<Field>) -> Seq<(Seq<char>, Seq<char>)> {
    fields.map_values(|field: Field| (field.0@, field.1@))
}

/// The fields stand in the order of their names, without repetition.
pub open spec fn in_order(fields: Seq<(Seq<char>, Seq<char>)>) -> bool {
    forall|i: int, j: int|
        0 <= i < j < fields.len() ==> crate::text::comes_before(
            (#[trigger] fields[i]).0,
            (#[trigger] fields[j]).0,
        )
}

/// The fields list exactly the entries of `map`.
pub open spec fn spells_out(
    fields: Seq<(Seq<char>, Seq<char>)>,
    map: Map<Seq<char>, Seq<char>>,
) -> bool {
    &&& in_order(fields)
    &&& forall|i: int|
        0 <= i < fields.len() ==> map.contains_key((#[trigger] fields[i]).0) && map[fields[i].0]
            == fields[i].1
    &&& forall|name: Seq<char>| #[trigger]
        map.contains_key(name) ==> exists|i: int|
            0 <= i < fields.len() && (#[trigger] fields[i]).0 == name
}

/// What an object of these fields says.
pub open spec fn says_fields(fields: Seq<(Seq<char>, Seq<char>)>) -> Says {
    JsonShape::Object(
        fields.map_values(
            |field: (Seq<char>, Seq<char>)| (field.0, crate::json::says_text(field.1)),
        ),
    )
}

/// The fields as a JSON object.
pub fn fields_json(fields: &Vec<Field>) -> (json: Json)
    ensures
        crate::json::shape(json) == says_fields(texts(fields@)),
{
    let mut object = JsonObject::new();
    let mut i: usize = 0;
    assert(object@ =~= says_fields(texts(fields@.take(0)))->Object_0);
    while i < fields.len()
        invariant
            i <= fields@.len(),
            object@ == says_fields(texts(fields@.take(i as int)))->Object_0,
        decreases fields@.len() - i,
    {
        object = object.with(fields[i].0.as_str(), json_text(fields[i].1.as_str()));
        assert(object@ =~= says_fields(texts(fields@.take(i + 1)))->Object_0);
        i = i + 1;
    }
    assert(fields@.take(i as int) =~= fields@);
    object.finish()
}

/// Sets a field, keeping the order.
fn set_field(fields: &mut Vec<Field>, name: String, value: String, map: Ghost<
    Map<Seq<char>, Seq<char>>,
>)
    requires
        spells_out(texts(old(fields)@), map@),
    ensures
        spells_out(texts(final(fields)@), map@.insert(name@, value@)),
{
    let ghost before = texts(fields@);
    let ghost n = name@;
    let ghost v = value@;
    let mut at: usize = 0;
    while at < fields.len() && crate::text::is_before(fields[at].0.as_str(), name.as_str())
        invariant
            at <= fields@.len(),
            texts(fields@) == before,
            name@ == n,
            forall|j: int| 0 <= j < at ==> crate::text::comes_before((#[trigger] before[j]).0, n),
        decreases fields@.len() - at,
    {
        assert(before[at as int].0 == fields@[at as int].0@);
        at = at + 1;
    }
    if at < fields.len() && fields[at].0 == name {
        proof {
            assert(before[at as int].0 == n);
        }
        fields.set(at, (name, value));
        proof {
            let after = texts(fields@);
            assert(after =~= before.update(at as int, (n, v)));
            assert forall|i: int| 0 <= i < after.len() implies map@.insert(n, v).contains_key(
                (#[trigger] after[i]).0,
            ) && map@.insert(n, v)[after[i].0] == after[i].1 by {
                if i != at {
                    assert(after[i] == before[i]);
                    if i < at {
                        crate::text::lemma_order_is_total(before[i].0, n);
                    } else {
                        assert(crate::text::comes_before(before[at as int].0, before[i].0));
                        crate::text::lemma_order_is_total(before[i].0, n);
                    }
                }
            }
            assert(in_order(after)) by {
                assert forall|i: int, j: int|
                    0 <= i < j < after.len() implies crate::text::comes_before(
                    (#[trigger] after[i]).0,
                    (#[trigger] after[j]).0,
                ) by {
                    assert(after[i].0 == before[i].0 && after[j].0 == before[j].0);
                }
            }
            assert forall|other: Seq<char>| #[trigger]
                map@.insert(n, v).contains_key(other) implies exists|i: int|
                0 <= i < after.len() && (#[trigger] after[i]).0 == other by {
                if other == n {
                    assert(after[at as int].0 == n);
                } else {
                    let i = choose|i: int| 0 <= i < before.len() && (#[trigger] before[i]).0 == other;
                    assert(after[i].0 == other);
                }
            }
        }
    } else {
        proof {
            if at < before.len() {
                assert(before[at as int].0 == fields@[at as int].0@);
                crate::text::lemma_order_is_total(before[at as int].0, n);
            }
            assert forall|j: int| at <= j < before.len() implies crate::text::comes_before(
                n,
                (#[trigger] before[j]).0,
            ) by {
                if j > at {
                    assert(crate::text::comes_before(before[at as int].0, before[j].0));
                    crate::text::lemma_order_is_transitive(n, before[at as int].0, before[j].0);
                }
            }
        }
        fields.insert(at, (name, value));
        proof {
            let after = texts(fields@);
            assert(after =~= before.insert(at as int, (n, v)));
            assert forall|i: int| 0 <= i < after.len() implies map@.insert(n, v).contains_key(
                (#[trigger] after[i]).0,
            ) && map@.insert(n, v)[after[i].0] == after[i].1 by {
                if i < at {
                    assert(after[i] == before[i]);
                    crate::text::lemma_order_is_total(before[i].0, n);
                } else if i > at {
                    assert(after[i] == before[i - 1]);
                    crate::text::lemma_order_is_total(before[i - 1].0, n);
                }
            }
            assert(in_order(after)) by {
                assert forall|i: int, j: int|
                    0 <= i < j < after.len() implies crate::text::comes_before(
                    (#[trigger] after[i]).0,
                    (#[trigger] after[j]).0,
                ) by {
                    let x = if i < at { i } else { i - 1 };
                    let y = if j < at { j } else { j - 1 };
                    if i != at {
                        assert(after[i] == before[x]);
                    }
                    if j != at {
                        assert(after[j] == before[y]);
                    }
                }
            }
            assert forall|other: Seq<char>| #[trigger]
                map@.insert(n, v).contains_key(other) implies exists|i: int|
                0 <= i < after.len() && (#[trigger] after[i]).0 == other by {
                if other == n {
                    assert(after[at as int].0 == n);
                } else {
                    let i = choose|i: int| 0 <= i < before.len() && (#[trigger] before[i]).0 == other;
                    let k = if i < at { i } else { i + 1 };
                    assert(after[k].0 == other);
                }
            }
        }
    }
}

/// The headers that may be logged, by name.
pub fn loggable_headers(lines: &Vec<HeaderLine>) -> (fields: Vec<Field>)
    ensures
        spells_out(texts(fields@), shown(lines@)),
{
    let mut fields: Vec<Field> = Vec::new();
    let mut i: usize = 0;
    while i < lines.len()
        invariant
            i <= lines@.len(),
            spells_out(texts(fields@), shown(lines@.take(i as int))),
        decreases lines@.len() - i,
    {
        let line = &lines[i];
        assert(lines@.take(i + 1).drop_last() =~= lines@.take(i as int));
        let name: &str = line.name.as_str();
        let hidden: bool = crate::text::same_text(name, "authorization") || crate::text::same_text(
            name,
            "cookie",
        ) || crate::text::same_text(name, "set-cookie");
        if !hidden {
            if let Some(value) = crate::text::visible_text(&line.value) {
                set_field(
                    &mut fields,
                    line.name.clone(),
                    value,
                    Ghost(shown(lines@.take(i as int))),
                );
            }
        }
        i = i + 1;
    }
    assert(lines@.take(lines@.len() as int) =~= lines@);
    fields
}

/// Serialize headers to a compact JSON string, filtering sensitive headers.
///
/// Excluded headers: `authorization`, `cookie`, `set-cookie`.
/// Values that are not visible text are silently dropped.
pub fn headers_to_json(lines: &Vec<HeaderLine>) -> (text: String)
    ensures
        exists|fields: Seq<(Seq<char>, Seq<char>)>| #[trigger]
            spells_out(fields, shown(lines@)) && text@ == crate::json::json_text_of(
                says_fields(fields),
            ),
{
    let fields = loggable_headers(lines);
    assert(spells_out(texts(fields@), shown(lines@)));
    write_json(&fields_json(&fields))
}

/// No sensitive header is ever shown, whatever the lines hold.
pub proof fn law_sensitive_headers_stay_hidden(lines: Seq<HeaderLine>, name: Seq<char>)
    requires
        sensitive(name),
    ensures
        !shown(lines).contains_key(name),
    decreases lines.len(),
{
    if lines.len() > 0 {
        law_sensitive_headers_stay_hidden(lines.drop_last(), name);
    }
}

} // verus!
