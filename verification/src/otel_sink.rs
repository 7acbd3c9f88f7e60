//! What of an audit record is exported as an OTLP log record, and how its HTTP
//! headers are shown.

use crate::audit::{AuditEventType, AuditHttpRequestHeaders, AuditRecord, HttpHeader};
use crate::json::{
    add_item, json_array, json_flag, json_number, json_text, write_json, Json, JsonObject,
    JsonShape, Says,
};
use vstd::prelude::*;
use vstd::string::*;
use vstd::utf8::*;

verus! {

pub const DEFAULT_OTEL_SERDE_THREADS: usize = 2;

pub const DEFAULT_OTLP_HTTP_LOGS_ENDPOINT: &'static str = "http://localhost:4318/v1/logs";

pub const DEFAULT_OTLP_GRPC_ENDPOINT: &'static str = "http://localhost:4317";

pub const DEFAULT_HTTP_HEADER_VALUE_MAX_BYTES: usize = 4_096;

pub const DEFAULT_HTTP_HEADERS_MAX_BYTES: usize = 65_536;

pub const REDACTED_HEADER_VALUE: &'static str = "[REDACTED]";

/// Logical endpoint label, so that other endpoints can be told apart without
/// changing the body.
pub const AUDIT_ENDPOINT_CHAT_COMPLETION: &'static str = "openai.chat_completion";

/// Instrumentation scope name on the emitted log record.
pub const AUDIT_INSTRUMENTATION_SCOPE: &'static str = "dynamo.payload";

/// Default service name.
pub const DEFAULT_SERVICE_NAME: &'static str = "dynamo";

/// Headers whose values are never shown.
pub open spec fn redacted_by_default(name: Seq<char>) -> bool {
    ||| name == "authorization"@
    ||| name == "proxy-authorization"@
    ||| name == "cookie"@
    ||| name == "set-cookie"@
    ||| name == "api-key"@
    ||| name == "apikey"@
    ||| name == "x-api-key"@
    ||| name == "openai-api-key"@
    ||| name == "x-openai-api-key"@
    ||| name == "x-auth-token"@
    ||| name == "x-access-token"@
    ||| name == "x-csrf-token"@
    ||| name == "x-xsrf-token"@
    ||| name == "x-amz-security-token"@
}

fn is_redacted_by_default(name: &str) -> (yes: bool)
    ensures
        yes == redacted_by_default(name@),
{
    crate::text::same_text(name, "authorization") || crate::text::same_text(
        name,
        "proxy-authorization",
    ) || crate::text::same_text(name, "cookie") || crate::text::same_text(name, "set-cookie")
        || crate::text::same_text(name, "api-key") || crate::text::same_text(name, "apikey")
        || crate::text::same_text(name, "x-api-key") || crate::text::same_text(
        name,
        "openai-api-key",
    ) || crate::text::same_text(name, "x-openai-api-key") || crate::text::same_text(
        name,
        "x-auth-token",
    ) || crate::text::same_text(name, "x-access-token") || crate::text::same_text(
        name,
        "x-csrf-token",
    ) || crate::text::same_text(name, "x-xsrf-token") || crate::text::same_text(
        name,
        "x-amz-security-token",
    )
}

/// A name that sounds like a secret, outside the exempt prefix.
pub open spec fn sounds_secret(name: Seq<char>) -> bool {
    &&& !crate::text::stands_at(name, "nvcf-"@, 0)
    &&& {
        ||| crate::text::holds_fragment(name, "token"@)
        ||| crate::text::holds_fragment(name, "secret"@)
        ||| crate::text::holds_fragment(name, "password"@)
        ||| crate::text::holds_fragment(name, "credential"@)
    }
}

/// What separates names in a list.
pub open spec fn separates(c: char) -> bool {
    c == ',' || crate::text::white_space(c)
}

/// `raw[from..to]` is a name in a list.
pub open spec fn piece(raw: Seq<char>, from: int, to: int) -> bool {
    &&& 0 <= from < to <= raw.len()
    &&& from == 0 || separates(raw[from - 1])
    &&& to == raw.len() || separates(raw[to])
    &&& forall|i: int| from <= i < to ==> !separates(#[trigger] raw[i])
}

/// `name` is in a list, in any case.
pub open spec fn listed(raw: Seq<char>, name: Seq<char>) -> bool {
    exists|from: int, to: int| #[trigger]
        piece(raw, from, to) && name == crate::text::lowered(raw.subrange(from, to))
}

/// Some of the names.
pub open spec fn among(names: Seq<String>, name: Seq<char>) -> bool {
    exists|i: int| 0 <= i < names.len() && (#[trigger] names[i])@ == name
}

/// Which headers are shown, and how much of them.
#[derive(Debug)]
pub struct OtelHeaderPolicy {
    redact_names: Vec<String>,
    max_value_bytes: usize,
    max_total_bytes: usize,
}

/// The names in a list, in lower case.
fn names_of(raw: &str) -> (names: Vec<String>)
    ensures
        forall|name: Seq<char>| #[trigger] among(names@, name) <==> listed(raw@, name),
{
    let chars = crate::text::chars_of(raw);
    let ghost all = raw@;
    let mut names: Vec<String> = Vec::new();
    let mut from: usize = 0;
    let mut i: usize = 0;
    while i < chars.len()
        invariant
            from <= i <= chars@.len(),
            chars@ == all,
            all == raw@,
            from == 0 || separates(all[from - 1]),
            forall|k: int| from <= k < i ==> !separates(#[trigger] all[k]),
            forall|name: Seq<char>| #[trigger]
                among(names@, name) ==> exists|a: int, b: int| #[trigger]
                    piece(all, a, b) && name == crate::text::lowered(all.subrange(a, b)),
            forall|a: int, b: int| #[trigger]
                piece(all, a, b) && b < from ==> among(
                    names@,
                    crate::text::lowered(all.subrange(a, b)),
                ),
        decreases chars@.len() - i,
    {
        let c = chars[i];
        if c == ',' || crate::text::is_white_space(c) {
            let ghost before = names@;
            if from < i {
                let word = crate::text::text_between(&chars, from, i);
                let name = crate::text::lower(word.as_str());
                let ghost text = name@;
                assert(piece(all, from as int, i as int));
                names.push(name);
                proof {
                    assert forall|n: Seq<char>| #[trigger] among(names@, n) implies exists|
                        a: int,
                        b: int,
                    | #[trigger]
                        piece(all, a, b) && n == crate::text::lowered(all.subrange(a, b)) by {
                        let k = choose|k: int| 0 <= k < names@.len() && (#[trigger] names@[k])@ == n;
                        if k < before.len() {
                            assert(before[k]@ == n);
                            assert(among(before, n));
                        }
                    }
                }
            }
            proof {
                assert forall|a: int, b: int| #[trigger] piece(all, a, b) && b < i + 1 implies among(
                    names@,
                    crate::text::lowered(all.subrange(a, b)),
                ) by {
                    let n = crate::text::lowered(all.subrange(a, b));
                    if b < from {
                        assert(among(before, n));
                        let k = choose|k: int| 0 <= k < before.len() && (#[trigger] before[k])@ == n;
                        assert(names@[k]@ == n);
                    } else {
                        // The piece ends at a separator from `from` on: only at `i`.
                        if b < i {
                            assert(separates(all[b]));
                        }
                        assert(b == i);
                        if a < from {
                            assert(!separates(all[from - 1]));
                        }
                        if a > from {
                            assert(separates(all[a - 1]));
                        }
                        assert(a == from);
                        assert(names@[names@.len() - 1]@ == n);
                    }
                }
            }
            from = i + 1;
        }
        i = i + 1;
    }
    let ghost before = names@;
    if from < chars.len() {
        let word = crate::text::text_between(&chars, from, chars.len());
        let name = crate::text::lower(word.as_str());
        names.push(name);
        assert(piece(all, from as int, all.len() as int));
    }
    proof {
        assert forall|n: Seq<char>| #[trigger] among(names@, n) implies listed(raw@, n) by {
            let k = choose|k: int| 0 <= k < names@.len() && (#[trigger] names@[k])@ == n;
            if k < before.len() {
                assert(before[k]@ == n);
                assert(among(before, n));
            }
        }
        assert forall|n: Seq<char>| listed(raw@, n) implies #[trigger] among(names@, n) by {
            let (a, b) = choose|a: int, b: int| #[trigger]
                piece(all, a, b) && n == crate::text::lowered(all.subrange(a, b));
            if b < from {
                assert(among(before, n));
                let k = choose|k: int| 0 <= k < before.len() && (#[trigger] before[k])@ == n;
                assert(names@[k]@ == n);
            } else {
                if b < all.len() {
                    assert(separates(all[b]));
                }
                if a < from {
                    assert(!separates(all[from - 1]));
                }
                if a > from {
                    assert(separates(all[a - 1]));
                }
                assert(a == from && b == all.len());
                assert(names@[names@.len() - 1]@ == n);
            }
        }
    }
    names
}

impl OtelHeaderPolicy {
    /// The names that are redacted besides the default ones.
    pub closed spec fn extra(&self, name: Seq<char>) -> bool {
        among(self.redact_names@, name)
    }

    pub closed spec fn value_limit(&self) -> usize {
        self.max_value_bytes
    }

    pub closed spec fn total_limit(&self) -> usize {
        self.max_total_bytes
    }

    /// A header whose value is not shown.
    pub open spec fn redacts(&self, name: Seq<char>) -> bool {
        redacted_by_default(name) || self.extra(name) || sounds_secret(name)
    }

    /// The policy with the further names of a setting.
    pub fn from_setting(redact_list: Option<&str>) -> (policy: Self)
        ensures
            policy.value_limit() == 4096,
            policy.total_limit() == 65_536,
            forall|name: Seq<char>| #[trigger]
                policy.extra(name) <==> redact_list is Some && listed(
                    redact_list->Some_0@,
                    name,
                ),
    {
        let redact_names = match redact_list {
            Some(raw) => names_of(raw),
            None => Vec::new(),
        };
        OtelHeaderPolicy {
            redact_names,
            max_value_bytes: DEFAULT_HTTP_HEADER_VALUE_MAX_BYTES,
            max_total_bytes: DEFAULT_HTTP_HEADERS_MAX_BYTES,
        }
    }

    /// A policy with other limits.
    pub fn with_limits(self, max_value_bytes: usize, max_total_bytes: usize) -> (policy: Self)
        ensures
            policy.value_limit() == max_value_bytes,
            policy.total_limit() == max_total_bytes,
            forall|name: Seq<char>| #[trigger] policy.extra(name) == self.extra(name),
    {
        OtelHeaderPolicy { redact_names: self.redact_names, max_value_bytes, max_total_bytes }
    }

    pub fn should_redact(&self, name: &str) -> (yes: bool)
        ensures
            yes == self.redacts(name@),
    {
        if is_redacted_by_default(name) {
            return true;
        }
        let mut i: usize = 0;
        while i < self.redact_names.len()
            invariant
                i <= self.redact_names@.len(),
                forall|j: int| 0 <= j < i ==> (#[trigger] self.redact_names@[j])@ != name@,
            decreases self.redact_names@.len() - i,
        {
            if crate::text::same_text(self.redact_names[i].as_str(), name) {
                return true;
            }
            i = i + 1;
        }
        !crate::text::starts_with(name, "nvcf-") && (crate::text::contains(name, "token")
            || crate::text::contains(name, "secret") || crate::text::contains(name, "password")
            || crate::text::contains(name, "credential"))
    }
}

impl Default for OtelHeaderPolicy {
    fn default() -> (policy: Self)
        ensures
            policy.value_limit() == 4096,
            policy.total_limit() == 65_536,
            forall|name: Seq<char>| !#[trigger] policy.extra(name),
    {
        OtelHeaderPolicy::from_setting(None)
    }
}

/// How a header value is shown.
pub open spec fn shown_value(policy: OtelHeaderPolicy, name: Seq<char>, value: Seq<u8>) -> Seq<
    char,
> {
    if policy.redacts(name) {
        "[REDACTED]"@
    } else if value.len() > policy.value_limit() {
        "[TRUNCATED: bytes="@ + crate::text::decimal(value.len()) + "]"@
    } else if crate::text::all_visible(value) {
        crate::text::spelled(value)
    } else {
        "[NON_UTF8: bytes="@ + crate::text::decimal(value.len()) + "]"@
    }
}

pub fn render_header_value(name: &str, value: &Vec<u8>, policy: &OtelHeaderPolicy) -> (text: String)
    ensures
        text@ == shown_value(*policy, name@, value@),
{
    if policy.should_redact(name) {
        return REDACTED_HEADER_VALUE.to_owned();
    }
    if value.len() > policy.max_value_bytes {
        let mut text = "[TRUNCATED: bytes=".to_owned();
        text.append(crate::text::render_number(value.len() as u64).as_str());
        text.append("]");
        return text;
    }
    match crate::text::visible_text(value) {
        Some(text) => text,
        None => {
            let mut text = "[NON_UTF8: bytes=".to_owned();
            text.append(crate::text::render_number(value.len() as u64).as_str());
            text.append("]");
            text
        },
    }
}

/// A header as it is shown.
#[derive(Debug)]
pub struct ShownHeader {
    pub name: String,
    pub values: Vec<String>,
}

/// The headers of a request as they are shown.
#[derive(Debug)]
pub struct ShownHeaders {
    pub headers: Vec<ShownHeader>,
    pub headers_truncated: bool,
}

/// The bytes that one value takes.
pub open spec fn value_cost(policy: OtelHeaderPolicy, name: Seq<char>, value: Seq<u8>) -> int {
    encode_utf8(name).len() as int + encode_utf8(shown_value(policy, name, value)).len()
}

/// The bytes that values take.
pub open spec fn values_cost(
    policy: OtelHeaderPolicy,
    name: Seq<char>,
    values: Seq<Vec<u8>>,
) -> int
    decreases values.len(),
{
    if values.len() == 0 {
        0
    } else {
        values_cost(policy, name, values.drop_last()) + value_cost(policy, name, values.last()@)
    }
}

/// The bytes that headers take.
pub open spec fn headers_cost(policy: OtelHeaderPolicy, headers: Seq<HttpHeader>) -> int
    decreases headers.len(),
{
    if headers.len() == 0 {
        0
    } else {
        headers_cost(policy, headers.drop_last()) + values_cost(
            policy,
            crate::text::lowered(headers.last().name@),
            headers.last().values@,
        )
    }
}

/// `shown` shows `header`.
pub open spec fn shows_header(
    policy: OtelHeaderPolicy,
    header: HttpHeader,
    shown: ShownHeader,
) -> bool {
    let name = crate::text::lowered(header.name@);
    &&& shown.name@ == name
    &&& shown.values@.len() == header.values@.len()
    &&& forall|i: int|
        0 <= i < shown.values@.len() ==> (#[trigger] shown.values@[i])@ == shown_value(
            policy,
            name,
            header.values@[i]@,
        )
}

/// The headers that have any value.
pub open spec fn valued(headers: Seq<HttpHeader>) -> Seq<HttpHeader> {
    headers.filter(|header: HttpHeader| header.values@.len() > 0)
}

/// `shown` shows the first `n` headers.
pub open spec fn shows_headers(
    policy: OtelHeaderPolicy,
    headers: Seq<HttpHeader>,
    shown: Seq<ShownHeader>,
    n: int,
) -> bool {
    let kept = valued(headers.take(n));
    &&& shown.len() == kept.len()
    &&& forall|i: int|
        0 <= i < shown.len() ==> shows_header(policy, kept[i], #[trigger] shown[i])
}

/// `shown` shows as many of the headers, whole and in order, as the budget
/// allows, and says whether any are left out.
pub open spec fn shows_request(
    policy: OtelHeaderPolicy,
    headers: Seq<HttpHeader>,
    shown: ShownHeaders,
) -> bool {
    exists|n: int|
        {
            &&& 0 <= n <= headers.len()
            &&& #[trigger] shows_headers(policy, headers, shown.headers@, n)
            &&& headers_cost(policy, headers.take(n)) <= policy.total_limit()
            &&& if n < headers.len() {
                shown.headers_truncated && headers_cost(policy, headers.take(n + 1))
                    > policy.total_limit()
            } else {
                !shown.headers_truncated
            }
        }
}

proof fn lemma_values_cost_grows(
    policy: OtelHeaderPolicy,
    name: Seq<char>,
    values: Seq<Vec<u8>>,
    n: int,
)
    requires
        0 <= n <= values.len(),
    ensures
        values_cost(policy, name, values.take(n)) <= values_cost(policy, name, values),
    decreases values.len() - n,
{
    if n == values.len() {
        assert(values.take(n) =~= values);
    } else {
        assert(values.take(n + 1).drop_last() =~= values.take(n));
        lemma_values_cost_grows(policy, name, values, n + 1);
    }
}

/// Shows one header, if all of it fits into what is left of the budget.
fn show_header(header: &HttpHeader, policy: &OtelHeaderPolicy, left: usize) -> (shown: Option<
    (ShownHeader, usize),
>)
    ensures
        ({
            let name = crate::text::lowered(header.name@);
            let cost = values_cost(*policy, name, header.values@);
            &&& shown is Some <==> cost <= left
            &&& shown is Some ==> shows_header(*policy, *header, shown->Some_0.0)
                && shown->Some_0.1 == left - cost
        }),
{
    let name = crate::text::lower(header.name.as_str());
    let name_bytes: usize = name.as_str().as_bytes().len();
    let mut values: Vec<String> = Vec::new();
    let mut rest: usize = left;
    let mut i: usize = 0;
    assert(header.values@.take(0) =~= Seq::<Vec<u8>>::empty());
    while i < header.values.len()
        invariant
            i <= header.values@.len(),
            name@ == crate::text::lowered(header.name@),
            name_bytes == encode_utf8(name@).len(),
            values@.len() == i,
            rest == left - values_cost(*policy, name@, header.values@.take(i as int)),
            forall|j: int|
                0 <= j < i ==> (#[trigger] values@[j])@ == shown_value(
                    *policy,
                    name@,
                    header.values@[j]@,
                ),
        decreases header.values@.len() - i,
    {
        let rendered = render_header_value(name.as_str(), &header.values[i], policy);
        let rendered_bytes: usize = rendered.as_str().as_bytes().len();
        assert(header.values@.take(i + 1).drop_last() =~= header.values@.take(i as int));
        if name_bytes > rest || rendered_bytes > rest - name_bytes {
            proof {
                lemma_values_cost_grows(*policy, name@, header.values@, i + 1);
            }
            return None;
        }
        rest = rest - name_bytes - rendered_bytes;
        values.push(rendered);
        i = i + 1;
    }
    assert(header.values@.take(header.values@.len() as int) =~= header.values@);
    Some((ShownHeader { name, values }, rest))
}

/// The headers of a request as they are shown, within the byte budget.
pub fn otel_http_request_value(headers: &AuditHttpRequestHeaders, policy: &OtelHeaderPolicy) -> (shown:
    ShownHeaders)
    ensures
        shows_request(*policy, headers.headers@, shown),
{
    let list = &headers.headers;
    let mut out: Vec<ShownHeader> = Vec::new();
    let mut left: usize = policy.max_total_bytes;
    let mut i: usize = 0;
    proof {
        reveal(Seq::filter);
        assert(list@.take(0) =~= Seq::<HttpHeader>::empty());
        assert(valued(list@.take(0)) =~= Seq::<HttpHeader>::empty());
    }
    while i < list.len()
        invariant
            i <= list@.len(),
            list@ == headers.headers@,
            shows_headers(*policy, list@, out@, i as int),
            left == policy.total_limit() - headers_cost(*policy, list@.take(i as int)),
        decreases list@.len() - i,
    {
        proof {
            assert(list@.take(i + 1).drop_last() =~= list@.take(i as int));
            reveal(Seq::filter);
        }
        match show_header(&list[i], policy, left) {
            Some((header, rest)) => {
                let ghost before = out@;
                left = rest;
                if header.values.len() > 0 {
                    out.push(header);
                }
                assert(shows_headers(*policy, list@, out@, i + 1));
            },
            None => {
                let shown = ShownHeaders { headers: out, headers_truncated: true };
                assert(shows_headers(*policy, headers.headers@, shown.headers@, i as int));
                return shown;
            },
        }
        i = i + 1;
    }
    let shown = ShownHeaders { headers: out, headers_truncated: false };
    assert(shows_headers(*policy, headers.headers@, shown.headers@, list@.len() as int));
    shown
}

/// The headers that the exported payload of a record carries: only a request
/// record has any.
pub fn http_section<Q, R>(record: &AuditRecord<Q, R>, policy: &OtelHeaderPolicy) -> (section: Option<
    ShownHeaders,
>)
    ensures
        section is Some <==> record.event_type == AuditEventType::Request
            && record.otel_http_headers is Some,
        section is Some ==> shows_request(
            *policy,
            (*record.otel_http_headers->Some_0).headers@,
            section->Some_0,
        ),
{
    if record.event_type != AuditEventType::Request {
        return None;
    }
    match &record.otel_http_headers {
        Some(headers) => Some(otel_http_request_value(headers, policy)),
        None => None,
    }
}

/// Why a payload of `actual` bytes is left out, if it is.
pub open spec fn drop_reason_of(actual: nat, max: nat) -> Option<Seq<char>> {
    if actual <= max {
        None
    } else {
        Some(
            "otel_payload_too_large:max_bytes="@ + crate::text::decimal(max) + ":actual_bytes="@
                + crate::text::decimal(actual),
        )
    }
}

/// Why a payload is left out, if it is: it must fit the limit.
pub fn drop_reason(payload: &str, max_payload_bytes: usize) -> (reason: Option<String>)
    ensures
        ({
            let expected = drop_reason_of(encode_utf8(payload@).len(), max_payload_bytes as nat);
            &&& reason is Some <==> expected is Some
            &&& reason is Some ==> reason->Some_0@ == expected->Some_0
        }),
{
    let actual: usize = payload.as_bytes().len();
    if actual <= max_payload_bytes {
        return None;
    }
    let mut text = "otel_payload_too_large:max_bytes=".to_owned();
    text.append(crate::text::render_number(max_payload_bytes as u64).as_str());
    text.append(":actual_bytes=");
    text.append(crate::text::render_number(actual as u64).as_str());
    Some(text)
}

pub open spec fn event_type_label(event_type: AuditEventType) -> Seq<char> {
    match event_type {
        AuditEventType::Request => "request"@,
        AuditEventType::Response => "response"@,
    }
}

pub fn event_type_attr(event_type: AuditEventType) -> (label: &'static str)
    ensures
        label@ == event_type_label(event_type),
{
    match event_type {
        AuditEventType::Request => "request",
        AuditEventType::Response => "response",
    }
}

/// What is said in place of a payload that is left out: it names the record and
/// carries nothing of its payload.
pub open spec fn says_marker<Q, R>(record: AuditRecord<Q, R>, reason: Seq<char>) -> Says {
    JsonShape::Object(
        seq![
            ("schema_version"@, crate::json::says_number(record.schema_version as u64)),
            ("event_type"@, crate::json::says_text(event_type_label(record.event_type))),
            ("request_id"@, crate::json::says_text(record.request_id@)),
            ("requested_streaming"@, crate::json::says_flag(record.requested_streaming)),
            ("model"@, crate::json::says_text(record.model@)),
            ("audit_complete"@, crate::json::says_flag(false)),
            ("audit_drop_reason"@, crate::json::says_text(reason)),
        ],
    )
}

/// The marker of a record whose payload is left out, as a JSON value.
pub fn marker_json<Q, R>(record: &AuditRecord<Q, R>, reason: &str) -> (marker: Json)
    ensures
        crate::json::shape(marker) == says_marker(*record, reason@),
{
    let object = JsonObject::new().with(
        "schema_version",
        json_number(record.schema_version as u64),
    ).with("event_type", json_text(event_type_attr(record.event_type))).with(
        "request_id",
        json_text(record.request_id.as_str()),
    ).with("requested_streaming", json_flag(record.requested_streaming)).with(
        "model",
        json_text(record.model.as_str()),
    ).with("audit_complete", json_flag(false)).with("audit_drop_reason", json_text(reason));
    assert(object@ =~= says_marker(*record, reason@)->Object_0);
    object.finish()
}

/// What is exported as the payload of a record, whether it is complete, and why
/// it is not if it is not.
pub type Exported = (String, bool, Option<String>);

/// The marker of a record whose payload is left out.
pub fn marker_payload<Q, R>(record: &AuditRecord<Q, R>, reason: String) -> (exported: Exported)
    ensures
        exported.0@ == crate::json::json_text_of(says_marker(*record, reason@)),
        !exported.1,
        exported.2 == Some(reason),
{
    let text = write_json(&marker_json(record, reason.as_str()));
    (text, false, Some(reason))
}

/// The payload of a record within the limit. `serialized` is the record as text,
/// if it could be serialized; a record that could not is not exported.
pub fn payload_for_limit<Q, R>(
    record: &AuditRecord<Q, R>,
    serialized: Option<String>,
    max_payload_bytes: usize,
) -> (exported: Option<Exported>)
    ensures
        match serialized {
            None => exported is None,
            Some(text) => {
                match drop_reason_of(encode_utf8(text@).len(), max_payload_bytes as nat) {
                    None => exported == Some((text, true, None::<String>)),
                    Some(reason) => {
                        &&& exported is Some
                        &&& exported->Some_0.0@ == crate::json::json_text_of(
                            says_marker(*record, reason),
                        )
                        &&& !exported->Some_0.1
                        &&& exported->Some_0.2 is Some
                        &&& exported->Some_0.2->Some_0@ == reason
                    },
                }
            },
        },
{
    let text = match serialized {
        Some(text) => text,
        None => {
            return None;
        },
    };
    match drop_reason(text.as_str(), max_payload_bytes) {
        None => Some((text, true, None)),
        Some(reason) => Some(marker_payload(record, reason)),
    }
}

/// What is said of a header: its value, or a list of them.
pub open spec fn says_header(header: ShownHeader) -> Says {
    if header.values@.len() == 1 {
        crate::json::says_text(header.values@[0]@)
    } else {
        JsonShape::Array(says_texts(header.values@))
    }
}

pub open spec fn says_texts(texts: Seq<String>) -> Seq<Says> {
    texts.map_values(|text: String| crate::json::says_text(text@))
}

/// The JSON value of a header.
pub fn header_json(header: &ShownHeader) -> (json: Json)
    ensures
        crate::json::shape(json) == says_header(*header),
{
    if header.values.len() == 1 {
        return json_text(header.values[0].as_str());
    }
    let mut items: Vec<Json> = Vec::new();
    let mut i: usize = 0;
    assert(crate::json::says_items(items@) =~= says_texts(header.values@.take(0)));
    while i < header.values.len()
        invariant
            i <= header.values@.len(),
            crate::json::says_items(items@) == says_texts(header.values@.take(i as int)),
        decreases header.values@.len() - i,
    {
        add_item(&mut items, json_text(header.values[i].as_str()));
        assert(says_texts(header.values@.take(i + 1)) =~= says_texts(
            header.values@.take(i as int),
        ).push(crate::json::says_text(header.values@[i as int]@)));
        i = i + 1;
    }
    assert(header.values@.take(i as int) =~= header.values@);
    json_array(items)
}

/// What is said of headers: each under its name, in the order of the names.
pub open spec fn says_headers(headers: Seq<ShownHeader>) -> Seq<(Seq<char>, Says)>
    decreases headers.len(),
{
    if headers.len() == 0 {
        Seq::empty()
    } else {
        crate::json::ordered_with(
            says_headers(headers.drop_last()),
            headers.last().name@,
            says_header(headers.last()),
        )
    }
}

/// What is said of the HTTP request of a record.
pub open spec fn says_http(shown: ShownHeaders) -> Says {
    JsonShape::Object(
        seq![
            (
                "request"@,
                JsonShape::Object(
                    seq![
                        ("headers"@, JsonShape::Object(says_headers(shown.headers@))),
                        (
                            "headers_truncated"@,
                            crate::json::says_flag(shown.headers_truncated),
                        ),
                    ],
                ),
            ),
        ],
    )
}

/// The `http` field of an exported payload.
pub fn http_json(shown: &ShownHeaders) -> (json: Json)
    ensures
        crate::json::shape(json) == says_http(*shown),
{
    let mut headers = JsonObject::new();
    let mut i: usize = 0;
    assert(shown.headers@.take(0) =~= Seq::<ShownHeader>::empty());
    while i < shown.headers.len()
        invariant
            i <= shown.headers@.len(),
            headers@ == says_headers(shown.headers@.take(i as int)),
        decreases shown.headers@.len() - i,
    {
        let header = &shown.headers[i];
        assert(shown.headers@.take(i + 1).drop_last() =~= shown.headers@.take(i as int));
        headers = headers.with_in_order(header.name.as_str(), header_json(header));
        i = i + 1;
    }
    assert(shown.headers@.take(i as int) =~= shown.headers@);
    let request = JsonObject::new().with("headers", headers.finish()).with(
        "headers_truncated",
        json_flag(shown.headers_truncated),
    );
    assert(request@ =~= says_http(*shown)->Object_0[0].1->Object_0);
    let object = JsonObject::new().with("request", request.finish());
    assert(object@ =~= says_http(*shown)->Object_0);
    object.finish()
}

/// The log record that is exported for an audit record.
#[derive(Debug)]
pub struct OtelLog {
    pub body: &'static str,
    pub rid: String,
    pub event_type: &'static str,
    pub endpoint: &'static str,
    pub model: String,
    pub streaming: bool,
    pub audit_complete: bool,
    pub audit_drop_reason: Option<String>,
    pub payload: String,
}

/// The log record of an audit record, with its serialized payload or marker.
pub fn otel_log<Q, R>(
    record: &AuditRecord<Q, R>,
    payload: String,
    audit_drop_reason: Option<String>,
) -> (log: OtelLog)
    ensures
        log.body@ == (match record.event_type {
            AuditEventType::Request => "openai.request"@,
            AuditEventType::Response => "openai.response"@,
        }),
        log.rid@ == record.request_id@,
        log.event_type@ == event_type_label(record.event_type),
        log.endpoint@ == "openai.chat_completion"@,
        log.model@ == record.model@,
        log.streaming == record.requested_streaming,
        log.audit_complete == audit_drop_reason is None,
        log.audit_drop_reason == audit_drop_reason,
        log.payload == payload,
{
    OtelLog {
        body: match record.event_type {
            AuditEventType::Request => "openai.request",
            AuditEventType::Response => "openai.response",
        },
        rid: record.request_id.clone(),
        event_type: event_type_attr(record.event_type),
        endpoint: AUDIT_ENDPOINT_CHAT_COMPLETION,
        model: record.model.clone(),
        streaming: record.requested_streaming,
        audit_complete: audit_drop_reason.is_none(),
        audit_drop_reason,
        payload,
    }
}

#[derive(Clone, Copy, Debug, PartialEq, Eq, Structural)]
pub enum OtlpLogsProtocol {
    HttpProtobuf,
    Grpc,
}

/// The protocol that a setting names, and whether it names a supported one.
pub open spec fn protocol_of(setting: Seq<char>) -> (OtlpLogsProtocol, bool) {
    let name = crate::text::lowered(crate::text::trimmed(setting));
    if name == "http/protobuf"@ || name == "http/proto"@ || name == "http"@ {
        (OtlpLogsProtocol::HttpProtobuf, true)
    } else if name == "grpc"@ {
        (OtlpLogsProtocol::Grpc, true)
    } else {
        (OtlpLogsProtocol::HttpProtobuf, false)
    }
}

impl OtlpLogsProtocol {
    /// The protocol of the logs exporter: the setting for logs takes precedence
    /// over the general one. The second part says whether it is supported.
    pub fn from_settings(logs: Option<&str>, general: Option<&str>) -> (chosen: (Self, bool))
        ensures
            chosen == (match logs {
                Some(setting) => protocol_of(setting@),
                None => match general {
                    Some(setting) => protocol_of(setting@),
                    None => (OtlpLogsProtocol::HttpProtobuf, true),
                },
            }),
    {
        let setting: &str = match logs {
            Some(setting) => setting,
            None => match general {
                Some(setting) => setting,
                None => {
                    return (OtlpLogsProtocol::HttpProtobuf, true);
                },
            },
        };
        let trimmed = crate::text::trim(setting);
        let name = crate::text::lower(trimmed.as_str());
        let name: &str = name.as_str();
        if crate::text::same_text(name, "http/protobuf") || crate::text::same_text(
            name,
            "http/proto",
        ) || crate::text::same_text(name, "http") {
            (OtlpLogsProtocol::HttpProtobuf, true)
        } else if crate::text::same_text(name, "grpc") {
            (OtlpLogsProtocol::Grpc, true)
        } else {
            (OtlpLogsProtocol::HttpProtobuf, false)
        }
    }

    pub fn default_endpoint(self) -> (endpoint: &'static str)
        ensures
            endpoint@ == (match self {
                OtlpLogsProtocol::HttpProtobuf => "http://localhost:4318/v1/logs"@,
                OtlpLogsProtocol::Grpc => "http://localhost:4317"@,
            }),
    {
        match self {
            OtlpLogsProtocol::HttpProtobuf => DEFAULT_OTLP_HTTP_LOGS_ENDPOINT,
            OtlpLogsProtocol::Grpc => DEFAULT_OTLP_GRPC_ENDPOINT,
        }
    }
}

/// Where logs are exported to: the endpoint for logs as it is, else the general
/// one, to which HTTP adds the path for logs.
pub fn logs_endpoint(
    protocol: OtlpLogsProtocol,
    own_endpoint: Option<&str>,
    endpoint: Option<&str>,
) -> (chosen: String)
    ensures
        chosen@ == (match own_endpoint {
            Some(own) => own@,
            None => match endpoint {
                Some(general) => match protocol {
                    OtlpLogsProtocol::HttpProtobuf => crate::text::without_final_slashes(general@)
                        + "/v1/logs"@,
                    OtlpLogsProtocol::Grpc => general@,
                },
                None => match protocol {
                    OtlpLogsProtocol::HttpProtobuf => "http://localhost:4318/v1/logs"@,
                    OtlpLogsProtocol::Grpc => "http://localhost:4317"@,
                },
            },
        }),
{
    if let Some(own) = own_endpoint {
        return own.to_owned();
    }
    if let Some(general) = endpoint {
        return match protocol {
            OtlpLogsProtocol::HttpProtobuf => {
                let mut url = crate::text::drop_final_slashes(general);
                url.append("/v1/logs");
                url
            },
            OtlpLogsProtocol::Grpc => general.to_owned(),
        };
    }
    protocol.default_endpoint().to_owned()
}

/// How many threads serialize payloads: a positive number, or the default.
pub fn serde_threads(setting: Option<&str>) -> (threads: usize)
    ensures
        threads == (match setting {
            Some(text) => match crate::text::number_in(text@) {
                Some(n) => if 0 < n <= usize::MAX {
                    n as int
                } else {
                    2
                },
                None => 2,
            },
            None => 2,
        }),
{
    if let Some(text) = setting {
        if let Some(threads) = crate::text::parse_usize(text) {
            if threads > 0 {
                return threads;
            }
        }
    }
    DEFAULT_OTEL_SERDE_THREADS
}

/// Whatever a setting adds, the default names stay redacted, and what is
/// redacted is shown as nothing but that.
pub proof fn law_default_names_stay_redacted(
    policy: OtelHeaderPolicy,
    name: Seq<char>,
    value: Seq<u8>,
)
    requires
        redacted_by_default(name),
    ensures
        shown_value(policy, name, value) == "[REDACTED]"@,
{
}

} // verus!
