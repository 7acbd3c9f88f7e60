//! What holds of everything that is logged or exported.

use crate::audit::{AuditEventType, AuditRecord, AuditSubject, CaptureState, HttpHeader};
use crate::json::{JsonLeaf, JsonShape, JsonTree};
use crate::otel_sink::{OtelHeaderPolicy, OtlpLogsProtocol, ShownHeader, ShownHeaders};
use crate::payload_logger::HeaderLine;
use vstd::prelude::*;
use vstd::utf8::*;

verus! {

/// A switch is on for `1`, `true`, `on` and `yes` in any case, and for nothing
/// else.
pub proof fn law_switches_know_four_words(value: Seq<char>, other: Seq<char>)
    ensures
        crate::payload_logger::truthy(value) <==> {
            ||| crate::text::lowered(value) == "1"@
            ||| crate::text::lowered(value) == "true"@
            ||| crate::text::lowered(value) == "on"@
            ||| crate::text::lowered(value) == "yes"@
        },
        crate::text::lowered(value) == crate::text::lowered(other)
            ==> crate::payload_logger::truthy(value) == crate::payload_logger::truthy(other),
{
}

/// The credentials and cookies of a request are never logged.
pub proof fn law_credentials_are_never_logged(lines: Seq<HeaderLine>)
    ensures
        !crate::payload_logger::shown(lines).contains_key("authorization"@),
        !crate::payload_logger::shown(lines).contains_key("cookie"@),
        !crate::payload_logger::shown(lines).contains_key("set-cookie"@),
{
    crate::payload_logger::law_sensitive_headers_stay_hidden(lines, "authorization"@);
    crate::payload_logger::law_sensitive_headers_stay_hidden(lines, "cookie"@);
    crate::payload_logger::law_sensitive_headers_stay_hidden(lines, "set-cookie"@);
}

/// Every other header is logged with the value of its last visible line, which
/// stands at `at`, and only headers with such a line are.
pub proof fn law_last_visible_line_is_logged(lines: Seq<HeaderLine>, at: int)
    requires
        0 <= at < lines.len(),
        lines[at].name@ != "authorization"@,
        lines[at].name@ != "cookie"@,
        lines[at].name@ != "set-cookie"@,
        crate::text::all_visible(lines[at].value@),
        forall|i: int|
            at < i < lines.len() && (#[trigger] lines[i]).name@ == lines[at].name@
                ==> !crate::text::all_visible(lines[i].value@),
    ensures
        crate::payload_logger::shown(lines).contains_key(lines[at].name@),
        crate::payload_logger::shown(lines)[lines[at].name@] == crate::text::spelled(
            lines[at].value@,
        ),
    decreases lines.len(),
{
    let front = lines.drop_last();
    assert(lines[lines.len() - 1] == lines.last());
    if at < front.len() {
        assert(front[at] == lines[at]);
        assert forall|i: int|
            at < i < front.len() && (#[trigger] front[i]).name@
                == front[at].name@ implies !crate::text::all_visible(front[i].value@) by {
            assert(front[i] == lines[i]);
        }
        law_last_visible_line_is_logged(front, at);
    }
}

/// What is logged of a header is one of its lines, at place `i`, and visible.
pub proof fn law_logged_header_has_a_line(lines: Seq<HeaderLine>, name: Seq<char>) -> (i: int)
    requires
        crate::payload_logger::shown(lines).contains_key(name),
    ensures
        0 <= i < lines.len(),
        lines[i].name@ == name,
        crate::text::all_visible(lines[i].value@),
        crate::payload_logger::shown(lines)[name] == crate::text::spelled(lines[i].value@),
    decreases lines.len(),
{
    let line = lines.last();
    let front = lines.drop_last();
    assert(lines[lines.len() - 1] == line);
    if line.name@ == name && crate::text::all_visible(line.value@)
        && !crate::payload_logger::sensitive(name) {
        lines.len() - 1
    } else {
        let i = law_logged_header_has_a_line(front, name);
        assert(front[i] == lines[i]);
        i
    }
}

/// Logged headers are an object of texts, one for each header, in the order of
/// their names.
pub proof fn law_logged_headers_are_texts(
    fields: Seq<(Seq<char>, Seq<char>)>,
    map: Map<Seq<char>, Seq<char>>,
    i: int,
    j: int,
)
    requires
        crate::payload_logger::spells_out(fields, map),
        0 <= i < j < fields.len(),
    ensures
        crate::text::comes_before(fields[i].0, fields[j].0),
        map.contains_key(fields[i].0),
        map[fields[i].0] == fields[i].1,
        crate::payload_logger::says_fields(fields) is Object,
        crate::payload_logger::says_fields(fields)->Object_0.len() == fields.len(),
        crate::payload_logger::says_fields(fields)->Object_0[i] == (
            fields[i].0,
            JsonShape::<JsonLeaf>::Text(fields[i].1),
        ),
{
}

/// The value of a header that carries a secret is never exported, whatever the
/// policy and the value: the names are known, or listed, or sound like one.
pub proof fn law_secrets_are_redacted(policy: OtelHeaderPolicy, name: Seq<char>, value: Seq<u8>)
    requires
        ({
            ||| name == "authorization"@
            ||| name == "proxy-authorization"@
            ||| name == "cookie"@
            ||| name == "set-cookie"@
            ||| name == "api-key"@
            ||| name == "apikey"@
            ||| name == "x-api-key"@
            ||| name == "openai-api-key"@
            ||| name == "x-openai-api-key"@
            ||| name == "x-auth-token"@
            ||| name == "x-access-token"@
            ||| name == "x-csrf-token"@
            ||| name == "x-xsrf-token"@
            ||| name == "x-amz-security-token"@
            ||| policy.extra(name)
            ||| {
                &&& !crate::text::stands_at(name, "nvcf-"@, 0)
                &&& crate::text::holds_fragment(name, "token"@) || crate::text::holds_fragment(
                    name,
                    "secret"@,
                ) || crate::text::holds_fragment(name, "password"@) || crate::text::holds_fragment(
                    name,
                    "credential"@,
                )
            }
        }),
    ensures
        crate::otel_sink::shown_value(policy, name, value) == "[REDACTED]"@,
{
}

/// Every other value is exported as it is spelled, unless it is too long or not
/// visible: then its length is told in its place.
pub proof fn law_plain_values_are_exported(
    policy: OtelHeaderPolicy,
    name: Seq<char>,
    value: Seq<u8>,
)
    requires
        !policy.redacts(name),
    ensures
        value.len() <= policy.value_limit() && crate::text::all_visible(value)
            ==> crate::otel_sink::shown_value(policy, name, value) == crate::text::spelled(value),
        value.len() > policy.value_limit() ==> crate::otel_sink::shown_value(policy, name, value)
            == "[TRUNCATED: bytes="@ + crate::text::decimal(value.len()) + "]"@,
        value.len() <= policy.value_limit() && !crate::text::all_visible(value)
            ==> crate::otel_sink::shown_value(policy, name, value) == "[NON_UTF8: bytes="@
            + crate::text::decimal(value.len()) + "]"@,
{
}

/// Only what is known, listed or sounds like a secret is redacted.
pub proof fn law_only_secrets_are_redacted(policy: OtelHeaderPolicy, name: Seq<char>)
    requires
        policy.redacts(name),
        !policy.extra(name),
        !crate::text::holds_fragment(name, "token"@),
        !crate::text::holds_fragment(name, "secret"@),
        !crate::text::holds_fragment(name, "password"@),
        !crate::text::holds_fragment(name, "credential"@),
    ensures
        ({
            ||| name == "authorization"@
            ||| name == "proxy-authorization"@
            ||| name == "cookie"@
            ||| name == "set-cookie"@
            ||| name == "api-key"@
            ||| name == "apikey"@
            ||| name == "x-api-key"@
            ||| name == "openai-api-key"@
            ||| name == "x-openai-api-key"@
            ||| name == "x-auth-token"@
            ||| name == "x-access-token"@
            ||| name == "x-csrf-token"@
            ||| name == "x-xsrf-token"@
            ||| name == "x-amz-security-token"@
        }),
{
}

/// Each value costs the bytes of its header's name and of what is shown of it;
/// costs add up.
pub proof fn law_header_costs_add_up(
    policy: OtelHeaderPolicy,
    headers: Seq<HttpHeader>,
    header: HttpHeader,
    values: Seq<Vec<u8>>,
    value: Vec<u8>,
    name: Seq<char>,
)
    ensures
        crate::otel_sink::values_cost(policy, name, Seq::<Vec<u8>>::empty()) == 0,
        crate::otel_sink::headers_cost(policy, Seq::<HttpHeader>::empty()) == 0,
        crate::otel_sink::values_cost(policy, name, values.push(value))
            == crate::otel_sink::values_cost(policy, name, values) + encode_utf8(name).len()
            + encode_utf8(crate::otel_sink::shown_value(policy, name, value@)).len(),
        crate::otel_sink::headers_cost(policy, headers.push(header))
            == crate::otel_sink::headers_cost(policy, headers) + crate::otel_sink::values_cost(
            policy,
            crate::text::lowered(header.name@),
            header.values@,
        ),
{
    assert(values.push(value).drop_last() =~= values);
    assert(headers.push(header).drop_last() =~= headers);
}

/// The export is marked as truncated exactly if some headers are left out, and
/// what is exported of the first `n` headers fits the limit.
pub proof fn law_truncation_is_told(
    policy: OtelHeaderPolicy,
    headers: Seq<HttpHeader>,
    shown: ShownHeaders,
) -> (n: int)
    requires
        crate::otel_sink::shows_request(policy, headers, shown),
    ensures
        0 <= n <= headers.len(),
        crate::otel_sink::shows_headers(policy, headers, shown.headers@, n),
        crate::otel_sink::headers_cost(policy, headers.take(n)) <= policy.total_limit(),
        shown.headers_truncated <==> n < headers.len(),
        n < headers.len() ==> crate::otel_sink::headers_cost(policy, headers.take(n + 1))
            > policy.total_limit(),
{
    choose|n: int|
        {
            &&& 0 <= n <= headers.len()
            &&& #[trigger] crate::otel_sink::shows_headers(policy, headers, shown.headers@, n)
            &&& crate::otel_sink::headers_cost(policy, headers.take(n)) <= policy.total_limit()
            &&& if n < headers.len() {
                shown.headers_truncated && crate::otel_sink::headers_cost(
                    policy,
                    headers.take(n + 1),
                ) > policy.total_limit()
            } else {
                !shown.headers_truncated
            }
        }
}

/// A header is exported under its name in lower case, with as many values as it
/// has, in order.
pub proof fn law_headers_are_exported_by_lower_case_name(
    policy: OtelHeaderPolicy,
    header: HttpHeader,
    shown: ShownHeader,
    i: int,
)
    requires
        crate::otel_sink::shows_header(policy, header, shown),
        0 <= i < header.values@.len(),
    ensures
        shown.name@ == crate::text::lowered(header.name@),
        shown.values@.len() == header.values@.len(),
        shown.values@[i]@ == crate::otel_sink::shown_value(
            policy,
            crate::text::lowered(header.name@),
            header.values@[i]@,
        ),
{
}

/// A single value of a header is written as a text, several as a list of texts.
pub proof fn law_header_values_are_written_in_order(header: ShownHeader, i: int)
    requires
        0 <= i < header.values@.len(),
    ensures
        header.values@.len() == 1 ==> crate::otel_sink::says_header(header) == JsonShape::<
            JsonLeaf,
        >::Text(header.values@[0]@),
        header.values@.len() != 1 ==> {
            let says = crate::otel_sink::says_header(header);
            &&& says is Array
            &&& says->Array_0.len() == header.values@.len()
            &&& says->Array_0[i] == JsonShape::<JsonLeaf>::Text(header.values@[i]@)
        },
{
}

/// The HTTP section holds the headers and says whether they were truncated.
pub proof fn law_http_section_tells_of_truncation(shown: ShownHeaders)
    ensures
        ({
            let says = crate::otel_sink::says_http(shown);
            let request = says->Object_0[0].1->Object_0;
            &&& says is Object
            &&& says->Object_0.len() == 1
            &&& says->Object_0[0].0 == "request"@
            &&& says->Object_0[0].1 is Object
            &&& request.len() == 2
            &&& request[0].0 == "headers"@
            &&& request[0].1 == JsonShape::<JsonLeaf>::Object(
                crate::otel_sink::says_headers(shown.headers@),
            )
            &&& request[1] == (
                "headers_truncated"@,
                JsonShape::Other(JsonLeaf::Flag(shown.headers_truncated)),
            )
        }),
{
}

/// A field that is set is there, under its own name and with its own value.
pub proof fn law_set_field_is_there(
    fields: Seq<(Seq<char>, JsonShape<JsonLeaf>)>,
    name: Seq<char>,
    says: JsonShape<JsonLeaf>,
) -> (at: int)
    ensures
        0 <= at < crate::json::ordered_with(fields, name, says).len(),
        crate::json::ordered_with(fields, name, says)[at] == (name, says),
        crate::json::ordered_with(fields, name, says).len() == fields.len()
            || crate::json::ordered_with(fields, name, says).len() == fields.len() + 1,
    decreases fields.len(),
{
    if fields.len() > 0 && crate::text::comes_before(fields.first().0, name) {
        1 + law_set_field_is_there(fields.skip(1), name, says)
    } else {
        0
    }
}

/// A payload is left out exactly if it is longer than the limit, and the reason
/// tells both lengths.
pub proof fn law_payloads_over_the_limit_are_left_out(actual: nat, max: nat)
    ensures
        crate::otel_sink::drop_reason_of(actual, max) is Some <==> actual > max,
        actual > max ==> crate::otel_sink::drop_reason_of(actual, max)->Some_0
            == "otel_payload_too_large:max_bytes="@ + crate::text::decimal(max)
            + ":actual_bytes="@ + crate::text::decimal(actual),
{
}

/// What stands in for a payload names its record, says that the audit is
/// incomplete and why, and holds nothing else.
pub proof fn law_marker_names_its_record<Q, R>(record: AuditRecord<Q, R>, reason: Seq<char>)
    ensures
        ({
            let says = crate::otel_sink::says_marker(record, reason);
            let fields = says->Object_0;
            &&& says is Object
            &&& fields.len() == 7
            &&& fields[0] == (
                "schema_version"@,
                JsonShape::Other(JsonLeaf::Number(record.schema_version as u64)),
            )
            &&& fields[1].0 == "event_type"@
            &&& fields[1].1 == JsonShape::<JsonLeaf>::Text(
                match record.event_type {
                    AuditEventType::Request => "request"@,
                    AuditEventType::Response => "response"@,
                },
            )
            &&& fields[2] == ("request_id"@, JsonShape::<JsonLeaf>::Text(record.request_id@))
            &&& fields[3] == (
                "requested_streaming"@,
                JsonShape::Other(JsonLeaf::Flag(record.requested_streaming)),
            )
            &&& fields[4] == ("model"@, JsonShape::<JsonLeaf>::Text(record.model@))
            &&& fields[5] == ("audit_complete"@, JsonShape::Other(JsonLeaf::Flag(false)))
            &&& fields[6] == ("audit_drop_reason"@, JsonShape::<JsonLeaf>::Text(reason))
        }),
{
}

/// gRPC is used exactly if it is named; everything else is HTTP, and only what
/// names neither is unsupported.
pub proof fn law_protocols_are_named(setting: Seq<char>)
    ensures
        ({
            let name = crate::text::lowered(crate::text::trimmed(setting));
            let (protocol, supported) = crate::otel_sink::protocol_of(setting);
            &&& name == "grpc"@ && name != "http"@ && name != "http/proto"@ && name
                != "http/protobuf"@ ==> protocol == OtlpLogsProtocol::Grpc
            &&& name != "grpc"@ ==> protocol == OtlpLogsProtocol::HttpProtobuf
            &&& supported <==> name == "grpc"@ || name == "http"@ || name == "http/proto"@ || name
                == "http/protobuf"@
        }),
{
}

/// A request is recorded only while capture runs, and then if it asks for
/// storage or everything is recorded.
pub proof fn law_recording_needs_capture(capture: CaptureState, subject: AuditSubject)
    ensures
        !capture.enabled ==> !crate::audit::recorded(capture, subject),
        capture.enabled && capture.force_logging ==> crate::audit::recorded(capture, subject),
        capture.enabled && !capture.force_logging ==> (crate::audit::recorded(capture, subject)
            <==> subject.store is Some && subject.store->Some_0),
{
}

/// A description of a tool, at place `at`, is dropped exactly if it is null or
/// empty, and nothing else is ever dropped or moved.
pub proof fn law_only_empty_descriptions_are_dropped<T>(
    fields: Seq<(String, JsonTree<T>)>,
    at: int,
)
    requires
        0 <= at < fields.len(),
        fields[at].0@ == "description"@,
        forall|i: int| 0 <= i < at ==> (#[trigger] fields[i]).0@ != "description"@,
    ensures
        ({
            let after = crate::prompt::cleaned(fields);
            let empty = match fields[at].1 {
                JsonTree::Null => true,
                JsonTree::Text(text) => text@.len() == 0,
                _ => false,
            };
            &&& !empty ==> after == fields
            &&& empty ==> after.len() == fields.len() - 1
            &&& empty ==> forall|i: int| 0 <= i < at ==> #[trigger] after[i] == fields[i]
            &&& empty ==> forall|i: int|
                at <= i < after.len() ==> #[trigger] after[i] == fields[i + 1]
        }),
{
    lemma_first_field(fields, "description"@, at);
}

/// Without a description nothing is dropped.
pub proof fn law_without_description_nothing_is_dropped<T>(fields: Seq<(String, JsonTree<T>)>)
    requires
        forall|i: int| 0 <= i < fields.len() ==> (#[trigger] fields[i]).0@ != "description"@,
    ensures
        crate::prompt::cleaned(fields) == fields,
{
    lemma_first_field(fields, "description"@, fields.len() as int);
}

proof fn lemma_first_field<T>(fields: Seq<(String, JsonTree<T>)>, name: Seq<char>, at: int)
    requires
        0 <= at <= fields.len(),
        forall|i: int| 0 <= i < at ==> (#[trigger] fields[i]).0@ != name,
        at < fields.len() ==> fields[at].0@ == name,
    ensures
        crate::prompt::field_at(fields, name) == at,
    decreases at,
{
    if at > 0 {
        assert(fields[0].0@ != name);
        let rest = fields.skip(1);
        assert forall|i: int| 0 <= i < at - 1 implies (#[trigger] rest[i]).0@ != name by {
            assert(rest[i] == fields[i + 1]);
        }
        lemma_first_field(rest, name, at - 1);
    }
}

/// The chat template of a file is the first field of that name, and there is
/// none in anything but an object.
pub proof fn law_template_is_the_first_field_of_its_name<T>(
    json: JsonShape<T>,
    at: int,
)
    requires
        json is Object,
        0 <= at <= json->Object_0.len(),
        forall|i: int| 0 <= i < at ==> (#[trigger] json->Object_0[i]).0 != "chat_template"@,
        at < json->Object_0.len() ==> json->Object_0[at].0 == "chat_template"@,
    ensures
        at < json->Object_0.len() ==> crate::prompt::says_template(json) == Some(
            json->Object_0[at].1,
        ),
        at == json->Object_0.len() ==> crate::prompt::says_template(json) is None,
{
    lemma_first_said(json->Object_0, "chat_template"@, at);
}

proof fn lemma_first_said<T>(fields: Seq<(Seq<char>, JsonShape<T>)>, name: Seq<char>, at: int)
    requires
        0 <= at <= fields.len(),
        forall|i: int| 0 <= i < at ==> (#[trigger] fields[i]).0 != name,
        at < fields.len() ==> fields[at].0 == name,
    ensures
        crate::prompt::says_at(fields, name) == at,
    decreases at,
{
    if at > 0 {
        assert(fields[0].0 != name);
        let rest = fields.skip(1);
        assert forall|i: int| 0 <= i < at - 1 implies (#[trigger] rest[i]).0 != name by {
            assert(rest[i] == fields[i + 1]);
        }
        lemma_first_said(rest, name, at - 1);
    }
}

/// A further name is redacted exactly if it stands, in any case, between
/// separators in the list of a setting.
pub proof fn law_listed_names_stand_between_separators(raw: Seq<char>, from: int, to: int)
    requires
        0 <= from < to <= raw.len(),
        from > 0 ==> raw[from - 1] == ',' || crate::text::white_space(raw[from - 1]),
        to < raw.len() ==> raw[to] == ',' || crate::text::white_space(raw[to]),
        forall|i: int|
            from <= i < to ==> #[trigger] raw[i] != ',' && !crate::text::white_space(raw[i]),
    ensures
        crate::otel_sink::listed(raw, crate::text::lowered(raw.subrange(from, to))),
{
    assert(crate::otel_sink::piece(raw, from, to));
}

/// Nothing but a whole name of the list is redacted for it: it stands between
/// `from` and `to`, is not empty and holds no separator.
pub proof fn law_only_listed_names_are_redacted(raw: Seq<char>, name: Seq<char>) -> (range: (
    int,
    int,
))
    requires
        crate::otel_sink::listed(raw, name),
    ensures
        ({
            let (from, to) = range;
            &&& 0 <= from < to <= raw.len()
            &&& name == crate::text::lowered(raw.subrange(from, to))
            &&& from > 0 ==> raw[from - 1] == ',' || crate::text::white_space(raw[from - 1])
            &&& to < raw.len() ==> raw[to] == ',' || crate::text::white_space(raw[to])
            &&& forall|i: int|
                from <= i < to ==> #[trigger] raw[i] != ',' && !crate::text::white_space(raw[i])
        }),
{
    let (from, to) = choose|from: int, to: int| #[trigger]
        crate::otel_sink::piece(raw, from, to) && name == crate::text::lowered(
            raw.subrange(from, to),
        );
    assert forall|i: int| from <= i < to implies #[trigger] raw[i] != ','
        && !crate::text::white_space(raw[i]) by {
        assert(!crate::otel_sink::separates(raw[i]));
    }
    (from, to)
}

/// Headers without any value are left out, and the others keep their order.
pub proof fn law_headers_without_values_are_left_out(headers: Seq<HttpHeader>, header: HttpHeader)
    ensures
        header.values@.len() == 0 ==> crate::otel_sink::valued(headers.push(header))
            == crate::otel_sink::valued(headers),
        header.values@.len() > 0 ==> crate::otel_sink::valued(headers.push(header))
            == crate::otel_sink::valued(headers).push(header),
        crate::otel_sink::valued(Seq::<HttpHeader>::empty()).len() == 0,
{
    reveal(Seq::filter);
    assert(headers.push(header).drop_last() =~= headers);
}

/// The tools of a request stay as many and in order; whatever is no object stays
/// as it is.
pub proof fn law_tools_stay_in_order<T>(before: JsonTree<T>, after: JsonTree<T>, i: int)
    requires
        crate::prompt::tools_stripped(before, after),
    ensures
        !(before is Array) ==> after == before,
        before is Array ==> after is Array && after->Array_0@.len() == before->Array_0@.len(),
        before is Array && 0 <= i < before->Array_0@.len() && !(before->Array_0@[i] is Object)
            ==> after->Array_0@[i] == before->Array_0@[i],
        before is Array && 0 <= i < before->Array_0@.len() && before->Array_0@[i] is Object
            ==> after->Array_0@[i] is Object,
{
    if before is Array && 0 <= i < before->Array_0@.len() {
        assert(crate::prompt::tool_stripped(before->Array_0@[i], after->Array_0@[i]));
    }
}

/// A tool without a function and without a description stays as it is.
pub proof fn law_plain_tools_stay_as_they_are<T>(before: JsonTree<T>, after: JsonTree<T>)
    requires
        crate::prompt::tool_stripped(before, after),
        before is Object,
        forall|i: int|
            0 <= i < before->Object_0@.len() ==> (#[trigger] before->Object_0@[i]).0@
                != "description"@ && before->Object_0@[i].0@ != "function"@,
    ensures
        after is Object,
        after->Object_0@ == before->Object_0@,
{
    let fields = before->Object_0@;
    lemma_first_field(fields, "function"@, fields.len() as int);
    lemma_first_field(fields, "description"@, fields.len() as int);
}

/// In a tool whose only description is that of its function, at place `at`, the
/// function is cleaned and everything else stays where it is.
pub proof fn law_functions_are_cleaned<T>(before: JsonTree<T>, after: JsonTree<T>, at: int)
    requires
        crate::prompt::tool_stripped(before, after),
        before is Object,
        0 <= at < before->Object_0@.len(),
        before->Object_0@[at].0@ == "function"@,
        before->Object_0@[at].1 is Object,
        forall|i: int|
            0 <= i < before->Object_0@.len() ==> (#[trigger] before->Object_0@[i]).0@
                != "description"@,
        forall|i: int|
            0 <= i < at ==> (#[trigger] before->Object_0@[i]).0@ != "function"@,
    ensures
        after is Object,
        after->Object_0@.len() == before->Object_0@.len(),
        after->Object_0@[at].1 is Object,
        after->Object_0@[at].1->Object_0@ == crate::prompt::cleaned(
            before->Object_0@[at].1->Object_0@,
        ),
        forall|i: int|
            0 <= i < before->Object_0@.len() && i != at ==> #[trigger] after->Object_0@[i]
                == before->Object_0@[i],
{
    let fields = before->Object_0@;
    lemma_first_field(fields, "function"@, at);
    let middle = choose|middle: Seq<(String, JsonTree<T>)>| #[trigger]
        crate::prompt::function_cleaned(fields, middle) && after->Object_0@
            == crate::prompt::cleaned(middle);
    assert(crate::prompt::function_cleaned(fields, middle));
    assert forall|i: int| 0 <= i < middle.len() implies (#[trigger] middle[i]).0@
        != "description"@ by {
        if i != at {
            assert(middle[i] == fields[i]);
        } else {
            assert(fields[at].0@ != "description"@);
        }
    }
    lemma_first_field(middle, "description"@, middle.len() as int);
    assert forall|i: int| 0 <= i < fields.len() && i != at implies #[trigger] after->Object_0@[i]
        == fields[i] by {
        assert(middle[i] == fields[i]);
    }
}

/// Setting a field keeps every field of another name, with its value; it stands
/// at the place that is given back.
pub proof fn law_other_fields_are_kept(
    fields: Seq<(Seq<char>, JsonShape<JsonLeaf>)>,
    name: Seq<char>,
    says: JsonShape<JsonLeaf>,
    i: int,
) -> (at: int)
    requires
        0 <= i < fields.len(),
        fields[i].0 != name,
    ensures
        0 <= at < crate::json::ordered_with(fields, name, says).len(),
        crate::json::ordered_with(fields, name, says)[at] == fields[i],
    decreases fields.len(),
{
    if crate::text::comes_before(fields.first().0, name) {
        if i == 0 {
            0
        } else {
            assert(fields.skip(1)[i - 1] == fields[i]);
            1 + law_other_fields_are_kept(fields.skip(1), name, says, i - 1)
        }
    } else if fields.first().0 == name {
        i
    } else {
        i + 1
    }
}

/// The header that comes last is exported under its name.
pub proof fn law_exported_header_is_there(headers: Seq<ShownHeader>) -> (at: int)
    requires
        headers.len() > 0,
    ensures
        0 <= at < crate::otel_sink::says_headers(headers).len(),
        crate::otel_sink::says_headers(headers)[at].0 == headers.last().name@,
        crate::otel_sink::says_headers(headers)[at].1 == crate::otel_sink::says_header(
            headers.last(),
        ),
{
    law_set_field_is_there(
        crate::otel_sink::says_headers(headers.drop_last()),
        headers.last().name@,
        crate::otel_sink::says_header(headers.last()),
    )
}

/// Both records of a request carry its identifier, its model and whether it
/// streams, in the first layout.
pub proof fn law_records_carry_their_request<Q, R>(
    record: AuditRecord<Q, R>,
    handle: crate::audit::AuditHandle,
)
    requires
        crate::audit::same_origin(record, handle),
    ensures
        record.schema_version == 1,
        record.request_id@ == handle.id(),
        record.requested_streaming == handle.is_streaming(),
        record.model@ == handle.model_name(),
{
}

} // verus!
