//! Audit records: which requests are recorded, and what their records carry.

use std::sync::Arc;
use vstd::prelude::*;

verus! {

/// Distinguishes the two record types emitted per chat completion.
///
/// Request and response are published as separate `AuditRecord`s sharing the same
/// `request_id`. Downstream consumers correlate by `request_id`; the request record
/// is emitted before the worker dispatches, the response record is emitted after the
/// response stream completes successfully. On client cancel mid-stream (or
/// aggregation failure) only the request record is emitted.
#[derive(Clone, Copy, Debug, PartialEq, Eq, Structural)]
pub enum AuditEventType {
    Request,
    Response,
}

/// The values of one HTTP header.
#[derive(Debug)]
pub struct HttpHeader {
    pub name: String,
    pub values: Vec<Vec<u8>>,
}

/// The headers of the HTTP request that an audit record is about.
#[derive(Debug)]
pub struct AuditHttpRequestHeaders {
    pub headers: Vec<HttpHeader>,
}

/// One record on the audit bus, over the payload types of requests and
/// responses.
pub struct AuditRecord<Q, R> {
    pub schema_version: u32,
    pub event_type: AuditEventType,
    pub request_id: String,
    pub requested_streaming: bool,
    pub model: String,
    pub request: Option<Arc<Q>>,
    pub response: Option<Arc<R>>,
    pub otel_http_headers: Option<Arc<AuditHttpRequestHeaders>>,
}

/// What of a chat completion request decides about its audit.
#[derive(Debug)]
pub struct AuditSubject {
    pub store: Option<bool>,
    pub stream: Option<bool>,
    pub model: String,
}

/// The process-wide state of audit capture.
#[derive(Clone, Copy, Debug, PartialEq, Eq, Structural)]
pub struct CaptureState {
    /// Sinks are configured and running.
    pub enabled: bool,
    /// Requests are recorded whatever their `store` flag says.
    pub force_logging: bool,
}

pub struct AuditHandle {
    requested_streaming: bool,
    request_id: String,
    model: String,
    headers: Option<Arc<AuditHttpRequestHeaders>>,
}

/// A request is recorded while capture runs, if it asks for storage or
/// everything is recorded.
pub open spec fn recorded(capture: CaptureState, subject: AuditSubject) -> bool {
    capture.enabled && (capture.force_logging || subject.store == Some(true))
}

/// Both records of a request say the same of it.
pub open spec fn same_origin<Q, R>(record: AuditRecord<Q, R>, handle: AuditHandle) -> bool {
    &&& record.schema_version == 1
    &&& record.request_id@ == handle.id()
    &&& record.requested_streaming == handle.is_streaming()
    &&& record.model@ == handle.model_name()
}

impl AuditHandle {
    pub closed spec fn id(&self) -> Seq<char> {
        self.request_id@
    }

    pub closed spec fn is_streaming(&self) -> bool {
        self.requested_streaming
    }

    pub closed spec fn model_name(&self) -> Seq<char> {
        self.model@
    }

    pub closed spec fn http_headers(&self) -> Option<Arc<AuditHttpRequestHeaders>> {
        self.headers
    }

    pub fn streaming(&self) -> (streaming: bool)
        ensures
            streaming == self.is_streaming(),
    {
        self.requested_streaming
    }

    pub fn request_id(&self) -> (id: &str)
        ensures
            id@ == self.id(),
    {
        self.request_id.as_str()
    }

    /// The `Request` record of this request. Publish it once, as soon as the
    /// request is captured and before worker dispatch: this lets downstream
    /// observers see hung or canceled requests that never produce a response
    /// record.
    pub fn emit_request<Q, R>(&self, request: Arc<Q>) -> (record: AuditRecord<Q, R>)
        ensures
            same_origin(record, *self),
            record.event_type == AuditEventType::Request,
            record.request == Some(request),
            record.response is None,
            record.otel_http_headers == self.http_headers(),
    {
        AuditRecord {
            schema_version: 1,
            event_type: AuditEventType::Request,
            request_id: self.request_id.clone(),
            requested_streaming: self.requested_streaming,
            model: self.model.clone(),
            request: Some(request),
            response: None,
            otel_http_headers: match &self.headers {
                Some(headers) => Some(headers.clone()),
                None => None,
            },
        }
    }

    /// The `Response` record of this request. Consumes the handle to enforce
    /// one response per request at the type level. The response record does not
    /// duplicate the request payload: downstream joins on `request_id`.
    pub fn emit_response<Q, R>(self, response: Arc<R>) -> (record: AuditRecord<Q, R>)
        ensures
            same_origin(record, self),
            record.event_type == AuditEventType::Response,
            record.request is None,
            record.response == Some(response),
            record.otel_http_headers is None,
    {
        AuditRecord {
            schema_version: 1,
            event_type: AuditEventType::Response,
            request_id: self.request_id,
            requested_streaming: self.requested_streaming,
            model: self.model,
            request: None,
            response: Some(response),
            otel_http_headers: None,
        }
    }
}

/// A handle for the records of a request, if it is to be recorded.
pub fn create_handle(
    subject: &AuditSubject,
    request_id: &str,
    headers: Option<Arc<AuditHttpRequestHeaders>>,
    capture: CaptureState,
) -> (handle: Option<AuditHandle>)
    ensures
        handle is Some <==> recorded(capture, *subject),
        handle is Some ==> {
            &&& handle->Some_0.id() == request_id@
            &&& handle->Some_0.is_streaming() == (subject.stream == Some(true))
            &&& handle->Some_0.model_name() == subject.model@
            &&& handle->Some_0.http_headers() == headers
        },
{
    if !capture.enabled {
        return None;
    }
    // If force_logging is enabled, ignore the store flag

    let store: bool = match subject.store {
        Some(store) => store,
        None => false,
    };
    if !capture.force_logging && !store {
        return None;
    }
    let requested_streaming: bool = match subject.stream {
        Some(stream) => stream,
        None => false,
    };
    Some(
        AuditHandle {
            requested_streaming,
            request_id: request_id.to_owned(),
            model: subject.model.clone(),
            headers,
        },
    )
}

/// The two records of one request can be joined: they agree on everything but
/// their payloads.
pub proof fn law_records_of_a_request_join<Q, R>(
    request: AuditRecord<Q, R>,
    response: AuditRecord<Q, R>,
    handle: AuditHandle,
)
    requires
        same_origin(request, handle),
        same_origin(response, handle),
    ensures
        request.request_id@ == response.request_id@,
        request.model@ == response.model@,
        request.requested_streaming == response.requested_streaming,
        request.schema_version == response.schema_version,
{
}

} // verus!
