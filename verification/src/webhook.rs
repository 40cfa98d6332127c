//! Sending snapshots to a TRMNL webhook: which responses count as failures, and how a
//! failure is described to the user.
use vstd::prelude::*;
use crate::json_parse::{
    parse_json, spec_parse_json, spec_value_as_str, spec_value_get, spec_value_text, value_as_str, value_get, value_text,
};
use crate::text::{decimal, push_str, string_from_chars};

verus! {

/// Why a webhook request failed.
pub enum SendWebhookErrorKind {
    /// The HTTP client could not be set up (the client error's message).
    ClientBuild(String),
    /// The request could not be sent (the request error's message).
    Request(String),
    /// TRMNL answered 429 Too Many Requests.
    RequestVolumeLimitReached(String),
    /// TRMNL answered 422 Unprocessable Entity.
    RequestSizeLimitReached(String),
    /// Any other 5xx status.
    ServerError(u16, String),
    /// Any other 4xx status.
    ClientError(u16, String),
    /// Any other status that is not a success.
    UnknownError(u16, String),
}

/// A failed webhook send: what failed, and whether the metadata request had already been
/// accepted.
pub struct SendWebhookError {
    pub was_metadata_sent: bool,
    pub kind: SendWebhookErrorKind,
}

/// Whether an HTTP status code is a success (200–299).
pub open spec fn is_success_code(code: u16) -> bool {
    200 <= code && code < 300
}

/// Whether `status` is a success status (200–299), as `StatusCode::is_success` decides.
pub fn status_is_success(status: u16) -> (r: bool)
    ensures
        r == is_success_code(status),
{
    200 <= status && status < 300
}

/// The failure a response with status `status` and body `body` reports: none for a
/// success; 429 and 422 are TRMNL's volume and size limits; then server errors (5xx),
/// client errors (4xx), and any other status.
pub open spec fn response_failure(status: u16) -> int {
    if is_success_code(status) {
        0
    } else if status == 429 {
        1
    } else if status == 422 {
        2
    } else if 500 <= status && status < 600 {
        3
    } else if 400 <= status && status < 500 {
        4
    } else {
        5
    }
}

/// The failure reported by a response that is not a success.
pub fn response_error(status: u16, body: String) -> (r: Option<SendWebhookErrorKind>)
    ensures
        response_failure(status) == 0 <==> r is None,
        response_failure(status) == 1 <==> (r matches Some(SendWebhookErrorKind::RequestVolumeLimitReached(b)) && b == body),
        response_failure(status) == 2 <==> (r matches Some(SendWebhookErrorKind::RequestSizeLimitReached(b)) && b == body),
        response_failure(status) == 3 <==> (r matches Some(SendWebhookErrorKind::ServerError(s, b)) && s == status && b == body),
        response_failure(status) == 4 <==> (r matches Some(SendWebhookErrorKind::ClientError(s, b)) && s == status && b == body),
        response_failure(status) == 5 <==> (r matches Some(SendWebhookErrorKind::UnknownError(s, b)) && s == status && b == body),
{
    if status_is_success(status) {
        None
    } else if status == 429 {
        Some(SendWebhookErrorKind::RequestVolumeLimitReached(body))
    } else if status == 422 {
        Some(SendWebhookErrorKind::RequestSizeLimitReached(body))
    } else if 500 <= status && status < 600 {
        Some(SendWebhookErrorKind::ServerError(status, body))
    } else if 400 <= status && status < 500 {
        Some(SendWebhookErrorKind::ClientError(status, body))
    } else {
        Some(SendWebhookErrorKind::UnknownError(status, body))
    }
}

/// The canonical reason phrase of an HTTP status code, if it has one.
pub uninterp spec fn spec_canonical_reason(code: u16) -> Option<Seq<char>>;

/// The text `reqwest::StatusCode` displays for a status code: the code, a space, and its
/// canonical reason phrase (`<unknown status code>` where it has none).
pub open spec fn status_text(code: u16) -> Seq<char> {
    decimal(code as nat) + seq![' '] + match spec_canonical_reason(code) {
        Some(reason) => reason,
        None => "<unknown status code>"@,
    }
}

/// `reqwest::StatusCode::from_u16` then its `Display`: the status code `code` (valid
/// codes are 100–999) written as its number, a space and its canonical reason phrase;
/// the phrase itself is named by `spec_canonical_reason`.
#[verifier::external_body]
fn display_status(code: u16) -> (r: String)
    requires
        100 <= code <= 999,
    ensures
        r@ == decimal(code as nat) + seq![' '] + match spec_canonical_reason(code) {
            Some(reason) => reason,
            None => "<unknown status code>"@,
        },
{
    reqwest::StatusCode::from_u16(code).unwrap().to_string()
}

/// What the `message` member of an error body reads as: its string, or the JSON text of
/// any other value.
pub enum MessageText {
    Str(String),
    Json(String),
}

/// The details shown for an error response whose `message` member reads as `message`
/// (none where the body is no JSON object with a `message`): "not available" for an
/// empty body, else the message, else the body text.
pub open spec fn details_of(text: Seq<char>, message: Option<Seq<char>>) -> Seq<char> {
    if text.len() == 0 {
        "not available"@
    } else {
        match message {
            Some(m) => m,
            None => text,
        }
    }
}

/// What the `message` member of the JSON value `json` reads as, if it has one: its
/// string, or the JSON text of any other value.
pub open spec fn message_of(json: Option<serde_json::Value>) -> Option<Seq<char>> {
    match json {
        Some(v) => match spec_value_get(v, "message"@) {
            Some(m) => match spec_value_as_str(m) {
                Some(s) => Some(s),
                None => Some(spec_value_text(m)),
            },
            None => None,
        },
        None => None,
    }
}

/// The details shown for an error response with body `text`: "not available" for an
/// empty body; the `message` of a JSON object body (as is when it is a string, as JSON
/// text otherwise); else the body text.
pub open spec fn details_text(text: Seq<char>) -> Seq<char> {
    details_of(text, message_of(spec_parse_json(text)))
}

/// The details shown for an error response with body `text` whose `message` member
/// reads as `message`.
pub fn details_from_message(text: &str, message: Option<MessageText>) -> (r: String)
    ensures
        r@ == details_of(text@, match message {
            Some(MessageText::Str(m)) => Some(m@),
            Some(MessageText::Json(m)) => Some(m@),
            None => None,
        }),
{
    if text.unicode_len() == 0 {
        return String::from_str("not available");
    }
    match message {
        Some(MessageText::Str(m)) => m,
        Some(MessageText::Json(m)) => m,
        None => String::from_str(text),
    }
}

/// The details shown for an error response body.
pub fn format_err_details(text: &str) -> (r: String)
    ensures
        r@ == details_text(text@),
{
    if text.unicode_len() == 0 {
        return String::from_str("not available");
    }
    proof {
        reveal_strlit("message");
    }
    let message = match parse_json(text) {
        Some(json) => match value_get(&json, "message") {
            Some(m) => match value_as_str(&m) {
                Some(s) => Some(MessageText::Str(s)),
                None => Some(MessageText::Json(value_text(&m))),
            },
            None => None,
        },
        None => None,
    };
    details_from_message(text, message)
}

/// Whether the status codes an error holds are valid HTTP status codes (100–999).
pub open spec fn kind_codes_valid(kind: SendWebhookErrorKind) -> bool {
    match kind {
        SendWebhookErrorKind::ServerError(s, _) => 100 <= s <= 999,
        SendWebhookErrorKind::ClientError(s, _) => 100 <= s <= 999,
        SendWebhookErrorKind::UnknownError(s, _) => 100 <= s <= 999,
        _ => true,
    }
}

/// The URL of TRMNL's documentation of the webhook limits.
pub open spec fn limits_hint() -> Seq<char> {
    "See https://docs.trmnl.com/go/private-plugins/webhooks for limits.\nDetails:\n"@
}

/// The human-readable description of a failed webhook request.
pub open spec fn error_description(kind: SendWebhookErrorKind) -> Seq<char> {
    match kind {
        SendWebhookErrorKind::ClientBuild(m) => "could not initialize the HTTP client.\nDetails:\n"@ + m@,
        SendWebhookErrorKind::Request(m) => "request failure. Did you enter the correct URL?\nDetails:\n"@ + m@,
        SendWebhookErrorKind::RequestVolumeLimitReached(b) => "reached a limit. You may have sent too many webhooks today.\n"@
            + limits_hint() + details_text(b@),
        SendWebhookErrorKind::RequestSizeLimitReached(b) => "reached a limit. Your console output may be too large.\n"@
            + limits_hint() + details_text(b@),
        SendWebhookErrorKind::ServerError(s, b) => "server error ("@ + status_text(s) + ").\nDetails:\n"@
            + details_text(b@),
        SendWebhookErrorKind::ClientError(s, b) => "client error ("@ + status_text(s) + ").\nDetails:\n"@
            + details_text(b@),
        SendWebhookErrorKind::UnknownError(s, b) => "error ("@ + status_text(s) + ").\nDetails:\n"@
            + details_text(b@),
    }
}

/// Renders a failed webhook request as a human-readable message, without terminal colors.
pub fn describe_error(kind: &SendWebhookErrorKind) -> (r: String)
    requires
        kind_codes_valid(*kind),
    ensures
        r@ == error_description(*kind),
{
    let mut out: Vec<char> = Vec::new();
    match kind {
        SendWebhookErrorKind::ClientBuild(m) => {
            push_str(&mut out, "could not initialize the HTTP client.\nDetails:\n");
            push_str(&mut out, m.as_str());
        },
        SendWebhookErrorKind::Request(m) => {
            push_str(&mut out, "request failure. Did you enter the correct URL?\nDetails:\n");
            push_str(&mut out, m.as_str());
        },
        SendWebhookErrorKind::RequestVolumeLimitReached(b) => {
            push_str(&mut out, "reached a limit. You may have sent too many webhooks today.\n");
            push_str(&mut out, "See https://docs.trmnl.com/go/private-plugins/webhooks for limits.\nDetails:\n");
            push_str(&mut out, format_err_details(b.as_str()).as_str());
        },
        SendWebhookErrorKind::RequestSizeLimitReached(b) => {
            push_str(&mut out, "reached a limit. Your console output may be too large.\n");
            push_str(&mut out, "See https://docs.trmnl.com/go/private-plugins/webhooks for limits.\nDetails:\n");
            push_str(&mut out, format_err_details(b.as_str()).as_str());
        },
        SendWebhookErrorKind::ServerError(s, b) => {
            push_str(&mut out, "server error (");
            push_str(&mut out, display_status(*s).as_str());
            push_str(&mut out, ").\nDetails:\n");
            push_str(&mut out, format_err_details(b.as_str()).as_str());
        },
        SendWebhookErrorKind::ClientError(s, b) => {
            push_str(&mut out, "client error (");
            push_str(&mut out, display_status(*s).as_str());
            push_str(&mut out, ").\nDetails:\n");
            push_str(&mut out, format_err_details(b.as_str()).as_str());
        },
        SendWebhookErrorKind::UnknownError(s, b) => {
            push_str(&mut out, "error (");
            push_str(&mut out, display_status(*s).as_str());
            push_str(&mut out, ").\nDetails:\n");
            push_str(&mut out, format_err_details(b.as_str()).as_str());
        },
    }
    assert(out@ =~= error_description(*kind));
    string_from_chars(&out)
}

// ---------------------------------------------------------------------------
// The order of the requests
// ---------------------------------------------------------------------------

/// A step of sending a snapshot: setting up the HTTP client, then either the metadata
/// request followed by the content request (`split`), or one single request.
#[derive(Clone, Copy, Debug, PartialEq, Eq, Structural)]
pub enum SendStep {
    BuildClient { split: bool },
    PostMetadata,
    PostContent,
    PostSingle,
}

/// What to do after a step: the next step, or the end with its result.
pub enum SendAction {
    Next(SendStep),
    Finish(Result<(), SendWebhookError>),
}

/// The step after `step` given how it went: a failure ends the send, recording whether
/// the metadata had already been accepted (which is the case exactly when the content
/// request failed); a success moves on, and the last request's success ends it.
pub fn next_send_step(step: SendStep, result: Result<(), SendWebhookErrorKind>) -> (r: SendAction)
    ensures
        match result {
            Err(k) => r matches SendAction::Finish(Err(e)) && e.kind == k
                && e.was_metadata_sent == (step == SendStep::PostContent),
            Ok(()) => match step {
                SendStep::BuildClient { split } => r == SendAction::Next(
                    if split { SendStep::PostMetadata } else { SendStep::PostSingle },
                ),
                SendStep::PostMetadata => r == SendAction::Next(SendStep::PostContent),
                _ => r matches SendAction::Finish(Ok(())),
            },
        },
{
    match result {
        Err(kind) => {
            let was_metadata_sent = match step {
                SendStep::PostContent => true,
                _ => false,
            };
            SendAction::Finish(Err(SendWebhookError { was_metadata_sent, kind }))
        },
        Ok(()) => match step {
            SendStep::BuildClient { split } => SendAction::Next(
                if split { SendStep::PostMetadata } else { SendStep::PostSingle },
            ),
            SendStep::PostMetadata => SendAction::Next(SendStep::PostContent),
            _ => SendAction::Finish(Ok(())),
        },
    }
}

/// The exit code the CLI ends with after a send: 0 on success, 90 when the webhook
/// request failed; on failure also the message to print after the error prefix.
pub fn cli_report(result: &Result<(), SendWebhookError>) -> (r: (u8, Option<String>))
    requires
        result matches Err(e) ==> kind_codes_valid(e.kind),
    ensures
        match result {
            Ok(()) => r.0 == 0 && r.1 is None,
            Err(e) => r.0 == 90 && (r.1 matches Some(m) && m@ == error_description(e.kind)),
        },
{
    match result {
        Ok(()) => (0, None),
        Err(e) => (90, Some(describe_error(&e.kind))),
    }
}

} // verus!
