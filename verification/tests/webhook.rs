//! Classifying webhook responses and describing failures.
use trmnl_console::webhook::{
    cli_report, describe_error, details_from_message, format_err_details, next_send_step, response_error,
    status_is_success, MessageText, SendAction, SendStep, SendWebhookError, SendWebhookErrorKind,
};

fn plain(text: &str) -> String {
    text.to_string()
}

#[test]
fn success_statuses_are_2xx() {
    assert!(status_is_success(200));
    assert!(status_is_success(204));
    assert!(status_is_success(299));
    assert!(!status_is_success(199));
    assert!(!status_is_success(300));
    assert!(response_error(201, plain("")).is_none());
}

#[test]
fn response_statuses_map_to_error_kinds() {
    assert!(matches!(response_error(429, plain("x")), Some(SendWebhookErrorKind::RequestVolumeLimitReached(_))));
    assert!(matches!(response_error(422, plain("x")), Some(SendWebhookErrorKind::RequestSizeLimitReached(_))));
    assert!(matches!(response_error(503, plain("x")), Some(SendWebhookErrorKind::ServerError(503, _))));
    assert!(matches!(response_error(404, plain("x")), Some(SendWebhookErrorKind::ClientError(404, _))));
    assert!(matches!(response_error(302, plain("x")), Some(SendWebhookErrorKind::UnknownError(302, _))));
    assert!(matches!(response_error(100, plain("x")), Some(SendWebhookErrorKind::UnknownError(100, _))));
}

#[test]
fn details_of_empty_body_are_not_available() {
    assert_eq!(format_err_details(""), "not available");
    assert_eq!(details_from_message("", Some(MessageText::Str("m".into()))), "not available");
}

#[test]
fn details_use_the_json_message_string() {
    assert_eq!(format_err_details("{\"message\":\"too big\"}"), "too big");
    assert_eq!(format_err_details("{\"error\":true, \"message\" : \"a\\nb\"}"), "a\nb");
    assert_eq!(details_from_message("{...}", Some(MessageText::Str("too big".into()))), "too big");
}

#[test]
fn details_write_a_non_string_message_as_json() {
    let text = "{\"message\": {\"code\": 42, \"why\": \"a\\\"b\\\\c\\nd\\u0001\", \"list\": [null, true, false]}}";
    assert_eq!(
        format_err_details(text),
        "{\"code\":42,\"list\":[null,true,false],\"why\":\"a\\\"b\\\\c\\nd\\u0001\"}"
    );
    assert_eq!(format_err_details("{\"message\":7}"), "7");
    assert_eq!(format_err_details("{\"message\":null}"), "null");
    assert_eq!(details_from_message("{...}", Some(MessageText::Json("[1]".into()))), "[1]");
}

#[test]
fn details_fall_back_to_the_body_text() {
    assert_eq!(format_err_details("Gateway timeout"), "Gateway timeout");
    assert_eq!(format_err_details("{\"error\":1}"), "{\"error\":1}");
    assert_eq!(format_err_details("[1]"), "[1]");
    assert_eq!(format_err_details("{\"message\":\"unterminated}"), "{\"message\":\"unterminated}");
    assert_eq!(details_from_message("body", None), "body");
}

#[test]
fn describe_uses_the_parsed_message() {
    assert_eq!(
        describe_error(&SendWebhookErrorKind::ClientError(400, "{\"message\":\"bad\"}".into())),
        "client error (400 Bad Request).\nDetails:\nbad"
    );
}

#[test]
fn describe_client_build_and_request_errors() {
    assert_eq!(
        describe_error(&SendWebhookErrorKind::ClientBuild("tls".into())),
        "could not initialize the HTTP client.\nDetails:\ntls"
    );
    assert_eq!(
        describe_error(&SendWebhookErrorKind::Request("dns".into())),
        "request failure. Did you enter the correct URL?\nDetails:\ndns"
    );
}

#[test]
fn describe_limit_errors() {
    assert_eq!(
        describe_error(&SendWebhookErrorKind::RequestVolumeLimitReached(plain(""))),
        "reached a limit. You may have sent too many webhooks today.\nSee https://docs.trmnl.com/go/private-plugins/webhooks for limits.\nDetails:\nnot available"
    );
    assert_eq!(
        describe_error(&SendWebhookErrorKind::RequestSizeLimitReached(plain("big"))),
        "reached a limit. Your console output may be too large.\nSee https://docs.trmnl.com/go/private-plugins/webhooks for limits.\nDetails:\nbig"
    );
}

#[test]
fn describe_status_errors_with_reason_phrase() {
    assert_eq!(
        describe_error(&SendWebhookErrorKind::ServerError(500, plain(""))),
        "server error (500 Internal Server Error).\nDetails:\nnot available"
    );
    assert_eq!(
        describe_error(&SendWebhookErrorKind::ClientError(404, plain("nope"))),
        "client error (404 Not Found).\nDetails:\nnope"
    );
    assert_eq!(
        describe_error(&SendWebhookErrorKind::UnknownError(999, plain("?"))),
        "error (999 <unknown status code>).\nDetails:\n?"
    );
}

#[test]
fn split_send_posts_metadata_then_content() {
    assert!(matches!(
        next_send_step(SendStep::BuildClient { split: true }, Ok(())),
        SendAction::Next(SendStep::PostMetadata)
    ));
    assert!(matches!(next_send_step(SendStep::PostMetadata, Ok(())), SendAction::Next(SendStep::PostContent)));
    assert!(matches!(next_send_step(SendStep::PostContent, Ok(())), SendAction::Finish(Ok(()))));
}

#[test]
fn single_send_posts_once() {
    assert!(matches!(
        next_send_step(SendStep::BuildClient { split: false }, Ok(())),
        SendAction::Next(SendStep::PostSingle)
    ));
    assert!(matches!(next_send_step(SendStep::PostSingle, Ok(())), SendAction::Finish(Ok(()))));
}

#[test]
fn failures_record_whether_metadata_was_sent() {
    let fail = || Err(SendWebhookErrorKind::Request("x".into()));
    for (step, sent) in [
        (SendStep::BuildClient { split: true }, false),
        (SendStep::PostMetadata, false),
        (SendStep::PostContent, true),
        (SendStep::PostSingle, false),
    ] {
        match next_send_step(step, fail()) {
            SendAction::Finish(Err(e)) => assert_eq!(e.was_metadata_sent, sent),
            _ => panic!("failure did not end the send"),
        }
    }
}

#[test]
fn cli_exit_codes() {
    assert_eq!(cli_report(&Ok(())), (0, None));
    let err = SendWebhookError {
        was_metadata_sent: true,
        kind: SendWebhookErrorKind::Request("refused".into()),
    };
    assert_eq!(
        cli_report(&Err(err)),
        (90, Some("request failure. Did you enter the correct URL?\nDetails:\nrefused".to_string()))
    );
}
