use safe_fluent::error::ParseError;
use safe_fluent::ids::RequestId;
use safe_fluent::transport::{
    jsonrpc_error_kind, parse_failure_message, route_handle_input, route_input, to_jsonrpc_error, CallLanguageServer,
    CallStep, ExitedError, InputRoute, JsonRpcErrorKind, Message, Pending, SendError,
};

#[test]
fn pending_answers_in_order_of_registration() {
    let mut pending: Pending<&str> = Pending::new();
    assert!(pending.insert(RequestId::Number(1), "first"));
    assert!(pending.insert(RequestId::Number(1), "second"));
    assert!(pending.insert(RequestId::String("x".to_string()), "other"));
    assert_eq!(Some("first"), pending.start_send(&RequestId::Number(1)));
    assert_eq!(Some("other"), pending.start_send(&RequestId::String("x".to_string())));
    assert_eq!(Some("second"), pending.start_send(&RequestId::Number(1)));
    assert_eq!(None, pending.start_send(&RequestId::Number(1)));
}

#[test]
fn null_ids_are_not_registered() {
    let mut pending: Pending<u8> = Pending::new();
    assert!(!pending.insert(RequestId::Null, 1));
    assert_eq!(None, pending.start_send(&RequestId::Null));
}

#[test]
fn unmatched_response() {
    let mut pending: Pending<u8> = Pending::new();
    pending.insert(RequestId::Number(2), 9);
    assert_eq!(None, pending.start_send(&RequestId::Number(3)));
    assert_eq!(Some(9), pending.start_send(&RequestId::Number(2)));
}

#[test]
fn exited_error_reports() {
    assert_eq!("language server has exited", ExitedError.to_string());
    assert_eq!(-333444, ExitedError.jsonrpc_code());
    assert_eq!(ExitedError, ExitedError::default());
    assert_eq!(ExitedError, ExitedError::from_send_error(&SendError::Disconnected));
}

#[test]
fn send_error_from_channel() {
    assert!(matches!(SendError::from_channel(true), SendError::Full));
    assert!(matches!(SendError::from_channel(false), SendError::Disconnected));
    assert_eq!("SendError: ", SendError::Full.to_string());
}

#[test]
fn call_with_id_waits_for_response() {
    let mut call: CallLanguageServer<&str, (), u8> = CallLanguageServer::new("req", ());
    assert_eq!(CallStep::Send, call.next_step());
    assert_eq!("req", call.take_request());
    call.set_receiver(Some(1));
    assert_eq!(CallStep::PollFlush, call.next_step());
    call.set_flushed();
    assert_eq!(CallStep::PollResponse, call.next_step());
    assert_eq!(&mut Some(1), call.receiver_mut());
}

#[test]
fn notification_finishes_after_flush() {
    let mut call: CallLanguageServer<&str, (), u8> = CallLanguageServer::new("note", ());
    call.take_request();
    call.set_receiver(None);
    assert_eq!(CallStep::PollFlush, call.next_step());
    call.set_flushed();
    assert_eq!(CallStep::Finish, call.next_step());
}

#[test]
fn input_routing() {
    assert!(matches!(route_input::<u8, u16, ()>(Ok(Message::Request(1))), InputRoute::ToRequests(1)));
    assert!(matches!(route_input::<u8, u16, ()>(Ok(Message::Response(2))), InputRoute::ToPending(2)));
    assert!(matches!(route_input::<u8, u16, &str>(Err("bad")), InputRoute::ParseFailure("bad")));
    assert_eq!("Parse error occurred", parse_failure_message());
}

#[test]
fn jsonrpc_errors_for_codec_errors() {
    let shape = serde_json::from_str::<i32>("\"text\"").unwrap_err();
    assert_eq!(JsonRpcErrorKind::InvalidRequest, to_jsonrpc_error(&ParseError::body(shape)));
    let syntax = serde_json::from_str::<i32>("x").unwrap_err();
    assert_eq!(JsonRpcErrorKind::ParseError, to_jsonrpc_error(&ParseError::body(syntax)));
    assert_eq!(JsonRpcErrorKind::ParseError, to_jsonrpc_error(&ParseError::MissingContentLength));
    assert_eq!(JsonRpcErrorKind::InvalidRequest, jsonrpc_error_kind(true));
    assert_eq!(-32700, JsonRpcErrorKind::ParseError.code());
    assert_eq!(-32600, JsonRpcErrorKind::InvalidRequest.code());
}

#[test]
fn handle_input_passes_messages_and_reports_errors() {
    assert!(matches!(route_handle_input::<u8>(Ok(4)), Ok(4)));
    assert!(matches!(
        route_handle_input::<u8>(Err(ParseError::InvalidContentType)),
        Err(JsonRpcErrorKind::ParseError)
    ));
}

#[test]
fn parse_error_messages() {
    assert_eq!("unable to parse content type", ParseError::InvalidContentType.to_string());
    assert_eq!("missing required `Content-Length` header", ParseError::MissingContentLength.to_string());
    let e = "x".parse::<usize>().unwrap_err();
    assert_eq!(
        format!("unable to parse content length: {e}"),
        ParseError::InvalidContentLength(e).to_string()
    );
    let body = serde_json::from_str::<i32>("{").unwrap_err();
    assert!(ParseError::body(body).to_string().starts_with("unable to parse JSON body: "));
}

#[test]
fn handle_input_reports_body_of_wrong_shape_as_invalid_request() {
    let shape = serde_json::from_str::<i32>("[1]").unwrap_err();
    assert!(matches!(route_handle_input::<u8>(Err(ParseError::body(shape))), Err(JsonRpcErrorKind::InvalidRequest)));
    let syntax = serde_json::from_str::<i32>("x").unwrap_err();
    assert!(matches!(route_handle_input::<u8>(Err(ParseError::body(syntax))), Err(JsonRpcErrorKind::ParseError)));
}
