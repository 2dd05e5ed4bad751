use safe_fluent::bridge::{
    embedded_id, is_bridge_method, to_forward, BridgeBuilder, BridgeFuture, BridgeInner, BridgeStep, Route, Router,
};
use safe_fluent::ids::{RequestId, UniqueIdIter};
use safe_fluent::transport::{Message, Source};

fn text_of(id: &RequestId) -> String {
    match id {
        RequestId::String(s) => s.clone(),
        RequestId::Number(n) => format!("#{n}"),
        RequestId::Null => "null".to_string(),
    }
}

#[test]
fn bridge_methods() {
    for m in ["initialize", "initialized", "shutdown", "textDocument/didOpen", "textDocument/didChange", "textDocument/didClose"] {
        assert!(is_bridge_method(m), "{m}");
    }
    for m in ["textDocument/hover", "exit", "", "Initialize"] {
        assert!(!is_bridge_method(m), "{m}");
    }
}

#[test]
fn json_documents_are_routed_to_embedded_server() {
    let mut bridge = BridgeInner::new((), 1, 2);
    let json = "file:///a.json".to_string();
    let java = "file:///A.java".to_string();
    assert_eq!(Route::Embedded, bridge.did_open(&json, "json"));
    assert_eq!(Route::Main, bridge.did_open(&java, "java"));
    assert_eq!(Route::Embedded, bridge.did_change(&json));
    assert_eq!(Route::Main, bridge.did_change(&java));
    assert_eq!(Route::Embedded, bridge.did_close(&json));
    assert_eq!(Route::Main, bridge.did_change(&json));
    assert_eq!(Route::Main, bridge.did_close(&json));
}

#[test]
fn jsonc_is_json_too() {
    let mut bridge = BridgeInner::new((), 1, 2);
    let uri = "file:///settings.jsonc".to_string();
    assert_eq!(Route::Embedded, bridge.did_open(&uri, "jsonc"));
    assert_eq!(Route::Embedded, bridge.did_open(&uri, "jsonc"));
    assert_eq!(Route::Embedded, bridge.did_close(&uri));
    assert_eq!(Route::Main, bridge.did_close(&uri));
}

#[test]
fn embedded_ids_are_prefixed() {
    let n = embedded_id(&Some(RequestId::Number(5))).unwrap();
    assert_eq!("embedded:5", text_of(&n));
    let s = embedded_id(&Some(RequestId::String("a\"b".to_string()))).unwrap();
    assert_eq!("embedded:\"a\\\"b\"", text_of(&s));
    let null = embedded_id(&Some(RequestId::Null)).unwrap();
    assert_eq!("embedded:null", text_of(&null));
    let neg = embedded_id(&Some(RequestId::Number(-12))).unwrap();
    assert_eq!("embedded:-12", text_of(&neg));
    assert!(embedded_id(&None).is_none());
}

#[test]
fn only_requests_are_forwarded() {
    assert_eq!(Some(1), to_forward::<i32, &str>(Message::Request(1)));
    assert_eq!(None, to_forward::<i32, &str>(Message::Response("r")));
}

#[test]
fn prefixed_ids_count_up() {
    let mut ids = UniqueIdIter::with_prefix("bridge:");
    assert_eq!("bridge:0", text_of(&ids.next()));
    assert_eq!("bridge:1", text_of(&ids.next()));
    assert_eq!("bridge:2", text_of(&ids.next()));
}

#[test]
fn bare_ids_are_numbers() {
    let mut ids = UniqueIdIter::new();
    assert_eq!("#0", text_of(&ids.next()));
    assert_eq!("#1", text_of(&ids.next()));
}

#[test]
fn ids_differ() {
    let mut ids = UniqueIdIter::with_prefix("p");
    let seen: Vec<String> = (0..50).map(|_| text_of(&ids.next())).collect();
    for i in 0..seen.len() {
        for j in 0..i {
            assert_ne!(seen[i], seen[j]);
        }
    }
}

#[test]
fn ids_compare_by_value() {
    assert!(RequestId::Number(3).same(&RequestId::Number(3)));
    assert!(!RequestId::Number(3).same(&RequestId::String("3".to_string())));
    assert!(RequestId::Null.same(&RequestId::Null));
}

#[test]
fn builder_needs_both_servers() {
    assert!(BridgeBuilder::<u8>::default().main_server(1).build().is_none());
    assert!(BridgeBuilder::<u8>::default().embedded_server(2).build().is_none());
    assert_eq!(Some((1, 2)), BridgeBuilder::<u8>::default().main_server(1).embedded_server(2).build());
}

#[test]
fn forwarded_request_takes_lock_then_asks_readiness() {
    let mut f: BridgeFuture<&str, (), u8, u16> = BridgeFuture::new("req", ());
    assert_eq!(BridgeStep::PollWrite, f.next_step());
    f.put_guard(7);
    assert_eq!(BridgeStep::PollReady, f.next_step());
    let g = f.take_guard().unwrap();
    assert_eq!(7, g);
    f.put_guard(g);
    // A ready server is not marked as such: it is asked again.
    assert_eq!(BridgeStep::PollReady, f.next_step());
    assert_eq!(Some("req"), f.take_request());
    f.set_future(3);
    assert_eq!(BridgeStep::PollFuture, f.next_step());
    assert_eq!(&mut Some(3), f.future_mut());
}

#[test]
fn router_routes_registered_methods() {
    let router: Router<&str, u8> = Router::new("default");
    assert_eq!(None, router.route_index("textDocument/hover"));
    assert_eq!("default", router.default_route);
}

#[test]
fn socket_alternates_between_streams() {
    let mut socket = safe_fluent::transport::BaseLsSocket::new((), ());
    assert_eq!(Source::Responses, socket.first_source());
    assert_eq!(None, socket.first_polled(true));
    assert_eq!(Source::Requests, socket.first_source());
    assert_eq!(Some(Source::Responses), socket.first_polled(false));
    assert_eq!(Source::Requests, socket.first_source());
    assert_eq!(None, socket.first_polled(true));
    assert_eq!(Source::Responses, socket.first_source());
}

#[test]
fn json_document_stays_embedded_until_closed() {
    let mut bridge = BridgeInner::new((), 1, 2);
    let json = "file:///a.json".to_string();
    let other = "file:///b.json".to_string();
    assert_eq!(Route::Embedded, bridge.did_open(&json, "json"));
    assert_eq!(Route::Embedded, bridge.did_open(&other, "json"));
    assert_eq!(Route::Embedded, bridge.did_close(&other));
    assert_eq!(Route::Main, bridge.did_open(&json, "plaintext"));
    assert_eq!(Route::Embedded, bridge.did_change(&json));
    assert_eq!(Route::Embedded, bridge.did_close(&json));
    assert_eq!(Route::Main, bridge.did_change(&json));
}
