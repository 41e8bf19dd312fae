use codex_logic::progress::McpProgressRouter;
use rmcp::model::NumberOrString;
use rmcp::model::ProgressToken;

#[derive(Debug)]
struct ProgressEvent {
    id: String,
    call_id: String,
    progress: f64,
    message: Option<String>,
}

fn publish(
    router: &McpProgressRouter<async_channel::Sender<ProgressEvent>>,
    token: ProgressToken,
    progress: f64,
    message: Option<&str>,
) {
    let token = token.0.to_string();
    let Some(route) = router.publish_route(&token) else {
        return;
    };
    let Some(tx) = router.sender() else {
        return;
    };
    let _ = tx.try_send(ProgressEvent {
        id: route.event_id,
        call_id: route.call_id,
        progress,
        message: message.map(|m| m.to_string()),
    });
}

#[test]
fn routes_progress_to_registered_call_and_drops_late_notifications() {
    let (tx, rx) = async_channel::bounded(2);
    let mut router = McpProgressRouter::new(Some(tx));
    router.register("call-1", "turn-1", "call-1");
    router.bind("call-1", "0");
    assert!(router.callback_enabled(), "callback should be enabled");
    publish(&router, ProgressToken(NumberOrString::Number(0)), 1.0, Some("reading"));

    let event = rx.try_recv().expect("progress event should be queued");
    assert_eq!(event.id, "turn-1");
    assert!(event.call_id == "call-1" && event.progress == 1.0 && event.message.as_deref() == Some("reading"));

    router.unregister("call-1");
    publish(&router, ProgressToken(NumberOrString::Number(0)), 2.0, None);
    assert!(rx.try_recv().is_err());
}

#[test]
fn keeps_concurrent_and_rebound_progress_routes_isolated() {
    let (tx, rx) = async_channel::bounded(4);
    let mut router = McpProgressRouter::new(Some(tx));
    router.register("call-1", "turn-1", "call-1");
    router.register("call-2", "turn-2", "call-2");
    router.bind("call-1", "0");
    router.bind("call-2", "1");
    router.bind("call-1", "2");
    assert!(router.callback_enabled(), "callback should be enabled");

    publish(&router, ProgressToken(NumberOrString::Number(0)), 1.0, None);
    publish(&router, ProgressToken(NumberOrString::Number(1)), 2.0, None);
    publish(&router, ProgressToken(NumberOrString::Number(2)), 3.0, None);

    let second = rx.try_recv().expect("second call progress should be queued");
    let first = rx.try_recv().expect("rebound first call progress should be queued");
    assert!(rx.try_recv().is_err());
    assert!(second.call_id == "call-2");
    assert!(first.call_id == "call-1");

    router.unregister("call-1");
    publish(&router, ProgressToken(NumberOrString::Number(1)), 4.0, None);
    assert!(rx.try_recv().is_ok());
}

#[test]
fn no_callback_and_no_delivery_without_event_channel() {
    let mut router: McpProgressRouter<async_channel::Sender<ProgressEvent>> = McpProgressRouter::new(None);
    router.register("call-1", "turn-1", "call-1");
    assert!(!router.callback_enabled());
    assert!(router.publish_route("call-1").is_none());
}

#[test]
fn unknown_and_unbound_tokens_are_dropped() {
    let (tx, _rx) = async_channel::bounded::<ProgressEvent>(1);
    let mut router = McpProgressRouter::new(Some(tx));
    assert!(router.publish_route("missing").is_none());
    router.bind("call-1", "0");
    assert!(router.publish_route("0").is_none());
    router.register("call-1", "turn-1", "call-1");
    let route = router.publish_route("call-1").expect("registered token routes");
    assert_eq!(route.event_id, "turn-1");
    assert_eq!(route.call_id, "call-1");
}

#[test]
fn unregister_removes_own_and_bound_tokens() {
    let (tx, _rx) = async_channel::bounded::<ProgressEvent>(1);
    let mut router = McpProgressRouter::new(Some(tx));
    router.register("call-1", "turn-1", "call-1");
    router.bind("call-1", "7");
    assert!(router.publish_route("7").is_some());
    assert!(router.publish_route("call-1").is_some());
    router.unregister("call-1");
    assert!(router.publish_route("7").is_none());
    assert!(router.publish_route("call-1").is_none());
}

#[test]
fn generated_token_taken_over_by_another_call() {
    let (tx, _rx) = async_channel::bounded::<ProgressEvent>(1);
    let mut router = McpProgressRouter::new(Some(tx));
    router.register("call-1", "turn-1", "call-1");
    router.register("call-2", "turn-2", "call-2");
    router.bind("call-1", "5");
    router.bind("call-2", "5");
    assert_eq!(router.publish_route("5").expect("bound").call_id, "call-2");
    // call-1 no longer owns "5": unregistering it leaves call-2's route alone
    router.unregister("call-1");
    assert_eq!(router.publish_route("5").expect("still bound").call_id, "call-2");
    router.unregister("call-2");
    assert!(router.publish_route("5").is_none());
}
