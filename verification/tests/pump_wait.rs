use webview2::error::Error;
use webview2::pump::{wait_with_pump, MessagePump, Msg, QueueEvent, Retrieval};
use webview2::scripted::ScriptedPump;

#[test]
fn immediate_delivery_skips_retrieval() {
    // A value already on the channel returns at once: the scripted fatal
    // event is never retrieved and nothing is dispatched.
    let script = vec![QueueEvent::Fatal(-1)];
    let mut pump = ScriptedPump::new(Some(7u64), script);
    let r = wait_with_pump(&mut pump);
    assert_eq!(r.unwrap(), 7);
    assert_eq!(pump.dispatched_log().len(), 0);
    assert_eq!(pump.remaining_events(), 1);
}

#[test]
fn delivery_by_nudge() {
    // A producer places "ready" on the channel and posts a wake-up message;
    // the wait dispatches the nudge and returns the value.
    let script = vec![
        QueueEvent::Message { msg: Msg { id: 100 }, delivers: Some(String::from("ready")) },
        QueueEvent::Quit,
    ];
    let mut pump = ScriptedPump::new(None, script);
    let r = wait_with_pump(&mut pump);
    assert_eq!(r.unwrap(), "ready");
    assert_eq!(pump.dispatched_log().len(), 1);
    assert_eq!(pump.dispatched_log()[0], Msg { id: 100 });
    assert_eq!(pump.remaining_events(), 1);
}

#[test]
fn eventual_delivery_after_unrelated_traffic() {
    // Unrelated messages are pumped until the delivering cycle; the value is
    // observed on the next poll and the rest of the script stays untouched.
    let script = vec![
        QueueEvent::Message { msg: Msg { id: 1 }, delivers: None },
        QueueEvent::Message { msg: Msg { id: 2 }, delivers: None },
        QueueEvent::Message { msg: Msg { id: 3 }, delivers: Some(42u64) },
        QueueEvent::Quit,
    ];
    let mut pump = ScriptedPump::new(None, script);
    let r = wait_with_pump(&mut pump);
    assert_eq!(r.unwrap(), 42);
    let log = pump.dispatched_log();
    assert_eq!(log.len(), 3);
    assert_eq!(log[0].id, 1);
    assert_eq!(log[1].id, 2);
    assert_eq!(log[2].id, 3);
    assert_eq!(pump.remaining_events(), 1);
}

#[test]
fn cancellation_stops_retrieval() {
    // A termination request with nothing on the channel cancels the wait;
    // the event after it is never retrieved.
    let script = vec![QueueEvent::<u64>::Quit, QueueEvent::Fatal(-1)];
    let mut pump = ScriptedPump::new(None, script);
    let r = wait_with_pump(&mut pump);
    assert!(matches!(r, Err(Error::TaskCanceled)));
    assert_eq!(pump.dispatched_log().len(), 0);
    assert_eq!(pump.remaining_events(), 1);
}

#[test]
fn fatal_failure_surfaces_code() {
    // A fatal retrieval fault surfaces its code at once; nothing further is
    // retrieved or dispatched.
    let script = vec![QueueEvent::<u64>::Fatal(-2147024882), QueueEvent::Quit];
    let mut pump = ScriptedPump::new(None, script);
    let r = wait_with_pump(&mut pump);
    match r {
        Err(Error::WindowsError(code)) => assert_eq!(code, -2147024882),
        _ => panic!("expected the fatal fault's code"),
    }
    assert_eq!(pump.dispatched_log().len(), 0);
    assert_eq!(pump.remaining_events(), 1);
}

#[test]
fn dispatch_order_before_cancellation() {
    // Every message ahead of the termination request is dispatched, in
    // arrival order, before the wait reports cancellation.
    let script = vec![
        QueueEvent::<u64>::Message { msg: Msg { id: 10 }, delivers: None },
        QueueEvent::Message { msg: Msg { id: 11 }, delivers: None },
        QueueEvent::Message { msg: Msg { id: 12 }, delivers: None },
        QueueEvent::Message { msg: Msg { id: 13 }, delivers: None },
        QueueEvent::Quit,
    ];
    let mut pump = ScriptedPump::new(None, script);
    let r = wait_with_pump(&mut pump);
    assert!(matches!(r, Err(Error::TaskCanceled)));
    let log = pump.dispatched_log();
    assert_eq!(log.len(), 4);
    for (k, msg) in log.iter().enumerate() {
        assert_eq!(msg.id, 10 + k as u64);
    }
    assert_eq!(pump.remaining_events(), 0);
}

#[test]
fn no_loss_between_retrievals() {
    // A value placed during the very first cycle is not skipped: the next
    // poll returns it.
    let script = vec![
        QueueEvent::Message { msg: Msg { id: 1 }, delivers: Some(String::from("kept")) },
        QueueEvent::Message { msg: Msg { id: 2 }, delivers: None },
        QueueEvent::Quit,
    ];
    let mut pump = ScriptedPump::new(None, script);
    let r = wait_with_pump(&mut pump);
    assert_eq!(r.unwrap(), "kept");
    assert_eq!(pump.dispatched_log().len(), 1);
    assert_eq!(pump.remaining_events(), 2);
}

#[test]
fn first_delivery_wins() {
    // The channel holds at most one value: a delivery arriving while a value
    // is still pending cannot displace it.
    let script = vec![QueueEvent::Message { msg: Msg { id: 9 }, delivers: Some(2u64) }];
    let mut pump = ScriptedPump::new(Some(1u64), script);
    let retrieved = pump.get_message();
    match retrieved {
        Retrieval::Message(msg) => assert_eq!(msg.id, 9),
        _ => panic!("expected the scripted message"),
    }
    assert_eq!(pump.try_recv(), Some(1));
    assert_eq!(pump.try_recv(), None);
}

#[test]
fn hresult_mapping() {
    let e = Error::from_hresult(-5);
    assert!(matches!(e, Error::WindowsError(-5)));
}
