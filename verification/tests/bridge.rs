use claw_wire::bridge::{
    emit, handle_inbound, install, set_turn_signal, AbortSignal, AckWait, BridgeSlot, FlushStep,
    ImBridge, Shared, ACK_POLL_MILLIS, ACK_TIMEOUT_MILLIS, FLUSH_ATTEMPTS, MAX_PENDING,
};
use claw_wire::endpoint::BridgeEndpoint;

fn bridge(connected: bool) -> ImBridge {
    let endpoint = BridgeEndpoint { addr: "127.0.0.1:1".to_string(), token: "t".to_string() };
    ImBridge::connect(endpoint, connected).0
}

fn shared(connected: bool) -> Shared {
    bridge(connected).shared
}

fn ids(shared: &Shared) -> Vec<String> {
    shared.pending.iter().map(|e| e.message_id.clone()).collect()
}

#[test]
fn interrupt_aborts_the_registered_turn_signal() {
    let signal = AbortSignal::new();
    let mut shared = shared(false);
    shared.turn_signal = Some(signal);
    assert!(!shared.turn_signal.unwrap().is_aborted());
    let inbound = handle_inbound(
        &mut shared,
        "{\"token\":\"t\",\"kind\":\"control\",\"requestId\":\"r1\",\"command\":\"interrupt\"}",
    );
    assert!(shared.turn_signal.unwrap().is_aborted(), "an interrupt must set the signal");
    assert!(inbound.abort);
    assert!(inbound.reply.is_none(), "there is no connection to answer on");
}

#[test]
fn ack_frames_do_not_reach_the_control_path() {
    let signal = AbortSignal::new();
    let mut shared = shared(false);
    shared.turn_signal = Some(signal);
    let inbound =
        handle_inbound(&mut shared, "{\"token\":\"t\",\"kind\":\"ack\",\"messageId\":\"m1\"}");
    assert!(!shared.turn_signal.unwrap().is_aborted());
    assert!(!inbound.abort);
    assert!(inbound.reply.is_none());
    assert!(shared.acked.contains("m1"));
}

#[test]
fn interrupt_is_answered_on_a_connection() {
    let line = "{\"kind\":\"control\",\"requestId\":\"r1\",\"command\":\"interrupt\"}";
    let mut shared = shared(true);
    let inbound = handle_inbound(&mut shared, line);
    assert!(!inbound.abort);
    assert_eq!(
        inbound.reply.as_deref(),
        Some("{\"token\":\"t\",\"kind\":\"control_result\",\"requestId\":\"r1\",\"ok\":true,\"text\":\"当前没有正在进行的任务\"}\n")
    );
    shared.turn_signal = Some(AbortSignal::new());
    let inbound = handle_inbound(&mut shared, line);
    assert!(inbound.abort);
    assert_eq!(
        inbound.reply.as_deref(),
        Some("{\"token\":\"t\",\"kind\":\"control_result\",\"requestId\":\"r1\",\"ok\":true,\"text\":\"已请求中断：当前这轮读完即停\"}\n")
    );
}

#[test]
fn unknown_command_is_refused() {
    let mut shared = shared(true);
    shared.turn_signal = Some(AbortSignal::new());
    let inbound = handle_inbound(
        &mut shared,
        "{\"kind\":\"control\",\"requestId\":\"r2\",\"command\":\"dance\"}",
    );
    assert!(!inbound.abort);
    assert!(!shared.turn_signal.unwrap().is_aborted());
    assert_eq!(
        inbound.reply.as_deref(),
        Some("{\"token\":\"t\",\"kind\":\"control_result\",\"requestId\":\"r2\",\"ok\":false,\"text\":\"claw 尚未支持控制命令：dance\"}\n")
    );
    // A command that names no request is carried out and not answered.
    let inbound = handle_inbound(&mut shared, "{\"kind\":\"control\",\"command\":\"interrupt\"}");
    assert!(inbound.abort);
    assert!(inbound.reply.is_none());
}

#[test]
fn other_lines_are_ignored() {
    let mut shared = shared(true);
    shared.turn_signal = Some(AbortSignal::new());
    let inbound = handle_inbound(&mut shared, "{\"kind\":\"hello\",\"command\":\"interrupt\"}");
    assert!(!inbound.abort && inbound.reply.is_none());
    let inbound = handle_inbound(&mut shared, "{\"kind\":\"ack\"}");
    assert!(!inbound.abort && inbound.reply.is_none());
    assert!(!shared.turn_signal.unwrap().is_aborted());
    assert_eq!(shared.acked.len(), 0);
}

#[test]
fn acknowledged_event_is_settled_and_others_stay() {
    let mut shared = shared(true);
    for id in ["a", "b", "c"] {
        shared.enqueue(id.to_string(), format!("{id}\n"));
    }
    handle_inbound(&mut shared, "{\"kind\":\"ack\",\"messageId\":\"b\"}");
    // An acknowledgement can overtake its event.
    handle_inbound(&mut shared, "{\"kind\":\"ack\",\"messageId\":\"d\"}");
    assert_eq!(shared.wait_for_acks(0), AckWait::Poll);
    assert_eq!(ids(&shared), ["a", "c"]);
    assert_eq!(shared.wait_for_acks(ACK_TIMEOUT_MILLIS - 1), AckWait::Poll);
    assert_eq!(shared.wait_for_acks(ACK_TIMEOUT_MILLIS), AckWait::TimedOut);
    shared.enqueue("d".to_string(), "d\n".to_string());
    assert!(!shared.settle());
    assert_eq!(ids(&shared), ["a", "c"]);
    handle_inbound(&mut shared, "{\"kind\":\"ack\",\"messageId\":\"a\"}");
    handle_inbound(&mut shared, "{\"kind\":\"ack\",\"messageId\":\"c\"}");
    assert_eq!(shared.wait_for_acks(ACK_TIMEOUT_MILLIS), AckWait::Settled);
    assert_eq!(shared.acked.len(), 4);
}

#[test]
fn only_the_oldest_events_are_dropped() {
    let mut shared = shared(true);
    for i in 0..11 {
        shared.enqueue(format!("m{i}"), format!("line {i}\n"));
        assert!(shared.pending.len() <= MAX_PENDING);
    }
    assert_eq!(ids(&shared), ["m3", "m4", "m5", "m6", "m7", "m8", "m9", "m10"]);
    assert_eq!(shared.pending_lines()[0], "line 3\n");
    assert_eq!(shared.pending_lines().len(), 8);
}

#[test]
fn emitted_event_waits_under_its_own_id() {
    let mut bridge = bridge(true);
    assert_eq!(bridge.emit(7, "task_started", "hi"), FlushStep::Write { attempt: 0 });
    bridge.emit(7, "assistant_final", "a\"b");
    assert_eq!(ids(&bridge.shared), ["claw-7-0", "claw-7-1"]);
    assert_eq!(
        bridge.shared.pending_lines()[1],
        "{\"token\":\"t\",\"kind\":\"assistant_final\",\"text\":\"a\\\"b\",\"messageId\":\"claw-7-1\"}\n"
    );
    bridge.counter = u64::MAX;
    assert_eq!(bridge.next_message_id(7), "claw-7-18446744073709551615");
    assert_eq!(bridge.next_message_id(7), "claw-7-0");
}

#[test]
fn new_connection_is_announced_first() {
    let mut shared = shared(false);
    assert!(shared.announcement().is_none());
    let step = shared.start_flush();
    assert_eq!(step, FlushStep::Connect { attempt: 0 });
    let step = shared.flush(step, true);
    assert_eq!(step, FlushStep::Announce { attempt: 0 });
    assert_eq!(
        shared.announcement().as_deref(),
        Some("{\"token\":\"t\",\"kind\":\"control_ready\"}\n")
    );
    let step = shared.flush(step, true);
    assert_eq!(step, FlushStep::Write { attempt: 0 });
    let step = shared.flush(step, true);
    assert_eq!(step, FlushStep::AwaitAcks { attempt: 0 });
    assert_eq!(shared.flush(step, true), FlushStep::Done);
    assert!(shared.connected);
}

#[test]
fn timeout_reconnects_and_resends() {
    let mut shared = shared(true);
    shared.enqueue("a".to_string(), "a\n".to_string());
    let step = shared.flush(FlushStep::AwaitAcks { attempt: 0 }, false);
    assert_eq!(step, FlushStep::Connect { attempt: 1 });
    assert!(!shared.connected);
    let step = shared.flush(step, true);
    let step = shared.flush(step, true);
    assert_eq!(step, FlushStep::Write { attempt: 1 });
    assert_eq!(shared.pending_lines(), ["a\n"]);
    let step = shared.flush(step, true);
    // The second time is the last one, and keeps the connection.
    assert_eq!(shared.flush(step, false), FlushStep::Done);
    assert!(shared.connected);
    assert_eq!(ids(&shared), ["a"]);
}

#[test]
fn failed_write_reconnects_and_resends() {
    for failed in [FlushStep::Write { attempt: 0 }, FlushStep::Announce { attempt: 0 }] {
        let mut shared = shared(true);
        shared.enqueue("a".to_string(), "a\n".to_string());
        let step = shared.flush(failed, false);
        assert_eq!(step, FlushStep::Connect { attempt: 1 });
        assert!(!shared.connected);
        let step = shared.flush(step, true);
        assert_eq!(step, FlushStep::Announce { attempt: 1 });
        let step = shared.flush(step, true);
        assert_eq!(step, FlushStep::Write { attempt: 1 });
        assert_eq!(shared.pending_lines(), ["a\n"]);
    }
}

#[test]
fn flush_gives_up_without_a_host() {
    let mut shared = shared(false);
    let step = shared.flush(FlushStep::Connect { attempt: 0 }, false);
    assert_eq!(step, FlushStep::Connect { attempt: 1 });
    assert_eq!(shared.flush(step, false), FlushStep::Done);
    // A failed announcement or write ends the attempt and the connection.
    shared.connected = true;
    let step = shared.flush(FlushStep::Announce { attempt: 0 }, false);
    assert_eq!(step, FlushStep::Connect { attempt: 1 });
    shared.connected = true;
    assert_eq!(shared.flush(FlushStep::Write { attempt: 1 }, false), FlushStep::Done);
    assert!(!shared.connected);
    assert_eq!(shared.flush(FlushStep::Done, true), FlushStep::Done);
    assert_eq!(FLUSH_ATTEMPTS, 2);
    assert_eq!(ACK_POLL_MILLIS, 20);
}

#[test]
fn failed_write_ends_the_connection() {
    let mut shared = shared(true);
    shared.record_write(true);
    assert!(shared.connected);
    shared.record_write(false);
    assert!(!shared.connected);
    shared.record_write(true);
    assert!(!shared.connected);
}

#[test]
fn first_connection_is_announced() {
    let ready = "{\"token\":\"a\",\"kind\":\"control_ready\"}\n";
    let mut slot = BridgeSlot::new();
    assert_eq!(install(&mut slot, "tcp://h:1?token=a", true).as_deref(), Some(ready));
    assert_eq!(install(&mut slot, "tcp://h:1?token=a", true), None);
    let mut slot = BridgeSlot::new();
    assert_eq!(install(&mut slot, "tcp://h:1?token=a", false), None);
    let mut slot = BridgeSlot::new();
    assert_eq!(install(&mut slot, "garbage", true), None);
    let endpoint = BridgeEndpoint { addr: "h:1".to_string(), token: "a".to_string() };
    let (bridge, announcement) = ImBridge::connect(endpoint, true);
    assert_eq!(announcement.as_deref(), Some(ready));
    assert!(bridge.shared.pending.is_empty());
}

#[test]
fn bridge_is_installed_once() {
    let mut slot = BridgeSlot::new();
    assert_eq!(emit(&mut slot, 1, "k", "t"), FlushStep::Done);
    install(&mut slot, "garbage", true);
    assert!(matches!(slot.bridge, Some(None)));
    install(&mut slot, "tcp://h:1?token=a", true);
    assert!(matches!(slot.bridge, Some(None)));
    set_turn_signal(&mut slot, Some(AbortSignal::new()));
    assert_eq!(emit(&mut slot, 1, "k", "t"), FlushStep::Done);

    let mut slot = BridgeSlot::new();
    install(&mut slot, "tcp://h:1?token=a", false);
    install(&mut slot, "tcp://h:2?token=b", true);
    set_turn_signal(&mut slot, Some(AbortSignal::new()));
    assert_eq!(emit(&mut slot, 1, "k", "t"), FlushStep::Connect { attempt: 0 });
    let bridge = slot.bridge.as_ref().unwrap().as_ref().unwrap();
    assert_eq!(bridge.shared.endpoint.addr, "h:1");
    assert!(bridge.shared.turn_signal.is_some());
    assert_eq!(ids(&bridge.shared), ["claw-1-0"]);
    set_turn_signal(&mut slot, None);
    assert!(slot.bridge.unwrap().unwrap().shared.turn_signal.is_none());
}

#[test]
fn abort_signal_stays_aborted() {
    let mut signal = AbortSignal::new();
    assert!(!signal.is_aborted());
    signal.abort();
    signal.abort();
    assert!(signal.is_aborted());
}
