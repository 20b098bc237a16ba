use wsta::dispatch::{startup_frames, DispatchState, Dispatcher};
use wsta::frame::{echo_line, FrameData, FrameKind, FrameOrigin};
use wsta::queue::SharedOutboundQueue;

#[test]
fn startup_scenario_two_messages_echoed_then_written() {
    // Pre-supplied messages ["hello", "world"], echo on: two echo lines
    // "> hello" and "> world" and two text frames, in that order, all
    // before the main loop's first tick.
    let messages = vec![b"hello".to_vec(), b"world".to_vec()];
    let (frames, echoes) = startup_frames(&messages, true);
    assert_eq!(frames.len(), 2);
    assert_eq!(frames[0].payload, b"hello".to_vec());
    assert_eq!(frames[0].kind, FrameKind::Text);
    assert_eq!(frames[0].origin, Some(FrameOrigin::PreSuppliedMessage));
    assert_eq!(frames[1].payload, b"world".to_vec());
    assert_eq!(echoes, vec![b"> hello".to_vec(), b"> world".to_vec()]);
}

#[test]
fn startup_without_echo_prints_nothing() {
    let messages = vec![b"hello".to_vec()];
    let (frames, echoes) = startup_frames(&messages, false);
    assert_eq!(frames.len(), 1);
    assert!(echoes.is_empty());
}

#[test]
fn echo_line_prefixes_the_payload() {
    assert_eq!(echo_line(&b"hi".to_vec()), b"> hi".to_vec());
    assert_eq!(echo_line(&Vec::new()), b"> ".to_vec());
}

#[test]
fn tick_writes_the_batch_in_order_then_the_due_ping() {
    let mut d = Dispatcher::new(Some(10), 0, true, b"ping".to_vec());
    let batch = vec![
        FrameData::text(b"a".to_vec(), FrameOrigin::UserInput),
        FrameData::binary(vec![9u8], FrameOrigin::UserInput),
    ];
    let plan = d.tick(batch, 10);
    assert_eq!(plan.writes.len(), 3);
    assert_eq!(plan.writes[0].payload, b"a".to_vec());
    assert_eq!(plan.writes[1].payload, vec![9u8]);
    assert_eq!(plan.writes[2].payload, b"ping".to_vec());
    assert_eq!(plan.writes[2].kind, FrameKind::Text);
    assert_eq!(plan.writes[2].origin, Some(FrameOrigin::PingFrame));
    // The ping is echoed under the same rule as other sent frames; the
    // batch frames were echoed when they were produced.
    assert_eq!(plan.echoes, vec![b"> ping".to_vec()]);
}

#[test]
fn tick_without_due_ping_writes_only_the_batch() {
    let mut d = Dispatcher::new(Some(10), 0, true, b"ping".to_vec());
    let plan = d.tick(Vec::new(), 9);
    assert!(plan.writes.is_empty());
    assert!(plan.echoes.is_empty());
}

#[test]
fn due_ping_without_echo_is_written_but_not_echoed() {
    let mut d = Dispatcher::new(Some(1), 0, false, b"keep".to_vec());
    let plan = d.tick(Vec::new(), 5);
    assert_eq!(plan.writes.len(), 1);
    assert_eq!(plan.writes[0].payload, b"keep".to_vec());
    assert!(plan.echoes.is_empty());
}

#[test]
fn write_failure_is_fatal_and_success_is_not() {
    let mut d = Dispatcher::new(None, 0, false, b"ping".to_vec());
    assert_eq!(d.state, DispatchState::Running);
    d.on_write_result(true);
    assert_eq!(d.state, DispatchState::Running);
    d.on_write_result(false);
    assert_eq!(d.state, DispatchState::Fatal);
}

#[test]
fn ping_cadence_through_the_dispatch_loop() {
    // Interval 4, tick quantum 1, queue drained each tick: pings land at
    // 4, 8 and 12 while queued frames flow out unchanged.
    let mut q = SharedOutboundQueue::new();
    let mut d = Dispatcher::new(Some(4), 0, false, b"ping".to_vec());
    let mut pings = 0usize;
    let mut user_frames = 0usize;
    for now in 1u64..=12 {
        if now == 5 {
            q.append(FrameData::text(b"typed".to_vec(), FrameOrigin::UserInput));
        }
        let batch = q.drain();
        let plan = d.tick(batch, now);
        for w in &plan.writes {
            match w.origin {
                Some(FrameOrigin::PingFrame) => pings += 1,
                _ => user_frames += 1,
            }
        }
        d.on_write_result(true);
    }
    assert_eq!(pings, 3);
    assert_eq!(user_frames, 1);
}
