use wsta::frame::{FrameData, FrameKind, FrameOrigin};
use wsta::queue::SharedOutboundQueue;

fn text(s: &str) -> FrameData {
    FrameData::text(s.as_bytes().to_vec(), FrameOrigin::UserInput)
}

#[test]
fn drain_returns_frames_in_append_order() {
    let mut q = SharedOutboundQueue::new();
    assert_eq!(q.len(), 0);
    q.append(text("one"));
    q.append(text("two"));
    q.append(text("three"));
    assert_eq!(q.len(), 3);
    let batch = q.drain();
    assert_eq!(batch.len(), 3);
    assert_eq!(batch[0].payload, b"one".to_vec());
    assert_eq!(batch[1].payload, b"two".to_vec());
    assert_eq!(batch[2].payload, b"three".to_vec());
    assert_eq!(q.len(), 0);
}

#[test]
fn drain_on_empty_queue_returns_nothing() {
    let mut q = SharedOutboundQueue::new();
    let batch = q.drain();
    assert!(batch.is_empty());
    assert_eq!(q.len(), 0);
}

#[test]
fn appends_after_a_drain_land_in_the_next_drain_only() {
    let mut q = SharedOutboundQueue::new();
    q.append(text("early"));
    let first = q.drain();
    assert_eq!(first.len(), 1);
    assert_eq!(first[0].payload, b"early".to_vec());

    // Appends once the drain has happened are absent from its result and
    // come back exactly once, in order, from the next drain.
    q.append(text("late-a"));
    q.append(text("late-b"));
    let second = q.drain();
    assert_eq!(second.len(), 2);
    assert_eq!(second[0].payload, b"late-a".to_vec());
    assert_eq!(second[1].payload, b"late-b".to_vec());
    let third = q.drain();
    assert!(third.is_empty());
}

#[test]
fn queue_keeps_frame_kind_and_origin() {
    let mut q = SharedOutboundQueue::new();
    q.append(FrameData::binary(vec![7u8, 8u8], FrameOrigin::UserInput));
    let batch = q.drain();
    assert_eq!(batch[0].kind, FrameKind::Binary);
    assert_eq!(batch[0].origin, Some(FrameOrigin::UserInput));
    assert_eq!(batch[0].payload, vec![7u8, 8u8]);
}
