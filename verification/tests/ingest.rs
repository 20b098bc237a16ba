use wsta::frame::{FrameKind, FrameOrigin};
use wsta::ingest::{split_lines, text_frames, text_line_frame, Chunker};

#[test]
fn binary_chunking_scenario() {
    // Binary mode, chunk size 4, input bytes [01 02 03 04 05]:
    // two frames, [01 02 03 04] then [05].
    let mut ck = Chunker::new(4);
    let frames = ck.accept(&vec![0x01u8, 0x02, 0x03, 0x04, 0x05]);
    assert_eq!(frames.len(), 1);
    assert_eq!(frames[0].payload, vec![0x01u8, 0x02, 0x03, 0x04]);
    assert_eq!(frames[0].kind, FrameKind::Binary);
    assert_eq!(frames[0].origin, Some(FrameOrigin::UserInput));
    let last = ck.finish().expect("a partial buffer is flushed at end of input");
    assert_eq!(last.payload, vec![0x05u8]);
    assert_eq!(last.kind, FrameKind::Binary);
}

#[test]
fn binary_chunking_exact_multiple_leaves_nothing_pending() {
    let mut ck = Chunker::new(2);
    let frames = ck.accept(&vec![1u8, 2, 3, 4]);
    assert_eq!(frames.len(), 2);
    assert_eq!(frames[0].payload, vec![1u8, 2]);
    assert_eq!(frames[1].payload, vec![3u8, 4]);
    assert!(ck.finish().is_none());
}

#[test]
fn binary_chunking_across_reads_reconstructs_the_stream() {
    // ceil(7 / 3) = 3 frames, sizes 3, 3, 1, concatenating to the input,
    // however the reads split it.
    let mut ck = Chunker::new(3);
    let mut frames = ck.accept(&vec![10u8, 11]);
    frames.extend(ck.accept(&vec![12u8, 13, 14]));
    frames.extend(ck.accept(&vec![15u8, 16]));
    if let Some(f) = ck.finish() {
        frames.push(f);
    }
    assert_eq!(frames.len(), 3);
    assert_eq!(frames[0].payload, vec![10u8, 11, 12]);
    assert_eq!(frames[1].payload, vec![13u8, 14, 15]);
    assert_eq!(frames[2].payload, vec![16u8]);
    let rebuilt: Vec<u8> = frames.iter().flat_map(|f| f.payload.clone()).collect();
    assert_eq!(rebuilt, vec![10u8, 11, 12, 13, 14, 15, 16]);
}

#[test]
fn empty_input_emits_no_binary_frame() {
    let mut ck = Chunker::new(256);
    let frames = ck.accept(&Vec::new());
    assert!(frames.is_empty());
    assert!(ck.finish().is_none());
}

#[test]
fn text_stream_frames_one_line_per_line() {
    let lines = split_lines(&b"alpha\nbeta\n".to_vec());
    assert_eq!(lines, vec![b"alpha".to_vec(), b"beta".to_vec()]);
}

#[test]
fn text_stream_preserves_empty_lines() {
    let lines = split_lines(&b"alpha\n\nbeta\n".to_vec());
    assert_eq!(lines, vec![b"alpha".to_vec(), b"".to_vec(), b"beta".to_vec()]);
}

#[test]
fn text_stream_without_trailing_break_keeps_last_line() {
    let lines = split_lines(&b"alpha\nbeta".to_vec());
    assert_eq!(lines, vec![b"alpha".to_vec(), b"beta".to_vec()]);
    assert!(split_lines(&Vec::new()).is_empty());
}

#[test]
fn text_stream_yields_one_text_frame_per_line() {
    let frames = text_frames(&b"one\n\ntwo".to_vec());
    assert_eq!(frames.len(), 3);
    assert_eq!(frames[0].payload, b"one".to_vec());
    assert_eq!(frames[1].payload, b"".to_vec());
    assert_eq!(frames[2].payload, b"two".to_vec());
    for f in &frames {
        assert_eq!(f.kind, FrameKind::Text);
        assert_eq!(f.origin, Some(FrameOrigin::UserInput));
    }
}

#[test]
fn text_line_frame_carries_line_and_echoes_once() {
    let (frame, echo) = text_line_frame(b"hello".to_vec(), true);
    assert_eq!(frame.kind, FrameKind::Text);
    assert_eq!(frame.payload, b"hello".to_vec());
    assert_eq!(frame.origin, Some(FrameOrigin::UserInput));
    assert_eq!(echo, Some(b"> hello".to_vec()));

    let (frame, echo) = text_line_frame(b"quiet".to_vec(), false);
    assert_eq!(frame.payload, b"quiet".to_vec());
    assert!(echo.is_none());
}
