use espcam::assembler::FrameAssembler;

fn collect(frames: Vec<espcam::assembler::CompletedFrame>) -> Vec<Vec<u8>> {
    frames.into_iter().map(|f| f.bytes).collect()
}

#[test]
fn one_frame_across_two_chunks() {
    // the end-to-end scenario: two chunks, one frame spanning them
    let mut assembler = FrameAssembler::new(1024);
    let first = assembler.process_chunk(&[0xAA, 0xFF, 0xD8, 0x11, 0x22]);
    assert_eq!(first.len(), 0);
    let second = collect(assembler.process_chunk(&[0x33, 0xFF, 0xD9, 0xBB]));
    assert_eq!(second, vec![vec![0xFF, 0xD8, 0x11, 0x22, 0x33, 0xFF, 0xD9]]);
}

#[test]
fn oversized_frame_dropped_and_state_reset() {
    // capacity 4: the frame exceeds it at its fifth byte and is dropped
    let mut assembler = FrameAssembler::new(4);
    let frames = assembler.process_chunk(&[0xFF, 0xD8, 1, 2, 3, 0xFF, 0xD9]);
    assert_eq!(frames.len(), 0);
    // the parser is reset: a frame that fits is still recognized afterward
    let next = collect(assembler.process_chunk(&[0xFF, 0xD8, 0xFF, 0xD9]));
    assert_eq!(next, vec![vec![0xFF, 0xD8, 0xFF, 0xD9]]);
}

#[test]
fn garbage_never_emits_and_never_opens_a_frame() {
    let mut assembler = FrameAssembler::new(64);
    let frames = assembler.process_chunk(&[0x00, 0xFF, 0xD9, 0x42, 0xFF, 0x00, 0xD8, 0x99]);
    assert_eq!(frames.len(), 0);
    // still idle: a following frame is taken whole, nothing carried over
    let next = collect(assembler.process_chunk(&[0xFF, 0xD8, 7, 0xFF, 0xD9]));
    assert_eq!(next, vec![vec![0xFF, 0xD8, 7, 0xFF, 0xD9]]);
}

#[test]
fn marker_split_across_chunks_is_not_recognized() {
    // pinned behavior: detection is intra-chunk only, a start marker whose
    // bytes straddle a chunk boundary does not open a frame
    let mut assembler = FrameAssembler::new(64);
    assert_eq!(assembler.process_chunk(&[0x00, 0xFF]).len(), 0);
    assert_eq!(assembler.process_chunk(&[0xD8, 1, 2, 0xFF, 0xD9]).len(), 0);
    // and an end marker split the same way does not close one: the frame
    // stays open until a whole end marker arrives in one chunk
    let mut second_run = FrameAssembler::new(64);
    assert_eq!(second_run.process_chunk(&[0xFF, 0xD8, 5, 0xFF]).len(), 0);
    assert_eq!(second_run.process_chunk(&[0xD9, 6]).len(), 0);
    let done = collect(second_run.process_chunk(&[0xFF, 0xD9, 0x00]));
    // the split marker bytes were treated as payload
    assert_eq!(done, vec![vec![0xFF, 0xD8, 5, 0xFF, 0xD9, 6, 0xFF, 0xD9]]);
}

#[test]
fn several_frames_in_one_chunk() {
    let mut assembler = FrameAssembler::new(32);
    let frames = collect(assembler.process_chunk(&[
        0x10, 0xFF, 0xD8, 1, 0xFF, 0xD9, 0x20, 0x21, 0xFF, 0xD8, 2, 3, 0xFF, 0xD9, 0x30,
    ]));
    assert_eq!(
        frames,
        vec![vec![0xFF, 0xD8, 1, 0xFF, 0xD9], vec![0xFF, 0xD8, 2, 3, 0xFF, 0xD9]]
    );
    assert_eq!(assembler.frame_count(), 2);
}

#[test]
fn frame_count_is_monotone_across_bursts() {
    let mut assembler = FrameAssembler::new(16);
    assert_eq!(assembler.frame_count(), 0);
    assembler.process_chunk(&[0xFF, 0xD8, 0xFF, 0xD9]);
    assert_eq!(assembler.frame_count(), 1);
    assembler.process_chunk(&[0x00, 0x01]);
    assert_eq!(assembler.frame_count(), 1);
    assembler.process_chunk(&[0xFF, 0xD8, 9, 0xFF, 0xD9, 0xFF, 0xD8, 8, 0xFF, 0xD9]);
    assert_eq!(assembler.frame_count(), 3);
}

#[test]
fn overflow_at_completion_also_drops() {
    // capacity 5: the interior fits, the closing marker would not
    let mut assembler = FrameAssembler::new(5);
    let frames = assembler.process_chunk(&[0xFF, 0xD8, 1, 2, 0xFF, 0xD9]);
    assert_eq!(frames.len(), 0);
    let next = collect(assembler.process_chunk(&[0xFF, 0xD8, 9, 0xFF, 0xD9]));
    assert_eq!(next, vec![vec![0xFF, 0xD8, 9, 0xFF, 0xD9]]);
}

#[test]
fn empty_chunk_is_a_no_op() {
    let mut assembler = FrameAssembler::new(16);
    assert_eq!(assembler.process_chunk(&[]).len(), 0);
    assert_eq!(assembler.process_chunk(&[0xFF, 0xD8]).len(), 0);
    assert_eq!(assembler.process_chunk(&[]).len(), 0);
    let done = collect(assembler.process_chunk(&[0xFF, 0xD9]));
    assert_eq!(done, vec![vec![0xFF, 0xD8, 0xFF, 0xD9]]);
}
