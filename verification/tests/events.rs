use espcam::assembler::CompletedFrame;
use espcam::events::frame_events;
use espcam::events::CamEvent;
use espcam::events::DATA_CHUNK;

/// A well-formed frame of `n` bytes: both markers, varied body.
fn frame_of_len(n: usize) -> CompletedFrame {
    assert!(n >= 4);
    let mut bytes = vec![0xFF, 0xD8];
    for i in 0..n - 4 {
        let b = (i % 251) as u8;
        bytes.push(if b == 0xFF { 0x00 } else { b });
    }
    bytes.push(0xFF);
    bytes.push(0xD9);
    CompletedFrame { bytes }
}

fn payloads(events: &[CamEvent]) -> Vec<&Vec<u8>> {
    assert!(matches!(events[0], CamEvent::FrameStart));
    assert!(matches!(events[events.len() - 1], CamEvent::FrameEnd));
    events[1..events.len() - 1]
        .iter()
        .map(|e| match e {
            CamEvent::Data(d) => d,
            _ => panic!("expected only data events between start and end"),
        })
        .collect()
}

#[test]
fn small_frame_is_one_data_event() {
    let frame = CompletedFrame { bytes: vec![0xFF, 0xD8, 1, 2, 0xFF, 0xD9] };
    let events = frame_events(&frame);
    assert_eq!(events.len(), 3);
    let ps = payloads(&events);
    assert_eq!(ps, vec![&frame.bytes]);
}

#[test]
fn large_frame_flushes_full_payloads_and_marker_rides_the_last() {
    let frame = frame_of_len(5000);
    let events = frame_events(&frame);
    let ps = payloads(&events);
    // 4998 accumulated bytes flush twice at 2048; 902 remain, the closing
    // marker joins them
    assert_eq!(ps.iter().map(|p| p.len()).collect::<Vec<_>>(), vec![2048, 2048, 904]);
    let rebuilt: Vec<u8> = ps.iter().flat_map(|p| p.iter().copied()).collect();
    assert_eq!(rebuilt, frame.bytes);
    let last = ps.last().unwrap();
    assert_eq!(&last[last.len() - 2..], &[0xFF, 0xD9]);
}

#[test]
fn closing_marker_never_travels_alone_when_the_buffer_just_misses_full() {
    // 2047 bytes accumulate without filling the buffer, so one payload of
    // 2049 carries everything including the marker
    let frame = frame_of_len(2049);
    let ps_lens: Vec<usize> =
        payloads(&frame_events(&frame)).iter().map(|p| p.len()).collect();
    assert_eq!(ps_lens, vec![2049]);
}

#[test]
fn exact_fill_leaves_only_the_marker_for_the_last_payload() {
    // 2048 accumulated bytes flush exactly once; only the closing marker
    // remains for the final payload
    let frame = frame_of_len(2050);
    let events = frame_events(&frame);
    let ps = payloads(&events);
    assert_eq!(ps.iter().map(|p| p.len()).collect::<Vec<_>>(), vec![2048, 2]);
    assert_eq!(ps[1].as_slice(), &[0xFF, 0xD9]);
}

#[test]
fn every_payload_but_the_last_is_full_sized() {
    let frame = frame_of_len(4097);
    let ps = payloads(&frame_events(&frame))
        .iter()
        .map(|p| p.len())
        .collect::<Vec<_>>();
    // 4095 accumulated bytes: one full flush, 2047 remain plus the marker
    assert_eq!(ps, vec![2048, 2049]);
    for (i, len) in ps.iter().enumerate() {
        if i + 1 < ps.len() {
            assert_eq!(*len, DATA_CHUNK);
        } else {
            assert!((2..=DATA_CHUNK + 1).contains(len));
        }
    }
}

#[test]
fn minimal_frame_sends_its_markers_in_one_payload() {
    let frame = CompletedFrame { bytes: vec![0xFF, 0xD8, 0xFF, 0xD9] };
    let events = frame_events(&frame);
    let ps = payloads(&events);
    assert_eq!(ps, vec![&vec![0xFF, 0xD8, 0xFF, 0xD9]]);
}
