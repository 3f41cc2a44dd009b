use espcam::assembler::CompletedFrame;
use espcam::streamer::encode_frames;
use espcam::streamer::encode_part;
use espcam::streamer::part_header;
use espcam::streamer::response_header;
use espcam::streamer::u64_dec;

#[test]
fn decimal_digits() {
    assert_eq!(u64_dec(0), b"0");
    assert_eq!(u64_dec(7), b"7");
    assert_eq!(u64_dec(30), b"30");
    assert_eq!(u64_dec(12345), b"12345");
    assert_eq!(u64_dec(u64::MAX), b"18446744073709551615");
}

#[test]
fn response_header_bytes() {
    let h = response_header();
    assert_eq!(
        h,
        b"HTTP/1.1 200 OK\r\n\
          Content-Type: multipart/x-mixed-replace; boundary=frame\r\n\
          Cache-Control: no-cache\r\n\
          Connection: keep-alive\r\n\r\n"
            .iter()
            .copied()
            .collect::<Vec<u8>>()
    );
}

#[test]
fn part_header_bytes() {
    assert_eq!(
        part_header(17),
        b"--frame\r\nContent-Type: image/jpeg\r\nContent-Length: 17\r\n\r\n".to_vec()
    );
}

#[test]
fn whole_part_wraps_body_verbatim() {
    let body = [0xFF, 0xD8, 0x01, 0xFF, 0xD9];
    let part = encode_part(&body);
    let mut expected =
        b"--frame\r\nContent-Type: image/jpeg\r\nContent-Length: 5\r\n\r\n".to_vec();
    expected.extend_from_slice(&body);
    expected.extend_from_slice(b"\r\n");
    assert_eq!(part, expected);
}

#[test]
fn burst_of_frames_encodes_in_order() {
    let frames = vec![
        CompletedFrame { bytes: vec![0xFF, 0xD8, 0xFF, 0xD9] },
        CompletedFrame { bytes: vec![0xFF, 0xD8, 7, 8, 9, 0xFF, 0xD9] },
    ];
    let parts = encode_frames(&frames);
    assert_eq!(parts.len(), 2);
    assert_eq!(parts[0], encode_part(&frames[0].bytes));
    assert_eq!(parts[1], encode_part(&frames[1].bytes));
    // parts carry their own lengths
    let mut expected = b"--frame\r\nContent-Type: image/jpeg\r\nContent-Length: 4\r\n\r\n".to_vec();
    expected.extend_from_slice(&[0xFF, 0xD8, 0xFF, 0xD9]);
    expected.extend_from_slice(b"\r\n");
    assert_eq!(parts[0], expected);
}
