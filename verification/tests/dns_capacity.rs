use espcam::dns::build_dns_response;
use espcam::dns::find_question_end;

/// A query for one name of the given labels, type A, class IN.
fn raw_query(labels: &[&[u8]]) -> Vec<u8> {
    let mut q = vec![0xAB, 0xCD, 0x01, 0x00, 0x00, 0x01, 0x00, 0x00, 0x00, 0x00, 0x00, 0x00];
    for l in labels {
        q.push(l.len() as u8);
        q.extend_from_slice(l);
    }
    q.push(0);
    q.extend_from_slice(&[0x00, 0x01, 0x00, 0x01]);
    q
}

#[test]
fn answer_filling_the_buffer_exactly_is_still_built() {
    // question end 484 makes the answer exactly 512 bytes
    let long = [b'y'; 63];
    let short = [b'z'; 30];
    let mut labels: Vec<&[u8]> = (0..7).map(|_| &long[..]).collect();
    labels.push(&short[..]);
    let q = raw_query(&labels);
    assert_eq!(find_question_end(&q[12..]), Some(484));
    let r = build_dns_response(&q, (11, 0, 0, 1)).expect("fits exactly");
    assert_eq!(r.len(), 512);
    // the tail of the answer is the A record with the address
    assert_eq!(&r.as_slice()[508..], &[11, 0, 0, 1]);
}

#[test]
fn one_byte_more_overflows() {
    // question end 485 pushes the answer to 513 bytes: refused
    let long = [b'y'; 63];
    let short = [b'z'; 31];
    let mut labels: Vec<&[u8]> = (0..7).map(|_| &long[..]).collect();
    labels.push(&short[..]);
    let q = raw_query(&labels);
    assert_eq!(find_question_end(&q[12..]), Some(485));
    assert!(build_dns_response(&q, (11, 0, 0, 1)).is_none());
}
