use espcam::dns::build_dns_response;
use espcam::dns::find_question_end;

/// A query for one name of the given labels, type A, class IN.
fn query_for(labels: &[&[u8]]) -> Vec<u8> {
    let mut q = vec![0x12, 0x34, 0x01, 0x00, 0x00, 0x01, 0x00, 0x00, 0x00, 0x00, 0x00, 0x00];
    for l in labels {
        q.push(l.len() as u8);
        q.extend_from_slice(l);
    }
    q.push(0);
    q.extend_from_slice(&[0x00, 0x01, 0x00, 0x01]);
    q
}

#[test]
fn question_end_of_simple_name() {
    // "ab.c": 1+2 + 1+1 + 1 terminator + 4 type/class = 10
    let q = query_for(&[b"ab", b"c"]);
    assert_eq!(find_question_end(&q[12..]), Some(10));
}

#[test]
fn question_end_of_compression_pointer() {
    let body = [0xC0, 0x0C, 0x00, 0x01, 0x00, 0x01];
    assert_eq!(find_question_end(&body), Some(6));
}

#[test]
fn question_end_of_truncated_data() {
    assert_eq!(find_question_end(&[]), None);
    // terminator present but type/class missing
    assert_eq!(find_question_end(&[0x00, 0x00, 0x01]), None);
    // label length runs past the end
    assert_eq!(find_question_end(&[0x05, b'a', b'b']), None);
    // pointer present but type/class missing
    assert_eq!(find_question_end(&[0xC0, 0x0C, 0x00]), None);
}

#[test]
fn response_echoes_question_and_answers_with_the_address() {
    let q = query_for(&[b"example", b"com"]);
    let r = build_dns_response(&q, (11, 0, 0, 1)).expect("well-formed query");
    let bytes = r.as_slice();
    let question = &q[12..];
    let mut expected = vec![0x12, 0x34]; // transaction id echoed
    expected.extend_from_slice(&[0x85, 0x80]); // response flags
    expected.extend_from_slice(&[0x00, 0x01]); // question count echoed
    expected.extend_from_slice(&[0x00, 0x01]); // ... as the answer count
    expected.extend_from_slice(&[0x00, 0x00, 0x00, 0x00]); // authority, additional
    expected.extend_from_slice(question); // the question, echoed
    expected.extend_from_slice(&[0xC0, 0x0C]); // name: pointer to the query
    expected.extend_from_slice(&[0x00, 0x01, 0x00, 0x01]); // type A, class IN
    expected.extend_from_slice(&[0x00, 0x00, 0x00, 0x3C]); // TTL 60s
    expected.extend_from_slice(&[0x00, 0x04]); // four address bytes
    expected.extend_from_slice(&[11, 0, 0, 1]);
    assert_eq!(bytes, expected.as_slice());
}

#[test]
fn short_or_broken_queries_get_no_response() {
    assert!(build_dns_response(&[0x12, 0x34, 0x00], (11, 0, 0, 1)).is_none());
    // a header with a truncated question
    let mut q = vec![0u8; 12];
    q.push(0x07); // label of 7 announced, nothing follows
    assert!(build_dns_response(&q, (11, 0, 0, 1)).is_none());
}

#[test]
fn answer_too_large_for_the_buffer_is_refused() {
    // many long labels make 28 + question end exceed 512
    let label = [b'x'; 63];
    let labels: Vec<&[u8]> = (0..8).map(|_| &label[..]).collect();
    let q = query_for(&labels);
    // question end: 8 * 64 + 1 + 4 = 517; the response would need 545 bytes
    assert_eq!(find_question_end(&q[12..]), Some(517));
    assert!(build_dns_response(&q, (11, 0, 0, 1)).is_none());
}
