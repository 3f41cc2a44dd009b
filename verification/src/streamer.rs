//! Multipart stream encoder: serializes completed JPEG frames as parts of an
//! HTTP `multipart/x-mixed-replace` response.

use vstd::prelude::*;

verus! {

/// The decimal ASCII digits of `n`, most significant first, no leading zeros
/// (the single digit `0` for zero).
pub open spec fn dec_digits(n: nat) -> Seq<u8>
    decreases n,
{
    if n < 10 {
        seq![(0x30 + n) as u8]
    } else {
        dec_digits(n / 10).push((0x30 + n % 10) as u8)
    }
}

/// Renders `n` in decimal ASCII.
pub fn u64_dec(n: u64) -> (r: Vec<u8>)
    ensures
        r@ == dec_digits(n as nat),
    decreases n,
{
    if n < 10 {
        let mut v: Vec<u8> = Vec::new();
        v.push(0x30 + n as u8);
        v
    } else {
        let mut v = u64_dec(n / 10);
        v.push(0x30 + (n % 10) as u8);
        v
    }
}
/// The boundary line and headers that precede each part's length:
/// `--frame\r\nContent-Type: image/jpeg\r\nContent-Length: `.
pub open spec fn part_prefix() -> Seq<u8> {
    seq![45u8, 45u8, 102u8, 114u8, 97u8, 109u8, 101u8, 13u8, 10u8, 67u8, 111u8, 110u8, 116u8, 101u8, 110u8, 116u8, 45u8, 84u8, 121u8, 112u8, 101u8, 58u8, 32u8, 105u8, 109u8, 97u8, 103u8, 101u8, 47u8, 106u8, 112u8, 101u8, 103u8, 13u8, 10u8, 67u8, 111u8, 110u8, 116u8, 101u8, 110u8, 116u8, 45u8, 76u8, 101u8, 110u8, 103u8, 116u8, 104u8, 58u8, 32u8]
}

/// `\r\n`.
pub open spec fn crlf() -> Seq<u8> {
    seq![13u8, 10u8]
}

/// The full part header for a body of `n` bytes.
pub open spec fn part_header_spec(n: nat) -> Seq<u8> {
    part_prefix() + dec_digits(n) + crlf() + crlf()
}

/// One whole part: header, body verbatim, terminating `\r\n`.
pub open spec fn part_spec(body: Seq<u8>) -> Seq<u8> {
    part_header_spec(body.len()) + body + crlf()
}

/// The enclosing response header sent once per session: status line,
/// `multipart/x-mixed-replace` content type with boundary `frame`,
/// no-cache, keep-alive, blank line.
pub open spec fn response_header_spec() -> Seq<u8> {
    seq![72u8, 84u8, 84u8, 80u8, 47u8, 49u8, 46u8, 49u8, 32u8, 50u8, 48u8, 48u8, 32u8, 79u8, 75u8, 13u8, 10u8, 67u8, 111u8, 110u8, 116u8, 101u8, 110u8, 116u8, 45u8, 84u8, 121u8, 112u8, 101u8, 58u8, 32u8, 109u8, 117u8, 108u8, 116u8, 105u8, 112u8, 97u8, 114u8, 116u8, 47u8, 120u8, 45u8, 109u8, 105u8, 120u8, 101u8, 100u8, 45u8, 114u8, 101u8, 112u8, 108u8, 97u8, 99u8, 101u8, 59u8, 32u8, 98u8, 111u8, 117u8, 110u8, 100u8, 97u8, 114u8, 121u8, 61u8, 102u8, 114u8, 97u8, 109u8, 101u8, 13u8, 10u8, 67u8, 97u8, 99u8, 104u8, 101u8, 45u8, 67u8, 111u8, 110u8, 116u8, 114u8, 111u8, 108u8, 58u8, 32u8, 110u8, 111u8, 45u8, 99u8, 97u8, 99u8, 104u8, 101u8, 13u8, 10u8, 67u8, 111u8, 110u8, 110u8, 101u8, 99u8, 116u8, 105u8, 111u8, 110u8, 58u8, 32u8, 107u8, 101u8, 101u8, 112u8, 45u8, 97u8, 108u8, 105u8, 118u8, 101u8, 13u8, 10u8, 13u8, 10u8]
}

/// The response header bytes.
pub fn response_header() -> (r: Vec<u8>)
    ensures
        r@ == response_header_spec(),
{
    let bytes: [u8; 125] = [72, 84, 84, 80, 47, 49, 46, 49, 32, 50, 48, 48, 32, 79, 75, 13, 10, 67, 111, 110, 116, 101, 110, 116, 45, 84, 121, 112, 101, 58, 32, 109, 117, 108, 116, 105, 112, 97, 114, 116, 47, 120, 45, 109, 105, 120, 101, 100, 45, 114, 101, 112, 108, 97, 99, 101, 59, 32, 98, 111, 117, 110, 100, 97, 114, 121, 61, 102, 114, 97, 109, 101, 13, 10, 67, 97, 99, 104, 101, 45, 67, 111, 110, 116, 114, 111, 108, 58, 32, 110, 111, 45, 99, 97, 99, 104, 101, 13, 10, 67, 111, 110, 110, 101, 99, 116, 105, 111, 110, 58, 32, 107, 101, 101, 112, 45, 97, 108, 105, 118, 101, 13, 10, 13, 10];
    let mut v: Vec<u8> = Vec::new();
    v.extend_from_slice(bytes.as_slice());
    proof {
        assert(v@ =~= response_header_spec());
    }
    v
}

/// The part header announcing a body of `n` bytes.
pub fn part_header(n: u64) -> (r: Vec<u8>)
    ensures
        r@ == part_header_spec(n as nat),
{
    let bytes: [u8; 51] = [45, 45, 102, 114, 97, 109, 101, 13, 10, 67, 111, 110, 116, 101, 110, 116, 45, 84, 121, 112, 101, 58, 32, 105, 109, 97, 103, 101, 47, 106, 112, 101, 103, 13, 10, 67, 111, 110, 116, 101, 110, 116, 45, 76, 101, 110, 103, 116, 104, 58, 32];
    let mut v: Vec<u8> = Vec::new();
    v.extend_from_slice(bytes.as_slice());
    let digits = u64_dec(n);
    v.extend_from_slice(digits.as_slice());
    v.push(13);
    v.push(10);
    v.push(13);
    v.push(10);
    proof {
        assert(v@ =~= part_header_spec(n as nat));
    }
    v
}

/// One full multipart part for a frame body: header, the bytes verbatim,
/// then `\r\n`.
pub fn encode_part(body: &[u8]) -> (r: Vec<u8>)
    requires
        body@.len() <= u64::MAX,
    ensures
        r@ == part_spec(body@),
{
    let mut v = part_header(body.len() as u64);
    v.extend_from_slice(body);
    v.push(13);
    v.push(10);
    proof {
        assert(v@ =~= part_spec(body@));
    }
    v
}

/// Encodes each completed frame as one multipart part, in delivery order:
/// what one burst's completions put on the wire.
pub fn encode_frames(frames: &Vec<crate::assembler::CompletedFrame>) -> (parts: Vec<Vec<u8>>)
    requires
        forall|k: int| 0 <= k < frames@.len() ==> (#[trigger] frames@[k].bytes@).len()
            <= u64::MAX,
    ensures
        parts@.len() == frames@.len(),
        forall|k: int| 0 <= k < frames@.len() ==> (#[trigger] parts@[k])@ == part_spec(
            frames@[k].bytes@,
        ),
{
    let mut parts: Vec<Vec<u8>> = Vec::new();
    let n = frames.len();
    let mut k: usize = 0;
    while k < n
        invariant
            k <= n,
            n == frames@.len(),
            parts@.len() == k,
            forall|j: int| 0 <= j < frames@.len() ==> (#[trigger] frames@[j].bytes@).len()
                <= u64::MAX,
            forall|j: int| 0 <= j < k ==> (#[trigger] parts@[j])@ == part_spec(frames@[j].bytes@),
        decreases n - k,
    {
        let part = encode_part(frames[k].bytes.as_slice());
        parts.push(part);
        k = k + 1;
    }
    parts
}

} // verus!
