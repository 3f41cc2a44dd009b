//! Captive-portal DNS answers: every A query is answered with the access
//! point's own address, so that any hostname a client tries leads to the
//! portal.

use vstd::prelude::*;
use crate::hvec::hbytes;
use crate::hvec::hvec_extend;
use crate::hvec::hvec_new;

verus! {

/// Where the question section of a DNS message body (the bytes after the
/// 12-byte header) ends, walking from `pos`: length-prefixed labels up to
/// a zero terminator or a compression pointer, then the four bytes of
/// query type and class. `None` when the data runs out first.
pub open spec fn question_end_from(data: Seq<u8>, pos: nat) -> Option<nat>
    decreases data.len() - pos,
{
    if pos >= data.len() {
        None
    } else if data[pos as int] == 0 {
        if pos + 5 <= data.len() {
            Some((pos + 5) as nat)
        } else {
            None
        }
    } else if data[pos as int] & 0xC0 == 0xC0 {
        if pos + 6 <= data.len() {
            Some((pos + 6) as nat)
        } else {
            None
        }
    } else if pos + 1 + data[pos as int] > data.len() {
        None
    } else {
        question_end_from(data, (pos + 1 + data[pos as int]) as nat)
    }
}

/// The offset just past the question section of `data`, including the
/// four type/class bytes, or `None` if the section is truncated.
pub fn find_question_end(data: &[u8]) -> (r: Option<usize>)
    ensures
        ({
            let q = question_end_from(data@, 0);
            match r {
                Some(p) => q == Some(p as nat),
                None => q is None,
            }
        }),
{
    let len = data.len();
    let mut pos: usize = 0;
    loop
        invariant
            pos <= len,
            len == data@.len(),
            question_end_from(data@, 0) == question_end_from(data@, pos as nat),
        decreases len - pos,
    {
        if pos >= len {
            return None;
        }
        let l = data[pos];
        if l == 0 {
            if len - pos >= 5 {
                return Some(pos + 5);
            } else {
                return None;
            }
        }
        if l & 0xC0 == 0xC0 {
            if len - pos >= 6 {
                return Some(pos + 6);
            } else {
                return None;
            }
        }
        if (l as usize) > len - 1 - pos {
            return None;
        }
        pos = pos + 1 + l as usize;
    }
}

/// A question end, when found, lies within the data.
pub proof fn lemma_question_end_le_len(data: Seq<u8>, pos: nat)
    ensures
        match question_end_from(data, pos) {
            Some(q) => q <= data.len(),
            None => true,
        },
    decreases data.len() - pos,
{
    if pos >= data.len() {
    } else if data[pos as int] == 0 {
    } else if data[pos as int] & 0xC0 == 0xC0 {
    } else if pos + 1 + data[pos as int] > data.len() {
    } else {
        lemma_question_end_le_len(data, (pos + 1 + data[pos as int]) as nat);
    }
}

/// The answer to a query: the query's transaction id, response flags, the
/// question counts and section echoed back, and one A record pointing at
/// `addr` with a 60 second TTL.
pub open spec fn dns_response_spec(query: Seq<u8>, qe: nat, addr: (u8, u8, u8, u8)) -> Seq<u8> {
    query.subrange(0, 2) + seq![0x85u8, 0x80u8] + query.subrange(4, 6) + query.subrange(4, 6)
        + seq![0u8, 0u8] + seq![0u8, 0u8] + query.subrange(12, 12 + qe as int) + seq![0xC0u8, 0x0Cu8]
        + seq![0u8, 1u8] + seq![0u8, 1u8] + seq![0u8, 0u8, 0u8, 0x3Cu8] + seq![0u8, 4u8]
        + seq![addr.0, addr.1, addr.2, addr.3]
}

/// Builds the answer for one query, or `None` when the query is shorter
/// than a DNS header, its question section is truncated, or the answer
/// would not fit the fixed 512-byte buffer.
pub fn build_dns_response(query: &[u8], addr: (u8, u8, u8, u8)) -> (r: Option<
    heapless::Vec<u8, 512>,
>)
    ensures
        query@.len() < 12 ==> r is None,
        query@.len() >= 12 ==> ({
            let q = question_end_from(query@.skip(12), 0);
            match (r, q) {
                (Some(v), Some(qe)) => 28 + qe <= 512 && hbytes(v) == dns_response_spec(
                    query@,
                    qe,
                    addr,
                ),
                (None, Some(qe)) => 28 + qe > 512,
                (None, None) => true,
                (Some(v), None) => false,
            }
        }),
{
    if query.len() < 12 {
        return None;
    }
    let (_, body) = query.split_at(12);
    proof {
        assert(body@ =~= query@.skip(12));
    }
    let question_end = match find_question_end(body) {
        Some(q) => q,
        None => {
            return None;
        },
    };
    let ghost qe = question_end as nat;
    proof {
        lemma_question_end_le_len(body@, 0);
    }
    let mut response = hvec_new();
    // transaction id
    if hvec_extend(&mut response, &query[0..2]).is_err() {
        return None;
    }
    // flags: standard response, recursion available, no error
    let flags: [u8; 2] = [0x85, 0x80];
    if hvec_extend(&mut response, flags.as_slice()).is_err() {
        return None;
    }
    // question count, echoed as the answer count too
    if hvec_extend(&mut response, &query[4..6]).is_err() {
        return None;
    }
    if hvec_extend(&mut response, &query[4..6]).is_err() {
        return None;
    }
    // authority and additional counts
    let zeros: [u8; 2] = [0x00, 0x00];
    if hvec_extend(&mut response, zeros.as_slice()).is_err() {
        return None;
    }
    if hvec_extend(&mut response, zeros.as_slice()).is_err() {
        return None;
    }
    // the question section, echoed
    if hvec_extend(&mut response, &query[12..12 + question_end]).is_err() {
        return None;
    }
    // answer: pointer to the queried name
    let name_ptr: [u8; 2] = [0xC0, 0x0C];
    if hvec_extend(&mut response, name_ptr.as_slice()).is_err() {
        return None;
    }
    // type A, class IN
    let one: [u8; 2] = [0x00, 0x01];
    if hvec_extend(&mut response, one.as_slice()).is_err() {
        return None;
    }
    if hvec_extend(&mut response, one.as_slice()).is_err() {
        return None;
    }
    // a 60 second TTL
    let ttl: [u8; 4] = [0x00, 0x00, 0x00, 0x3C];
    if hvec_extend(&mut response, ttl.as_slice()).is_err() {
        return None;
    }
    // four bytes of address data
    let rdlen: [u8; 2] = [0x00, 0x04];
    if hvec_extend(&mut response, rdlen.as_slice()).is_err() {
        return None;
    }
    let ip: [u8; 4] = [addr.0, addr.1, addr.2, addr.3];
    if hvec_extend(&mut response, ip.as_slice()).is_err() {
        return None;
    }
    proof {
        assert(query@.subrange(12, 12 + qe as int) =~= query@.skip(12).subrange(0, qe as int));
        assert(hbytes(response) =~= dns_response_spec(query@, qe, addr));
    }
    Some(response)
}

} // verus!
