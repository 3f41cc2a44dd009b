//! Request handling for the captive portal's HTTP side: recognizing the
//! probe requests that operating systems use to detect a captive portal,
//! and choosing which response a request gets.

use vstd::prelude::*;
use vstd::string::StringSliceAdditionalSpecFns;

verus! {

/// `n` occurs as a contiguous run inside `h`.
pub open spec fn contains_seq(h: Seq<u8>, n: Seq<u8>) -> bool {
    exists|k: int| 0 <= k <= h.len() - n.len() && #[trigger] h.subrange(k, k + n.len()) == n
}

/// Substring search, linear scan at every offset.
fn contains_sub(h: &[u8], n: &[u8]) -> (r: bool)
    ensures
        r == contains_seq(h@, n@),
{
    let hlen = h.len();
    let nlen = n.len();
    if nlen > hlen {
        return false;
    }
    if nlen == 0 {
        proof {
            let w: int = 0;
            assert(h@.subrange(w, w + n@.len() as int) =~= n@);
            assert(contains_seq(h@, n@));
        }
        return true;
    }
    let mut k: usize = 0;
    while k <= hlen - nlen
        invariant
            nlen <= hlen,
            hlen == h@.len(),
            nlen == n@.len(),
            k <= hlen - nlen + 1,
            nlen >= 1,
            forall|kk: int| 0 <= kk < k ==> #[trigger] h@.subrange(kk, kk + n@.len()) != n@,
        decreases hlen - nlen - k + 1,
    {
        let mut j: usize = 0;
        let mut matched = true;
        while j < nlen
            invariant
                nlen <= hlen,
                hlen == h@.len(),
                nlen == n@.len(),
                k <= hlen - nlen,
                j <= nlen,
                matched ==> (forall|jj: int| 0 <= jj < j ==> h@[k + jj] == n@[jj]),
                !matched ==> h@.subrange(k as int, k + n@.len()) != n@,
            decreases nlen - j,
        {
            if h[k + j] != n[j] {
                proof {
                    assert(h@.subrange(k as int, k + n@.len())[j as int] != n@[j as int]);
                }
                matched = false;
                j = nlen;
            } else {
                j = j + 1;
            }
        }
        if matched {
            proof {
                assert(h@.subrange(k as int, k + n@.len()) =~= n@);
            }
            return true;
        }
        k = k + 1;
    }
    proof {
        assert forall|kk: int| 0 <= kk <= h@.len() - n@.len() implies #[trigger] h@.subrange(
            kk,
            kk + n@.len(),
        ) != n@ by {}
    }
    false
}

/// The bytes of `generate_204`.
pub open spec fn p_generate_204() -> Seq<u8> {
    seq![103u8, 101u8, 110u8, 101u8, 114u8, 97u8, 116u8, 101u8, 95u8, 50u8, 48u8, 52u8]
}

/// The bytes of `hotspot-detect`.
pub open spec fn p_hotspot_detect() -> Seq<u8> {
    seq![104u8, 111u8, 116u8, 115u8, 112u8, 111u8, 116u8, 45u8, 100u8, 101u8, 116u8, 101u8, 99u8, 116u8]
}

/// The bytes of `connecttest`.
pub open spec fn p_connecttest() -> Seq<u8> {
    seq![99u8, 111u8, 110u8, 110u8, 101u8, 99u8, 116u8, 116u8, 101u8, 115u8, 116u8]
}

/// The bytes of `success.txt`.
pub open spec fn p_success_txt() -> Seq<u8> {
    seq![115u8, 117u8, 99u8, 99u8, 101u8, 115u8, 115u8, 46u8, 116u8, 120u8, 116u8]
}

/// The bytes of `GET /hotspot-detect.html`.
pub open spec fn p_get_hotspot_page() -> Seq<u8> {
    seq![71u8, 69u8, 84u8, 32u8, 47u8, 104u8, 111u8, 116u8, 115u8, 112u8, 111u8, 116u8, 45u8, 100u8, 101u8, 116u8, 101u8, 99u8, 116u8, 46u8, 104u8, 116u8, 109u8, 108u8]
}

/// The bytes of `GET /snapshot`.
pub open spec fn p_get_snapshot() -> Seq<u8> {
    seq![71u8, 69u8, 84u8, 32u8, 47u8, 115u8, 110u8, 97u8, 112u8, 115u8, 104u8, 111u8, 116u8]
}

/// The bytes of `GET /portal`.
pub open spec fn p_get_portal() -> Seq<u8> {
    seq![71u8, 69u8, 84u8, 32u8, 47u8, 112u8, 111u8, 114u8, 116u8, 97u8, 108u8]
}

/// The bytes of `GET /index`.
pub open spec fn p_get_index() -> Seq<u8> {
    seq![71u8, 69u8, 84u8, 32u8, 47u8, 105u8, 110u8, 100u8, 101u8, 120u8]
}

/// The bytes of `GET / `.
pub open spec fn p_get_root() -> Seq<u8> {
    seq![71u8, 69u8, 84u8, 32u8, 47u8, 32u8]
}

/// A probe request that an operating system sends to detect a captive
/// portal: it names one of the well-known connectivity check paths.
pub open spec fn is_captive_portal_check_spec(req: Seq<u8>) -> bool {
    ||| contains_seq(req, p_generate_204())
    ||| contains_seq(req, p_hotspot_detect())
    ||| contains_seq(req, p_connecttest())
    ||| contains_seq(req, p_success_txt())
}

/// Whether `request` is an operating system's connectivity probe.
pub fn is_captive_portal_check(request: &str) -> (r: bool)
    ensures
        r == is_captive_portal_check_spec(request.spec_bytes()),
{
    let request = request.as_bytes();
    let p_generate_204_b: [u8; 12] = [103, 101, 110, 101, 114, 97, 116, 101, 95, 50, 48, 52];
    if contains_sub(request, p_generate_204_b.as_slice()) {
        return true;
    }
    let p_hotspot_detect_b: [u8; 14] = [104, 111, 116, 115, 112, 111, 116, 45, 100, 101, 116, 101, 99, 116];
    if contains_sub(request, p_hotspot_detect_b.as_slice()) {
        return true;
    }
    let p_connecttest_b: [u8; 11] = [99, 111, 110, 110, 101, 99, 116, 116, 101, 115, 116];
    if contains_sub(request, p_connecttest_b.as_slice()) {
        return true;
    }
    let p_success_txt_b: [u8; 11] = [115, 117, 99, 99, 101, 115, 115, 46, 116, 120, 116];
    if contains_sub(request, p_success_txt_b.as_slice()) {
        return true;
    }
    false
}

/// What a request is served.
#[derive(Clone, Copy, PartialEq, Eq, Structural, Debug)]
pub enum RequestKind {
    /// The hotspot detection page request, served the minimal portal page.
    SimplePortalPage,
    /// A single camera image.
    Snapshot,
    /// The portal landing page.
    PortalPage,
    /// A connectivity probe, redirected so the client opens the portal.
    CaptiveRedirect,
    /// Anything else, also redirected to the portal.
    Redirect,
}

/// Route choice, in priority order: the hotspot detection page, the
/// snapshot, the portal page paths, then connectivity probes, then the
/// catch-all redirect.
pub open spec fn classify_request_spec(req: Seq<u8>) -> RequestKind {
    if contains_seq(req, p_get_hotspot_page()) {
        RequestKind::SimplePortalPage
    } else if contains_seq(req, p_get_snapshot()) {
        RequestKind::Snapshot
    } else if contains_seq(req, p_get_portal()) || contains_seq(req, p_get_index())
        || contains_seq(req, p_get_root()) {
        RequestKind::PortalPage
    } else if is_captive_portal_check_spec(req) {
        RequestKind::CaptiveRedirect
    } else {
        RequestKind::Redirect
    }
}

/// Chooses the response a request gets.
pub fn classify_request(request: &[u8]) -> (r: RequestKind)
    ensures
        r == classify_request_spec(request@),
{
    let p_get_hotspot_page_b: [u8; 24] = [71, 69, 84, 32, 47, 104, 111, 116, 115, 112, 111, 116, 45, 100, 101, 116, 101, 99, 116, 46, 104, 116, 109, 108];
    if contains_sub(request, p_get_hotspot_page_b.as_slice()) {
        return RequestKind::SimplePortalPage;
    }
    let p_get_snapshot_b: [u8; 13] = [71, 69, 84, 32, 47, 115, 110, 97, 112, 115, 104, 111, 116];
    if contains_sub(request, p_get_snapshot_b.as_slice()) {
        return RequestKind::Snapshot;
    }
    let p_get_portal_b: [u8; 11] = [71, 69, 84, 32, 47, 112, 111, 114, 116, 97, 108];
    if contains_sub(request, p_get_portal_b.as_slice()) {
        return RequestKind::PortalPage;
    }
    let p_get_index_b: [u8; 10] = [71, 69, 84, 32, 47, 105, 110, 100, 101, 120];
    if contains_sub(request, p_get_index_b.as_slice()) {
        return RequestKind::PortalPage;
    }
    let p_get_root_b: [u8; 6] = [71, 69, 84, 32, 47, 32];
    if contains_sub(request, p_get_root_b.as_slice()) {
        return RequestKind::PortalPage;
    }
    let p_generate_204_b: [u8; 12] = [103, 101, 110, 101, 114, 97, 116, 101, 95, 50, 48, 52];
    let p_hotspot_detect_b: [u8; 14] = [104, 111, 116, 115, 112, 111, 116, 45, 100, 101, 116, 101, 99, 116];
    let p_connecttest_b: [u8; 11] = [99, 111, 110, 110, 101, 99, 116, 116, 101, 115, 116];
    let p_success_txt_b: [u8; 11] = [115, 117, 99, 99, 101, 115, 115, 46, 116, 120, 116];
    if contains_sub(request, p_generate_204_b.as_slice()) || contains_sub(
        request,
        p_hotspot_detect_b.as_slice(),
    ) || contains_sub(request, p_connecttest_b.as_slice()) || contains_sub(
        request,
        p_success_txt_b.as_slice(),
    ) {
        return RequestKind::CaptiveRedirect;
    }
    RequestKind::Redirect
}

/// The bytes of an empty line: CR LF CR LF.
pub open spec fn p_header_end() -> Seq<u8> {
    seq![13u8, 10u8, 13u8, 10u8]
}

/// Whether the buffered bytes already hold a complete request head: an
/// empty line terminates the headers.
pub fn is_complete_request(buffered: &[u8]) -> (r: bool)
    ensures
        r == contains_seq(buffered@, p_header_end()),
{
    let end: [u8; 4] = [13, 10, 13, 10];
    contains_sub(buffered, end.as_slice())
}

} // verus!
