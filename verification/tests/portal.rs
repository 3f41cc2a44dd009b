use espcam::portal::classify_request;
use espcam::portal::is_captive_portal_check;
use espcam::portal::is_complete_request;
use espcam::portal::RequestKind;

#[test]
fn probe_requests_are_recognized() {
    assert!(is_captive_portal_check("GET /generate_204 HTTP/1.1\r\n\r\n"));
    assert!(is_captive_portal_check("GET /hotspot-detect HTTP/1.1\r\n\r\n"));
    assert!(is_captive_portal_check("GET /connecttest.txt HTTP/1.1\r\n\r\n"));
    assert!(is_captive_portal_check("GET /success.txt HTTP/1.1\r\n\r\n"));
}

#[test]
fn ordinary_requests_are_not_probes() {
    assert!(!is_captive_portal_check("GET /portal HTTP/1.1\r\n\r\n"));
    assert!(!is_captive_portal_check("GET /stream HTTP/1.1\r\n\r\n"));
    assert!(!is_captive_portal_check(""));
}

#[test]
fn routing_follows_priority_order() {
    assert_eq!(
        classify_request(b"GET /hotspot-detect.html HTTP/1.1\r\n\r\n"),
        RequestKind::SimplePortalPage
    );
    assert_eq!(classify_request(b"GET /snapshot HTTP/1.1\r\n\r\n"), RequestKind::Snapshot);
    assert_eq!(classify_request(b"GET /portal HTTP/1.1\r\n\r\n"), RequestKind::PortalPage);
    assert_eq!(classify_request(b"GET /index.html HTTP/1.1\r\n\r\n"), RequestKind::PortalPage);
    assert_eq!(classify_request(b"GET / HTTP/1.1\r\n\r\n"), RequestKind::PortalPage);
    assert_eq!(
        classify_request(b"GET /generate_204 HTTP/1.1\r\n\r\n"),
        RequestKind::CaptiveRedirect
    );
    assert_eq!(classify_request(b"GET /other HTTP/1.1\r\n\r\n"), RequestKind::Redirect);
}

#[test]
fn hotspot_page_request_beats_the_probe_patterns() {
    // contains "hotspot-detect" too, but the page request wins
    assert_eq!(
        classify_request(b"GET /hotspot-detect.html HTTP/1.1\r\nHost: a\r\n\r\n"),
        RequestKind::SimplePortalPage
    );
}

#[test]
fn complete_request_needs_the_empty_line() {
    assert!(is_complete_request(b"GET / HTTP/1.1\r\nHost: a\r\n\r\n"));
    assert!(!is_complete_request(b"GET / HTTP/1.1\r\nHost: a\r\n"));
    assert!(!is_complete_request(b""));
}
