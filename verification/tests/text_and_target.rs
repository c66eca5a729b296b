use correctness_bench::target::{host_header_for, request_bytes};
use correctness_bench::text::{
    chars_of, decimal_text, joined, parse_u64, same, starts_with, string_of, to_lower, to_upper,
    trim, trim_end,
};

#[test]
fn ascii_case_leaves_other_letters_alone() {
    assert_eq!(to_lower("Content-TYPE äÖ"), "content-type äÖ");
    assert_eq!(to_upper("get äÖ z"), "GET äÖ Z");
}

#[test]
fn trimming() {
    assert_eq!(trim("  \t 12 \u{a0}\u{3000}"), "12");
    assert_eq!(trim("   "), "");
    assert_eq!(trim("a b"), "a b");
    assert_eq!(trim_end("http://x//", '/'), "http://x");
    assert_eq!(trim_end("///", '/'), "");
}

#[test]
fn decimal_numbers() {
    for s in [
        "0", "7", "+7", "007", "18446744073709551615", "18446744073709551616", "", "+", "-1",
        "1 2", "12a", "++1", "99999999999999999999999",
    ] {
        assert_eq!(parse_u64(s), s.parse::<u64>().ok(), "{s:?}");
    }
    for n in [0u64, 9, 10, 429, 65_535, u64::MAX] {
        assert_eq!(decimal_text(n), n.to_string());
        assert_eq!(parse_u64(&decimal_text(n)), Some(n));
    }
}

#[test]
fn prefixes_and_equality() {
    assert!(starts_with("application/json; charset=utf-8", "application/json"));
    assert!(!starts_with("app", "application"));
    assert!(starts_with("x", ""));
    assert!(same("", ""));
    assert!(!same("a", "b"));
    assert!(!same("a", "ab"));
    assert_eq!(joined("a", "b"), "ab");
    let v = chars_of("héllo");
    assert_eq!(v.len(), 5);
    assert_eq!(string_of(&v, 1, 3), "él");
}

#[test]
fn the_request_names_a_port_unless_it_is_80() {
    assert_eq!(host_header_for("h", 80), "h");
    assert_eq!(host_header_for("h", 8080), "h:8080");
    assert_eq!(
        request_bytes("GET", "/api?x=1", "h:8080", &vec![]),
        b"GET /api?x=1 HTTP/1.1\r\nHost: h:8080\r\nAccept: */*\r\nConnection: keep-alive\r\nUser-Agent: engine-worker/0.1\r\n\r\n".to_vec()
    );
}

#[test]
fn the_request_carries_the_headers_of_the_run() {
    let headers = vec![
        ("Authorization".to_string(), "Bearer abc".to_string()),
        ("x-n".to_string(), "1".to_string()),
    ];
    assert_eq!(
        request_bytes("POST", "/", "h", &headers),
        b"POST / HTTP/1.1\r\nHost: h\r\nAccept: */*\r\nConnection: keep-alive\r\nUser-Agent: engine-worker/0.1\r\nAuthorization: Bearer abc\r\nx-n: 1\r\n\r\n".to_vec()
    );
}
