use seki::vigy::{http_body, render_format};

#[test]
fn http_body_extracts_after_blank_line() {
    let resp = "HTTP/1.1 200 OK\r\nContent-Length: 5\r\n\r\nhello";
    assert_eq!(http_body(resp), Some("hello"));
}

#[test]
fn http_body_rejects_non_2xx() {
    let resp = "HTTP/1.1 404 Not Found\r\n\r\nnope";
    assert_eq!(http_body(resp), None);
}

#[test]
fn render_format_substitutes_count_and_hz() {
    let out = render_format("[vigy: $count @ $hz Hz]($style)", 7, "4");
    assert_eq!(out, "vigy: 7 @ 4 Hz");
}
