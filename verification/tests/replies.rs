use gimmeurl::http::{chunk_headers, file_headers, Header, Refusal};

fn pairs(headers: &[Header]) -> Vec<(&str, &str)> {
    headers.iter().map(|h| (h.name.as_str(), h.value.as_str())).collect()
}

#[test]
fn refusals() {
    let table = [
        (Refusal::FileNotFound, 404, "file not found"),
        (Refusal::ChunkNotFound, 404, "chunk not found"),
        (Refusal::DiskError, 500, "disk error"),
        (Refusal::ReadError, 500, "read error"),
        (Refusal::NotFound, 404, "not found"),
        (Refusal::NoSuchFile, 404, "no such file"),
    ];
    for (refusal, status, message) in table {
        assert_eq!(refusal.status(), status);
        assert_eq!(refusal.message(), message);
    }
}

#[test]
fn headers_of_a_chunk() {
    assert_eq!(
        pairs(&chunk_headers(75_712, 2)),
        vec![
            ("Content-Type", "application/octet-stream"),
            ("Content-Length", "75712"),
            ("X-Chunk-Index", "2"),
            ("Cache-Control", "no-store"),
            ("Access-Control-Allow-Origin", "*"),
        ]
    );
}

#[test]
fn headers_of_a_file() {
    assert_eq!(
        pairs(&file_headers("a b.txt", "text/plain", 10)),
        vec![
            ("Content-Disposition", "attachment; filename=\"a b.txt\""),
            ("Content-Type", "text/plain"),
            ("Content-Length", "10"),
            ("Cache-Control", "no-store"),
            ("X-Powered-By", "GimmeURL-HybridEngine"),
        ]
    );
}

#[test]
fn types_that_cannot_be_sent_are_replaced() {
    let kind = |mime: &str| file_headers("a", mime, 0)[1].value.clone();
    assert_eq!(kind("text/plain\r\n"), "application/octet-stream");
    assert_eq!(kind("\u{7f}"), "application/octet-stream");
    assert_eq!(kind("text/\u{e9}"), "text/\u{e9}");
    assert_eq!(kind("a\tb"), "a\tb");
    assert_eq!(kind(""), "");
}

#[test]
fn headers_can_be_sent() {
    let mut all = chunk_headers(u64::MAX, u32::MAX);
    all.extend(file_headers("n\u{e4}me.txt", "x\ny", usize::MAX));
    for header in all {
        assert!(axum::http::HeaderValue::from_str(&header.value).is_ok());
        assert!(axum::http::HeaderName::from_bytes(header.name.as_bytes()).is_ok());
    }
}
