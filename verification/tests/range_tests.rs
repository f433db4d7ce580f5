use rustfin::range::{
    base64_url_encode, content_type_for_path, hex_decode, parse_range_header,
    plan_response_headers, plan_stream_response, RangeError, StreamPlan,
};

#[test]
fn parse_range_basic() {
    let r = parse_range_header("bytes=0-999", 5000).unwrap();
    assert_eq!(r.start, 0);
    assert_eq!(r.end_inclusive, 999);
}

#[test]
fn parse_range_open_end() {
    let r = parse_range_header("bytes=1000-", 5000).unwrap();
    assert_eq!(r.start, 1000);
    assert_eq!(r.end_inclusive, 4999);
}

#[test]
fn parse_range_suffix() {
    let r = parse_range_header("bytes=-500", 5000).unwrap();
    assert_eq!(r.start, 4500);
    assert_eq!(r.end_inclusive, 4999);
}

#[test]
fn parse_range_clamps_end() {
    let r = parse_range_header("bytes=0-99999", 5000).unwrap();
    assert_eq!(r.start, 0);
    assert_eq!(r.end_inclusive, 4999);
}

#[test]
fn parse_range_start_beyond_size() {
    let r = parse_range_header("bytes=5000-", 5000);
    assert!(r.is_err());
    assert_eq!(r.unwrap_err(), RangeError::Unsatisfiable);
}

#[test]
fn parse_range_multi_rejected() {
    let r = parse_range_header("bytes=0-100, 200-300", 5000);
    assert!(r.is_err());
    assert_eq!(r.unwrap_err(), RangeError::Malformed);
}

#[test]
fn parse_range_backwards_rejected() {
    assert_eq!(parse_range_header("bytes=300-100", 5000).unwrap_err(), RangeError::Malformed);
}

#[test]
fn parse_range_garbage_rejected() {
    assert_eq!(parse_range_header("lines=0-100", 5000).unwrap_err(), RangeError::Malformed);
    assert_eq!(parse_range_header("bytes=a-b", 5000).unwrap_err(), RangeError::Malformed);
}

#[test]
fn content_type_detection() {
    assert_eq!(content_type_for_path("movie.mp4"), "video/mp4");
    assert_eq!(content_type_for_path("video.mkv"), "video/x-matroska");
    assert_eq!(content_type_for_path("clip.webm"), "video/webm");
}

#[test]
fn content_type_table() {
    assert_eq!(content_type_for_path("/media/a.m2ts"), "video/mp2t");
    assert_eq!(content_type_for_path("a.VOB"), "video/mpeg");
    assert_eq!(content_type_for_path("a.ogv"), "video/ogg");
    assert_eq!(content_type_for_path("a.wmv"), "video/x-ms-wmv");
    assert_eq!(content_type_for_path("a.unknownext"), "application/octet-stream");
    assert_eq!(content_type_for_path("noext"), "application/octet-stream");
}

#[test]
fn stream_plan_range_request() {
    // a five-thousand-byte file served under various Range headers
    match plan_stream_response(5000, Some("bytes=0-999"), "movie.mp4") {
        StreamPlan::Partial { start, end_inclusive, content_length, content_type } => {
            assert_eq!(start, 0);
            assert_eq!(end_inclusive, 999);
            assert_eq!(content_length, 1000);
            assert_eq!(content_type, "video/mp4");
        },
        _ => panic!("expected a partial response"),
    }
    match plan_stream_response(5000, Some("bytes=4000-"), "movie.mp4") {
        StreamPlan::Partial { start, end_inclusive, content_length, .. } => {
            assert_eq!(start, 4000);
            assert_eq!(end_inclusive, 4999);
            assert_eq!(content_length, 1000);
        },
        _ => panic!("expected a partial response"),
    }
    assert!(matches!(
        plan_stream_response(5000, Some("bytes=5000-"), "movie.mp4"),
        StreamPlan::NotSatisfiable
    ));
    match plan_stream_response(5000, None, "movie.mp4") {
        StreamPlan::Full { content_length, content_type } => {
            assert_eq!(content_length, 5000);
            assert_eq!(content_type, "video/mp4");
        },
        _ => panic!("expected a full response"),
    }
}

#[test]
fn hex_path_round_trip() {
    let encoded = base64_url_encode("/media/movies/film.srt");
    assert_eq!(encoded, "2f6d656469612f6d6f766965732f66696c6d2e737274");
    assert_eq!(hex_decode(&encoded).as_deref(), Some("/media/movies/film.srt"));
}

#[test]
fn hex_decode_rejects_bad_input() {
    assert!(hex_decode("abc").is_none());
    assert!(hex_decode("zz").is_none());
    assert_eq!(hex_decode("616263").as_deref(), Some("abc"));
}

#[test]
fn stream_plan_headers() {
    // the 206 answer carries the exact window and the fixed headers
    let plan = plan_stream_response(5000, Some("bytes=0-999"), "movie.mp4");
    let headers = plan_response_headers(&plan, 5000);
    assert!(headers.contains(&("Content-Type".to_string(), "video/mp4".to_string())));
    assert!(headers.contains(&("Content-Length".to_string(), "1000".to_string())));
    assert!(headers.contains(&("Content-Range".to_string(), "bytes 0-999/5000".to_string())));
    assert!(headers.contains(&("Accept-Ranges".to_string(), "bytes".to_string())));
    assert!(headers.contains(&("Cache-Control".to_string(), "no-store".to_string())));
    assert!(headers.contains(&("Referrer-Policy".to_string(), "no-referrer".to_string())));
    assert!(headers.contains(&("X-Content-Type-Options".to_string(), "nosniff".to_string())));

    // the 416 answer names the file size and nothing else
    let unsat = plan_stream_response(5000, Some("bytes=5000-"), "movie.mp4");
    let headers = plan_response_headers(&unsat, 5000);
    assert_eq!(headers, vec![("Content-Range".to_string(), "bytes */5000".to_string())]);

    // the 200 answer has no Content-Range
    let full = plan_stream_response(5000, None, "movie.mp4");
    let headers = plan_response_headers(&full, 5000);
    assert!(headers.contains(&("Content-Length".to_string(), "5000".to_string())));
    assert!(!headers.iter().any(|(k, _)| k == "Content-Range"));
}
