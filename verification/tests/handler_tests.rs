use std::sync::Arc;

use ua_mask::config::Config;
use ua_mask::handler::HttpHandler;
use ua_mask::http::{head_complete, rebuild_from_head, rebuild_request, HeaderField, ParseStatus, RequestHead};
use ua_mask::matcher::UaRegex;
use ua_mask::stats::Stats;

fn keyword_config() -> Config {
    Config {
        user_agent: "CustomUA/1.0".to_string(),
        keywords_list: vec!["iPhone".to_string(), "Android".to_string()],
        ..Default::default()
    }
}

#[test]
fn test_is_http() {
    assert!(HttpHandler::is_http(b"GET / HTTP/1.1"));
    assert!(HttpHandler::is_http(b"POST /api HTTP/1.1"));
    assert!(HttpHandler::is_http(b"HEAD / HTTP/1.1"));
    assert!(HttpHandler::is_http(b"PUT / HTTP/1.1"));
    assert!(HttpHandler::is_http(b"DELETE / HTTP/1.1"));
    assert!(HttpHandler::is_http(b"OPTIONS / HTTP/1.1"));
    assert!(HttpHandler::is_http(b"PATCH / HTTP/1.1"));
    assert!(HttpHandler::is_http(b"TRACE / HTTP/1.1"));
    assert!(HttpHandler::is_http(b"CONNECT example.com:443 HTTP/1.1"));

    assert!(!HttpHandler::is_http(b"HTTP/1.1 200 OK"));
    assert!(!HttpHandler::is_http(b"\x16\x03\x01"));
    assert!(!HttpHandler::is_http(b"GET"));
    assert!(!HttpHandler::is_http(b""));
}

#[test]
fn is_http_needs_seven_bytes() {
    assert!(!HttpHandler::is_http(b"GET / "));
    assert!(HttpHandler::is_http(b"GET / H"));
    assert!(!HttpHandler::is_http(b"get / http/1.1"));
}

#[test]
fn test_build_new_ua_full_replace() {
    let result = HttpHandler::build_new_ua(
        "Mozilla/5.0 (Windows NT 10.0)",
        "CustomUA/1.0",
        &None,
        false,
    );
    assert_eq!(result, "CustomUA/1.0");
}

#[test]
fn test_build_new_ua_partial_replace() {
    let re = UaRegex::new(r"(?i)(iPhone|iPad|Android)").unwrap();
    let result = HttpHandler::build_new_ua(
        "Mozilla/5.0 (iPhone; CPU iPhone OS)",
        "CustomDevice",
        &Some(re),
        true,
    );
    assert_eq!(result, "Mozilla/5.0 (CustomDevice; CPU CustomDevice OS)");
}

#[test]
fn build_new_ua_regex_without_partial_replaces_whole() {
    let re = UaRegex::new(r"(?i)(iPhone)").unwrap();
    let unmatched = HttpHandler::build_new_ua("Bot/1.0", "X", &Some(UaRegex::new(r"(?i)(iPhone)").unwrap()), true);
    assert_eq!(unmatched, "Bot/1.0");
    let result = HttpHandler::build_new_ua("Mozilla/5.0 (iPhone)", "X", &Some(re), false);
    assert_eq!(result, "X");
    let result = HttpHandler::build_new_ua("Mozilla/5.0 (iPhone)", "X", &None, true);
    assert_eq!(result, "X");
}

#[test]
fn test_should_replace_ua_force() {
    let config = Config {
        force_replace: true,
        ..Default::default()
    };
    let handler = HttpHandler::new(Arc::new(config));
    let (should, reason) = handler.should_replace_ua("Mozilla/5.0");
    assert!(should);
    assert_eq!(reason, "Force Replace Mode");
}

#[test]
fn test_should_replace_ua_whitelist() {
    let config = Config {
        whitelist: vec!["Mozilla/5.0".to_string()],
        ..Default::default()
    };
    let handler = HttpHandler::new(Arc::new(config));
    let (should, reason) = handler.should_replace_ua("Mozilla/5.0");
    assert!(!should);
    assert_eq!(reason, "Hit User-Agent Whitelist");
}

#[test]
fn test_should_replace_ua_regex() {
    let re = UaRegex::new(r"(?i)(iPhone|iPad|Android)").unwrap();
    let config = Config {
        enable_regex: true,
        ua_regexp: Some(re),
        ..Default::default()
    };
    let handler = HttpHandler::new(Arc::new(config));

    let (should, _) = handler.should_replace_ua("Mozilla/5.0 (iPhone)");
    assert!(should);

    let (should, _) = handler.should_replace_ua("Bot/1.0");
    assert!(!should);
}

#[test]
fn test_should_replace_ua_keywords() {
    let config = Config {
        keywords_list: vec!["iPhone".to_string(), "Android".to_string()],
        ..Default::default()
    };
    let handler = HttpHandler::new(Arc::new(config));

    let (should, _) = handler.should_replace_ua("Mozilla/5.0 (iPhone)");
    assert!(should);

    let (should, _) = handler.should_replace_ua("Bot/1.0");
    assert!(!should);
}

#[test]
fn should_replace_reasons() {
    let config = Config {
        whitelist: vec!["Mozilla/5.0 (iPhone)".to_string()],
        force_replace: true,
        ..Default::default()
    };
    let handler = HttpHandler::new(Arc::new(config));
    assert_eq!(
        handler.should_replace_ua("Mozilla/5.0 (iPhone)"),
        (false, "Hit User-Agent Whitelist")
    );
    let handler = HttpHandler::new(Arc::new(keyword_config()));
    assert_eq!(handler.should_replace_ua("Android 14"), (true, "Hit User-Agent Keyword"));
    assert_eq!(handler.should_replace_ua("curl/8"), (false, "Not Hit User-Agent Keywords"));
    let config = Config { enable_regex: true, ..Default::default() };
    let handler = HttpHandler::new(Arc::new(config));
    assert_eq!(handler.should_replace_ua("iPhone"), (false, "Not Hit User-Agent Pattern"));
    let config = Config {
        enable_regex: true,
        ua_regexp: Some(UaRegex::new("(?i)iphone").unwrap()),
        ..Default::default()
    };
    let handler = HttpHandler::new(Arc::new(config));
    assert_eq!(handler.should_replace_ua("IPHONE"), (true, "Hit User-Agent Pattern"));
}

#[test]
fn process_request_replaces_matching_ua() {
    let mut handler = HttpHandler::new(Arc::new(keyword_config()));
    let req = b"GET /x HTTP/1.1\r\nHost: a\r\nUser-Agent: Mozilla/5.0 (iPhone)\r\n\r\nBODY";
    let out = handler.process_request(req);
    assert!(out.modified);
    assert!(!out.cache_hit);
    assert_eq!(
        out.bytes,
        b"GET /x HTTP/1.1\r\nHost: a\r\nUser-Agent: CustomUA/1.0\r\n\r\nBODY".to_vec()
    );
    // the cached decision gives the same rewrite
    let again = handler.process_request(req);
    assert!(again.modified);
    assert!(again.cache_hit);
    assert_eq!(again.bytes, out.bytes);
}

#[test]
fn process_request_leaves_other_requests() {
    let mut handler = HttpHandler::new(Arc::new(keyword_config()));
    let req = b"GET / HTTP/1.1\r\nUser-Agent: curl/8.0\r\n\r\n";
    let first = handler.process_request(req);
    assert!(!first.modified && !first.cache_hit);
    assert_eq!(first.bytes, req.to_vec());
    let second = handler.process_request(req);
    assert!(!second.modified && second.cache_hit);
    assert_eq!(second.bytes, req.to_vec());
    let others: [&[u8]; 4] = [
        // no User-Agent header
        b"GET / HTTP/1.1\r\nHost: a\r\n\r\n",
        // incomplete head
        b"GET / HTTP/1.1\r\nUser-Agent: iPhone\r\n",
        // empty User-Agent
        b"GET / HTTP/1.1\r\nUser-Agent:\r\n\r\n",
        // not a request
        b"\x16\x03\x01\x00\x05hello",
    ];
    for other in others {
        let r = handler.process_request(other);
        assert!(!r.modified && !r.cache_hit);
        assert_eq!(r.bytes, other.to_vec());
    }
}

#[test]
fn process_request_header_name_any_case_and_version() {
    let mut handler = HttpHandler::new(Arc::new(keyword_config()));
    let req = b"POST /a HTTP/1.0\r\nuser-agent: Android\r\nX: y\r\n\r\n";
    let out = handler.process_request(req).bytes;
    assert_eq!(out, b"POST /a HTTP/1.0\r\nuser-agent: CustomUA/1.0\r\nX: y\r\n\r\n".to_vec());
}

#[test]
fn process_request_partial_replace() {
    let config = Config {
        user_agent: "Dev".to_string(),
        enable_regex: true,
        enable_partial_replace: true,
        ua_regexp: Some(UaRegex::new("(?i)(iphone|android)").unwrap()),
        ..Default::default()
    };
    let mut handler = HttpHandler::new(Arc::new(config));
    let req = b"GET / HTTP/1.1\r\nUser-Agent: A (iPhone) B\r\n\r\n";
    let out = handler.process_request(req).bytes;
    assert_eq!(out, b"GET / HTTP/1.1\r\nUser-Agent: A (Dev) B\r\n\r\n".to_vec());
}

#[test]
fn relay_request_counts() {
    let mut handler = HttpHandler::new(Arc::new(keyword_config()));
    let mut stats = Stats::new();
    let modified = b"GET / HTTP/1.1\r\nUser-Agent: iPhone\r\n\r\n";
    let plain = b"GET / HTTP/1.1\r\nUser-Agent: curl\r\n\r\n";
    let out = handler.relay_request(modified, &mut stats);
    assert_eq!(out, b"GET / HTTP/1.1\r\nUser-Agent: CustomUA/1.0\r\n\r\n".to_vec());
    let out = handler.relay_request(plain, &mut stats);
    assert_eq!(out, plain.to_vec());
    assert_eq!(stats.http_requests, 2);
    assert_eq!(stats.modified_requests, 1);
    assert_eq!(stats.cache_hits, 0);
    assert_eq!(stats.cache_hit_no_modify, 0);
    handler.relay_request(modified, &mut stats);
    handler.relay_request(plain, &mut stats);
    assert_eq!(stats.http_requests, 4);
    assert_eq!(stats.modified_requests, 2);
    assert_eq!(stats.cache_hits, 1);
    assert_eq!(stats.cache_hit_no_modify, 1);
}

#[test]
fn relay_counts_cache_hits_by_kind() {
    let config = Config {
        force_replace: true,
        whitelist: vec!["W".to_string()],
        ..Default::default()
    };
    let mut handler = HttpHandler::new(Arc::new(config));
    let mut stats = Stats::new();
    let x = b"GET / HTTP/1.1\r\nUser-Agent: X\r\n\r\n";
    let w = b"GET / HTTP/1.1\r\nUser-Agent: W\r\n\r\n";
    handler.relay_request(x, &mut stats);
    handler.relay_request(x, &mut stats);
    assert_eq!(handler.relay_request(w, &mut stats), w.to_vec());
    assert_eq!(stats.http_requests, 3);
    assert_eq!(stats.modified_requests, 2);
    assert_eq!(stats.cache_hits, 1);
    assert_eq!(stats.cache_hit_no_modify, 0);
}

#[test]
fn process_parsed_uses_given_head() {
    let mut handler = HttpHandler::new(Arc::new(keyword_config()));
    let head = RequestHead {
        status: ParseStatus::Complete(10),
        method: Some(b"PUT".to_vec()),
        path: Some(b"/q".to_vec()),
        version: Some(1),
        headers: vec![
            HeaderField { name: b"user-AGENT".to_vec(), value: b"my iPhone".to_vec() },
            HeaderField { name: b"Z".to_vec(), value: b"1".to_vec() },
            HeaderField { name: Vec::new(), value: b"ignored".to_vec() },
        ],
    };
    let buf = b"0123456789tail";
    let r = handler.process_parsed(buf, &head);
    assert!(r.modified);
    assert_eq!(r.bytes, b"PUT /q HTTP/1.1\r\nuser-AGENT: CustomUA/1.0\r\nZ: 1\r\n\r\ntail".to_vec());
    let partial = RequestHead { status: ParseStatus::Partial, method: None, path: None, version: None, headers: Vec::new() };
    let r = handler.process_parsed(buf, &partial);
    assert!(!r.modified);
    assert_eq!(r.bytes, buf.to_vec());
}

#[test]
fn rebuild_from_head_without_version() {
    let head = RequestHead {
        status: ParseStatus::Complete(0),
        method: Some(b"GET".to_vec()),
        path: Some(b"/".to_vec()),
        version: None,
        headers: vec![HeaderField { name: b"A".to_vec(), value: b"b".to_vec() }],
    };
    assert_eq!(rebuild_from_head(b"xyz", &head, 1, 0, "c"), b"GET /\r\nA: c\r\n\r\nyz".to_vec());
}

#[test]
fn small_cache_still_decides_the_same() {
    let config = Config { cache_size: 0, ..keyword_config() };
    let mut handler = HttpHandler::new(Arc::new(config));
    let a = b"GET / HTTP/1.1\r\nUser-Agent: iPhone\r\n\r\n";
    let b = b"GET / HTTP/1.1\r\nUser-Agent: curl\r\n\r\n";
    for _ in 0..3 {
        assert!(handler.process_request(a).modified);
        assert!(!handler.process_request(b).modified);
    }
}

#[test]
fn rebuild_request_replaces_one_header() {
    let req = b"GET /p HTTP/1.1\r\nA: 1\r\nUser-Agent: old\r\nB: 2\r\n\r\nrest";
    let out = rebuild_request(req, req.len() - 4, 1, "new");
    assert_eq!(out, b"GET /p HTTP/1.1\r\nA: 1\r\nUser-Agent: new\r\nB: 2\r\n\r\nrest".to_vec());
    let out = rebuild_request(req, req.len(), 0, "z");
    assert_eq!(out, b"GET /p HTTP/1.1\r\nA: z\r\nUser-Agent: old\r\nB: 2\r\n\r\n".to_vec());
}

#[test]
fn head_complete_finds_blank_line() {
    assert!(head_complete(b"GET / HTTP/1.1\r\n\r\n"));
    assert!(head_complete(b"\r\n\r\nx"));
    assert!(!head_complete(b"GET / HTTP/1.1\r\n"));
    assert!(!head_complete(b"\r\n\r"));
    assert!(!head_complete(b""));
}

#[test]
fn kept_user_agent_is_forwarded_byte_for_byte() {
    let config = Config {
        whitelist: vec!["Bot/1.0".to_string()],
        force_replace: true,
        ..Default::default()
    };
    let mut h = HttpHandler::new(Arc::new(config));
    let buf = b"GET / HTTP/1.1\r\nUser-Agent: Bot/1.0\r\n\r\n";
    for _ in 0..2 {
        let r = h.process_request(buf);
        assert!(!r.modified);
        assert_eq!(r.bytes, buf.to_vec());
    }
}
