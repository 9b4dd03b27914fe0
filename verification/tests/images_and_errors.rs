use ifetch::errors::{
    extract_retry_after, is_rate_limit_error, is_rate_limited_response, parse_retry_after, Cause, ErrorReport,
    RateLimitError, RateLimitKind,
};
use ifetch::images::{
    chapter_images, find_image_array, page_images, read_image_urls, MirrorProbe, MirrorReply, MirrorStep,
};
use ifetch::rate_limit::NANOS_PER_SEC;

#[test]
fn image_array_agrees_with_the_pattern() {
    let re = regex::Regex::new(r"(?s)var\s+thzq\s*=\s*\[(.*?)\]\s*;").unwrap();
    for s in [
        "var thzq=['a'];",
        "var\n\tthzq  =  [ 'a', 'b' ,] \n ;",
        "varthzq=[];",
        "var thzq=[];",
        "var thzq=['a']",
        "var thzq=['a'] x; var thzq=['b'];",
        "var x=[1]; var thzq=['a]b'];",
        "VAR thzq=[1];",
        "var thzq=[1]];",
        "var thzq = [a] ; ]; var thzq=[z];",
        "var\u{a0}thzq=[n\u{e9}];",
        "var thzq\u{3000}=[1];",
        "var thzqq=[1];",
        "var  var thzq=[2];",
        "var thzq",
        "var thzq=",
        "",
    ] {
        let expected = re.captures(s).map(|c| c.get(1).unwrap().as_str().to_string());
        assert_eq!(find_image_array(s), expected, "{}", s);
    }
}

#[test]
fn image_addresses_agree_with_the_pattern() {
    let re = regex::Regex::new(r#"['"](https?://[^'"]+)['"]"#).unwrap();
    for s in [
        "'https://a/1.jpg','http://b/2.jpg',",
        "\"https://a\", 'ftp://x', 'https://'",
        "'https://a\"'https://b'",
        "''https://c''",
        "'https://unclosed",
        "x'httpss://a' 'http://'x'",
        "'https://a?x=1&amp;y=2&amp;amp;'",
        "'http://\u{e9}'",
        "",
    ] {
        let expected: Vec<String> = re
            .captures_iter(s)
            .map(|c| c.get(1).unwrap().as_str().replace("&amp;", "&"))
            .collect();
        assert_eq!(read_image_urls(s), expected, "{}", s);
    }
}

#[test]
fn image_addresses_are_web_addresses() {
    let urls = page_images("<script>var thzq=['https://a/1.jpg?x&amp;y','http://b/2.png',];</script>");
    assert_eq!(urls, vec!["https://a/1.jpg?x&y", "http://b/2.png"]);
    for u in urls {
        assert!(u.starts_with("http://") || u.starts_with("https://"));
    }
    assert!(page_images("nothing here").is_empty());
}

fn received(status: u16, retry_after: Option<u128>, body: &str) -> MirrorReply {
    MirrorReply::Received { status, retry_after, body: body.to_string() }
}

#[test]
fn first_mirror_with_images_wins() {
    let mut probe = MirrorProbe::new("https://h/c1");
    assert_eq!(probe.url(), "https://h/c1");
    assert!(matches!(
        chapter_images(&mut probe, &MirrorReply::Unreachable("boom".to_string())),
        MirrorStep::TryNext
    ));
    assert_eq!(probe.last_error, "request failed: boom");
    assert_eq!(probe.url(), "https://h/c1?sv=mk");
    match chapter_images(&mut probe, &received(200, None, "var thzq=['https://i/1'];")) {
        MirrorStep::Images(urls) => assert_eq!(urls, vec!["https://i/1"]),
        _ => panic!("expected images"),
    }
}

#[test]
fn failing_mirrors_end_in_a_block() {
    let mut probe = MirrorProbe::new("c");
    assert!(matches!(chapter_images(&mut probe, &received(200, Some(7), "no array")), MirrorStep::TryNext));
    assert_eq!(probe.last_error, "HTTP 200 OK from c contained no image array");
    assert!(matches!(
        chapter_images(&mut probe, &MirrorReply::Unreadable { retry_after: None }),
        MirrorStep::TryNext
    ));
    assert_eq!(probe.last_error, "failed reading body from c?sv=mk");
    match chapter_images(&mut probe, &received(429, None, "\u{e9}")) {
        MirrorStep::GiveUp(e) => {
            assert_eq!(
                e.reason,
                "All mirrors failed to provide images (last: HTTP 429 Too Many Requests (2 bytes) from c?sv=3 (rate limit or down))"
            );
            assert_eq!(e.retry_after(), Some(7));
            assert_eq!(e.kind, RateLimitKind::Other);
        }
        _ => panic!("expected the end"),
    }
    assert_eq!(probe.tried, 3);
}

#[test]
fn blocked_pages_list_no_images() {
    let mut probe = MirrorProbe::new("c");
    let body = "var thzq=['https://i/1'];";
    assert!(matches!(chapter_images(&mut probe, &received(429, None, body)), MirrorStep::TryNext));
    assert!(matches!(chapter_images(&mut probe, &received(404, None, body)), MirrorStep::Images(_)));
}

#[test]
fn kinds_of_blocks() {
    assert_eq!(RateLimitError::new(Some(429), "Cloudflare").kind, RateLimitKind::Http429);
    assert_eq!(RateLimitError::new(Some(403), "by CloudFlare").kind, RateLimitKind::CloudflareChallenge);
    assert_eq!(RateLimitError::new(None, "x").kind, RateLimitKind::Other);
    let e = RateLimitError::with_kind(None, "x", RateLimitKind::Http429).with_retry_after(Some(5));
    assert_eq!(e.kind, RateLimitKind::Http429);
    assert_eq!(e.retry_after(), Some(5));
    assert_eq!(e.clone().reason, "x");
    assert_eq!(e.message(), "Rate limited by Cloudflare/MangaKatana: x");
    assert_eq!(
        RateLimitError::with_retry(Some(503), "y", None).message(),
        "Rate limited by Cloudflare/MangaKatana (status 503 Service Unavailable): y"
    );
    assert_eq!(
        RateLimitError::new(Some(599), "y").message(),
        "Rate limited by Cloudflare/MangaKatana (status 599 <unknown status code>): y"
    );
}

fn report(causes: Vec<Cause>, description: &str) -> ErrorReport {
    ErrorReport { causes, description: description.to_string() }
}

#[test]
fn errors_that_count_as_blocks() {
    let block = RateLimitError::with_retry(None, "x", Some(9));
    let later = RateLimitError::with_retry(None, "y", Some(3));
    let r = report(vec![Cause::Other, Cause::RateLimit(block), Cause::RateLimit(later)], "plain");
    assert!(is_rate_limit_error(&r));
    assert_eq!(extract_retry_after(&r), Some(9));
    assert!(is_rate_limit_error(&report(vec![Cause::Http { status: Some(429) }], "")));
    assert!(!is_rate_limit_error(&report(vec![Cause::Http { status: Some(500) }, Cause::Http { status: None }], "")));
    for text in [
        "CF-CHL-bypass",
        "x challenge-platform y",
        "Just A Moment...",
        "turnstile ... Challenge",
        "Rate Limited",
        "429 Too Many Requests",
    ] {
        assert!(is_rate_limit_error(&report(vec![], text)), "{}", text);
    }
    assert!(!is_rate_limit_error(&report(vec![Cause::Other], "turnstile only")));
    assert_eq!(extract_retry_after(&report(vec![Cause::Other], "rate limited")), None);
}

#[test]
fn replies_that_count_as_blocks() {
    assert!(is_rate_limited_response(429, ""));
    assert!(is_rate_limited_response(503, "<b>JUST a moment...</b>"));
    assert!(!is_rate_limited_response(200, "just a moment..."));
    assert!(!is_rate_limited_response(500, "oops"));
}

#[test]
fn retry_after_headers() {
    assert_eq!(parse_retry_after(Some(" 120 ")), Some(120 * NANOS_PER_SEC));
    assert_eq!(parse_retry_after(Some("Wed, 21 Oct 2015 07:28:00 GMT")), None);
    assert_eq!(parse_retry_after(Some("-1")), None);
    assert_eq!(parse_retry_after(None), None);
}

#[test]
fn messages_and_contexts_keep_a_block() {
    for block in [RateLimitError::new(None, "why"), RateLimitError::new(Some(503), "")] {
        let message = block.message();
        assert!(is_rate_limit_error(&report(vec![Cause::Other], &message)));
        assert!(is_rate_limit_error(&report(
            vec![Cause::Other, Cause::Other],
            &format!("Downloading\n\nCaused by:\n    {}", message)
        )));
    }
    let block = RateLimitError::with_retry(Some(429), "x", Some(7));
    let wrapped = report(vec![Cause::Other, Cause::Http { status: Some(200) }, Cause::RateLimit(block)], "context");
    assert!(is_rate_limit_error(&wrapped));
    assert_eq!(extract_retry_after(&wrapped), Some(7));
}
