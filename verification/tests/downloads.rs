use ifetch::decimal::ChapterNumber;
use ifetch::download::{
    check_image_data, check_image_head, download_chapter, download_chapter_with_retry, entry_name, fetch_single_image,
    finish_message, generate_comic_info, is_chapter_up_to_date, page_context, plan_archive, ChapterDownloadContext,
    ImageStep, RetryStep, WriteStep,
};
use ifetch::errors::{Cause, ErrorReport, RateLimitError};
use ifetch::models::{Chapter, Manga};
use ifetch::rate_limit::{AdaptiveRateLimiter, NANOS_PER_SEC};

fn manga() -> Manga {
    Manga {
        id: "a.1".to_string(),
        title: "A & B".to_string(),
        url: "u".to_string(),
        cover_url: String::new(),
        status: "Ongoing".to_string(),
        description: "x < y".to_string(),
        genres: vec!["Action".to_string(), "Sci-Fi".to_string()],
        authors: vec!["P & Q".to_string()],
        alt_names: vec![],
    }
}

fn chapter(n: &str) -> Chapter {
    Chapter { number: ChapterNumber::parse(n).unwrap(), label: "Ch. <1>".to_string(), url: "c".to_string() }
}

fn report(causes: Vec<Cause>, description: &str) -> ErrorReport {
    ErrorReport { causes, description: description.to_string() }
}

#[test]
fn metadata_file() {
    let expected = r#"<?xml version="1.0" encoding="utf-8"?>
<ComicInfo xmlns:xsd="http://www.w3.org/2001/XMLSchema" xmlns:xsi="http://www.w3.org/2001/XMLSchema-instance">
  <Title>Ch. &lt;1&gt;</Title>
  <Series>A &amp; B</Series>
  <Number>10.5</Number>
  <Summary>x &lt; y</Summary>
  <Genre>Action, Sci-Fi</Genre>
  <Writer>P &amp; Q</Writer>
  <AlternateSeries></AlternateSeries>
</ComicInfo>"#;
    assert_eq!(generate_comic_info(&manga(), &chapter("10.5")), expected);
}

#[test]
fn image_heads() {
    let e = check_image_head(404, "image/png", Some(3), "u").unwrap();
    assert_eq!(e.reason, "HTTP 404 Not Found downloading image from u");
    assert_eq!(e.retry_after, Some(3));
    assert_eq!(e.status, None);
    let e = check_image_head(200, "text/html; charset=utf-8", None, "u").unwrap();
    assert_eq!(e.reason, "Received HTML instead of image data from u");
    assert!(check_image_head(206, "", None, "u").is_none());
}

#[test]
fn image_data() {
    assert_eq!(check_image_data(b"", "u").unwrap(), "Received empty image data (0 bytes) from u");
    assert!(check_image_data(b"x", "u").is_none());
}

#[test]
fn image_retries() {
    let plain = report(vec![Cause::Other], "timeout");
    assert!(matches!(fetch_single_image("u", 1, 3, &plain), ImageStep::Retry { pause_ms: 500 }));
    assert!(matches!(fetch_single_image("u", 2, 3, &plain), ImageStep::Retry { pause_ms: 1000 }));
    assert!(matches!(fetch_single_image("u", 3, 4, &plain), ImageStep::Retry { pause_ms: 2000 }));
    assert!(matches!(fetch_single_image("u", 4, 5, &plain), ImageStep::Retry { pause_ms: 4000 }));
    match fetch_single_image("u", 3, 3, &plain) {
        ImageStep::Fail { context } => assert_eq!(context, "Failed to download image (u) after 3 attempts"),
        _ => panic!("expected the end"),
    }
    let block = report(vec![Cause::RateLimit(RateLimitError::new(None, "x"))], "");
    assert!(matches!(fetch_single_image("u", 1, 3, &block), ImageStep::Blocked));
}

#[test]
fn image_pauses_double_up_to_the_longest_one() {
    let plain = report(vec![Cause::Other], "timeout");
    let mut last: u64 = 250;
    for attempts in 1..=80usize {
        match fetch_single_image("u", attempts, 100, &plain) {
            ImageStep::Retry { pause_ms } => {
                assert_eq!(pause_ms, last.saturating_mul(2));
                last = pause_ms;
            }
            _ => panic!("expected a pause"),
        }
    }
    assert_eq!(last, u64::MAX);
}

#[test]
fn entry_names() {
    assert_eq!(entry_name(0, ".jpg"), "001.jpg");
    assert_eq!(entry_name(41, ".png"), "042.png");
    assert_eq!(entry_name(998, ".gif"), "999.gif");
    assert_eq!(entry_name(999, ".webp"), "1000.webp");
    assert_ne!(entry_name(0, ".jpg"), entry_name(1, ".jpg"));
}

#[test]
fn written_archive_is_up_to_date() {
    let pages = 12usize;
    assert!(is_chapter_up_to_date(Some(1 + pages), pages));
    assert!(!is_chapter_up_to_date(Some(pages), pages));
    assert!(!is_chapter_up_to_date(None, pages));
    assert!(!is_chapter_up_to_date(Some(0), usize::MAX));
}

#[test]
fn download_steps() {
    let m = manga();
    let c = chapter("7");
    let mut ctx = ChapterDownloadContext { manga: &m, chapter: &c, width: 3, verify: false };
    let start = download_chapter(&ctx, true);
    assert!(start.skip);
    assert_eq!(start.message, "Skipped Chapter 7");
    assert_eq!(start.filename, "A & B - Chapter 007.cbz");
    assert_eq!(start.temporary, "A & B - Chapter 007.cbz.part");
    assert_eq!(download_chapter(&ctx, false).message, "Chapter 7...");
    ctx.verify = true;
    assert!(!download_chapter(&ctx, true).skip);
    match plan_archive(&ctx, true, Some(5), 4) {
        WriteStep::Skip(m) => assert_eq!(m, "Skipped Chapter 7"),
        _ => panic!("expected to skip"),
    }
    match plan_archive(&ctx, true, None, 4) {
        WriteStep::Write(m) => assert_eq!(m, "Updating Ch 7 (4 pages)"),
        _ => panic!("expected to write"),
    }
    match plan_archive(&ctx, false, None, 4) {
        WriteStep::Write(m) => assert_eq!(m, "Chapter 7 (4 pages)"),
        _ => panic!("expected to write"),
    }
    assert_eq!(page_context(&ctx, 0, 4), "Chapter 7 page 1/4");
    assert_eq!(finish_message(&ctx, true), "Saved Chapter 7");
    assert_eq!(finish_message(&ctx, false), "Error Chapter 7");
}

#[test]
fn chapter_retries() {
    let t = 1_000 * NANOS_PER_SEC;
    let mut limiter = AdaptiveRateLimiter::new(t);
    let block = report(vec![Cause::RateLimit(RateLimitError::with_retry(None, "x", Some(60 * NANOS_PER_SEC)))], "");
    match download_chapter_with_retry(&mut limiter, 1, Some(&block), t) {
        RetryStep::Again { cooldown } => assert_eq!(cooldown, 60 * NANOS_PER_SEC),
        _ => panic!("expected another attempt"),
    }
    match download_chapter_with_retry(&mut limiter, 2, Some(&block), t + NANOS_PER_SEC) {
        RetryStep::Again { cooldown } => assert_eq!(cooldown, 59 * NANOS_PER_SEC),
        _ => panic!("expected another attempt"),
    }
    assert!(matches!(download_chapter_with_retry(&mut limiter, 3, Some(&block), t + 2), RetryStep::Stop));
    let plain = report(vec![Cause::Other], "disk full");
    assert!(matches!(download_chapter_with_retry(&mut limiter, 1, Some(&plain), t), RetryStep::Stop));
    assert!(matches!(download_chapter_with_retry(&mut limiter, 1, None, t), RetryStep::Done));
    let stats = limiter.get_stats();
    assert_eq!(stats.total_blocks_hit, 1);
    assert_eq!(stats.total_successful_chapters, 1);
}

#[test]
fn metadata_has_fixed_tags() {
    let mut other = manga();
    other.title = "</Series><Series>".to_string();
    other.description = "<<<&&&>>>".to_string();
    other.genres = vec!["<".to_string(), ">".to_string()];
    other.alt_names = vec!["</AlternateSeries>".to_string()];
    for xml in [generate_comic_info(&manga(), &chapter("10.5")), generate_comic_info(&other, &chapter("-1"))] {
        assert_eq!(xml.matches('<').count(), 17);
        assert_eq!(xml.matches('>').count(), 17);
    }
}
