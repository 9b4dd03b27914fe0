use ifetch::db::CheckTrigger;
use ifetch::decimal::ChapterNumber;
use ifetch::discord::NotificationType;
use ifetch::errors::{Cause, ErrorReport, RateLimitError};
use ifetch::models::{Chapter, Manga};
use ifetch::rate_limit::{AdaptiveRateLimiter, NANOS_PER_SEC};
use ifetch::server::cache::{ImageLruCache, ServerCache};
use ifetch::server::downloader::{
    fetch_failure, on_manga_download_complete, plan_download, queue_background_download, ActiveDownloads, DownloadPlan,
};
use ifetch::server::helpers::{
    accepted_empty, bad_request, error_response, image_response, is_valid_segment, json_response, not_found,
    parse_chapter_id, text_response, Body, Reply,
};
use ifetch::server::routes::{
    chapter_missing, chapter_pages, cron_check, handle_route, image, image_found, image_missing, list_pages,
    manga_chapters_route, manga_details, read_target, resolve_manga, search, worker_count, ImageMissing, ImageStep,
    PagesStep, Resolution, Route,
};
use ifetch::server::store::{KeyPattern, Store};
use std::sync::Arc;

fn chapter(n: &str) -> Chapter {
    Chapter { number: ChapterNumber::parse(n).unwrap(), label: n.to_string(), url: format!("c{}", n) }
}

fn manga() -> Manga {
    Manga {
        id: "a.1".to_string(),
        title: "Alpha: Beta".to_string(),
        url: "u".to_string(),
        cover_url: String::new(),
        status: "Ongoing".to_string(),
        description: "d".repeat(250),
        genres: vec![],
        authors: vec![],
        alt_names: vec![],
    }
}

fn body(r: &Reply) -> &str {
    match &r.body {
        Body::Text(s) => s,
        Body::Data(_) => panic!("expected text"),
    }
}

#[test]
fn image_cache_keeps_its_limit() {
    let mut cache = ImageLruCache::new(10);
    cache.insert("a".to_string(), Arc::from(vec![1u8; 4]));
    cache.insert("b".to_string(), Arc::from(vec![2u8; 4]));
    assert!(cache.get("a").is_some());
    cache.insert("c".to_string(), Arc::from(vec![3u8; 4]));
    assert!(cache.get("b").is_none());
    assert_eq!(&*cache.get("a").unwrap(), &[1u8; 4]);
    assert_eq!(&*cache.get("c").unwrap(), &[3u8; 4]);
    cache.insert("big".to_string(), Arc::from(vec![0u8; 11]));
    assert!(cache.get("big").is_none());
    assert!(cache.get("a").is_some());
    cache.insert("a".to_string(), Arc::from(vec![9u8; 10]));
    assert_eq!(&*cache.get("a").unwrap(), &[9u8; 10]);
    assert!(cache.get("c").is_none());
    assert!(cache.has_room());
}

#[test]
fn image_cache_after_many_calls() {
    let max = 20usize;
    let mut cache = ImageLruCache::new(max);
    let mut model: Vec<(String, Vec<u8>)> = vec![];
    let mut seed: u32 = 7;
    for step in 0..400u32 {
        seed = seed.wrapping_mul(1_103_515_245).wrapping_add(12_345);
        let key = format!("k{}", (seed >> 16) % 6);
        let size = ((seed >> 20) % 24) as usize;
        if seed & 0x8000 == 0 {
            let found = cache.get(&key).map(|d| d.to_vec());
            match model.iter().position(|e| e.0 == key) {
                Some(i) => {
                    let e = model.remove(i);
                    assert_eq!(found, Some(e.1.clone()));
                    model.insert(0, e);
                }
                None => assert_eq!(found, None),
            }
        } else {
            let data = vec![step as u8; size];
            cache.insert(key.clone(), Arc::from(data.clone()));
            if size <= max {
                model.retain(|e| e.0 != key);
                model.insert(0, (key, data));
                while model.iter().map(|e| e.1.len()).sum::<usize>() > max {
                    model.pop();
                }
            }
        }
    }
    for (key, data) in model.iter().rev() {
        assert_eq!(&*cache.get(key).unwrap(), &data[..]);
    }
}

#[test]
fn store_behaves_like_a_map() {
    let mut s: Store<u8> = Store::new();
    assert!(s.get("a").is_none());
    s.insert("a::1", 1);
    s.insert("a::2", 2);
    s.insert("ab::1", 3);
    s.insert("a::1", 4);
    assert_eq!(s.get("a::1"), Some(&4));
    s.remove_matching(&KeyPattern::StartsWith("a::"));
    assert!(s.get("a::1").is_none() && s.get("a::2").is_none());
    assert_eq!(s.get("ab::1"), Some(&3));
    s.remove_matching(&KeyPattern::Exactly("ab::1"));
    assert!(s.get("ab::1").is_none());
}

#[test]
fn segments() {
    for ok in ["one-piece.12345", "a", "...".trim_start_matches('.'), "a.b", "x::y"] {
        assert_eq!(is_valid_segment(ok), !ok.is_empty());
    }
    for bad in ["", ".", "..", "a/b", "a\\b", "a..b", "/"] {
        assert!(!is_valid_segment(bad), "{}", bad);
    }
}

#[test]
fn chapter_ids_are_read_back() {
    assert_eq!(parse_chapter_id("one-piece.1::10.5"), Some(("one-piece.1".to_string(), "10.5".to_string())));
    assert_eq!(parse_chapter_id("a::b::c"), Some(("a".to_string(), "b::c".to_string())));
    assert_eq!(parse_chapter_id("a:::b"), Some(("a".to_string(), ":b".to_string())));
    assert!(parse_chapter_id("a:b").is_none());
    assert!(parse_chapter_id("::1").is_none());
    assert!(parse_chapter_id("a::").is_none());
    assert!(parse_chapter_id("a::..").is_none());
}

#[test]
fn replies() {
    let r = text_response(418, "tea");
    assert_eq!((r.status, body(&r), r.headers.len()), (418, "tea", 0));
    assert_eq!(bad_request("x").status, 400);
    assert_eq!(not_found("x").status, 404);
    let r = accepted_empty();
    assert_eq!((r.status, body(&r)), (202, ""));
    assert_eq!(r.headers, vec![("Content-Type".to_string(), "text/plain".to_string())]);
    let r = json_response("[]".to_string());
    assert_eq!((r.status, body(&r)), (200, "[]"));
    assert_eq!(r.headers[0].1, "application/json");
    let r = image_response(Arc::from(vec![1u8, 2]), "image/png");
    assert!(matches!(&r.body, Body::Data(d) if **d == [1u8, 2]));
    assert_eq!(
        r.headers,
        vec![
            ("Content-Type".to_string(), "image/png".to_string()),
            ("Cache-Control".to_string(), "public, max-age=31536000, immutable".to_string()),
        ]
    );
}

#[test]
fn failed_requests() {
    let t = 1_000 * NANOS_PER_SEC;
    let mut limiter = AdaptiveRateLimiter::new(t);
    let plain = ErrorReport { causes: vec![Cause::Other], description: "x".to_string() };
    let r = error_response(&mut limiter, &plain, "x", t);
    assert_eq!((r.status, body(&r)), (500, "Error: x"));
    assert_eq!(limiter.get_stats().total_blocks_hit, 0);
    let block = ErrorReport {
        causes: vec![Cause::RateLimit(RateLimitError::new(None, "b"))],
        description: String::new(),
    };
    let r = error_response(&mut limiter, &block, "b", t);
    assert_eq!((r.status, body(&r)), (429, "Error: b"));
    assert_eq!(limiter.get_stats().total_blocks_hit, 1);
}

#[test]
fn targets() {
    let a = read_target("/api/search?q=a%20b&q=c").ok().unwrap();
    assert_eq!(a.path, "/api/search");
    assert_eq!(a.host.as_deref(), Some("localhost"));
    assert_eq!(
        a.query,
        vec![("q".to_string(), "a b".to_string()), ("q".to_string(), "c".to_string())]
    );
    let a = read_target("http://other:81/x").ok().unwrap();
    assert_eq!(a.href, "http://other:81/x");
    let r = read_target("http://[").err().unwrap();
    assert_eq!((r.status, body(&r)), (400, "Bad Request"));
}

#[test]
fn workers() {
    assert_eq!(worker_count(1), 4);
    assert_eq!(worker_count(3), 6);
    assert_eq!(worker_count(100), 16);
}

#[test]
fn endpoints() {
    assert!(matches!(handle_route("/api/search"), Route::Search));
    assert!(matches!(handle_route("/api/manga/a.1"), Route::MangaDetails(id) if id == "a.1"));
    assert!(matches!(handle_route("/api/manga/"), Route::MangaDetails(id) if id.is_empty()));
    assert!(matches!(handle_route("/api/manga/a.1/chapters"), Route::MangaChapters(id) if id == "a.1"));
    assert!(matches!(handle_route("/api/manga//chapters"), Route::MangaChapters(id) if id.is_empty()));
    assert!(matches!(handle_route("/api/chapter/a.1::2/pages"), Route::ChapterPages(id) if id == "a.1::2"));
    assert!(matches!(handle_route("/api/image/a.1::2/001.jpg"), Route::Image(r) if r == "a.1::2/001.jpg"));
    for p in ["/", "/api/search/", "/api/manga/a/b", "/api/chapter/a", "/api/images/x"] {
        assert!(matches!(handle_route(p), Route::Unknown), "{}", p);
    }
}

#[test]
fn searches() {
    let pair = |a: &str, b: &str| (a.to_string(), b.to_string());
    assert_eq!(search(&vec![pair("q", "x"), pair("p", "y"), pair("q", "z")]).ok().unwrap(), "z");
    let r = search(&vec![pair("p", "y")]).err().unwrap();
    assert_eq!((r.status, body(&r)), (400, "Missing q"));
}

#[test]
fn details() {
    assert_eq!(manga_details("a.1").ok().unwrap(), "https://mangakatana.com/manga/a.1");
    let r = manga_details("..").err().unwrap();
    assert_eq!((r.status, body(&r)), (400, "Invalid manga ID"));
}

#[test]
fn chapters_that_are_there() {
    let all = vec![chapter("1"), chapter("2")];
    let a = manga_chapters_route(&all, &vec![false, false]);
    assert!(a.has_new && a.existing.is_empty());
    assert_eq!(a.reply.unwrap().status, 202);
    let a = manga_chapters_route(&all, &vec![true, false]);
    assert!(a.has_new && a.reply.is_none());
    assert_eq!(a.existing.len(), 1);
    assert_eq!(a.trigger, CheckTrigger::UserRequest { new_chapters: true });
    let a = manga_chapters_route(&all, &vec![true, true]);
    assert!(!a.has_new && a.reply.is_none());
    assert_eq!(cron_check(&all, &vec![true, false]), (1, CheckTrigger::Cron { new_chapters: true }, true));
    assert_eq!(cron_check(&all, &vec![true, true]), (2, CheckTrigger::Cron { new_chapters: false }, false));
}

#[test]
fn pages_are_listed_in_reading_order_and_remembered() {
    let mut cache = ServerCache::new(1000);
    let r = chapter_pages("nonsense", &cache);
    assert!(matches!(r, PagesStep::Answer(r) if r.status == 400));
    assert!(matches!(chapter_pages("a.1::2", &cache), PagesStep::Look { id, number } if id == "a.1" && number == "2"));
    let names: Vec<String> = ["ComicInfo.xml", "010.jpg", "002.png", "dir/", "001.jpg"].iter().map(|s| s.to_string()).collect();
    let pages = list_pages(&mut cache, "a.1::2", &names);
    assert_eq!(
        pages,
        vec!["/api/image/a.1::2/001.jpg", "/api/image/a.1::2/002.png", "/api/image/a.1::2/010.jpg"]
    );
    assert!(matches!(chapter_pages("a.1::2", &cache), PagesStep::Known(p) if p == pages));
    assert_eq!(body(&chapter_missing()), "Not downloaded yet");
    for p in &pages {
        match handle_route(p) {
            Route::Image(rest) => assert!(matches!(image(&rest, &mut cache), ImageStep::Look(_))),
            _ => panic!("expected an image"),
        }
    }
}

#[test]
fn pages_are_sorted_like_strings() {
    let mut cache = ServerCache::new(0);
    let names: Vec<String> = ["b", "a", "\u{e9}", "Z", "aa", "\u{1f600}", "\u{ffee}", "", "a"].iter().map(|s| s.to_string()).collect();
    let mut expected: Vec<String> = names.iter().map(|n| format!("/api/image/x/{}", n)).collect();
    expected.sort();
    assert_eq!(list_pages(&mut cache, "x", &names), expected);
}

#[test]
fn images_are_cached() {
    let mut cache = ServerCache::new(100);
    let request = match image("a.1::2/003.webp", &mut cache) {
        ImageStep::Look(r) => r,
        ImageStep::Answer(_) => panic!("expected to look"),
    };
    assert_eq!((request.id.as_str(), request.number.as_str()), ("a.1", "2"));
    assert_eq!(request.filename, "003.webp");
    assert_eq!(request.cache_key, "a.1::2/003.webp");
    let data: Arc<[u8]> = Arc::from(vec![7u8; 5]);
    let r = image_found(&mut cache, &request, Arc::clone(&data));
    assert_eq!(r.headers[0].1, "image/webp");
    match image("a.1::2/003.webp", &mut cache) {
        ImageStep::Answer(r) => assert!(matches!(r.body, Body::Data(d) if d == data)),
        ImageStep::Look(_) => panic!("expected the cached image"),
    }
}

#[test]
fn refused_images() {
    let mut cache = ServerCache::new(100);
    let mut answer = |rest: &str| match image(rest, &mut cache) {
        ImageStep::Answer(r) => (r.status, body(&r).to_string()),
        ImageStep::Look(_) => panic!("expected an answer"),
    };
    assert_eq!(answer("noslash"), (404, "Not Found".to_string()));
    assert_eq!(answer("a.1::2/.."), (400, "Invalid filename".to_string()));
    assert_eq!(answer("a.1::2/b/c"), (400, "Invalid filename".to_string()));
    assert_eq!(answer("a.1/001.jpg"), (400, "Invalid chapter ID".to_string()));
    assert_eq!(body(&image_missing(ImageMissing::Chapter)), "Chapter not found");
    assert_eq!(body(&image_missing(ImageMissing::Entry)), "Image not found in chapter");
}

#[test]
fn mangas_are_resolved() {
    let mut cache = ServerCache::new(100);
    assert!(matches!(
        resolve_manga(&mut cache, "a.1", None),
        Resolution::FetchFrom(url) if url == "https://mangakatana.com/manga/a.1"
    ));
    assert!(matches!(
        resolve_manga(&mut cache, "a.1", Some("Alpha: Beta")),
        Resolution::Known(d) if d.title == "Alpha: Beta" && d.folder == "Alpha Beta"
    ));
    assert!(matches!(
        resolve_manga(&mut cache, "a.1", Some("Other")),
        Resolution::Known(d) if d.title == "Alpha: Beta"
    ));
    assert!(cache.find_dir("b.2").is_none());
    cache.remember_dir("b.2", "?");
    assert_eq!(cache.find_dir("b.2").unwrap().folder, "manga");
}

#[test]
fn one_download_at_a_time() {
    let mut active = ActiveDownloads::new();
    let mut guard = queue_background_download(&mut active, "a").unwrap();
    assert!(queue_background_download(&mut active, "a").is_none());
    assert!(queue_background_download(&mut active, "b").is_some());
    guard.disarm();
    guard.release(&mut active);
    assert!(active.contains("a"));
    active.finish("a");
    let guard = queue_background_download(&mut active, "a").unwrap();
    guard.release(&mut active);
    assert!(!active.contains("a"));
    assert!(active.contains("b"));
}

#[test]
fn download_plans() {
    let all = vec![chapter("1"), chapter("2"), chapter("3")];
    match plan_download("a.1", &manga(), &all, &vec![true, true, true]) {
        DownloadPlan::UpToDate { local_count, trigger } => {
            assert_eq!(local_count, 3);
            assert_eq!(trigger, CheckTrigger::UserRequest { new_chapters: false });
        }
        _ => panic!("expected nothing to do"),
    }
    match plan_download("a.1", &manga(), &all, &vec![true, false, false]) {
        DownloadPlan::Start { description, missing, tracker } => {
            assert_eq!(description, format!("{}...", "d".repeat(200)));
            assert_eq!(missing.len(), 2);
            assert_eq!(tracker.url, "https://mangakatana.com/manga/a.1");
            assert_eq!(tracker.max_width, 3);
            match tracker.start_notification(&description) {
                NotificationType::Start { total_chapters, existing_chapters, missing_chapters, manga_title, .. } => {
                    assert_eq!((total_chapters, existing_chapters, missing_chapters), (3, 1, 2));
                    assert_eq!(manga_title, "Alpha: Beta");
                }
                _ => panic!("expected a start"),
            }
        }
        _ => panic!("expected a start"),
    }
}

#[test]
fn downloads_end_once() {
    let all = vec![chapter("1"), chapter("2"), chapter("3")];
    let mut tracker = match plan_download("a.1", &manga(), &all, &vec![false, false, false]) {
        DownloadPlan::Start { tracker, .. } => tracker,
        _ => panic!("expected a start"),
    };
    assert!(!tracker.record(Some("first")));
    assert!(!tracker.record(None));
    assert!(tracker.record(Some("second")));
    assert_eq!((tracker.success_count, tracker.error_count, tracker.remaining), (1, 2, 0));
    let mut cache = ServerCache::new(10);
    cache.remember_pages("a.1::1", &vec!["p".to_string()]);
    cache.remember_pages("b.1::1", &vec!["q".to_string()]);
    let (count, trigger) = on_manga_download_complete(&tracker, &vec![true, false, true], &mut cache);
    assert_eq!(count, 2);
    assert_eq!(trigger, CheckTrigger::DownloadComplete { success: true });
    assert!(cache.find_pages("a.1::1").is_none());
    assert_eq!(cache.find_pages("b.1::1").unwrap(), vec!["q"]);
    match tracker.end_notification(count) {
        NotificationType::Complete { downloaded_now, failed_now, total_available, first_error, .. } => {
            assert_eq!((downloaded_now, failed_now, total_available), (1, 2, 2));
            assert_eq!(first_error, Some("first"));
        }
        _ => panic!("expected a completion"),
    }
}

#[test]
fn failed_downloads_are_errors() {
    let all = vec![chapter("1")];
    let mut tracker = match plan_download("a.1", &manga(), &all, &vec![false]) {
        DownloadPlan::Start { tracker, .. } => tracker,
        _ => panic!("expected a start"),
    };
    assert!(tracker.record(Some("boom")));
    let mut cache = ServerCache::new(10);
    let (count, trigger) = on_manga_download_complete(&tracker, &vec![false], &mut cache);
    assert_eq!((count, trigger), (0, CheckTrigger::DownloadComplete { success: false }));
    assert!(matches!(tracker.end_notification(count), NotificationType::Error { error_msg: "boom", .. }));
    assert!(matches!(
        fetch_failure("a.1", "u", "e"),
        NotificationType::Error { manga_title: "a.1", manga_url: "u", error_msg: "e" }
    ));
}
