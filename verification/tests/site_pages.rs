use ifetch::address::{
    has_web_scheme, manga_url, matches_manga_path, search_url, series_path, series_url, split_chapter_path, SeriesError,
};
use ifetch::errors::{FetchError, RateLimitKind};
use ifetch::html::{element_text, first, first_at, is_short_enough, lazy_source, source, text_in, HtmlElement};
use ifetch::site::{
    collect_chapters, collect_results, manga_chapters, read_details, read_items, read_links, search_manga, split_names,
    LabelledLink, Link, Page, SearchItem,
};

fn page(status: u16, path: &str, body: &str) -> Page {
    Page {
        status,
        url: format!("https://mangakatana.com{}", path),
        path: path.to_string(),
        body: body.to_string(),
    }
}

#[test]
fn path_grammar_agrees_with_the_patterns() {
    let chapter = regex::Regex::new(r"^(/manga/[^/]+\.\d+)/c([^/]+)$").unwrap();
    let manga = regex::Regex::new(r"^/manga/[^/]+\.\d+$").unwrap();
    for p in [
        "",
        "/",
        "/manga",
        "/manga/",
        "/manga/.1",
        "/manga/a.1",
        "/manga/a.",
        "/manga/a",
        "/manga/a.b.22",
        "/manga/a.1b",
        "/manga/1.1.1",
        "/manga/..5",
        "/manga/a.1/",
        "/manga/a.1/c",
        "/manga/a.1/c1",
        "/manga/a.1/c10.5",
        "/manga/a.1/cc",
        "/manga/a.1/d1",
        "/manga/a.1/c1/2",
        "/manga//c1",
        "manga/a.1",
        "/Manga/a.1",
        "/x/manga/a.1",
        "/manga/a.1/c-1",
        "/manga/a%20b.77/c3",
        "/manga/a.1\n",
    ] {
        assert_eq!(matches_manga_path(p), manga.is_match(p), "{}", p);
        let expected = chapter
            .captures(p)
            .map(|c| (c.get(1).unwrap().as_str().to_string(), c.get(2).unwrap().as_str().to_string()));
        let got = split_chapter_path(p).map(|(segment, n)| (format!("/manga/{}", segment), n));
        assert_eq!(got, expected, "{}", p);
    }
}

#[test]
fn series_addresses() {
    assert_eq!(series_url("one piece").unwrap(), None);
    assert_eq!(
        series_url("https://mangakatana.com/manga/one-piece.12345").unwrap().unwrap(),
        "https://mangakatana.com/manga/one-piece.12345"
    );
    assert_eq!(
        series_url("http://www.mangakatana.com/manga/one-piece.12345/c1.5/").unwrap().unwrap(),
        "https://mangakatana.com/manga/one-piece.12345"
    );
    assert_eq!(
        series_url("https://mangakatana.com/manga/a.1/download?x=1#y").unwrap().unwrap(),
        "https://mangakatana.com/manga/a.1"
    );
}

#[test]
fn series_addresses_are_stable() {
    for (given, expected) in [
        ("http://www.mangakatana.com/manga/x.1/c10.5/?a=1", "https://mangakatana.com/manga/x.1"),
        ("https://MANGAKATANA.com:443/manga/./x.1/", "https://mangakatana.com/manga/x.1"),
        ("https://user@mangakatana.com/manga/a b.7", "https://mangakatana.com/manga/a%20b.7"),
        ("https://mangakatana.com\\manga\\\u{e9}|^[x].3", "https://mangakatana.com/manga/%C3%A9|^[x].3"),
        ("https://mangakatana.com/manga/..7", "https://mangakatana.com/manga/..7"),
    ] {
        let found = series_url(given).unwrap().unwrap();
        assert_eq!(found, expected);
        assert_eq!(series_url(&found).unwrap().unwrap(), expected);
    }
}

#[test]
fn series_errors() {
    assert!(matches!(series_url("https://example.com/manga/a.1"), Err(SeriesError::ForeignHost)));
    assert!(matches!(series_url("https://mangakatana.com/latest"), Err(SeriesError::WrongPage)));
    let e = series_url("https://").unwrap_err();
    assert!(matches!(e, SeriesError::Unreadable(_)));
    assert_eq!(e.message(), "empty host");
    assert_eq!(SeriesError::ForeignHost.message(), "URL must belong to mangakatana.com");
    assert_eq!(SeriesError::WrongPage.message(), "Expected MangaKatana manga or chapter URL");
}

#[test]
fn series_paths_on_given_values() {
    let host = Some("www.mangakatana.com".to_string());
    assert_eq!(series_path(&host, "/manga/a.1/c7//").unwrap(), "/manga/a.1");
    assert_eq!(series_path(&host, "/manga/a.1/download").unwrap(), "/manga/a.1");
    assert!(matches!(series_path(&host, "/"), Err(SeriesError::WrongPage)));
    assert!(matches!(series_path(&None, "/manga/a.1"), Err(SeriesError::ForeignHost)));
}

#[test]
fn other_addresses() {
    assert_eq!(search_url("a b&c").unwrap(), "https://mangakatana.com/?search=a+b%26c");
    assert_eq!(manga_url("one-piece.1"), "https://mangakatana.com/manga/one-piece.1");
    assert!(has_web_scheme("https://x"));
    assert!(!has_web_scheme("HTTP://x"));
}

#[test]
fn elements() {
    let e = HtmlElement {
        pieces: vec![" a".to_string(), "b ".to_string()],
        href: None,
        src: Some("s".to_string()),
        data_src: Some("d".to_string()),
    };
    assert_eq!(element_text(&e), "a b");
    assert_eq!(source(Some(&e)), "s");
    assert_eq!(lazy_source(Some(&e)), "d");
    assert_eq!(source(None), "");
    assert_eq!(text_in(None), "");
    let v = vec![e];
    assert_eq!(element_text(first(&v).unwrap()), "a b");
    let groups = vec![v, vec![]];
    assert!(first_at(&groups, 0).is_some());
    assert!(first_at(&groups, 1).is_none());
    assert!(first_at(&groups, 2).is_none());
}

const RESULTS: &str = r#"<html><body>
<div class="item"><div class="wrap_img"><img src="a.jpg" data-src="A.jpg"></div>
  <h3 class="title"><a href="/manga/alpha.1/"> Alpha <b>One</b></a></h3><div class="status"> Ongoing </div></div>
<div class="item"><h3 class="title"><a href="https://mangakatana.com/manga/alpha.1/">Twice</a></h3></div>
<div class="item"><h3 class="title"><a href="/latest">Not a manga</a></h3></div>
<div class="item"><div class="title">no link</div></div>
<div class="item"><div class="wrap_img"><img src="b.jpg"></div><h3 class="title"><a href="manga/beta.22">Beta</a></h3></div>
</body></html>"#;

#[test]
fn search_results_are_read() {
    let items = read_items(RESULTS);
    assert_eq!(items.len(), 5);
    assert!(items[3].link.is_none());
    let found = search_manga("x", &page(200, "/", RESULTS)).unwrap();
    assert_eq!(found.len(), 2);
    assert_eq!(found[0].id, "alpha.1");
    assert_eq!(found[0].title, "Alpha  One");
    assert_eq!(found[0].url, "https://mangakatana.com/manga/alpha.1/");
    assert_eq!(found[0].cover_url, "A.jpg");
    assert_eq!(found[0].status, "Ongoing");
    assert_eq!(found[1].id, "beta.22");
    assert_eq!(found[1].cover_url, "b.jpg");
    assert_eq!(found[1].status, "");
}

#[test]
fn search_results_are_distinct() {
    let item = |path: &str, title: &str| SearchItem {
        link: Some(Link { path: path.to_string(), url: format!("https://h{}", path) }),
        title: title.to_string(),
        cover_url: String::new(),
        status: String::new(),
    };
    let found = collect_results(&vec![
        item("/manga/a.1", "first"),
        item("/manga/b.2", "second"),
        item("/manga/a.1", "third"),
        item("/news", "fourth"),
    ]);
    let titles: Vec<&str> = found.iter().map(|m| m.title.as_str()).collect();
    assert_eq!(titles, vec!["first", "second"]);
}

#[test]
fn search_may_lead_straight_to_a_manga() {
    let body = r#"<h1> Title </h1><div class="cover"><img data-src="c.jpg"></div><i class="status">Done</i>"#;
    let found = search_manga("query", &page(200, "/manga/x.9/", body)).unwrap();
    assert_eq!(found.len(), 1);
    assert_eq!(found[0].id, "x.9");
    assert_eq!(found[0].title, "Title");
    assert_eq!(found[0].cover_url, "c.jpg");
    assert_eq!(found[0].status, "Done");
    let found = search_manga("query", &page(200, "/manga/x.9", "")).unwrap();
    assert_eq!(found[0].title, "query");
}

#[test]
fn refused_searches() {
    match search_manga("q", &page(429, "/", "")).unwrap_err() {
        FetchError::RateLimit(e) => {
            assert_eq!(e.kind, RateLimitKind::Other);
            assert_eq!(e.status, None);
            assert_eq!(e.reason, "Search blocked or rate limited");
        }
        _ => panic!("expected a block"),
    }
    assert!(matches!(search_manga("q", &page(403, "/", "<title>Just a moment...</title>")), Err(FetchError::RateLimit(_))));
    match search_manga("q", &page(404, "/", "")).unwrap_err() {
        FetchError::Failure(m) => assert_eq!(m, "HTTP error 404 Not Found searching MangaKatana for 'q'"),
        _ => panic!("expected a failure"),
    }
}

const SERIES: &str = r#"<html><body><h1>Alpha</h1>
<div class="cover"><img src="c.jpg"></div><div class="status">Completed</div>
<div class="alt_name">Un; Deux ;; Trois</div>
<div class="summary"><p> A story. </p><p>More.</p></div>
<div class="genres"><a>Action</a><a> </a><a>Drama</a></div>
<div class="authors"><a class="author">X</a><a>other</a><a class="author">Y</a></div>
<a href="/manga/alpha.1/c2">Chapter 2</a>
<a href="/manga/alpha.1/c10.5/"></a>
<a href="/manga/alpha.1/c1">Chapter 1</a>
<a href="/manga/alpha.1/c2.0">Chapter 2 again</a>
<a href="/manga/beta.2/c3">Other manga</a>
<a href="/manga/alpha.1/cX">Not a number</a>
<a>no address</a>
</body></html>"#;

#[test]
fn manga_page_is_read() {
    let (m, chapters) = manga_chapters("u", &page(200, "/manga/alpha.1", SERIES)).unwrap();
    assert_eq!(m.id, "alpha.1");
    assert_eq!(m.title, "Alpha");
    assert_eq!(m.url, "https://mangakatana.com/manga/alpha.1");
    assert_eq!(m.cover_url, "c.jpg");
    assert_eq!(m.status, "Completed");
    assert_eq!(m.description, "A story.");
    assert_eq!(m.genres, vec!["Action", "Drama"]);
    assert_eq!(m.authors, vec!["X", "Y"]);
    assert_eq!(m.alt_names, vec!["Un", "Deux", "Trois"]);
    let numbers: Vec<String> = chapters.iter().map(|c| c.number.to_text()).collect();
    assert_eq!(numbers, vec!["1", "2", "10.5"]);
    assert_eq!(chapters[1].label, "Chapter 2");
    assert_eq!(chapters[2].label, "Chapter 10.5");
    assert_eq!(chapters[2].url, "https://mangakatana.com/manga/alpha.1/c10.5/");
}

#[test]
fn links_and_chapters_on_given_values() {
    assert_eq!(read_links(SERIES).len(), 6);
    let link = |path: &str, label: &str| LabelledLink {
        link: Some(Link { path: path.to_string(), url: format!("https://h{}", path) }),
        label: label.to_string(),
    };
    let links = vec![
        link("/manga/a.1/c3", "three"),
        link("/manga/b.1/c2", "other"),
        LabelledLink { link: None, label: "nowhere".to_string() },
        link("/manga/a.1/c1", ""),
    ];
    let chapters = collect_chapters(&links, "/manga/a.1");
    let labels: Vec<&str> = chapters.iter().map(|c| c.label.as_str()).collect();
    assert_eq!(labels, vec!["Chapter 1", "three"]);
    assert_eq!(collect_chapters(&links, "").len(), 3);
}

#[test]
fn manga_page_without_heading() {
    assert_eq!(read_details(&page(200, "/manga/x.1/", "")).title, "x.1");
    assert_eq!(read_details(&page(200, "/", "")).title, "manga");
    assert_eq!(split_names(" a ;b;; "), vec!["a", "b"]);
    assert!(split_names("").is_empty());
}

#[test]
fn refused_manga_pages() {
    match manga_chapters("u", &page(200, "/manga/x.1", "<h1>x</h1>")).unwrap_err() {
        FetchError::Failure(m) => assert_eq!(m, "No chapters found on manga page"),
        _ => panic!("expected a failure"),
    }
    match manga_chapters("u", &page(500, "/manga/x.1", SERIES)).unwrap_err() {
        FetchError::Failure(m) => assert_eq!(m, "HTTP error 500 Internal Server Error fetching manga from u"),
        _ => panic!("expected a failure"),
    }
    match manga_chapters("u", &page(429, "/manga/x.1", SERIES)).unwrap_err() {
        FetchError::RateLimit(e) => assert_eq!(e.reason, "Manga page blocked or rate limited"),
        _ => panic!("expected a block"),
    }
}

#[test]
fn pages_that_fit_the_parser() {
    assert!(is_short_enough(""));
    assert!(is_short_enough(RESULTS));
    let page = String::from_utf8(vec![0u8; 715_827_883]).unwrap();
    assert!(!is_short_enough(&page));
    assert!(is_short_enough(&page[1..]));
}
