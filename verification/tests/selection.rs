use ifetch::cli::{
    chapter_line, chapter_summary, choose_manga, chosen_manga, genre_line, prompt_chapters, worker_count, MangaChoice,
};
use ifetch::config::{auto_updates_enabled, cron_hours, discord_webhook_url, parse_integer};
use ifetch::decimal::ChapterNumber;
use ifetch::models::{Chapter, Manga};
use ifetch::select::{order_chapters, select_chapters, select_from, SelectError};

fn number(s: &str) -> ChapterNumber {
    ChapterNumber::parse(s).unwrap()
}

fn chapter(n: &str) -> Chapter {
    Chapter { number: number(n), label: format!("Chapter {}", n), url: format!("u{}", n) }
}

fn numbers(v: &[Chapter]) -> Vec<String> {
    v.iter().map(|c| c.number.to_text()).collect()
}

fn list() -> Vec<Chapter> {
    ["0.5", "1", "2", "3", "3.5", "10"].iter().map(|n| chapter(n)).collect()
}

fn manga(title: &str) -> Manga {
    Manga {
        id: format!("{}.1", title),
        title: title.to_string(),
        url: format!("https://mangakatana.com/manga/{}.1", title),
        cover_url: String::new(),
        status: String::new(),
        description: String::new(),
        genres: vec![],
        authors: vec![],
        alt_names: vec![],
    }
}

#[test]
fn numbers_are_read_exactly() {
    assert_eq!(number("10.50").to_text(), "10.50");
    assert!(number("10.50").same_as(number("10.5")));
    assert!(number("9.9").at_most(number("10")));
    assert!(!number("10").at_most(number("9.9")));
    assert_eq!(number("-2.75").trunc().to_text(), "-2");
    assert_eq!(number("12345.9").trunc().to_text(), "12345");
    assert_eq!(number("-0").to_text(), "0");
    assert!(ChapterNumber::parse("abc").is_none());
    assert!(ChapterNumber::parse("").is_none());
    assert!(ChapterNumber::parse("0.00000000000000000000000000001").is_none());
    for s in ["0", "7", "-7", "0.05", "-0.50", "7.9228162514264337593543950335", "79228162514264337593543950335"] {
        assert_eq!(number(s).to_text(), s);
    }
}

#[test]
fn selections_without_a_number_fail() {
    for spec in ["x", "-5", "1-", "1,x", "1-2-3", "1 2", "_", ".", "+", "1e3"] {
        assert!(select_chapters(&list(), spec).is_err(), "{}", spec);
    }
    assert_eq!(numbers(&select_chapters(&list(), "+2").unwrap()), vec!["2"]);
    assert_eq!(numbers(&select_chapters(&list(), "1_0").unwrap()), vec!["10"]);
}

#[test]
fn everything_is_selected_by_all() {
    assert_eq!(select_chapters(&list(), "all").unwrap().len(), 6);
    assert_eq!(select_chapters(&list(), "  ALL ").unwrap().len(), 6);
    assert_eq!(select_chapters(&list(), "   ").unwrap().len(), 6);
    assert_eq!(select_chapters(&vec![], "all").unwrap().len(), 0);
}

#[test]
fn ranges_and_single_numbers() {
    assert_eq!(numbers(&select_chapters(&list(), "1-3").unwrap()), vec!["1", "2", "3"]);
    assert_eq!(numbers(&select_chapters(&list(), "10, 1,,3.50").unwrap()), vec!["1", "3.5", "10"]);
    assert_eq!(numbers(&select_chapters(&list(), "2 - 3.5, 0.5").unwrap()), vec!["0.5", "2", "3", "3.5"]);
    assert_eq!(numbers(&select_from(&list(), "2").unwrap()), vec!["2"]);
}

#[test]
fn selection_errors() {
    let message = |s: &str| select_chapters(&list(), s).unwrap_err().message();
    assert_eq!(message("x-3"), "Invalid start range: x");
    assert_eq!(message("1- y"), "Invalid end range:  y");
    assert_eq!(message("5-2"), "Invalid descending range: 5-2");
    assert_eq!(message("seven"), "Invalid chapter selection: seven");
    assert_eq!(message("77"), "Selection matches no chapters");
    assert_eq!(message(","), "Selection matches no chapters");
    assert!(matches!(select_chapters(&list(), "-3"), Err(SelectError::InvalidStart(_))));
}

#[test]
fn chapters_are_ordered_and_unique() {
    let mut second = chapter("2.0");
    second.label = "again".to_string();
    let found = vec![chapter("10"), chapter("2"), second, chapter("0.5"), chapter("10")];
    let ordered = order_chapters(found);
    assert_eq!(numbers(&ordered), vec!["0.5", "2", "10"]);
    assert_eq!(ordered[1].label, "Chapter 2");
}

#[test]
fn choosing_a_manga() {
    assert!(matches!(choose_manga(&vec![]), MangaChoice::NoneFound));
    assert!(matches!(choose_manga(&vec![manga("a")]), MangaChoice::Only(m) if m.title == "a"));
    let many: Vec<Manga> = (0..12).map(|i| manga(&format!("m{}", i))).collect();
    match choose_manga(&many) {
        MangaChoice::Ask(titles) => {
            assert_eq!(titles.len(), 10);
            assert_eq!(titles[9], "m9");
            assert_eq!(chosen_manga(&many, 9).title, "m9");
        }
        _ => panic!("expected a question"),
    }
}

#[test]
fn prompts_and_workers() {
    assert_eq!(prompt_chapters(" \t"), "all");
    assert_eq!(prompt_chapters(" 1-3 "), " 1-3 ");
    assert_eq!(worker_count(0, 5), 1);
    assert_eq!(worker_count(4, 2), 2);
    assert_eq!(worker_count(2, 9), 2);
    assert_eq!(worker_count(0, 0), 0);
}

#[test]
fn what_the_terminal_shows() {
    assert_eq!(chapter_summary(&list()), " (0.5 - 10)");
    assert_eq!(chapter_summary(&vec![]), "");
    assert_eq!(chapter_line(&chapter("10.5")), "    10.5  Chapter 10.5");
    assert_eq!(chapter_line(&chapter("123456789")), "123456789  Chapter 123456789");
    assert_eq!(chapter_line(&chapter("-1.5")), format!("{:>8}  {}", "-1.5", "Chapter -1.5"));
    assert_eq!(genre_line(&vec!["Action".to_string(), "Drama".to_string()]), "Action, Drama");
    let long = vec!["x".repeat(79), "y".to_string()];
    assert_eq!(genre_line(&long), format!("{},...", "x".repeat(79)));
}

#[test]
fn settings() {
    assert_eq!(cron_hours(None), 12);
    assert!(auto_updates_enabled(12) && !auto_updates_enabled(0) && !auto_updates_enabled(-1));
    assert_eq!(cron_hours(Some("24")), 24);
    assert_eq!(cron_hours(Some("+7")), 7);
    assert_eq!(cron_hours(Some("-3")), -3);
    assert_eq!(cron_hours(Some(" 24")), 12);
    assert_eq!(cron_hours(Some("")), 12);
    assert_eq!(cron_hours(Some("9223372036854775808")), 12);
    assert_eq!(cron_hours(Some("-9223372036854775808")), i64::MIN);
    assert_eq!(discord_webhook_url(Some("\" 'https://x' \"")).unwrap(), "'https://x'");
    assert_eq!(discord_webhook_url(Some("'https://x' ")).unwrap(), "https://x'");
    assert_eq!(discord_webhook_url(Some("\"https://x\"")).unwrap(), "https://x");
    assert!(discord_webhook_url(Some("\"'  '\"")).is_none());
    assert!(discord_webhook_url(None).is_none());
}

#[test]
fn integers_are_read_like_those_of_std() {
    for s in ["0", "-0", "+0", "007", "-", "+", "", "1_0", "9223372036854775807", "-9223372036854775809", "\u{661}", "--1", "+-1"] {
        assert_eq!(parse_integer(s), s.parse::<i64>().ok());
    }
}
