use ifetch::db::{can_schedule, get_mangas_to_check, schedule, upsert_manga, CheckTrigger, MangaRow};
use ifetch::discord::{send_webhook, NotificationType, AMBER, BLUE, GREEN, RED};

fn row(id: &str, status: &str, remote: i64, local: i64, next: i64, interval: i64) -> MangaRow {
    MangaRow {
        id: id.to_string(),
        title: format!("title of {}", id),
        status: status.to_string(),
        remote_chapters: remote,
        local_chapters: local,
        last_checked: 0,
        next_check: next,
        check_interval_hours: interval,
    }
}

#[test]
fn due_mangas() {
    let rows = vec![
        row("a", "Ongoing", 5, 5, 100, 12),
        row("b", "Ongoing", 5, 5, 101, 12),
        row("c", "Completed", 5, 5, 0, 12),
        row("d", "Completed", 5, 4, 1000, 12),
    ];
    let ids: Vec<String> = get_mangas_to_check(&rows, 100).into_iter().map(|m| m.id).collect();
    assert_eq!(ids, vec!["a", "d"]);
}

#[test]
fn news_reset_the_interval() {
    for t in [
        CheckTrigger::Cron { new_chapters: true },
        CheckTrigger::UserRequest { new_chapters: true },
        CheckTrigger::DownloadComplete { success: true },
    ] {
        assert_eq!(schedule(t, Some(100), 12), 12);
    }
    for t in [CheckTrigger::UserRequest { new_chapters: false }, CheckTrigger::DownloadComplete { success: false }] {
        assert_eq!(schedule(t, Some(100), 12), 100);
        assert_eq!(schedule(t, None, 12), 12);
    }
}

#[test]
fn back_off_is_half_as_long_again() {
    let t = CheckTrigger::Cron { new_chapters: false };
    assert_eq!(schedule(t, Some(12), 12), 18);
    assert_eq!(schedule(t, Some(18), 12), 27);
    assert_eq!(schedule(t, Some(600), 12), 720);
    assert_eq!(schedule(t, None, 12), 18);
    assert_eq!(schedule(t, Some(1), 1), 2);
    assert_eq!(schedule(t, Some(2), 1), 3);
    for current in [i64::MIN, -5, 0, 1, 2, 3, 13, 479, 480, 481, 720, 10_000, i64::MAX - 1, i64::MAX] {
        for base in [1i64, 12, 719, 720, 721, 5_000_000_000, i64::MAX] {
            let grown = if current == 1 { 2 } else { (current as f64 * 1.5) as i64 };
            let expected = grown.clamp(base, 720i64.max(base));
            assert_eq!(schedule(t, Some(current), base), expected);
        }
    }
}

#[test]
fn quiet_checks_lead_to_the_longest_interval() {
    let t = CheckTrigger::Cron { new_chapters: false };
    for base in [1i64, 2, 12, 719, 720, 1000] {
        let longest = base.max(720);
        let mut hours = base;
        let mut checks = 0;
        while hours < longest {
            let next = schedule(t, Some(hours), base);
            assert!(hours < next && next <= longest);
            hours = next;
            checks += 1;
        }
        assert!(checks <= 20);
        assert_eq!(schedule(t, Some(hours), base), longest);
    }
}

#[test]
fn rows_are_updated() {
    let cron = CheckTrigger::Cron { new_chapters: false };
    let fresh = upsert_manga(None, "a", "T", "Ongoing", 7, None, cron, 0, 1000);
    assert_eq!(fresh.check_interval_hours, 2);
    assert_eq!(fresh.next_check, 1000 + 2 * 3600);
    assert_eq!(fresh.last_checked, 1000);
    assert_eq!(fresh.local_chapters, 0);
    assert_eq!(fresh.remote_chapters, 7);
    let old = row("a", "Ongoing", 5, 4, 0, 20);
    let kept = upsert_manga(Some(&old), "a", "T2", "Completed", 8, None, cron, 12, 1000);
    assert_eq!(kept.local_chapters, 4);
    assert_eq!(kept.check_interval_hours, 30);
    assert_eq!(kept.title, "T2");
    assert_eq!(kept.status, "Completed");
    let counted = upsert_manga(Some(&old), "a", "T", "Ongoing", 8, Some(6), cron, 12, 1000);
    assert_eq!(counted.local_chapters, 6);
}

#[test]
fn settled_until_the_next_check() {
    let t = CheckTrigger::Cron { new_chapters: false };
    let r = upsert_manga(None, "a", "T", "Ongoing", 3, Some(3), t, 12, 1000);
    let next = r.next_check;
    let rows = vec![r];
    assert!(get_mangas_to_check(&rows, next - 1).is_empty());
    assert_eq!(get_mangas_to_check(&rows, next).len(), 1);
}

#[test]
fn schedules_that_do_not_fit() {
    let t = CheckTrigger::Cron { new_chapters: true };
    assert!(can_schedule(None, t, 12, 1000));
    assert!(!can_schedule(None, t, i64::MAX, 1000));
    assert!(!can_schedule(None, t, 1, i64::MAX));
}

#[test]
fn nothing_is_sent_without_an_address() {
    let n = NotificationType::Error { manga_title: "t", manga_url: "u", error_msg: "e" };
    assert!(send_webhook(None, n).is_none());
}

fn fields(n: NotificationType<'static>) -> (u32, Option<String>, Vec<(String, String, bool)>) {
    let (url, payload) = send_webhook(Some("https://hook"), n).unwrap();
    assert_eq!(url, "https://hook");
    assert_eq!(payload.embeds.len(), 1);
    let e = payload.embeds.into_iter().next().unwrap();
    assert_eq!(e.author.name, "iFetch");
    assert!(e.author.icon_url.ends_with("iFetch-logo.png"));
    assert_eq!(e.title, "T");
    assert_eq!(e.url, Some("U"));
    (e.color, e.description, e.fields.into_iter().map(|f| (f.name.to_string(), f.value, f.inline)).collect())
}

fn f(name: &str, value: &str) -> (String, String, bool) {
    (name.to_string(), value.to_string(), true)
}

#[test]
fn start_card() {
    let (color, description, all) = fields(NotificationType::Start {
        manga_title: "T",
        manga_url: "U",
        description: "D",
        total_chapters: 10,
        existing_chapters: 4,
        missing_chapters: 6,
    });
    assert_eq!(color, BLUE);
    assert_eq!(description.unwrap(), "D");
    assert_eq!(all, vec![f("Status", "Download Started"), f("To Download", "6 chapters"), f("Progress", "4/10 downloaded")]);
}

#[test]
fn completion_cards() {
    let card = |downloaded_now, failed_now, first_error| {
        fields(NotificationType::Complete {
            manga_title: "T",
            manga_url: "U",
            total_chapters: 10,
            downloaded_now,
            failed_now,
            total_available: 9,
            first_error,
        })
    };
    let (color, description, all) = card(3, 0, None);
    assert_eq!(color, GREEN);
    assert!(description.is_none());
    assert_eq!(all, vec![f("Status", "Download Completed"), f("Downloaded Now", "3 chapters"), f("Progress", "9/10 available")]);
    let (color, _, all) = card(2, 1, Some("oops"));
    assert_eq!(color, AMBER);
    assert_eq!(
        all,
        vec![
            f("Status", "Partially Completed"),
            f("Downloaded Now", "2 chapters"),
            f("Failed", "1 chapters"),
            f("Progress", "9/10 available"),
            ("Error Details".to_string(), "oops".to_string(), false),
        ]
    );
    let (color, _, all) = card(0, 2, None);
    assert_eq!(color, RED);
    assert_eq!(all[0], f("Status", "Download Failed"));
}

#[test]
fn long_errors_are_cut() {
    let long: &'static str = Box::leak("e".repeat(300).into_boxed_str());
    let (_, _, all) = fields(NotificationType::Complete {
        manga_title: "T",
        manga_url: "U",
        total_chapters: 1,
        downloaded_now: 0,
        failed_now: 1,
        total_available: 0,
        first_error: Some(long),
    });
    assert_eq!(all.last().unwrap().1, format!("{}...", "e".repeat(250)));
}

#[test]
fn error_card() {
    let (color, description, all) =
        fields(NotificationType::Error { manga_title: "T", manga_url: "U", error_msg: "bad" });
    assert_eq!(color, RED);
    assert_eq!(description.unwrap(), "bad");
    assert_eq!(all, vec![f("Status", "Failed to Fetch Manga")]);
}
