use ifetch::decimal::ChapterNumber;
use ifetch::models::Chapter;
use ifetch::utils::{
    chapter_candidates, chapter_filename, determine_width, escape_xml, extension_for, find_chapter_cbz,
    get_folder_name, get_mime_type, image_extension, narrower_filenames, partial_name, scan_manga_chapters,
    truncate_str, upgrade_padding,
};

fn chapter(number: &str) -> Chapter {
    Chapter {
        number: ChapterNumber::parse(number).unwrap(),
        label: format!("Chapter {}", number),
        url: format!("https://mangakatana.com/manga/x.1/c{}", number),
    }
}

#[test]
fn chapter_filename_pads_the_whole_part() {
    assert_eq!(chapter_filename("One Piece", "7", 3), "One Piece - Chapter 007.cbz");
    assert_eq!(chapter_filename("One Piece", "10.5", 4), "One Piece - Chapter 0010.5.cbz");
    assert_eq!(chapter_filename("One Piece", "1000", 3), "One Piece - Chapter 1000.cbz");
    assert_eq!(chapter_filename("T", "1.2.3", 2), "T - Chapter 01.2.cbz");
}

#[test]
fn chapter_filename_is_sanitized() {
    assert_eq!(chapter_filename("A: \"B\"?", "1", 1), "A B - Chapter 1.cbz");
    assert_eq!(chapter_filename("  ..dots.  and \t spaces ", "1", 1), "dots. and spaces - Chapter 1.cbz");
    assert_eq!(chapter_filename("a\u{1}b", "1", 1), "ab - Chapter 1.cbz");
}

#[test]
fn chapter_filename_is_bounded() {
    let long = "x".repeat(300);
    let name = chapter_filename(&long, "1", 3);
    assert_eq!(name.chars().count(), 144);
    assert!(name.ends_with(".cbz"));
}

#[test]
fn chapter_filename_agrees_with_the_patterns() {
    let illegal = regex::Regex::new(r#"[<>:"/\\|?*\x00-\x1f]"#).unwrap();
    let spaces = regex::Regex::new(r"\s+").unwrap();
    for title in [
        "plain",
        "  lead",
        "a<b>c:d\"e/f\\g|h?i*j",
        "tab\tand\nline",
        "wide\u{3000}\u{2003}space",
        "\u{85}\u{a0}nbsp",
        "...",
        "",
        "e\u{301}\u{1680}x",
        "\u{200b}zero width",
    ] {
        for number in ["1", "10.5", "", ".", "3. 4", "\u{3000}7"] {
            for width in [0usize, 1, 3, 6] {
                let parts: Vec<&str> = number.split('.').collect();
                let mut padded = String::new();
                if parts[0].len() < width {
                    padded.push_str(&"0".repeat(width - parts[0].len()));
                }
                padded.push_str(parts[0]);
                if parts.len() > 1 {
                    padded.push('.');
                    padded.push_str(parts[1]);
                }
                let full = format!("{} - Chapter {}", title, padded);
                let clean = illegal.replace_all(&full, "").to_string();
                let clean = spaces.replace_all(&clean, " ").to_string();
                let clean = clean.trim_matches(|c| c == ' ' || c == '.').to_string();
                assert_eq!(chapter_filename(title, number, width), format!("{}.cbz", clean));
            }
        }
    }
}

#[test]
fn folder_names() {
    assert_eq!(get_folder_name("Fate/Zero: \"Act\" *1*"), "FateZero Act 1");
    assert_eq!(get_folder_name("  spaced  "), "spaced");
    assert_eq!(get_folder_name("???"), "manga");
    assert_eq!(get_folder_name(""), "manga");
}

#[test]
fn stored_chapter_is_found_with_least_padding() {
    let names = chapter_candidates("T", "7");
    assert_eq!(names.len(), 6);
    assert_eq!(names[0], "T - Chapter 7.cbz");
    assert_eq!(names[5], "T - Chapter 000007.cbz");
    let present = vec![false, false, true, false, true, false];
    assert_eq!(find_chapter_cbz("T", "7", &present).unwrap(), "T - Chapter 007.cbz");
    assert!(find_chapter_cbz("T", "7", &vec![false; 6]).is_none());
    let all = vec![chapter("7"), chapter("12345")];
    let stored = chapter_filename("T", "7", determine_width(&all));
    assert!(names.contains(&stored));
}

#[test]
fn partial_names() {
    assert_eq!(partial_name("T - Chapter 7.cbz"), "T - Chapter 7.cbz.part");
}

#[test]
fn mime_types() {
    assert_eq!(get_mime_type("001.PNG"), "image/png");
    assert_eq!(get_mime_type("a.webp"), "image/webp");
    assert_eq!(get_mime_type("a.Avif"), "image/avif");
    assert_eq!(get_mime_type("a.gif"), "image/gif");
    assert_eq!(get_mime_type("a.jpg"), "image/jpeg");
    assert_eq!(get_mime_type("noext"), "image/jpeg");
}

#[test]
fn extension_by_declared_type() {
    assert_eq!(image_extension(" IMAGE/PNG ; charset=x", b"", "x.gif"), ".png");
    assert_eq!(image_extension("image/jpeg", b"GIF89a", ""), ".jpg");
    assert_eq!(image_extension("image/webp", b"", ""), ".webp");
    assert_eq!(image_extension("image/avif", b"", ""), ".avif");
    assert_eq!(image_extension("image/gif", b"", ""), ".gif");
}

#[test]
fn extension_by_signature() {
    assert_eq!(image_extension("", b"\xff\xd8\xff\xe0", "x.png"), ".jpg");
    assert_eq!(image_extension("", b"\x89PNG\r\n\x1a\n...", ""), ".png");
    assert_eq!(image_extension("", b"GIF87a", ""), ".gif");
    assert_eq!(image_extension("", b"GIF89a", ""), ".gif");
    assert_eq!(image_extension("", b"RIFFxxxxWEBP", ""), ".webp");
    assert_eq!(image_extension("", b"....ftypavif", ""), ".avif");
    assert_eq!(image_extension("", b"....ftypavis....", ""), ".avif");
    assert_eq!(image_extension("", b"....ftypavi", ""), ".jpg");
    assert_eq!(image_extension("text/plain", b"\xff\xd8", "p/a.webp"), ".webp");
}

#[test]
fn extension_by_address() {
    assert_eq!(extension_for("", b"", "a.jpeg"), ".jpg");
    assert_eq!(extension_for("", b"", "a.jpg"), ".jpg");
    assert_eq!(extension_for("", b"", "a.png"), ".png");
    assert_eq!(extension_for("", b"", "a.webp"), ".webp");
    assert_eq!(extension_for("", b"", "a.gif"), ".gif");
    assert_eq!(extension_for("", b"", "a.avif"), ".jpg");
    assert_eq!(extension_for("image/png", b"", "a.gif"), ".png");
}

#[test]
fn escaping_is_reversible() {
    assert_eq!(escape_xml("a < b && c > d"), "a &lt; b &amp;&amp; c &gt; d");
    assert_eq!(escape_xml("&lt;"), "&amp;lt;");
    let text = "x<y>&amp;&lt;z\u{e9}";
    let escaped = escape_xml(text);
    assert!(!escaped.contains('<') && !escaped.contains('>'));
    let back = escaped.replace("&lt;", "<").replace("&gt;", ">").replace("&amp;", "&");
    assert_eq!(back, text);
}

#[test]
fn truncation() {
    assert_eq!(truncate_str("abc", 3), "abc");
    assert_eq!(truncate_str("abcd", 3), "abc...");
    assert_eq!(truncate_str("\u{e9}\u{e9}\u{e9}", 2), "\u{e9}\u{e9}...");
    assert_eq!(truncate_str("a", 0), "...");
    assert_eq!(truncate_str("", 0), "");
}

#[test]
fn width_fits_the_largest_chapter() {
    assert_eq!(determine_width(&vec![]), 3);
    assert_eq!(determine_width(&vec![chapter("5"), chapter("12.5")]), 3);
    assert_eq!(determine_width(&vec![chapter("999.9"), chapter("1000"), chapter("2")]), 4);
    assert_eq!(determine_width(&vec![chapter("12345.75")]), 5);
}

#[test]
fn padding_is_upgraded() {
    assert_eq!(
        narrower_filenames("T", "7", 5),
        vec!["T - Chapter 007.cbz".to_string(), "T - Chapter 0007.cbz".to_string()]
    );
    assert!(narrower_filenames("T", "7", 3).is_empty());
    assert_eq!(
        upgrade_padding("T", "7", 5, false, &vec![false, true]),
        Some(("T - Chapter 0007.cbz".to_string(), "T - Chapter 00007.cbz".to_string()))
    );
    assert_eq!(
        upgrade_padding("T", "7", 5, false, &vec![true, true]),
        Some(("T - Chapter 007.cbz".to_string(), "T - Chapter 00007.cbz".to_string()))
    );
    assert_eq!(upgrade_padding("T", "7", 5, true, &vec![true, true]), None);
    assert_eq!(upgrade_padding("T", "7", 5, false, &vec![false, false]), None);
    assert_eq!(upgrade_padding("T", "7", 3, false, &vec![]), None);
}

#[test]
fn scan_partitions_the_chapters() {
    let all = vec![chapter("1"), chapter("2"), chapter("1000")];
    let (width, existing, missing) = scan_manga_chapters(&all, &vec![true, false, true]);
    assert_eq!(width, 4);
    let numbers = |v: &Vec<Chapter>| v.iter().map(|c| c.number.to_text()).collect::<Vec<_>>();
    assert_eq!(numbers(&existing), vec!["1", "1000"]);
    assert_eq!(numbers(&missing), vec!["2"]);
}

#[test]
fn archive_names_are_tidy() {
    for title in ["  ..a\u{a0}\u{3000} b", "...", "\t\n", "x .", "a : b", "\u{2028}", &"y. ".repeat(60)] {
        for number in ["1", "10.5", "3. 4", ". ."] {
            let name = chapter_filename(title, number, 3);
            assert!(!name.contains("  "), "{}", name);
            assert!(name.chars().all(|c| !c.is_whitespace() || c == ' '), "{}", name);
            assert!(!name.starts_with(' ') && !name.starts_with('.'), "{}", name);
            let stem = name.strip_suffix(".cbz").unwrap();
            if stem.chars().count() < 140 {
                assert!(!stem.ends_with(' ') && !stem.ends_with('.'), "{}", name);
            }
        }
    }
}

#[test]
fn folder_names_are_stable() {
    for title in ["A: B", "  x  ", "", "???", " \u{3000}a<b> ", "manga", "* a *"] {
        let folder = get_folder_name(title);
        assert_eq!(get_folder_name(&folder), folder);
    }
}

#[test]
fn image_names_keep_the_declared_type() {
    for declared in ["image/jpeg", "image/png", "image/webp", "image/avif", "image/gif"] {
        let header = format!(" {}; charset=binary", declared.to_uppercase());
        for data in [&b"RIFF"[..], b"GIF89a", b"", b"\xff\xd8\xff"] {
            for stem in ["001", "", "x.png", "PAGE.gif"] {
                let name = format!("{}{}", stem, image_extension(&header, data, "a.gif"));
                assert_eq!(get_mime_type(&name), declared);
            }
        }
    }
}
