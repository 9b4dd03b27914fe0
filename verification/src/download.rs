//! Downloading a chapter: its images, its archive, and what happens when something fails.
use crate::config;
use crate::errors::{self, ErrorReport, RateLimitError, RateLimitErrorView};
use crate::models::{Chapter, ChapterView, Manga, MangaView};
use crate::rate_limit::{self, AdaptiveRateLimiter};
use crate::select;
use crate::text;
use crate::utils;
use vstd::prelude::*;

verus! {

// ---------------------------------------------------------------------------------------------
// Metadata
// ---------------------------------------------------------------------------------------------

/// How the metadata file of an archive begins.
pub open spec fn comic_info_start() -> Seq<char> {
    "<?xml version=\"1.0\" encoding=\"utf-8\"?>\n<ComicInfo xmlns:xsd=\"http://www.w3.org/2001/XMLSchema\" xmlns:xsi=\"http://www.w3.org/2001/XMLSchema-instance\">\n  <Title>"@
}

/// The metadata file of an archive.
pub open spec fn comic_info(m: MangaView, c: ChapterView) -> Seq<char> {
    comic_info_start()
        + utils::escaped(c.label) + "</Title>\n  <Series>"@ + utils::escaped(m.title)
        + "</Series>\n  <Number>"@ + c.number.text() + "</Number>\n  <Summary>"@ + utils::escaped(
        m.description,
    ) + "</Summary>\n  <Genre>"@ + utils::escaped(text::joined(m.genres, ", "@))
        + "</Genre>\n  <Writer>"@ + utils::escaped(text::joined(m.authors, ", "@))
        + "</Writer>\n  <AlternateSeries>"@ + utils::escaped(text::joined(m.alt_names, ", "@))
        + "</AlternateSeries>\n</ComicInfo>"@
}

fn push_escaped(s: &mut String, t: &str)
    ensures
        final(s)@ == old(s)@ + utils::escaped(t@),
{
    let e = utils::escape_xml(t);
    text::push_str(s, e.as_str());
}

fn push_escaped_list(s: &mut String, list: &Vec<String>)
    ensures
        final(s)@ == old(s)@ + utils::escaped(text::joined(text::texts(list@), ", "@)),
{
    let all = text::join(list, ", ");
    push_escaped(s, all.as_str());
}

/// Writes the metadata file of an archive.
pub fn generate_comic_info(manga: &Manga, chapter: &Chapter) -> (xml: String)
    requires
        chapter@.number.wf(),
    ensures
        xml@ == comic_info(manga@, chapter@),
{
    let mut xml = text::copy_str(
        "<?xml version=\"1.0\" encoding=\"utf-8\"?>\n<ComicInfo xmlns:xsd=\"http://www.w3.org/2001/XMLSchema\" xmlns:xsi=\"http://www.w3.org/2001/XMLSchema-instance\">\n  <Title>",
    );
    push_escaped(&mut xml, chapter.label.as_str());
    text::push_str(&mut xml, "</Title>\n  <Series>");
    push_escaped(&mut xml, manga.title.as_str());
    text::push_str(&mut xml, "</Series>\n  <Number>");
    text::push_str(&mut xml, chapter.number.to_text().as_str());
    text::push_str(&mut xml, "</Number>\n  <Summary>");
    push_escaped(&mut xml, manga.description.as_str());
    text::push_str(&mut xml, "</Summary>\n  <Genre>");
    push_escaped_list(&mut xml, &manga.genres);
    text::push_str(&mut xml, "</Genre>\n  <Writer>");
    push_escaped_list(&mut xml, &manga.authors);
    text::push_str(&mut xml, "</Writer>\n  <AlternateSeries>");
    push_escaped_list(&mut xml, &manga.alt_names);
    text::push_str(&mut xml, "</AlternateSeries>\n</ComicInfo>");
    xml
}

// ---------------------------------------------------------------------------------------------
// Images
// ---------------------------------------------------------------------------------------------

/// The pause after the first failed attempt at an image, in milliseconds; it doubles with every
/// further attempt.
pub const IMAGE_PAUSE_MS: u64 = 500;

/// How often an image is tried.
pub const IMAGE_ATTEMPTS: usize = 3;

/// The contents of an optional block.
pub open spec fn block_view(e: Option<RateLimitError>) -> Option<RateLimitErrorView> {
    match e {
        Some(e) => Some(e@),
        None => None,
    }
}

/// A block without a status code, with the given reason.
pub open spec fn block_because(reason: Seq<char>, retry_after: Option<u128>) -> RateLimitErrorView {
    RateLimitErrorView {
        kind: errors::kind_of(None, reason),
        status: None,
        retry_after,
        reason,
    }
}

/// The block that the head of a reply to a request for an image is: whatever is no success, and
/// HTML in place of an image.
pub open spec fn image_refusal(
    status: u16,
    content_type: Seq<char>,
    retry_after: Option<u128>,
    url: Seq<char>,
) -> Option<RateLimitErrorView> {
    if !errors::is_success_status(status) {
        Some(
            block_because(
                "HTTP "@ + errors::status_text(status) + " downloading image from "@ + url,
                retry_after,
            ),
        )
    } else if text::occurs(content_type, "text/html"@) {
        Some(
            block_because("Received HTML instead of image data from "@ + url, retry_after),
        )
    } else {
        None
    }
}

/// Judges the head of a reply to a request for an image.
pub fn check_image_head(
    status: u16,
    content_type: &str,
    retry_after: Option<u128>,
    img_url: &str,
) -> (e: Option<RateLimitError>)
    requires
        errors::is_status(status),
    ensures
        block_view(e) == image_refusal(status, content_type@, retry_after, img_url@),
{
    if !(200 <= status && status < 300) {
        let shown = errors::show_status(status);
        let mut reason = text::concat("HTTP ", shown.as_str());
        text::push_str(&mut reason, " downloading image from ");
        text::push_str(&mut reason, img_url);
        return Some(RateLimitError::with_retry(None, reason.as_str(), retry_after));
    }
    if text::contains(content_type, "text/html") {
        let reason = text::concat("Received HTML instead of image data from ", img_url);
        return Some(RateLimitError::with_retry(None, reason.as_str(), retry_after));
    }
    None
}

/// Judges the data of an image: there has to be some.
pub fn check_image_data(data: &[u8], img_url: &str) -> (error: Option<String>)
    ensures
        match error {
            Some(e) => data@.len() == 0 && e@ == "Received empty image data (0 bytes) from "@
                + img_url@,
            None => data@.len() > 0,
        },
{
    if data.len() == 0 {
        Some(text::concat("Received empty image data (0 bytes) from ", img_url))
    } else {
        None
    }
}

/// The pause in milliseconds after so many failed attempts at an image: it doubles each time, up to
/// what the number can hold.
pub open spec fn image_pause(attempts: nat) -> int {
    let pause = IMAGE_PAUSE_MS * vstd::arithmetic::power2::pow2((attempts - 1) as nat);
    if pause <= u64::MAX {
        pause
    } else {
        u64::MAX as int
    }
}

fn pause_after(attempts: usize) -> (ms: u64)
    requires
        1 <= attempts,
    ensures
        ms == image_pause(attempts as nat),
{
    let mut ms: u64 = IMAGE_PAUSE_MS;
    let mut n: usize = 1;
    proof {
        vstd::arithmetic::power2::lemma2_to64();
    }
    while n < attempts
        invariant
            1 <= n <= attempts,
            ms == image_pause(n as nat),
        decreases attempts - n,
    {
        proof {
            vstd::arithmetic::power2::lemma_pow2_unfold(n as nat);
        }
        ms = if ms <= u64::MAX / 2 {
            ms * 2
        } else {
            u64::MAX
        };
        n += 1;
    }
    ms
}

/// What to do after a failed attempt at an image.
#[derive(Debug)]
pub enum ImageStep {
    /// The server blocks the client: stop at once.
    Blocked,
    /// Try again after so many milliseconds.
    Retry { pause_ms: u64 },
    /// Stop; the error happened while doing this.
    Fail { context: String },
}

/// Decides what to do after the attempt with the given number failed. A block is never retried;
/// other failures are, with pauses that double, until the attempts are used up.
pub fn fetch_single_image(
    img_url: &str,
    attempts: usize,
    max_attempts: usize,
    error: &ErrorReport,
) -> (step: ImageStep)
    requires
        1 <= attempts,
    ensures
        match step {
            ImageStep::Blocked => errors::counts_as_block(*error),
            ImageStep::Retry { pause_ms } => !errors::counts_as_block(*error) && attempts
                < max_attempts && pause_ms == image_pause(attempts as nat),
            ImageStep::Fail { context } => !errors::counts_as_block(*error) && attempts
                >= max_attempts && context@ == "Failed to download image ("@ + img_url@
                + ") after "@ + text::digits(max_attempts as nat) + " attempts"@,
        },
{
    if errors::is_rate_limit_error(error) {
        return ImageStep::Blocked;
    }
    if attempts < max_attempts {
        return ImageStep::Retry { pause_ms: pause_after(attempts) };
    }
    let mut context = text::concat("Failed to download image (", img_url);
    text::push_str(&mut context, ") after ");
    text::push_str(&mut context, text::decimal(max_attempts as u128).as_str());
    text::push_str(&mut context, " attempts");
    ImageStep::Fail { context }
}

// ---------------------------------------------------------------------------------------------
// The archive
// ---------------------------------------------------------------------------------------------

/// The name of the metadata file in an archive.
pub const COMIC_INFO: &'static str = "ComicInfo.xml";

/// A number with at least three digits.
pub open spec fn three_digits(n: nat) -> Seq<char> {
    let d = text::digits(n);
    if d.len() < 3 {
        utils::zeros((3 - d.len()) as nat) + d
    } else {
        d
    }
}

/// The name of the page at a position, counted from zero, in an archive.
pub open spec fn page_entry(i: int, extension: Seq<char>) -> Seq<char> {
    three_digits((i + 1) as nat) + extension
}

/// The names in the archive of a chapter whose pages have the given extensions: the metadata,
/// then the pages in order.
pub open spec fn archive_entries(extensions: Seq<Seq<char>>) -> Seq<Seq<char>> {
    seq![COMIC_INFO@] + Seq::new(extensions.len(), |i: int| page_entry(i, extensions[i]))
}

/// The name of the page at a position, counted from zero, in an archive.
pub fn entry_name(i: usize, extension: &str) -> (name: String)
    requires
        i < usize::MAX,
    ensures
        name@ == page_entry(i as int, extension@),
{
    let d = text::decimal(i as u128 + 1);
    let n: usize = text::chars_of(d.as_str()).len();
    let mut name = if n == 1 {
        text::copy_str("00")
    } else if n == 2 {
        text::copy_str("0")
    } else {
        String::new()
    };
    proof {
        reveal_strlit("00");
        reveal_strlit("0");
        utils::lemma_digit_count_positive((i + 1) as nat);
        assert(n == 1 ==> name@ =~= utils::zeros(2));
        assert(n == 2 ==> name@ =~= utils::zeros(1));
    }
    text::push_str(&mut name, d.as_str());
    assert(name@ =~= three_digits((i + 1) as nat));
    text::push_str(&mut name, extension);
    name
}

/// Whether an archive holds as many entries as a chapter with so many pages needs.
pub open spec fn is_complete(archive_len: Option<usize>, pages: int) -> bool {
    archive_len matches Some(n) && n == pages + 1
}

/// Whether an archive is up to date: it can be read, and holds the expected number of pages and
/// the metadata.
pub fn is_chapter_up_to_date(archive_len: Option<usize>, expected_page_count: usize) -> (b: bool)
    ensures
        b == is_complete(archive_len, expected_page_count as int),
{
    match archive_len {
        Some(n) => n > 0 && n - 1 == expected_page_count,
        None => false,
    }
}

// ---------------------------------------------------------------------------------------------
// Downloading
// ---------------------------------------------------------------------------------------------

/// What is downloaded, and how.
pub struct ChapterDownloadContext<'a> {
    pub manga: &'a Manga,
    pub chapter: &'a Chapter,
    /// The padding of chapter numbers in file names.
    pub width: usize,
    /// Whether archives that exist are held against the site.
    pub verify: bool,
}

impl<'a> ChapterDownloadContext<'a> {
    /// The name of the archive.
    pub open spec fn file(self) -> Seq<char> {
        utils::chapter_file(self.manga@.title, self.chapter@.number.text(), self.width as nat)
    }

    /// The chapter number as messages show it.
    pub open spec fn shown(self) -> Seq<char> {
        self.chapter@.number.text()
    }
}

/// The first step of a download.
#[derive(Debug)]
pub struct DownloadStart {
    /// The name of the archive.
    pub filename: String,
    /// The name that it has while it is written.
    pub temporary: String,
    /// Whether there is nothing to do.
    pub skip: bool,
    /// What to tell the user.
    pub message: String,
}

/// Begins a download. An archive that exists is left alone unless it is to be verified.
pub fn download_chapter(ctx: &ChapterDownloadContext, exists: bool) -> (start: DownloadStart)
    requires
        ctx.chapter@.number.wf(),
    ensures
        start.filename@ == ctx.file(),
        start.temporary@ == ctx.file() + ".part"@,
        start.skip == (!ctx.verify && exists),
        start.message@ == if start.skip {
            "Skipped Chapter "@ + ctx.shown()
        } else {
            "Chapter "@ + ctx.shown() + "..."@
        },
{
    let number = ctx.chapter.number.to_text();
    let filename = utils::chapter_filename(
        ctx.manga.title.as_str(),
        number.as_str(),
        ctx.width,
    );
    let temporary = utils::partial_name(filename.as_str());
    let skip = !ctx.verify && exists;
    let message = if skip {
        text::concat("Skipped Chapter ", number.as_str())
    } else {
        let mut m = text::concat("Chapter ", number.as_str());
        text::push_str(&mut m, "...");
        m
    };
    DownloadStart { filename, temporary, skip, message }
}

/// What to do once the images of a chapter are known.
#[derive(Debug)]
pub enum WriteStep {
    /// The archive that exists is complete; tell the user so.
    Skip(String),
    /// Write the archive; tell the user so.
    Write(String),
}

/// Decides whether the archive has to be written once its pages are counted. An archive that
/// exists and has all of them is kept.
pub fn plan_archive(
    ctx: &ChapterDownloadContext,
    exists: bool,
    archive_len: Option<usize>,
    pages: usize,
) -> (step: WriteStep)
    requires
        ctx.chapter@.number.wf(),
    ensures
        match step {
            WriteStep::Skip(m) => exists && is_complete(archive_len, pages as int) && m@
                == "Skipped Chapter "@ + ctx.shown(),
            WriteStep::Write(m) => !(exists && is_complete(archive_len, pages as int)) && m@
                == if exists {
                "Updating Ch "@ + ctx.shown() + " ("@ + text::digits(pages as nat) + " pages)"@
            } else {
                "Chapter "@ + ctx.shown() + " ("@ + text::digits(pages as nat) + " pages)"@
            },
        },
{
    let number = ctx.chapter.number.to_text();
    if exists && is_chapter_up_to_date(archive_len, pages) {
        return WriteStep::Skip(text::concat("Skipped Chapter ", number.as_str()));
    }
    let head = if exists {
        "Updating Ch "
    } else {
        "Chapter "
    };
    let mut m = text::concat(head, number.as_str());
    text::push_str(&mut m, " (");
    text::push_str(&mut m, text::decimal(pages as u128).as_str());
    text::push_str(&mut m, " pages)");
    WriteStep::Write(m)
}

/// What was being done when the page at a position, counted from zero, failed.
pub fn page_context(ctx: &ChapterDownloadContext, i: usize, pages: usize) -> (s: String)
    requires
        ctx.chapter@.number.wf(),
        i < usize::MAX,
    ensures
        s@ == "Chapter "@ + ctx.shown() + " page "@ + text::digits((i + 1) as nat) + "/"@
            + text::digits(pages as nat),
{
    let number = ctx.chapter.number.to_text();
    let mut s = text::concat("Chapter ", number.as_str());
    text::push_str(&mut s, " page ");
    text::push_str(&mut s, text::decimal(i as u128 + 1).as_str());
    text::push_str(&mut s, "/");
    text::push_str(&mut s, text::decimal(pages as u128).as_str());
    s
}

/// What to tell the user when the archive was written, or could not be.
pub fn finish_message(ctx: &ChapterDownloadContext, written: bool) -> (m: String)
    requires
        ctx.chapter@.number.wf(),
    ensures
        m@ == if written {
            "Saved Chapter "@ + ctx.shown()
        } else {
            "Error Chapter "@ + ctx.shown()
        },
{
    let number = ctx.chapter.number.to_text();
    let head = if written {
        "Saved Chapter "
    } else {
        "Error Chapter "
    };
    text::concat(head, number.as_str())
}

/// How often the download of a chapter is tried.
pub const CHAPTER_ATTEMPTS: usize = 3;

/// What to do after an attempt at a chapter.
#[derive(Debug, Clone, Copy)]
pub enum RetryStep {
    /// The chapter is there.
    Done,
    /// Try again; the cooldown lasts so many nanoseconds.
    Again { cooldown: u128 },
    /// Give up with the error of this attempt.
    Stop,
}

/// Takes the outcome of the attempt with the given number at a chapter, and tells the limiter. A
/// block is retried until the attempts are used up; any other failure ends the download.
pub fn download_chapter_with_retry(
    limiter: &mut AdaptiveRateLimiter,
    attempts: usize,
    failure: Option<&ErrorReport>,
    now: u128,
) -> (step: RetryStep)
    requires
        old(limiter)@.wf(),
        failure is None ==> old(limiter)@.total_successful_chapters < usize::MAX,
        failure matches Some(e) ==> errors::counts_as_block(*e) ==> old(limiter)@.can_block(
            errors::requested_wait(e.causes@),
            now,
        ),
    ensures
        final(limiter)@.wf(),
        match failure {
            None => {
                &&& step == RetryStep::Done
                &&& final(limiter)@ == old(limiter)@.after_success()
            },
            Some(e) => if errors::counts_as_block(*e) {
                let wait = errors::requested_wait(e.causes@);
                &&& final(limiter)@ == old(limiter)@.after_block(wait, now)
                &&& if attempts < CHAPTER_ATTEMPTS {
                    step matches RetryStep::Again { cooldown } && cooldown == rate_limit::since(
                        old(limiter)@.after_block(wait, now).cooldown_until->0,
                        now,
                    )
                } else {
                    step == RetryStep::Stop
                }
            } else {
                &&& step == RetryStep::Stop
                &&& final(limiter)@ == old(limiter)@
            },
        },
{
    match failure {
        None => {
            limiter.on_chapter_success();
            RetryStep::Done
        },
        Some(e) => {
            if !errors::is_rate_limit_error(e) {
                return RetryStep::Stop;
            }
            let wait = errors::extract_retry_after(e);
            let outcome = limiter.on_rate_limit_hit_with_retry(wait, now);
            if attempts < CHAPTER_ATTEMPTS {
                RetryStep::Again { cooldown: outcome.cooldown }
            } else {
                RetryStep::Stop
            }
        },
    }
}

// ---------------------------------------------------------------------------------------------
// Laws
// ---------------------------------------------------------------------------------------------

/// The pauses between the attempts at an image back off exponentially: each is twice the one
/// before, as long as the number can hold it.
pub proof fn law_image_pauses_double(attempts: nat)
    requires
        1 <= attempts,
        2 * image_pause(attempts) <= u64::MAX,
    ensures
        image_pause(1) == IMAGE_PAUSE_MS,
        image_pause(attempts + 1) == 2 * image_pause(attempts),
        image_pause(attempts) > 0,
{
    vstd::arithmetic::power2::lemma2_to64();
    vstd::arithmetic::power2::lemma_pow2_unfold(attempts);
    vstd::arithmetic::power2::lemma_pow2_pos((attempts - 1) as nat);
}

/// An archive that was written to its end is up to date for the pages it was written from.
pub proof fn law_written_archive_is_complete(extensions: Seq<Seq<char>>)
    requires
        extensions.len() < usize::MAX,
    ensures
        is_complete(
            Some(archive_entries(extensions).len() as usize),
            extensions.len() as int,
        ),
{
}

proof fn lemma_digits_value(n: nat)
    ensures
        config::digits_value(text::digits(n)) == n,
        config::all_digits(text::digits(n)),
    decreases n,
{
    if n >= 10 {
        lemma_digits_value(n / 10);
        let d = text::digits(n);
        assert(d.drop_last() =~= text::digits(n / 10));
        assert forall|i: int| 0 <= i < d.len() implies '0' <= #[trigger] d[i] <= '9' by {
            if i < d.len() - 1 {
                assert(d[i] == text::digits(n / 10)[i]);
            }
        }
    } else {
        assert(text::digits(n).drop_last() =~= Seq::empty());
        assert(config::digits_value(Seq::<char>::empty()) == 0);
    }
}

proof fn lemma_leading_zeros(k: nat, s: Seq<char>)
    ensures
        config::digits_value(utils::zeros(k) + s) == config::digits_value(s),
    decreases k + s.len(),
{
    let all = utils::zeros(k) + s;
    if s.len() > 0 {
        lemma_leading_zeros(k, s.drop_last());
        assert(all.drop_last() =~= utils::zeros(k) + s.drop_last());
        assert(all.last() == s.last());
    } else if k > 0 {
        lemma_leading_zeros((k - 1) as nat, s);
        assert(all.drop_last() =~= utils::zeros((k - 1) as nat) + s);
        assert(all.last() == '0');
    } else {
        assert(all =~= s);
    }
}

proof fn lemma_three_digits(n: nat)
    ensures
        config::digits_value(three_digits(n)) == n,
        config::all_digits(three_digits(n)),
{
    lemma_digits_value(n);
    let d = text::digits(n);
    if d.len() < 3 {
        lemma_leading_zeros((3 - d.len()) as nat, d);
        let t = three_digits(n);
        assert forall|i: int| 0 <= i < t.len() implies '0' <= #[trigger] t[i] <= '9' by {
            if i >= 3 - d.len() {
                assert(t[i] == d[i - (3 - d.len())]);
            }
        }
    }
}

/// Two pages of an archive never have the same name, whatever their extensions are.
pub proof fn law_page_names_are_distinct(i: int, a: Seq<char>, j: int, b: Seq<char>)
    requires
        0 <= i,
        0 <= j,
        i != j,
        a.len() > 0 && a[0] == '.',
        b.len() > 0 && b[0] == '.',
    ensures
        page_entry(i, a) != page_entry(j, b),
{
    let p = three_digits((i + 1) as nat);
    let q = three_digits((j + 1) as nat);
    lemma_three_digits((i + 1) as nat);
    lemma_three_digits((j + 1) as nat);
    if p + a == q + b {
        if p.len() < q.len() {
            assert((p + a)[p.len() as int] == '.');
            assert((q + b)[p.len() as int] == q[p.len() as int]);
        } else if q.len() < p.len() {
            assert((q + b)[q.len() as int] == '.');
            assert((p + a)[q.len() as int] == p[q.len() as int]);
        } else {
            assert forall|k: int| 0 <= k < p.len() implies p[k] == q[k] by {
                assert((p + a)[k] == p[k]);
                assert((q + b)[k] == q[k]);
            }
            assert(p =~= q);
        }
    }
}

/// No page has the name of the metadata file.
pub proof fn law_pages_are_not_metadata(i: int, extension: Seq<char>)
    requires
        0 <= i,
    ensures
        page_entry(i, extension) != COMIC_INFO@,
{
    reveal_strlit("ComicInfo.xml");
    let p = three_digits((i + 1) as nat);
    lemma_three_digits((i + 1) as nat);
    utils::lemma_digit_count_positive((i + 1) as nat);
    assert(page_entry(i, extension)[0] == p[0]);
    assert('0' <= p[0] <= '9');
}

/// How often a character occurs.
pub open spec fn count_of(s: Seq<char>, c: char) -> nat
    decreases s.len(),
{
    if s.len() == 0 {
        0
    } else {
        count_of(s.drop_last(), c) + if s.last() == c {
            1nat
        } else {
            0nat
        }
    }
}

proof fn lemma_count_joined(s: Seq<char>, t: Seq<char>, c: char)
    ensures
        count_of(s + t, c) == count_of(s, c) + count_of(t, c),
    decreases t.len(),
{
    if t.len() == 0 {
        assert(s + t =~= s);
    } else {
        lemma_count_joined(s, t.drop_last(), c);
        assert((s + t).drop_last() =~= s + t.drop_last());
    }
}

proof fn lemma_count_absent(s: Seq<char>, c: char)
    requires
        !s.contains(c),
    ensures
        count_of(s, c) == 0,
    decreases s.len(),
{
    if s.len() > 0 {
        assert(s[s.len() - 1] == s.last());
        assert forall|i: int| 0 <= i < s.drop_last().len() implies s.drop_last()[i] != c by {
            assert(s.drop_last()[i] == s[i]);
        }
        lemma_count_absent(s.drop_last(), c);
    }
}

/// What a field adds to a text with nothing to count in the field.
proof fn lemma_count_field(s: Seq<char>, field: Seq<char>, close: Seq<char>, c: char)
    requires
        !field.contains(c),
    ensures
        count_of(s + field + close, c) == count_of(s, c) + count_of(close, c),
{
    lemma_count_joined(s, field, c);
    lemma_count_joined(s + field, close, c);
    lemma_count_absent(field, c);
}

/// How often a character that is not a part of any field occurs in the metadata file.
proof fn lemma_count_metadata(m: MangaView, ch: ChapterView, c: char)
    requires
        ch.number.wf(),
        c == '<' || c == '>',
    ensures
        count_of(comic_info(m, ch), c) == count_of(comic_info_start(), c) + count_of(
            "</Title>\n  <Series>"@,
            c,
        ) + count_of("</Series>\n  <Number>"@, c) + count_of("</Number>\n  <Summary>"@, c)
            + count_of("</Summary>\n  <Genre>"@, c) + count_of("</Genre>\n  <Writer>"@, c)
            + count_of("</Writer>\n  <AlternateSeries>"@, c) + count_of(
            "</AlternateSeries>\n</ComicInfo>"@,
            c,
        ),
{
    let genres = text::joined(m.genres, ", "@);
    let authors = text::joined(m.authors, ", "@);
    let names = text::joined(m.alt_names, ", "@);
    utils::law_escaped_has_no_tags(ch.label);
    utils::law_escaped_has_no_tags(m.title);
    utils::law_escaped_has_no_tags(m.description);
    utils::law_escaped_has_no_tags(genres);
    utils::law_escaped_has_no_tags(authors);
    utils::law_escaped_has_no_tags(names);
    select::lemma_number_text(ch.number);
    let s0 = comic_info_start();
    let s1 = s0 + utils::escaped(ch.label) + "</Title>\n  <Series>"@;
    let s2 = s1 + utils::escaped(m.title) + "</Series>\n  <Number>"@;
    let s3 = s2 + ch.number.text() + "</Number>\n  <Summary>"@;
    let s4 = s3 + utils::escaped(m.description) + "</Summary>\n  <Genre>"@;
    let s5 = s4 + utils::escaped(genres) + "</Genre>\n  <Writer>"@;
    let s6 = s5 + utils::escaped(authors) + "</Writer>\n  <AlternateSeries>"@;
    lemma_count_field(s0, utils::escaped(ch.label), "</Title>\n  <Series>"@, c);
    lemma_count_field(s1, utils::escaped(m.title), "</Series>\n  <Number>"@, c);
    lemma_count_field(s2, ch.number.text(), "</Number>\n  <Summary>"@, c);
    lemma_count_field(s3, utils::escaped(m.description), "</Summary>\n  <Genre>"@, c);
    lemma_count_field(s4, utils::escaped(genres), "</Genre>\n  <Writer>"@, c);
    lemma_count_field(s5, utils::escaped(authors), "</Writer>\n  <AlternateSeries>"@, c);
    lemma_count_field(s6, utils::escaped(names), "</AlternateSeries>\n</ComicInfo>"@, c);
}

/// The metadata files of any two chapters hold the same number of opening and of closing angle
/// brackets: nothing in their texts adds a tag or takes one away.
pub proof fn law_metadata_has_fixed_tags(
    m: MangaView,
    c: ChapterView,
    other_manga: MangaView,
    other_chapter: ChapterView,
)
    requires
        c.number.wf(),
        other_chapter.number.wf(),
    ensures
        count_of(comic_info(m, c), '<') == count_of(comic_info(other_manga, other_chapter), '<'),
        count_of(comic_info(m, c), '>') == count_of(comic_info(other_manga, other_chapter), '>'),
{
    lemma_count_metadata(m, c, '<');
    lemma_count_metadata(m, c, '>');
    lemma_count_metadata(other_manga, other_chapter, '<');
    lemma_count_metadata(other_manga, other_chapter, '>');
}

/// Which replies to a request for an image are refused: those that are no success, and those whose
/// content type mentions `text/html`. Every other reply is accepted, whatever its content type. A
/// refusal names the address of the image, and carries the span that the server asked to wait for.
pub proof fn law_which_images_are_refused(
    status: u16,
    content_type: Seq<char>,
    retry_after: Option<u128>,
    url: Seq<char>,
)
    ensures
        image_refusal(status, content_type, retry_after, url) is None <==> 200 <= status <= 299 && (
        forall|a: Seq<char>, b: Seq<char>| content_type != #[trigger] (a + "text/html"@ + b)),
        image_refusal(status, content_type, retry_after, url) matches Some(e) ==> {
            &&& e.retry_after == retry_after
            &&& e.status is None
            &&& e.kind == errors::kind_of(None, e.reason)
            &&& url.is_suffix_of(e.reason)
            &&& 200 <= status <= 299 ==> e.reason == "Received HTML instead of image data from "@
                + url
            &&& !(200 <= status <= 299) ==> e.reason == "HTTP "@ + errors::status_text(status)
                + " downloading image from "@ + url
        },
{
    text::law_occurrence(content_type, "text/html"@);
    if let Some(e) = image_refusal(status, content_type, retry_after, url) {
        let r = e.reason;
        assert(r.subrange(r.len() - url.len(), r.len() as int) =~= url);
    }
}

/// The first pause is half a second, and each further one is twice the one before, for as long as 64
/// bits hold it; from then on it stays at that.
pub proof fn law_pauses_from_half_a_second(attempts: nat)
    requires
        1 <= attempts,
    ensures
        image_pause(1) == 500,
        2 * image_pause(attempts) <= u64::MAX ==> image_pause(attempts + 1) == 2 * image_pause(
            attempts,
        ),
        2 * image_pause(attempts) > u64::MAX ==> image_pause(attempts + 1) == u64::MAX,
{
    vstd::arithmetic::power2::lemma2_to64();
    vstd::arithmetic::power2::lemma_pow2_unfold(attempts);
    vstd::arithmetic::power2::lemma_pow2_pos((attempts - 1) as nat);
}

/// The page at a position is named by its number, counted from one, in three digits or as many as it
/// takes, and its extension.
pub proof fn law_page_names(i: int, extension: Seq<char>)
    requires
        0 <= i,
    ensures
        exists|number: Seq<char>|
            {
                &&& page_entry(i, extension) == #[trigger] (number + extension)
                &&& config::all_digits(number)
                &&& config::digits_value(number) == i + 1
                &&& number.len() >= 3
                &&& number.len() > 3 ==> number[0] != '0'
            },
{
    let n = (i + 1) as nat;
    lemma_three_digits(n);
    config::law_decimal_notation(n);
    assert(page_entry(i, extension) == three_digits(n) + extension);
}

/// An archive begins with the metadata, and then has one page for each image, in order; it is
/// complete exactly where it holds one entry more than there are pages.
pub proof fn law_entries_of_an_archive(extensions: Seq<Seq<char>>, i: int, len: usize, pages: int)
    ensures
        archive_entries(extensions).len() == extensions.len() + 1,
        archive_entries(extensions)[0] == "ComicInfo.xml"@,
        0 <= i < extensions.len() ==> archive_entries(extensions)[i + 1] == page_entry(
            i,
            extensions[i],
        ),
        is_complete(Some(len), pages) <==> len - 1 == pages,
        !is_complete(None, pages),
{
}

proof fn lemma_field_stands(
    before: Seq<char>,
    field: Seq<char>,
    after: Seq<char>,
    open: Seq<char>,
    close: Seq<char>,
)
    requires
        open.is_suffix_of(before),
        close.is_prefix_of(after),
    ensures
        text::occurs(before + field + after, open + field + close),
{
    let whole = before + field + after;
    let tagged = open + field + close;
    let head = before.take(before.len() - open.len());
    let tail = after.skip(close.len() as int);
    assert(before =~= head + before.subrange(before.len() - open.len(), before.len() as int));
    assert(after =~= after.subrange(0, close.len() as int) + tail);
    assert(whole =~= head + tagged + tail);
    text::law_occurrence(whole, tagged);
}

proof fn lemma_regrouped(a: Seq<char>, b: Seq<char>, c: Seq<char>, d: Seq<char>, e: Seq<char>)
    ensures
        a + b + c + d + e == a + b + (c + d + e),
{
    assert(a + b + c + d + e =~= a + b + (c + d + e));
}

proof fn lemma_ends_alike(a: Seq<char>, b: Seq<char>, open: Seq<char>, close: Seq<char>)
    ensures
        open.is_suffix_of(b) ==> open.is_suffix_of(a + b),
        close.is_prefix_of(a) ==> close.is_prefix_of(a + b),
{
    let all = a + b;
    if open.is_suffix_of(b) {
        assert(all.subrange(all.len() - open.len(), all.len() as int) =~= b.subrange(
            b.len() - open.len(),
            b.len() as int,
        ));
    }
    if close.is_prefix_of(a) {
        assert(all.subrange(0, close.len() as int) =~= a.subrange(0, close.len() as int));
    }
}

proof fn lemma_tags_first()
    ensures
        "<Title>"@.is_suffix_of(comic_info_start()),
        "</Title>"@.is_prefix_of("</Title>\n  <Series>"@),
        "<Series>"@.is_suffix_of("</Title>\n  <Series>"@),
        "</Series>"@.is_prefix_of("</Series>\n  <Number>"@),
        "<Number>"@.is_suffix_of("</Series>\n  <Number>"@),
        "</Number>"@.is_prefix_of("</Number>\n  <Summary>"@),
        "<Summary>"@.is_suffix_of("</Number>\n  <Summary>"@),
{
    reveal_strlit(
        "<?xml version=\"1.0\" encoding=\"utf-8\"?>\n<ComicInfo xmlns:xsd=\"http://www.w3.org/2001/XMLSchema\" xmlns:xsi=\"http://www.w3.org/2001/XMLSchema-instance\">\n  <Title>",
    );
    reveal_strlit("</Title>\n  <Series>");
    reveal_strlit("</Series>\n  <Number>");
    reveal_strlit("</Number>\n  <Summary>");
    reveal_strlit("<Title>");
    reveal_strlit("</Title>");
    reveal_strlit("<Series>");
    reveal_strlit("</Series>");
    reveal_strlit("<Number>");
    reveal_strlit("</Number>");
    reveal_strlit("<Summary>");
}

proof fn lemma_tags_last()
    ensures
        "</Summary>"@.is_prefix_of("</Summary>\n  <Genre>"@),
        "<Genre>"@.is_suffix_of("</Summary>\n  <Genre>"@),
        "</Genre>"@.is_prefix_of("</Genre>\n  <Writer>"@),
        "<Writer>"@.is_suffix_of("</Genre>\n  <Writer>"@),
        "</Writer>"@.is_prefix_of("</Writer>\n  <AlternateSeries>"@),
        "<AlternateSeries>"@.is_suffix_of("</Writer>\n  <AlternateSeries>"@),
        "</AlternateSeries>"@.is_prefix_of("</AlternateSeries>\n</ComicInfo>"@),
{
    reveal_strlit("</Summary>\n  <Genre>");
    reveal_strlit("</Genre>\n  <Writer>");
    reveal_strlit("</Writer>\n  <AlternateSeries>");
    reveal_strlit("</AlternateSeries>\n</ComicInfo>");
    reveal_strlit("</Summary>");
    reveal_strlit("<Genre>");
    reveal_strlit("</Genre>");
    reveal_strlit("<Writer>");
    reveal_strlit("</Writer>");
    reveal_strlit("<AlternateSeries>");
    reveal_strlit("</AlternateSeries>");
}

/// The metadata file holds the label, the title, the number, the description, the genres, the
/// authors and the other names, each between the tags for it, lists with a comma and a space between
/// their parts. Reading a text back gives what was written.
pub proof fn law_metadata_holds_every_detail(m: MangaView, c: ChapterView)
    requires
        c.number.wf(),
    ensures
        ({
            let xml = comic_info(m, c);
            &&& text::occurs(xml, "<Title>"@ + utils::escaped(c.label) + "</Title>"@)
            &&& text::occurs(xml, "<Series>"@ + utils::escaped(m.title) + "</Series>"@)
            &&& text::occurs(xml, "<Number>"@ + c.number.text() + "</Number>"@)
            &&& text::occurs(xml, "<Summary>"@ + utils::escaped(m.description) + "</Summary>"@)
            &&& text::occurs(
                xml,
                "<Genre>"@ + utils::escaped(text::joined(m.genres, seq![',', ' '])) + "</Genre>"@,
            )
            &&& text::occurs(
                xml,
                "<Writer>"@ + utils::escaped(text::joined(m.authors, seq![',', ' ']))
                    + "</Writer>"@,
            )
            &&& text::occurs(
                xml,
                "<AlternateSeries>"@ + utils::escaped(text::joined(m.alt_names, seq![',', ' ']))
                    + "</AlternateSeries>"@,
            )
            &&& utils::unescaped(utils::escaped(c.label)) == c.label
            &&& utils::unescaped(utils::escaped(m.title)) == m.title
            &&& utils::unescaped(utils::escaped(m.description)) == m.description
        }),
{
    utils::law_escape_is_reversible(c.label);
    utils::law_escape_is_reversible(m.title);
    utils::law_escape_is_reversible(m.description);
    assert(", "@ =~= seq![',', ' ']) by {
        reveal_strlit(", ");
    }
    lemma_tags_first();
    lemma_tags_last();
    let l1 = "</Title>\n  <Series>"@;
    let l2 = "</Series>\n  <Number>"@;
    let l3 = "</Number>\n  <Summary>"@;
    let l4 = "</Summary>\n  <Genre>"@;
    let l5 = "</Genre>\n  <Writer>"@;
    let l6 = "</Writer>\n  <AlternateSeries>"@;
    let l7 = "</AlternateSeries>\n</ComicInfo>"@;
    let f1 = utils::escaped(c.label);
    let f2 = utils::escaped(m.title);
    let f3 = c.number.text();
    let f4 = utils::escaped(m.description);
    let f5 = utils::escaped(text::joined(m.genres, ", "@));
    let f6 = utils::escaped(text::joined(m.authors, ", "@));
    let f7 = utils::escaped(text::joined(m.alt_names, ", "@));
    let s0 = comic_info_start();
    let s1 = s0 + f1 + l1;
    let s2 = s1 + f2 + l2;
    let s3 = s2 + f3 + l3;
    let s4 = s3 + f4 + l4;
    let s5 = s4 + f5 + l5;
    let s6 = s5 + f6 + l6;
    let r6 = l6 + f7 + l7;
    let r5 = l5 + f6 + r6;
    let r4 = l4 + f5 + r5;
    let r3 = l3 + f4 + r4;
    let r2 = l2 + f3 + r3;
    let r1 = l1 + f2 + r2;
    assert(comic_info(m, c) == s6 + f7 + l7);
    lemma_regrouped(s5, f6, l6, f7, l7);
    lemma_regrouped(s4, f5, l5, f6, r6);
    lemma_regrouped(s3, f4, l4, f5, r5);
    lemma_regrouped(s2, f3, l3, f4, r4);
    lemma_regrouped(s1, f2, l2, f3, r3);
    lemma_regrouped(s0, f1, l1, f2, r2);
    lemma_tag_around(l1, f2, r2, s0, f1, "<Series>"@, "</Title>"@);
    lemma_tag_around(l2, f3, r3, s1, f2, "<Number>"@, "</Series>"@);
    lemma_tag_around(l3, f4, r4, s2, f3, "<Summary>"@, "</Number>"@);
    lemma_tag_around(l4, f5, r5, s3, f4, "<Genre>"@, "</Summary>"@);
    lemma_tag_around(l5, f6, r6, s4, f5, "<Writer>"@, "</Genre>"@);
    lemma_tag_around(l6, f7, l7, s5, f6, "<AlternateSeries>"@, "</Writer>"@);
    lemma_field_stands(s0, f1, r1, "<Title>"@, "</Title>"@);
    lemma_field_stands(s1, f2, r2, "<Series>"@, "</Series>"@);
    lemma_field_stands(s2, f3, r3, "<Number>"@, "</Number>"@);
    lemma_field_stands(s3, f4, r4, "<Summary>"@, "</Summary>"@);
    lemma_field_stands(s4, f5, r5, "<Genre>"@, "</Genre>"@);
    lemma_field_stands(s5, f6, r6, "<Writer>"@, "</Writer>"@);
    lemma_field_stands(s6, f7, l7, "<AlternateSeries>"@, "</AlternateSeries>"@);
}

proof fn lemma_tag_around(
    link: Seq<char>,
    next: Seq<char>,
    rest: Seq<char>,
    start: Seq<char>,
    field: Seq<char>,
    open: Seq<char>,
    close: Seq<char>,
)
    requires
        open.is_suffix_of(link),
        close.is_prefix_of(link),
    ensures
        open.is_suffix_of(start + field + link),
        close.is_prefix_of(link + next + rest),
{
    lemma_ends_alike(start + field, link, open, close);
    lemma_ends_alike(link, next, open, close);
    lemma_ends_alike(link + next, rest, open, close);
}

/// A download is for the archive of its chapter, and messages show the number of that chapter.
pub proof fn law_what_a_download_is_for(ctx: ChapterDownloadContext)
    ensures
        ctx.file() == utils::chapter_file(
            ctx.manga.title@,
            ctx.chapter.number.text(),
            ctx.width as nat,
        ),
        ctx.shown() == ctx.chapter.number.text(),
{
}

/// An image is tried three times, and so is a chapter.
pub proof fn law_how_often_things_are_tried()
    ensures
        IMAGE_ATTEMPTS == 3,
        CHAPTER_ATTEMPTS == 3,
{
}

} // verus!
