//! Downloads in the background: which mangas are being downloaded, and how far each has come.
use crate::address;
use crate::db::CheckTrigger;
use crate::discord::NotificationType;
use crate::models::{self, Chapter, ChapterView, Manga, MangaView};
use crate::server::cache::ServerCache;
use crate::server::store::{KeyPattern, Store};
use crate::text;
use crate::utils;
use vstd::prelude::*;

verus! {

// ---------------------------------------------------------------------------------------------
// Which mangas are being downloaded
// ---------------------------------------------------------------------------------------------

/// The mangas that are being downloaded, by their identifiers.
pub struct ActiveDownloads {
    ids: Store<bool>,
}

impl View for ActiveDownloads {
    type V = Set<Seq<char>>;

    closed spec fn view(&self) -> Set<Seq<char>> {
        self.ids@.dom()
    }
}

impl ActiveDownloads {
    /// Whether each manga is held once.
    pub closed spec fn wf(&self) -> bool {
        self.ids.wf()
    }

    /// Nothing is being downloaded.
    pub fn new() -> (active: Self)
        ensures
            active.wf(),
            active@ == Set::<Seq<char>>::empty(),
    {
        let active = ActiveDownloads { ids: Store::new() };
        assert(active@ =~= Set::<Seq<char>>::empty());
        active
    }

    /// Whether a manga is being downloaded.
    pub fn contains(&self, id: &str) -> (b: bool)
        requires
            self.wf(),
        ensures
            b == self@.contains(id@),
    {
        self.ids.get(id).is_some()
    }

    /// Takes a manga out.
    pub fn finish(&mut self, id: &str)
        requires
            old(self).wf(),
        ensures
            final(self).wf(),
            final(self)@ == old(self)@.remove(id@),
    {
        let ghost before = self.ids@;
        self.ids.remove_matching(&KeyPattern::Exactly(id));
        assert forall|k: Seq<char>| #[trigger] self.ids@.dom().contains(k) <==> before.dom().remove(
            id@,
        ).contains(k) by {
            assert(self.ids@.contains_key(k) <==> before.contains_key(k) && k != id@);
        }
        assert(self.ids@.dom() =~= before.dom().remove(id@));
    }
}

/// Takes a manga out of the active downloads when its download ends early. Once the download is
/// under way it is disarmed: from then on the tracker does this.
#[derive(Debug)]
pub struct DownloadGuard {
    id: String,
    disarmed: bool,
}

impl DownloadGuard {
    /// The manga that is guarded.
    pub closed spec fn guarded(&self) -> Seq<char> {
        self.id@
    }

    /// Whether the guard does nothing any more.
    pub closed spec fn is_disarmed(&self) -> bool {
        self.disarmed
    }

    /// Guards a manga.
    pub fn new(id: &str) -> (guard: Self)
        ensures
            guard.guarded() == id@,
            !guard.is_disarmed(),
    {
        DownloadGuard { id: text::copy_str(id), disarmed: false }
    }

    /// Leaves the manga to its tracker.
    pub fn disarm(&mut self)
        ensures
            final(self).guarded() == old(self).guarded(),
            final(self).is_disarmed(),
    {
        self.disarmed = true;
    }

    /// The end of the guard: takes the manga out, unless the guard is disarmed.
    pub fn release(&self, active: &mut ActiveDownloads)
        requires
            old(active).wf(),
        ensures
            final(active).wf(),
            final(active)@ == if self.is_disarmed() {
                old(active)@
            } else {
                old(active)@.remove(self.guarded())
            },
    {
        if !self.disarmed {
            active.finish(self.id.as_str());
        }
    }
}

/// Asks for the download of a manga. It is refused where the manga is being downloaded already;
/// otherwise the manga is from now on, and the download is guarded.
pub fn queue_background_download(active: &mut ActiveDownloads, id: &str) -> (r: Option<
    DownloadGuard,
>)
    requires
        old(active).wf(),
    ensures
        final(active).wf(),
        match r {
            Some(guard) => {
                &&& !old(active)@.contains(id@)
                &&& final(active)@ == old(active)@.insert(id@)
                &&& guard.guarded() == id@
                &&& !guard.is_disarmed()
            },
            None => old(active)@.contains(id@) && final(active)@ == old(active)@,
        },
{
    if active.contains(id) {
        return None;
    }
    let ghost before = active@;
    active.ids.insert(id, true);
    assert(active@ =~= before.insert(id@));
    Some(DownloadGuard::new(id))
}

/// What to tell when the page of a manga could not be read for its download.
pub fn fetch_failure<'a>(id: &'a str, url: &'a str, error: &'a str) -> (n: NotificationType<'a>)
    ensures
        n == (NotificationType::Error { manga_title: id, manga_url: url, error_msg: error }),
{
    NotificationType::Error { manga_title: id, manga_url: url, error_msg: error }
}

// ---------------------------------------------------------------------------------------------
// How far a download has come
// ---------------------------------------------------------------------------------------------

/// The largest number of characters of a description in a notification.
pub const MAX_DESCRIPTION_CHARS: usize = 200;

/// The state of the download of a manga.
#[derive(Debug)]
pub struct MangaDownloadTracker {
    pub id: String,
    pub manga: Manga,
    pub url: String,
    pub total_chapters: usize,
    /// How many chapters the download set out to get.
    pub missing_count: usize,
    /// How many of them are still to come.
    pub remaining: usize,
    pub success_count: usize,
    pub error_count: usize,
    /// The first error that was met.
    pub first_error: Option<String>,
    /// The padding of chapter numbers in file names.
    pub max_width: usize,
    /// All chapters of the manga.
    pub chapters: Vec<Chapter>,
}

/// The contents of a [`MangaDownloadTracker`].
pub struct TrackerView {
    pub id: Seq<char>,
    pub manga: MangaView,
    pub url: Seq<char>,
    pub chapters: Seq<ChapterView>,
    pub width: nat,
    pub missing: int,
    pub remaining: int,
    pub successes: int,
    pub errors: int,
    pub first_error: Option<Seq<char>>,
}

impl View for MangaDownloadTracker {
    type V = TrackerView;

    open spec fn view(&self) -> TrackerView {
        TrackerView {
            id: self.id@,
            manga: self.manga@,
            url: self.url@,
            chapters: models::chapter_views(self.chapters@),
            width: self.max_width as nat,
            missing: self.missing_count as int,
            remaining: self.remaining as int,
            successes: self.success_count as int,
            errors: self.error_count as int,
            first_error: address::chars_in(self.first_error),
        }
    }
}

impl TrackerView {
    /// Every chapter that the download set out to get is counted once: as downloaded, as failed,
    /// or as still to come. There is a first error exactly where chapters failed.
    pub open spec fn wf(self) -> bool {
        &&& self.successes >= 0
        &&& self.errors >= 0
        &&& self.remaining >= 0
        &&& self.successes + self.errors + self.remaining == self.missing
        &&& self.missing <= self.chapters.len()
        &&& self.first_error is Some <==> self.errors > 0
        &&& models::numbered(self.chapters)
    }

    /// The start of a download.
    pub open spec fn start(
        id: Seq<char>,
        manga: MangaView,
        chapters: Seq<ChapterView>,
        missing: int,
    ) -> TrackerView {
        TrackerView {
            id,
            manga,
            url: address::manga_url_of(id),
            chapters,
            width: utils::width_of(chapters),
            missing,
            remaining: missing,
            successes: 0,
            errors: 0,
            first_error: None,
        }
    }

    /// The download after one more chapter came to its end: with an error, or without.
    pub open spec fn after(self, failure: Option<Seq<char>>) -> TrackerView {
        match failure {
            None => TrackerView {
                remaining: self.remaining - 1,
                successes: self.successes + 1,
                ..self
            },
            Some(e) => TrackerView {
                remaining: self.remaining - 1,
                errors: self.errors + 1,
                first_error: if self.first_error is Some {
                    self.first_error
                } else {
                    Some(e)
                },
                ..self
            },
        }
    }
}

impl MangaDownloadTracker {
    /// Whether the counts belong together.
    pub open spec fn wf(&self) -> bool {
        self@.wf() && self.total_chapters == self.chapters@.len()
    }

    /// Records that a chapter came to its end, with an error or without, and says whether it was
    /// the last one.
    pub fn record(&mut self, failure: Option<&str>) -> (last: bool)
        requires
            old(self).wf(),
            old(self)@.remaining > 0,
        ensures
            final(self).wf(),
            final(self)@ == old(self)@.after(
                match failure {
                    Some(e) => Some(e@),
                    None => None,
                },
            ),
            last == (final(self)@.remaining == 0),
    {
        match failure {
            None => {
                self.success_count = self.success_count + 1;
            },
            Some(e) => {
                self.error_count = self.error_count + 1;
                if self.first_error.is_none() {
                    self.first_error = Some(text::copy_str(e));
                }
            },
        }
        self.remaining = self.remaining - 1;
        self.remaining == 0
    }

    /// What to tell when the download begins.
    pub fn start_notification<'a>(&'a self, description: &'a str) -> (n: NotificationType<'a>)
        requires
            self.wf(),
        ensures
            match n {
                NotificationType::Start {
                    manga_title,
                    manga_url,
                    description: d,
                    total_chapters,
                    existing_chapters,
                    missing_chapters,
                } => {
                    &&& manga_title@ == self@.manga.title
                    &&& manga_url@ == self@.url
                    &&& d@ == description@
                    &&& total_chapters == self@.chapters.len()
                    &&& existing_chapters == self@.chapters.len() - self@.missing
                    &&& missing_chapters == self@.missing
                },
                _ => false,
            },
    {
        NotificationType::Start {
            manga_title: self.manga.title.as_str(),
            manga_url: self.url.as_str(),
            description,
            total_chapters: self.total_chapters,
            existing_chapters: self.total_chapters - self.missing_count,
            missing_chapters: self.missing_count,
        }
    }

    /// What to tell when the download has come to its end and so many chapters are there. Where
    /// no chapter could be downloaded it counts as an error.
    pub fn end_notification<'a>(&'a self, local_count: usize) -> (n: NotificationType<'a>)
        requires
            self.wf(),
        ensures
            match n {
                NotificationType::Error { manga_title, manga_url, error_msg } => {
                    &&& self@.errors > 0 && self@.successes == 0
                    &&& manga_title@ == self@.manga.title
                    &&& manga_url@ == self@.url
                    &&& Some(error_msg@) == self@.first_error
                },
                NotificationType::Complete {
                    manga_title,
                    manga_url,
                    total_chapters,
                    downloaded_now,
                    failed_now,
                    total_available,
                    first_error,
                } => {
                    &&& !(self@.errors > 0 && self@.successes == 0)
                    &&& manga_title@ == self@.manga.title
                    &&& manga_url@ == self@.url
                    &&& total_chapters == self@.chapters.len()
                    &&& downloaded_now == self@.successes
                    &&& failed_now == self@.errors
                    &&& total_available == local_count
                    &&& crate::discord::chars_in(first_error) == self@.first_error
                },
                NotificationType::Start { .. } => false,
            },
    {
        let first_error = match &self.first_error {
            Some(e) => Some(e.as_str()),
            None => None,
        };
        if self.error_count > 0 && self.success_count == 0 {
            let error_msg = match first_error {
                Some(e) => e,
                None => "All chapter downloads failed",
            };
            return NotificationType::Error {
                manga_title: self.manga.title.as_str(),
                manga_url: self.url.as_str(),
                error_msg,
            };
        }
        NotificationType::Complete {
            manga_title: self.manga.title.as_str(),
            manga_url: self.url.as_str(),
            total_chapters: self.total_chapters,
            downloaded_now: self.success_count,
            failed_now: self.error_count,
            total_available: local_count,
            first_error,
        }
    }
}

/// What the download of a manga comes to once its chapters are compared with the archives.
#[derive(Debug)]
pub enum DownloadPlan {
    /// Every chapter is there. The check counts like this for the schedule.
    UpToDate { local_count: usize, trigger: CheckTrigger },
    /// These chapters have to be downloaded.
    Start { description: String, missing: Vec<Chapter>, tracker: MangaDownloadTracker },
}

/// Plans the download of a manga; `present` says which archives exist, under their padded names.
pub fn plan_download(
    id: &str,
    manga: &Manga,
    chapters: &Vec<Chapter>,
    present: &Vec<bool>,
) -> (plan: DownloadPlan)
    requires
        models::numbered(models::chapter_views(chapters@)),
        present@.len() == chapters@.len(),
    ensures
        ({
            let views = models::chapter_views(chapters@);
            let wanted = utils::with_presence(views, present@, false);
            match plan {
                DownloadPlan::UpToDate { local_count, trigger } => {
                    &&& wanted.len() == 0
                    &&& local_count == chapters@.len()
                    &&& trigger == (CheckTrigger::UserRequest { new_chapters: false })
                },
                DownloadPlan::Start { description, missing, tracker } => {
                    &&& wanted.len() > 0
                    &&& description@ == utils::truncated(
                        manga@.description,
                        MAX_DESCRIPTION_CHARS as int,
                    )
                    &&& models::chapter_views(missing@) == wanted
                    &&& tracker@ == TrackerView::start(
                        id@,
                        manga@,
                        views,
                        wanted.len() as int,
                    )
                    &&& tracker.wf()
                },
            }
        }),
{
    let (max_width, _existing, missing) = utils::scan_manga_chapters(chapters, present);
    assert(models::chapter_views(missing@).len() == missing@.len());
    if missing.len() == 0 {
        return DownloadPlan::UpToDate {
            local_count: chapters.len(),
            trigger: CheckTrigger::UserRequest { new_chapters: false },
        };
    }
    let description = utils::truncate_str(manga.description.as_str(), MAX_DESCRIPTION_CHARS);
    let count: usize = missing.len();
    let all = models::copy_chapters(chapters);
    assert(models::chapter_views(all@).len() == all@.len());
    assert(models::chapter_views(chapters@).len() == chapters@.len());
    let tracker = MangaDownloadTracker {
        id: text::copy_str(id),
        manga: manga.clone(),
        url: address::manga_url(id),
        total_chapters: chapters.len(),
        missing_count: count,
        remaining: count,
        success_count: 0,
        error_count: 0,
        first_error: None,
        max_width,
        chapters: all,
    };
    DownloadPlan::Start { description, missing, tracker }
}

/// How many archives exist.
pub open spec fn count_present(present: Seq<bool>) -> nat
    decreases present.len(),
{
    if present.len() == 0 {
        0
    } else {
        count_present(present.drop_last()) + if present.last() {
            1nat
        } else {
            0nat
        }
    }
}

/// The end of a download; `present` says which archives exist. The pages of the manga's chapters
/// are forgotten, as there may be others now. Gives how many chapters are there, and how the check
/// counts for the schedule: as a success where any chapter was downloaded.
pub fn on_manga_download_complete(
    tracker: &MangaDownloadTracker,
    present: &Vec<bool>,
    cache: &mut ServerCache,
) -> (r: (usize, CheckTrigger))
    requires
        tracker.wf(),
        present@.len() == tracker@.chapters.len(),
        old(cache).wf(),
    ensures
        r.0 == count_present(present@),
        r.0 <= tracker@.chapters.len(),
        r.1 == (CheckTrigger::DownloadComplete { success: tracker@.successes > 0 }),
        final(cache).wf(),
        forall|k: Seq<char>| #[trigger]
            final(cache).pages_at(k) == if (tracker@.id + "::"@).is_prefix_of(k) {
                None
            } else {
                old(cache).pages_at(k)
            },
        final(cache).manga_dirs == old(cache).manga_dirs,
        final(cache).image_cache == old(cache).image_cache,
{
    cache.forget_pages(tracker.id.as_str());
    let mut count: usize = 0;
    let mut i: usize = 0;
    assert(present@.take(0) =~= Seq::empty());
    while i < present.len()
        invariant
            i <= present@.len(),
            count <= i,
            count == count_present(present@.take(i as int)),
        decreases present@.len() - i,
    {
        assert(present@.take(i + 1).drop_last() =~= present@.take(i as int));
        if present[i] {
            count += 1;
        }
        i += 1;
    }
    assert(present@.take(i as int) =~= present@);
    (count, CheckTrigger::DownloadComplete { success: tracker.success_count > 0 })
}

// ---------------------------------------------------------------------------------------------
// Laws
// ---------------------------------------------------------------------------------------------

/// The download after the given outcomes.
pub open spec fn followed(start: TrackerView, outcomes: Seq<Option<Seq<char>>>) -> TrackerView
    decreases outcomes.len(),
{
    if outcomes.len() == 0 {
        start
    } else {
        followed(start, outcomes.drop_last()).after(outcomes.last())
    }
}

/// The first error among outcomes.
pub open spec fn first_failure(outcomes: Seq<Option<Seq<char>>>) -> Option<Seq<char>>
    decreases outcomes.len(),
{
    if outcomes.len() == 0 {
        None
    } else if first_failure(outcomes.drop_last()) is Some {
        first_failure(outcomes.drop_last())
    } else {
        outcomes.last()
    }
}

/// A download ends after exactly as many outcomes as chapters were missing, in whatever order
/// they come; until then the counts add up, and the first error is the first that was met.
pub proof fn law_download_ends_once(
    id: Seq<char>,
    manga: MangaView,
    chapters: Seq<ChapterView>,
    missing: int,
    outcomes: Seq<Option<Seq<char>>>,
)
    requires
        models::numbered(chapters),
        0 < missing <= chapters.len(),
        outcomes.len() <= missing,
    ensures
        ({
            let t = followed(TrackerView::start(id, manga, chapters, missing), outcomes);
            &&& t.wf()
            &&& t.remaining == missing - outcomes.len()
            &&& t.successes + t.errors == outcomes.len()
            &&& t.first_error == first_failure(outcomes)
            &&& t.id == id
            &&& t.chapters == chapters
            &&& t.missing == missing
        }),
    decreases outcomes.len(),
{
    if outcomes.len() > 0 {
        law_download_ends_once(id, manga, chapters, missing, outcomes.drop_last());
    }
}

/// A manga that is being downloaded cannot be asked for again until its download has ended, and
/// then it can.
pub proof fn law_one_download_at_a_time(active: Set<Seq<char>>, id: Seq<char>)
    requires
        !active.contains(id),
    ensures
        active.insert(id).contains(id),
        active.insert(id).remove(id) == active,
{
    assert(active.insert(id).remove(id) =~= active);
}

proof fn lemma_presence_counts(chapters: Seq<ChapterView>, present: Seq<bool>)
    requires
        chapters.len() == present.len(),
    ensures
        utils::with_presence(chapters, present, true).len() == count_present(present),
        utils::with_presence(chapters, present, false).len() == chapters.len() - count_present(
            present,
        ),
    decreases chapters.len(),
{
    if chapters.len() > 0 {
        lemma_presence_counts(chapters.drop_last(), present.drop_last());
    }
}

proof fn lemma_presence(chapters: Seq<ChapterView>, present: Seq<bool>, i: int)
    requires
        chapters.len() == present.len(),
        0 <= i < chapters.len(),
    ensures
        utils::with_presence(chapters, present, present[i]).contains(chapters[i]),
    decreases chapters.len(),
{
    let before = utils::with_presence(chapters.drop_last(), present.drop_last(), present[i]);
    let all = utils::with_presence(chapters, present, present[i]);
    if i < chapters.len() - 1 {
        lemma_presence(chapters.drop_last(), present.drop_last(), i);
        let k = choose|k: int| 0 <= k < before.len() && before[k] == chapters[i];
        assert(all[k] == chapters[i]);
    } else {
        assert(all[all.len() - 1] == chapters[i]);
    }
}

/// A scan misses no chapter and counts none twice: each chapter is among those that are there or
/// among those that are not, as its archive says, and together these are as many as there are
/// chapters.
pub proof fn law_scan_is_complete(chapters: Seq<ChapterView>, present: Seq<bool>, i: int)
    requires
        chapters.len() == present.len(),
        0 <= i < chapters.len(),
    ensures
        utils::with_presence(chapters, present, present[i]).contains(chapters[i]),
        utils::with_presence(chapters, present, true).len() + utils::with_presence(
            chapters,
            present,
            false,
        ).len() == chapters.len(),
        utils::with_presence(chapters, present, true).len() == count_present(present),
{
    lemma_presence(chapters, present, i);
    lemma_presence_counts(chapters, present);
}

/// A download begins with everything it set out to get still to come, and nothing counted.
pub proof fn law_start_of_a_download(
    id: Seq<char>,
    manga: MangaView,
    chapters: Seq<ChapterView>,
    missing: int,
)
    ensures
        ({
            let t = TrackerView::start(id, manga, chapters, missing);
            &&& t.id == id && t.manga == manga && t.chapters == chapters
            &&& t.url == address::manga_url_of(id)
            &&& t.width == utils::width_of(chapters)
            &&& t.missing == missing && t.remaining == missing
            &&& t.successes == 0 && t.errors == 0
            &&& t.first_error is None
        }),
{
}

/// A chapter that came to its end is one less to come, and one more that was downloaded or failed.
/// The first error stays the first.
pub proof fn law_one_more_chapter(t: TrackerView, e: Seq<char>)
    ensures
        ({
            let good = t.after(None);
            let bad = t.after(Some(e));
            &&& good.remaining == t.remaining - 1 && bad.remaining == t.remaining - 1
            &&& good.successes == t.successes + 1 && good.errors == t.errors
            &&& bad.successes == t.successes && bad.errors == t.errors + 1
            &&& good.first_error == t.first_error
            &&& t.first_error is Some ==> bad.first_error == t.first_error
            &&& t.first_error is None ==> bad.first_error == Some(e)
            &&& good.id == t.id && good.manga == t.manga && good.url == t.url && good.chapters
                == t.chapters && good.width == t.width && good.missing == t.missing
            &&& bad.id == t.id && bad.manga == t.manga && bad.url == t.url && bad.chapters
                == t.chapters && bad.width == t.width && bad.missing == t.missing
        }),
{
}

/// After any outcomes the chapters that were downloaded are those without an error, those that failed
/// are the others, and the first error is that of the first that failed.
pub proof fn law_outcomes_are_counted(start: TrackerView, outcomes: Seq<Option<Seq<char>>>, k: int)
    requires
        start.first_error is None,
    ensures
        ({
            let t = followed(start, outcomes);
            let good = outcomes.filter(|o: Option<Seq<char>>| o is None).len();
            &&& t.successes == start.successes + good
            &&& t.errors == start.errors + outcomes.len() - good
            &&& t.remaining == start.remaining - outcomes.len()
            &&& (forall|i: int| 0 <= i < outcomes.len() ==> #[trigger] outcomes[i] is None)
                ==> t.first_error is None
            &&& 0 <= k < outcomes.len() && outcomes[k] is Some && (forall|i: int|
                0 <= i < k ==> #[trigger] outcomes[i] is None) ==> t.first_error == outcomes[k]
        }),
    decreases outcomes.len(),
{
    reveal(Seq::filter);
    if outcomes.len() > 0 {
        let before = outcomes.drop_last();
        law_outcomes_are_counted(start, before, k);
        assert(forall|i: int| 0 <= i < before.len() ==> #[trigger] before[i] == outcomes[i]);
        if 0 <= k < outcomes.len() && outcomes[k] is Some && (forall|i: int|
            0 <= i < k ==> #[trigger] outcomes[i] is None) {
            assert forall|i: int| 0 <= i < k implies #[trigger] before[i] is None by {
                assert(outcomes[i] is None);
            }
            if k == outcomes.len() - 1 {
                assert(forall|i: int| 0 <= i < before.len() ==> #[trigger] before[i] is None);
            }
        }
        if forall|i: int| 0 <= i < outcomes.len() ==> #[trigger] outcomes[i] is None {
            assert forall|i: int| 0 <= i < before.len() implies #[trigger] before[i] is None by {
                assert(outcomes[i] is None);
            }
            assert(outcomes[outcomes.len() - 1] is None);
        }
    }
}

/// Archives that exist are counted, one each.
pub proof fn law_archives_are_counted(a: Seq<bool>, b: Seq<bool>)
    ensures
        count_present(a + b) == count_present(a) + count_present(b),
        count_present(seq![true]) == 1,
        count_present(seq![false]) == 0,
        count_present(Seq::empty()) == 0,
    decreases b.len(),
{
    assert(seq![true].drop_last() =~= Seq::<bool>::empty());
    assert(seq![false].drop_last() =~= Seq::<bool>::empty());
    assert(seq![true].last() && !seq![false].last());
    assert(count_present(seq![true].drop_last()) == 0);
    assert(count_present(seq![false].drop_last()) == 0);
    if b.len() == 0 {
        assert(a + b =~= a);
    } else {
        law_archives_are_counted(a, b.drop_last());
        assert((a + b).drop_last() =~= a + b.drop_last());
        assert((a + b).last() == b.last());
    }
}

/// What a tracker says of a download is what its parts hold.
pub proof fn law_contents_of_a_tracker(t: MangaDownloadTracker)
    ensures
        t@.id == t.id@ && t@.manga == t.manga@ && t@.url == t.url@,
        t@.chapters == models::chapter_views(t.chapters@),
        t@.width == t.max_width,
        t@.missing == t.missing_count && t@.remaining == t.remaining,
        t@.successes == t.success_count && t@.errors == t.error_count,
        t.first_error matches Some(e) ==> t@.first_error == Some(e@),
        t.first_error is None ==> t@.first_error is None,
{
}

/// A notification shows up to two hundred characters of a description.
pub proof fn law_bound_on_descriptions()
    ensures
        MAX_DESCRIPTION_CHARS == 200,
{
}

} // verus!
