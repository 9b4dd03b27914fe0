//! The library database: its rows, and when a manga is due for a check.
use crate::text;
use vstd::prelude::*;

verus! {

/// The longest interval between checks that backing off leads to: thirty days.
pub const MAX_INTERVAL_HOURS: i64 = 720;

pub const SECONDS_PER_HOUR: i64 = 3600;

/// On which occasion a manga was looked at.
#[derive(Debug, Clone, Copy, PartialEq, Eq, Structural)]
pub enum CheckTrigger {
    /// The periodic check; without new chapters the interval grows.
    Cron { new_chapters: bool },
    /// A user asked for it; the interval never grows.
    UserRequest { new_chapters: bool },
    /// A download has come to its end.
    DownloadComplete { success: bool },
}

/// A row of the database.
#[derive(Debug)]
pub struct MangaRow {
    pub id: String,
    pub title: String,
    pub status: String,
    pub remote_chapters: i64,
    pub local_chapters: i64,
    pub last_checked: i64,
    pub next_check: i64,
    pub check_interval_hours: i64,
}

/// The contents of a [`MangaRow`].
pub struct MangaRowView {
    pub id: Seq<char>,
    pub title: Seq<char>,
    pub status: Seq<char>,
    pub remote_chapters: int,
    pub local_chapters: int,
    pub last_checked: int,
    pub next_check: int,
    pub check_interval_hours: int,
}

impl View for MangaRow {
    type V = MangaRowView;

    open spec fn view(&self) -> MangaRowView {
        MangaRowView {
            id: self.id@,
            title: self.title@,
            status: self.status@,
            remote_chapters: self.remote_chapters as int,
            local_chapters: self.local_chapters as int,
            last_checked: self.last_checked as int,
            next_check: self.next_check as int,
            check_interval_hours: self.check_interval_hours as int,
        }
    }
}

/// The contents of an optional row.
pub open spec fn row_view(row: Option<&MangaRow>) -> Option<MangaRowView> {
    match row {
        Some(r) => Some(r@),
        None => None,
    }
}

/// The contents of a list of rows.
pub open spec fn row_views(v: Seq<MangaRow>) -> Seq<MangaRowView> {
    Seq::new(v.len(), |i: int| v[i]@)
}

/// The shortest interval: the configured one, but at least an hour.
pub open spec fn base_interval(cron_hours: int) -> int {
    if cron_hours >= 1 {
        cron_hours
    } else {
        1
    }
}

/// The longest interval that backing off leads to: the base interval, where that is longer than
/// the usual limit.
pub open spec fn longest_interval(base: int) -> int {
    if base > MAX_INTERVAL_HOURS {
        base
    } else {
        MAX_INTERVAL_HOURS as int
    }
}

/// An interval half as long again, rounded down, but longer by an hour at least.
pub open spec fn lengthened(current: int) -> int {
    if current <= 1 {
        current + 1
    } else {
        current * 3 / 2
    }
}

/// The interval after a check that found nothing new: a longer one, but never under the base
/// interval nor over the longest one.
pub open spec fn backed_off(current: int, base: int) -> int {
    let grown = lengthened(current);
    if grown < base {
        base
    } else if grown > longest_interval(base) {
        longest_interval(base)
    } else {
        grown
    }
}

/// The interval after a check. `current` is the one that was in force, if the manga is known.
pub open spec fn next_interval(trigger: CheckTrigger, current: Option<int>, base: int) -> int {
    let known = match current {
        Some(c) => c,
        None => base,
    };
    match trigger {
        CheckTrigger::Cron { new_chapters } => if new_chapters {
            base
        } else {
            backed_off(known, base)
        },
        CheckTrigger::UserRequest { new_chapters } => if new_chapters {
            base
        } else {
            known
        },
        CheckTrigger::DownloadComplete { success } => if success {
            base
        } else {
            known
        },
    }
}

/// The interval in force for a manga, if it is known.
pub open spec fn current_interval(row: Option<MangaRowView>) -> Option<int> {
    match row {
        Some(r) => Some(r.check_interval_hours),
        None => None,
    }
}

/// Whether a check `interval` hours after `now` has a time stamp of 64 bits.
pub open spec fn in_time(now: int, interval: int) -> bool {
    i64::MIN <= interval * SECONDS_PER_HOUR <= i64::MAX && i64::MIN <= now + interval
        * SECONDS_PER_HOUR <= i64::MAX
}

/// The row of a manga after a check. The number of local chapters is kept where it was not
/// counted, and zero where it never was.
pub open spec fn updated_row(
    row: Option<MangaRowView>,
    id: Seq<char>,
    title: Seq<char>,
    status: Seq<char>,
    remote_chapters: int,
    local_chapters: Option<int>,
    trigger: CheckTrigger,
    base: int,
    now: int,
) -> MangaRowView {
    let interval = next_interval(trigger, current_interval(row), base);
    MangaRowView {
        id,
        title,
        status,
        remote_chapters,
        local_chapters: match (local_chapters, row) {
            (Some(n), _) => n,
            (None, Some(r)) => r.local_chapters,
            (None, None) => 0,
        },
        last_checked: now,
        next_check: now + interval * SECONDS_PER_HOUR,
        check_interval_hours: interval,
    }
}

fn back_off(current: i64, base: i64) -> (hours: i64)
    ensures
        hours == backed_off(current as int, base as int),
{
    let longest = if base > MAX_INTERVAL_HOURS {
        base
    } else {
        MAX_INTERVAL_HOURS
    };
    let grown: i128 = if current <= 1 {
        current as i128 + 1
    } else {
        current as i128 * 3 / 2
    };
    if grown < base as i128 {
        base
    } else if grown > longest as i128 {
        longest
    } else {
        grown as i64
    }
}

/// The interval after a check.
pub fn schedule(trigger: CheckTrigger, current: Option<i64>, base: i64) -> (hours: i64)
    ensures
        hours == next_interval(
            trigger,
            match current {
                Some(c) => Some(c as int),
                None => None,
            },
            base as int,
        ),
{
    let known = match current {
        Some(c) => c,
        None => base,
    };
    match trigger {
        CheckTrigger::Cron { new_chapters } => if new_chapters {
            base
        } else {
            back_off(known, base)
        },
        CheckTrigger::UserRequest { new_chapters } => if new_chapters {
            base
        } else {
            known
        },
        CheckTrigger::DownloadComplete { success } => if success {
            base
        } else {
            known
        },
    }
}

/// A number of chapters as the database holds it.
pub open spec fn count_in(n: Option<usize>) -> Option<int> {
    match n {
        Some(n) => Some(n as int),
        None => None,
    }
}

/// Whether the next check can be scheduled.
pub fn can_schedule(
    row: Option<&MangaRow>,
    trigger: CheckTrigger,
    cron_hours: i64,
    now: i64,
) -> (b: bool)
    ensures
        b == in_time(
            now as int,
            next_interval(trigger, current_interval(row_view(row)), base_interval(cron_hours as int)),
        ),
{
    let base = if cron_hours >= 1 {
        cron_hours
    } else {
        1
    };
    let current = match row {
        Some(r) => Some(r.check_interval_hours),
        None => None,
    };
    let interval = schedule(trigger, current, base);
    let span: i128 = interval as i128 * 3600;
    assert(span == interval * SECONDS_PER_HOUR);
    let at: i128 = now as i128 + span;
    i64::MIN as i128 <= span && span <= i64::MAX as i128 && i64::MIN as i128 <= at && at
        <= i64::MAX as i128
}

/// The row of a manga after a check at `now`; `row` is the one that the database holds, if any.
pub fn upsert_manga(
    row: Option<&MangaRow>,
    id: &str,
    title: &str,
    status: &str,
    remote_chapters: usize,
    local_chapters: Option<usize>,
    trigger: CheckTrigger,
    cron_hours: i64,
    now: i64,
) -> (updated: MangaRow)
    requires
        remote_chapters <= i64::MAX,
        local_chapters matches Some(n) ==> n <= i64::MAX,
        in_time(
            now as int,
            next_interval(trigger, current_interval(row_view(row)), base_interval(cron_hours as int)),
        ),
    ensures
        updated@ == updated_row(
            row_view(row),
            id@,
            title@,
            status@,
            remote_chapters as int,
            count_in(local_chapters),
            trigger,
            base_interval(cron_hours as int),
            now as int,
        ),
{
    let base = if cron_hours >= 1 {
        cron_hours
    } else {
        1
    };
    let current = match row {
        Some(r) => Some(r.check_interval_hours),
        None => None,
    };
    let interval = schedule(trigger, current, base);
    let local = match local_chapters {
        Some(n) => n as i64,
        None => match row {
            Some(r) => r.local_chapters,
            None => 0,
        },
    };
    MangaRow {
        id: text::copy_str(id),
        title: text::copy_str(title),
        status: text::copy_str(status),
        remote_chapters: remote_chapters as i64,
        local_chapters: local,
        last_checked: now,
        next_check: now + interval * SECONDS_PER_HOUR,
        check_interval_hours: interval,
    }
}

/// A manga that is due for a check.
#[derive(Debug)]
pub struct MangaCheck {
    pub id: String,
}

/// Whether a manga is due: its series goes on and its time has come, or chapters are missing.
pub open spec fn is_due(row: MangaRowView, now: int) -> bool {
    (row.status != "Completed"@ && row.next_check <= now) || row.local_chapters
        < row.remote_chapters
}

/// The identifiers of the mangas that are due, in order.
pub open spec fn due_ids(rows: Seq<MangaRowView>, now: int) -> Seq<Seq<char>>
    decreases rows.len(),
{
    if rows.len() == 0 {
        Seq::empty()
    } else {
        let before = due_ids(rows.drop_last(), now);
        if is_due(rows.last(), now) {
            before.push(rows.last().id)
        } else {
            before
        }
    }
}

/// The identifiers of a list of due mangas.
pub open spec fn check_ids(v: Seq<MangaCheck>) -> Seq<Seq<char>> {
    Seq::new(v.len(), |i: int| v[i].id@)
}

/// The mangas of the database that are due for a check.
pub fn get_mangas_to_check(rows: &Vec<MangaRow>, now: i64) -> (due: Vec<MangaCheck>)
    ensures
        check_ids(due@) == due_ids(row_views(rows@), now as int),
{
    let ghost views = row_views(rows@);
    let mut due: Vec<MangaCheck> = Vec::new();
    let mut i: usize = 0;
    assert(views.take(0) =~= Seq::empty());
    assert(check_ids(due@) =~= Seq::empty());
    while i < rows.len()
        invariant
            i <= rows@.len(),
            views == row_views(rows@),
            check_ids(due@) == due_ids(views.take(i as int), now as int),
        decreases rows@.len() - i,
    {
        let ghost before = check_ids(due@);
        let row = &rows[i];
        proof {
            assert(views.take(i + 1).drop_last() =~= views.take(i as int));
            assert(views.take(i + 1).last() == row@);
        }
        if (!text::str_eq(row.status.as_str(), "Completed") && row.next_check <= now)
            || row.local_chapters < row.remote_chapters {
            let c = MangaCheck { id: text::copy_str(row.id.as_str()) };
            let ghost id = c.id@;
            due.push(c);
            assert(check_ids(due@) =~= before.push(id));
        }
        i += 1;
    }
    assert(views.take(i as int) =~= views);
    due
}

/// New chapters, by whatever check, and a successful download bring the interval back to the
/// base; a request by a user and a failed download leave it as it is.
pub proof fn law_news_reset_the_interval(current: int, base: int)
    ensures
        next_interval(CheckTrigger::Cron { new_chapters: true }, Some(current), base) == base,
        next_interval(CheckTrigger::UserRequest { new_chapters: true }, Some(current), base)
            == base,
        next_interval(CheckTrigger::DownloadComplete { success: true }, Some(current), base)
            == base,
        next_interval(CheckTrigger::UserRequest { new_chapters: false }, Some(current), base)
            == current,
        next_interval(CheckTrigger::DownloadComplete { success: false }, Some(current), base)
            == current,
{
}

/// Backing off keeps the interval between the base and the longest one, and lengthens an interval
/// in that range until the longest one is reached; from two hours on it becomes half as long
/// again.
pub proof fn law_back_off_is_bounded(current: int, base: int)
    requires
        base >= 1,
    ensures
        base <= backed_off(current, base) <= longest_interval(base),
        base <= current < longest_interval(base) ==> current < backed_off(current, base),
        current >= longest_interval(base) ==> backed_off(current, base) == longest_interval(base),
        base <= current && 2 <= current && current * 3 / 2 <= longest_interval(base)
            ==> backed_off(current, base) == current * 3 / 2,
{
}

/// A periodic check that finds nothing new backs the interval off and schedules the next check
/// that many hours later.
pub proof fn law_quiet_check_backs_off(
    row: MangaRowView,
    title: Seq<char>,
    status: Seq<char>,
    remote: int,
    local: Option<int>,
    base: int,
    now: int,
)
    requires
        base >= 1,
        base <= row.check_interval_hours <= longest_interval(base),
    ensures
        ({
            let h = row.check_interval_hours;
            let new = updated_row(
                Some(row),
                row.id,
                title,
                status,
                remote,
                local,
                CheckTrigger::Cron { new_chapters: false },
                base,
                now,
            );
            let h2 = new.check_interval_hours;
            &&& h < longest_interval(base) ==> h < h2 <= longest_interval(base)
            &&& h == longest_interval(base) ==> h2 == h
            &&& h >= 2 ==> h2 == if h * 3 / 2 <= longest_interval(base) {
                h * 3 / 2
            } else {
                longest_interval(base)
            }
            &&& new.next_check == now + h2 * SECONDS_PER_HOUR
            &&& new.last_checked == now
        }),
{
    law_back_off_is_bounded(row.check_interval_hours, base);
}

/// A manga whose series is complete and whose chapters are all there is never due.
pub proof fn law_complete_manga_is_never_due(row: MangaRowView, now: int)
    requires
        row.status == "Completed"@,
        row.local_chapters >= row.remote_chapters,
    ensures
        !is_due(row, now),
{
}

/// A manga is not due again before the interval after its check is over, unless chapters are
/// missing.
pub proof fn law_check_settles_until_next(
    row: Option<MangaRowView>,
    id: Seq<char>,
    title: Seq<char>,
    status: Seq<char>,
    chapters: int,
    trigger: CheckTrigger,
    base: int,
    now: int,
    later: int,
)
    requires
        later < now + next_interval(trigger, current_interval(row), base) * SECONDS_PER_HOUR,
    ensures
        !is_due(
            updated_row(row, id, title, status, chapters, Some(chapters), trigger, base, now),
            later,
        ),
{
}

/// The interval between checks goes back to the configured one, an hour at least, when something was
/// found. A request that finds nothing and a download that fails leave it as it is, and a periodic
/// check that finds nothing makes it longer by half, up to thirty days.
pub proof fn law_intervals(trigger: CheckTrigger, current: Option<int>, cron_hours: int)
    ensures
        ({
            let base = base_interval(cron_hours);
            let known = if current is Some {
                current->0
            } else {
                base
            };
            let next = next_interval(trigger, current, base);
            &&& cron_hours >= 1 ==> base == cron_hours
            &&& cron_hours < 1 ==> base == 1
            &&& match trigger {
                CheckTrigger::Cron { new_chapters: true } => next == base,
                CheckTrigger::UserRequest { new_chapters: true } => next == base,
                CheckTrigger::DownloadComplete { success: true } => next == base,
                CheckTrigger::UserRequest { new_chapters: false } => next == known,
                CheckTrigger::DownloadComplete { success: false } => next == known,
                CheckTrigger::Cron { new_chapters: false } => {
                    &&& base <= next
                    &&& base <= 720 ==> next <= 720
                    &&& base > 720 ==> next == base
                    &&& base <= 720 && known >= 2 && known * 3 / 2 >= base && known * 3 / 2 <= 720
                        ==> next == known * 3 / 2
                    &&& base <= 720 && known == 1 && base <= 2 ==> next == 2
                    &&& base <= 720 && known == 1 && base > 2 ==> next == base
                    &&& known <= 0 ==> next == base
                    &&& base <= 720 && known >= 480 ==> next == 720
                    &&& base <= 720 && known * 3 / 2 < base && known != 1 ==> next == base
                },
            }
        }),
{
}

/// A check is recorded under the manga's identifier, with the title, the status and the number of
/// chapters that it found, at the time it was made. The chapters that are there are counted anew, or
/// as they were where they were not counted. The next check is due after the interval.
pub proof fn law_what_a_check_records(
    row: Option<MangaRowView>,
    id: Seq<char>,
    title: Seq<char>,
    status: Seq<char>,
    remote: int,
    local: Option<int>,
    trigger: CheckTrigger,
    base: int,
    now: int,
)
    ensures
        ({
            let new = updated_row(row, id, title, status, remote, local, trigger, base, now);
            let current = match row {
                Some(r) => Some(r.check_interval_hours),
                None => None,
            };
            &&& new.id == id && new.title == title && new.status == status
            &&& new.remote_chapters == remote
            &&& local matches Some(n) ==> new.local_chapters == n
            &&& local is None ==> (row matches Some(r) ==> new.local_chapters == r.local_chapters)
            &&& local is None && row is None ==> new.local_chapters == 0
            &&& new.last_checked == now
            &&& new.check_interval_hours == next_interval(trigger, current, base)
            &&& new.next_check == now + new.check_interval_hours * 3600
        }),
{
}

/// Which mangas are due: those with fewer chapters there than the site has, and those whose time has
/// come, unless their series is complete. They are given in the order of the database, each once, by
/// their identifiers. Their positions in the database are given back.
pub proof fn law_which_mangas_are_due(rows: Seq<MangaRowView>, now: int) -> (at: Seq<int>)
    ensures
        at.len() == due_ids(rows, now).len(),
        forall|i: int, j: int| 0 <= i < j < at.len() ==> #[trigger] at[i] < #[trigger] at[j],
        forall|j: int|
            0 <= j < at.len() ==> 0 <= #[trigger] at[j] < rows.len() && due_ids(rows, now)[j]
                == rows[at[j]].id,
        forall|k: int|
            0 <= k < rows.len() ==> (#[trigger] at.contains(k) <==> rows[k].local_chapters
                < rows[k].remote_chapters || (rows[k].next_check <= now && rows[k].status
                != "Completed"@)),
    decreases rows.len(),
{
    if rows.len() == 0 {
        Seq::empty()
    } else {
        let n = rows.len() - 1;
        let before = law_which_mangas_are_due(rows.drop_last(), now);
        let at = if is_due(rows.last(), now) {
            before.push(n)
        } else {
            before
        };
        assert forall|k: int| 0 <= k < rows.len() implies (#[trigger] at.contains(k)
            <==> rows[k].local_chapters < rows[k].remote_chapters || (rows[k].next_check <= now
            && rows[k].status != "Completed"@)) by {
            if k < n {
                assert(rows.drop_last()[k] == rows[k]);
                if before.contains(k) {
                    let j = choose|j: int| 0 <= j < before.len() && before[j] == k;
                    assert(at[j] == k);
                }
                if at.contains(k) {
                    let j = choose|j: int| 0 <= j < at.len() && at[j] == k;
                    assert(before[j] == k);
                }
            } else {
                if at.contains(k) {
                    let j = choose|j: int| 0 <= j < at.len() && at[j] == k;
                    if j < before.len() {
                        assert(before[j] < n);
                    }
                }
                if is_due(rows.last(), now) {
                    assert(at[before.len() as int] == k);
                }
            }
        }
        at
    }
}

/// What a row holds is what its parts hold, and lists hold each of them, in order.
pub proof fn law_contents_of_rows(
    row: MangaRow,
    rows: Seq<MangaRow>,
    due: Seq<MangaCheck>,
    n: usize,
    i: int,
)
    ensures
        row@.id == row.id@ && row@.title == row.title@ && row@.status == row.status@,
        row@.remote_chapters == row.remote_chapters && row@.local_chapters == row.local_chapters,
        row@.last_checked == row.last_checked && row@.next_check == row.next_check,
        row@.check_interval_hours == row.check_interval_hours,
        row_view(Some(&row)) == Some(row@),
        row_view(None) is None,
        row_views(rows).len() == rows.len(),
        0 <= i < rows.len() ==> row_views(rows)[i] == rows[i]@,
        check_ids(due).len() == due.len(),
        0 <= i < due.len() ==> check_ids(due)[i] == due[i].id@,
        count_in(Some(n)) == Some(n as int),
        count_in(None) is None,
{
}

/// A check can be scheduled as long as its interval in seconds and its time are numbers of 64 bits.
pub proof fn law_what_can_be_scheduled(now: int, hours: int)
    ensures
        in_time(now, hours) <==> -0x8000_0000_0000_0000 <= hours * 3600 <= 0x7fff_ffff_ffff_ffff
            && -0x8000_0000_0000_0000 <= now + hours * 3600 <= 0x7fff_ffff_ffff_ffff,
{
}

} // verus!
