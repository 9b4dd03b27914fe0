//! Decisions of the command-line front end.
use crate::models::{self, Chapter, ChapterView, Manga};
use crate::text::{self, CharClass};
use crate::utils;
use vstd::prelude::*;

verus! {

/// The largest number of search results that the user is asked to choose from.
pub const MAX_CHOICES: usize = 10;

/// What to do with the results of a search.
pub enum MangaChoice {
    /// There is nothing to choose from.
    NoneFound,
    /// There is only one result: take it.
    Only(Manga),
    /// Ask the user which of these titles it is.
    Ask(Vec<String>),
}

/// The titles of a list of mangas.
pub open spec fn titles(results: Seq<Manga>) -> Seq<Seq<char>> {
    Seq::new(results.len(), |i: int| results[i].title@)
}

/// Decides whether the user has to choose. The first few titles are offered.
pub fn choose_manga(results: &Vec<Manga>) -> (choice: MangaChoice)
    ensures
        match choice {
            MangaChoice::NoneFound => results@.len() == 0,
            MangaChoice::Only(m) => results@.len() == 1 && m@ == results@[0]@,
            MangaChoice::Ask(offered) => results@.len() > 1 && text::texts(offered@)
                == if results@.len() > MAX_CHOICES {
                titles(results@).take(MAX_CHOICES as int)
            } else {
                titles(results@)
            },
        },
{
    if results.len() == 0 {
        return MangaChoice::NoneFound;
    }
    if results.len() == 1 {
        return MangaChoice::Only(results[0].clone());
    }
    let mut offered: Vec<String> = Vec::new();
    let mut i: usize = 0;
    while i < results.len() && i < MAX_CHOICES
        invariant
            i <= results@.len(),
            i <= MAX_CHOICES,
            text::texts(offered@) == titles(results@).take(i as int),
        decreases results@.len() - i,
    {
        let ghost before = text::texts(offered@);
        let title = results[i].title.clone();
        offered.push(title);
        assert(text::texts(offered@) =~= before.push(results@[i as int].title@));
        assert(titles(results@).take(i as int).push(results@[i as int].title@) =~= titles(
            results@,
        ).take(i + 1));
        i += 1;
    }
    assert(titles(results@).take(results@.len() as int) =~= titles(results@));
    MangaChoice::Ask(offered)
}

/// The manga that the user picked.
pub fn chosen_manga(results: &Vec<Manga>, selection: usize) -> (m: Manga)
    requires
        selection < results@.len(),
    ensures
        m@ == results@[selection as int]@,
{
    results[selection].clone()
}

/// The chapter selection that an answer to the prompt stands for; a blank answer selects all.
pub fn prompt_chapters(input: &str) -> (selection: String)
    ensures
        selection@ == if text::trimmed(input@).len() == 0 {
            "all"@
        } else {
            input@
        },
{
    let t = text::trim(input, CharClass::WhiteSpace);
    if t.as_str().is_empty() {
        text::copy_str("all")
    } else {
        text::copy_str(input)
    }
}

/// The number of workers for a number of chapters: at least one thread is configured, and there
/// are never more workers than chapters.
pub fn worker_count(threads: usize, chapters: usize) -> (n: usize)
    ensures
        n == if threads == 0 {
            if chapters == 0 { 0int } else { 1int }
        } else if threads <= chapters {
            threads as int
        } else {
            chapters as int
        },
{
    let t: usize = if threads == 0 {
        1
    } else {
        threads
    };
    if t <= chapters {
        t
    } else {
        chapters
    }
}

/// The largest number of characters of the list of genres.
pub const MAX_GENRE_CHARS: usize = 80;

/// The width of the column of chapter numbers.
pub const NUMBER_COLUMN: usize = 8;

/// The list of genres as it is shown.
pub fn genre_line(genres: &Vec<String>) -> (s: String)
    ensures
        s@ == utils::truncated(
            text::joined(text::texts(genres@), ", "@),
            MAX_GENRE_CHARS as int,
        ),
{
    let all = text::join(genres, ", ");
    utils::truncate_str(all.as_str(), MAX_GENRE_CHARS)
}

/// From which chapter to which a list goes; nothing where it is empty.
pub open spec fn span_of(chapters: Seq<ChapterView>) -> Seq<char> {
    if chapters.len() == 0 {
        Seq::empty()
    } else {
        " ("@ + chapters[0].number.text() + " - "@ + chapters.last().number.text() + ")"@
    }
}

/// From which chapter to which a list goes, as it is shown.
pub fn chapter_summary(chapters: &Vec<Chapter>) -> (s: String)
    requires
        models::numbered(models::chapter_views(chapters@)),
    ensures
        s@ == span_of(models::chapter_views(chapters@)),
{
    let n: usize = chapters.len();
    if n == 0 {
        return String::new();
    }
    proof {
        let views = models::chapter_views(chapters@);
        assert(views[0].number.wf());
        assert(views[n - 1].number.wf());
    }
    let mut s = text::concat(" (", chapters[0].number.to_text().as_str());
    text::push_str(&mut s, " - ");
    text::push_str(&mut s, chapters[n - 1].number.to_text().as_str());
    text::push_str(&mut s, ")");
    s
}

/// A chapter in the list of chapters: its number, aligned to the right, and its label.
pub open spec fn line_of(c: ChapterView) -> Seq<char> {
    let number = c.number.text();
    let pad = if number.len() < NUMBER_COLUMN {
        Seq::new((NUMBER_COLUMN - number.len()) as nat, |i: int| ' ')
    } else {
        Seq::empty()
    };
    pad + number + "  "@ + c.label
}

/// A chapter in the list of chapters.
pub fn chapter_line(chapter: &Chapter) -> (s: String)
    requires
        chapter@.number.wf(),
    ensures
        s@ == line_of(chapter@),
{
    let number = chapter.number.to_text();
    let n: usize = text::chars_of(number.as_str()).len();
    let mut s = String::new();
    let mut i: usize = n;
    while i < NUMBER_COLUMN
        invariant
            n <= i,
            n < NUMBER_COLUMN ==> i <= NUMBER_COLUMN,
            n >= NUMBER_COLUMN ==> i == n,
            s@ == Seq::new((i - n) as nat, |i: int| ' '),
        decreases NUMBER_COLUMN - i,
    {
        s.push(' ');
        assert(s@ =~= Seq::new((i + 1 - n) as nat, |i: int| ' '));
        i += 1;
    }
    let ghost pad = s@;
    text::push_str(&mut s, number.as_str());
    text::push_str(&mut s, "  ");
    text::push_str(&mut s, chapter.label.as_str());
    assert(n >= NUMBER_COLUMN ==> pad =~= Seq::empty());
    s
}

/// An offered title always belongs to the manga that its position picks.
pub proof fn law_offered_titles_match(results: Seq<Manga>, offered: Seq<Seq<char>>, i: int)
    requires
        offered == (if results.len() > MAX_CHOICES {
            titles(results).take(MAX_CHOICES as int)
        } else {
            titles(results)
        }),
        0 <= i < offered.len(),
    ensures
        i < results.len(),
        offered[i] == results[i]@.title,
{
}

/// A list of chapters is summed up by its first and its last number.
pub proof fn law_summary_of_a_list(chapters: Seq<ChapterView>)
    ensures
        chapters.len() == 0 ==> span_of(chapters).len() == 0,
        chapters.len() > 0 ==> span_of(chapters) == " ("@ + chapters[0].number.text() + " - "@
            + chapters[chapters.len() - 1].number.text() + ")"@,
{
}

/// A chapter is shown as its number, with spaces in front of it up to eight characters, two spaces,
/// and its label.
pub proof fn law_line_of_a_chapter(c: ChapterView)
    ensures
        ({
            let n = c.number.text();
            let line = line_of(c);
            let width: int = if n.len() < 8 {
                8
            } else {
                n.len() as int
            };
            &&& line.len() == width + 2 + c.label.len()
            &&& line.subrange(width - n.len(), width) == n
            &&& line.skip(width + 2) == c.label
            &&& forall|i: int| 0 <= i < width - n.len() ==> #[trigger] line[i] == ' '
            &&& line[width] == ' ' && line[width + 1] == ' '
        }),
{
    reveal_strlit("  ");
    let n = c.number.text();
    let line = line_of(c);
    let width: int = if n.len() < 8 {
        8
    } else {
        n.len() as int
    };
    assert(line.subrange(width - n.len(), width) =~= n);
    assert(line.skip(width + 2) =~= c.label);
}

/// The titles that are offered are those of the results, in order.
pub proof fn law_offered_titles(results: Seq<Manga>, i: int)
    requires
        0 <= i < results.len(),
    ensures
        titles(results).len() == results.len(),
        titles(results)[i] == results[i].title@,
{
}

/// Up to ten results are offered, genres are shown in up to eighty characters, and chapter numbers in
/// eight columns.
pub proof fn law_what_fits_on_the_screen()
    ensures
        MAX_CHOICES == 10,
        MAX_GENRE_CHARS == 80,
        NUMBER_COLUMN == 8,
{
}

} // verus!
