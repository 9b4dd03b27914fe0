//! The manga and chapter records that the other modules pass around.
use crate::decimal::ChapterNumber;
use crate::text;
use vstd::prelude::*;

verus! {

/// A manga series.
#[derive(Debug)]
pub struct Manga {
    /// Identifier of the manga, the last segment of its address (such as "one-piece.12345").
    pub id: String,
    /// Human-readable title.
    pub title: String,
    /// Address of the overview page.
    pub url: String,
    /// Address of the cover artwork, or nothing.
    pub cover_url: String,
    /// Publication status (such as "Ongoing" or "Completed").
    pub status: String,
    /// Synopsis.
    pub description: String,
    /// Genres.
    pub genres: Vec<String>,
    /// Authors, artists and other creators.
    pub authors: Vec<String>,
    /// Alternative titles.
    pub alt_names: Vec<String>,
}

/// A chapter of a manga.
#[derive(Debug)]
pub struct Chapter {
    /// Chapter number (fractions such as 10.5 occur).
    pub number: ChapterNumber,
    /// Title as shown to the reader.
    pub label: String,
    /// Address of the reading page.
    pub url: String,
}

/// The contents of a [`Manga`].
pub struct MangaView {
    pub id: Seq<char>,
    pub title: Seq<char>,
    pub url: Seq<char>,
    pub cover_url: Seq<char>,
    pub status: Seq<char>,
    pub description: Seq<char>,
    pub genres: Seq<Seq<char>>,
    pub authors: Seq<Seq<char>>,
    pub alt_names: Seq<Seq<char>>,
}

/// The contents of a [`Chapter`].
pub struct ChapterView {
    pub number: ChapterNumber,
    pub label: Seq<char>,
    pub url: Seq<char>,
}

impl View for Manga {
    type V = MangaView;

    open spec fn view(&self) -> MangaView {
        MangaView {
            id: self.id@,
            title: self.title@,
            url: self.url@,
            cover_url: self.cover_url@,
            status: self.status@,
            description: self.description@,
            genres: text::texts(self.genres@),
            authors: text::texts(self.authors@),
            alt_names: text::texts(self.alt_names@),
        }
    }
}

impl View for Chapter {
    type V = ChapterView;

    open spec fn view(&self) -> ChapterView {
        ChapterView { number: self.number, label: self.label@, url: self.url@ }
    }
}

/// The contents of a list of mangas.
pub open spec fn manga_views(v: Seq<Manga>) -> Seq<MangaView> {
    Seq::new(v.len(), |i: int| v[i]@)
}

/// The contents of a list of chapters.
pub open spec fn chapter_views(v: Seq<Chapter>) -> Seq<ChapterView> {
    Seq::new(v.len(), |i: int| v[i]@)
}

/// Whether every chapter has a number that is a decimal.
pub open spec fn numbered(v: Seq<ChapterView>) -> bool {
    forall|i: int| 0 <= i < v.len() ==> (#[trigger] v[i]).number.wf()
}

/// A copy of a list of strings.
pub fn copy_texts(v: &Vec<String>) -> (r: Vec<String>)
    ensures
        text::texts(r@) == text::texts(v@),
{
    let mut r: Vec<String> = Vec::new();
    let mut i: usize = 0;
    while i < v.len()
        invariant
            i <= v@.len(),
            text::texts(r@) == text::texts(v@).take(i as int),
        decreases v@.len() - i,
    {
        let ghost before = text::texts(r@);
        let s = v[i].clone();
        r.push(s);
        assert(text::texts(r@) =~= before.push(v@[i as int]@));
        assert(text::texts(v@).take(i as int).push(v@[i as int]@) =~= text::texts(v@).take(i + 1));
        i += 1;
    }
    assert(text::texts(v@).take(v@.len() as int) =~= text::texts(v@));
    r
}

impl Clone for Manga {
    fn clone(&self) -> (r: Self)
        ensures
            r@ == self@,
    {
        Manga {
            id: self.id.clone(),
            title: self.title.clone(),
            url: self.url.clone(),
            cover_url: self.cover_url.clone(),
            status: self.status.clone(),
            description: self.description.clone(),
            genres: copy_texts(&self.genres),
            authors: copy_texts(&self.authors),
            alt_names: copy_texts(&self.alt_names),
        }
    }
}

impl Clone for Chapter {
    fn clone(&self) -> (r: Self)
        ensures
            r@ == self@,
    {
        Chapter { number: self.number, label: self.label.clone(), url: self.url.clone() }
    }
}

/// A copy of a list of chapters.
pub fn copy_chapters(v: &Vec<Chapter>) -> (r: Vec<Chapter>)
    ensures
        chapter_views(r@) == chapter_views(v@),
{
    let mut r: Vec<Chapter> = Vec::new();
    let mut i: usize = 0;
    while i < v.len()
        invariant
            i <= v@.len(),
            chapter_views(r@) == chapter_views(v@).take(i as int),
        decreases v@.len() - i,
    {
        let ghost before = chapter_views(r@);
        let c = v[i].clone();
        r.push(c);
        assert(chapter_views(r@) =~= before.push(v@[i as int]@));
        assert(chapter_views(v@).take(i as int).push(v@[i as int]@) =~= chapter_views(v@).take(
            i + 1,
        ));
        i += 1;
    }
    assert(chapter_views(v@).take(v@.len() as int) =~= chapter_views(v@));
    r
}

/// What a manga and a chapter hold is what their parts hold, and a list of them holds each, in order.
pub proof fn law_contents_of_records(m: Manga, c: Chapter, ms: Seq<Manga>, cs: Seq<Chapter>, i: int)
    ensures
        m@.id == m.id@ && m@.title == m.title@ && m@.url == m.url@ && m@.cover_url == m.cover_url@
            && m@.status == m.status@ && m@.description == m.description@,
        m@.genres == text::texts(m.genres@),
        m@.authors == text::texts(m.authors@),
        m@.alt_names == text::texts(m.alt_names@),
        c@.number == c.number && c@.label == c.label@ && c@.url == c.url@,
        manga_views(ms).len() == ms.len(),
        0 <= i < ms.len() ==> manga_views(ms)[i] == ms[i]@,
        chapter_views(cs).len() == cs.len(),
        0 <= i < cs.len() ==> chapter_views(cs)[i] == cs[i]@,
{
}

} // verus!
