//! The pages of the site: search results, the page of a manga, and the pages of a chapter.
use crate::address;
use crate::decimal::ChapterNumber;
use crate::errors::{self, FetchError, FetchErrorView, RateLimitError, RateLimitErrorView};
use crate::html::{self, HtmlElement, HtmlElementView};
use crate::models::{self, Chapter, ChapterView, Manga, MangaView};
use crate::select;
use crate::text::{self, CharClass};
use vstd::prelude::*;

verus! {

// ---------------------------------------------------------------------------------------------
// Replies
// ---------------------------------------------------------------------------------------------

/// A page as it came from the server.
#[derive(Debug)]
pub struct Page {
    /// The status code.
    pub status: u16,
    /// The address that the page was found at, after redirections.
    pub url: String,
    /// The path of that address.
    pub path: String,
    /// The text of the page.
    pub body: String,
}

/// The contents of a [`Page`].
pub struct PageView {
    pub status: u16,
    pub url: Seq<char>,
    pub path: Seq<char>,
    pub body: Seq<char>,
}

impl View for Page {
    type V = PageView;

    open spec fn view(&self) -> PageView {
        PageView { status: self.status, url: self.url@, path: self.path@, body: self.body@ }
    }
}

/// The error that a reply without the wanted page is: a block, or a status code that is no
/// success. `before` and `after` are the parts of the message around the status code.
pub open spec fn refusal(
    page: PageView,
    block: Seq<char>,
    before: Seq<char>,
    after: Seq<char>,
) -> Option<FetchErrorView> {
    if errors::is_blocked_reply(page.status, page.body) {
        Some(
            FetchErrorView::RateLimit(
                RateLimitErrorView {
                    kind: errors::kind_of(None, block),
                    status: None,
                    retry_after: None,
                    reason: block,
                },
            ),
        )
    } else if !errors::is_success_status(page.status) {
        Some(FetchErrorView::Failure(before + errors::status_text(page.status) + after))
    } else {
        None
    }
}

/// The contents of an optional error.
pub open spec fn error_view(e: Option<FetchError>) -> Option<FetchErrorView> {
    match e {
        Some(e) => Some(e@),
        None => None,
    }
}

fn refused(page: &Page, block: &str, before: &str, after: &str) -> (e: Option<FetchError>)
    requires
        errors::is_status(page@.status),
    ensures
        error_view(e) == refusal(page@, block@, before@, after@),
{
    if errors::is_rate_limited_response(page.status, page.body.as_str()) {
        return Some(FetchError::RateLimit(RateLimitError::new(None, block)));
    }
    if !(200 <= page.status && page.status < 300) {
        let shown = errors::show_status(page.status);
        let mut message = text::concat(before, shown.as_str());
        text::push_str(&mut message, after);
        return Some(FetchError::Failure(message));
    }
    None
}

// ---------------------------------------------------------------------------------------------
// Links
// ---------------------------------------------------------------------------------------------

/// Where a link leads: path and whole address.
#[derive(Debug)]
pub struct Link {
    pub path: String,
    pub url: String,
}

/// The contents of a [`Link`].
pub struct LinkView {
    pub path: Seq<char>,
    pub url: Seq<char>,
}

impl View for Link {
    type V = LinkView;

    open spec fn view(&self) -> LinkView {
        LinkView { path: self.path@, url: self.url@ }
    }
}

/// The contents of an optional link.
pub open spec fn link_view(l: Option<Link>) -> Option<LinkView> {
    match l {
        Some(l) => Some(l@),
        None => None,
    }
}

/// Where the reference of an element leads, if it has one that leads anywhere. The path is taken
/// without the slashes at its end.
pub open spec fn link_of(e: Option<HtmlElementView>) -> Option<LinkView> {
    match e {
        Some(e) => match e.href {
            Some(href) => match address::joined_url(address::BASE_URL@, href) {
                Ok((path, url)) => Some(
                    LinkView { path: address::without_trailing_slashes(path), url },
                ),
                Err(_) => None,
            },
            None => None,
        },
        None => None,
    }
}

/// Follows the reference of an element.
pub fn follow(e: Option<&HtmlElement>) -> (l: Option<Link>)
    ensures
        link_view(l) == link_of(html::view_in(e)),
{
    match e {
        Some(e) => match &e.href {
            Some(href) => match address::join_url(address::BASE_URL, href.as_str()) {
                Ok((path, url)) => Some(
                    Link { path: address::trim_slashes(path.as_str()), url },
                ),
                Err(_) => None,
            },
            None => None,
        },
        None => None,
    }
}

// ---------------------------------------------------------------------------------------------
// Searching
// ---------------------------------------------------------------------------------------------

/// One entry of a page of search results.
#[derive(Debug)]
pub struct SearchItem {
    pub link: Option<Link>,
    pub title: String,
    pub cover_url: String,
    pub status: String,
}

/// The contents of a [`SearchItem`].
pub struct SearchItemView {
    pub link: Option<LinkView>,
    pub title: Seq<char>,
    pub cover_url: Seq<char>,
    pub status: Seq<char>,
}

impl View for SearchItem {
    type V = SearchItemView;

    open spec fn view(&self) -> SearchItemView {
        SearchItemView {
            link: link_view(self.link),
            title: self.title@,
            cover_url: self.cover_url@,
            status: self.status@,
        }
    }
}

/// The contents of a list of entries.
pub open spec fn item_views(v: Seq<SearchItem>) -> Seq<SearchItemView> {
    Seq::new(v.len(), |i: int| v[i]@)
}

/// The entry made of the elements found in one block of the page.
pub open spec fn item_of(
    anchor: Option<HtmlElementView>,
    cover: Option<HtmlElementView>,
    status: Option<HtmlElementView>,
) -> SearchItemView {
    SearchItemView {
        link: link_of(anchor),
        title: html::text_or_none(anchor),
        cover_url: html::lazy_source_of(cover),
        status: html::text_or_none(status),
    }
}

/// The entries of a page of search results.
pub open spec fn items_of(body: Seq<char>) -> Seq<SearchItemView> {
    let anchors = html::selected_within(body, ".item"@, ".title a"@);
    let covers = html::selected_within(body, ".item"@, ".wrap_img img"@);
    let statuses = html::selected_within(body, ".item"@, ".status"@);
    Seq::new(
        anchors.len(),
        |i: int|
            item_of(
                html::first_in_group(anchors, i),
                html::first_in_group(covers, i),
                html::first_in_group(statuses, i),
            ),
    )
}

/// A manga of which only the basics are known.
pub open spec fn basic_manga(
    path: Seq<char>,
    url: Seq<char>,
    title: Seq<char>,
    cover_url: Seq<char>,
    status: Seq<char>,
) -> MangaView {
    MangaView {
        id: address::last_segment(path),
        title,
        url,
        cover_url,
        status,
        description: Seq::empty(),
        genres: Seq::empty(),
        authors: Seq::empty(),
        alt_names: Seq::empty(),
    }
}

/// Whether a list holds a manga with the given address.
pub open spec fn has_url(list: Seq<MangaView>, url: Seq<char>) -> bool {
    exists|i: int| 0 <= i < list.len() && (#[trigger] list[i]).url == url
}

/// Whether an entry leads to a manga that is not in the list yet.
pub open spec fn is_new_manga(list: Seq<MangaView>, item: SearchItemView) -> bool {
    item.link matches Some(l) && address::is_manga_path(l.path) && !has_url(list, l.url)
}

/// The mangas that entries lead to, in order; an address that was met before is skipped.
pub open spec fn results_of(items: Seq<SearchItemView>) -> Seq<MangaView>
    decreases items.len(),
{
    if items.len() == 0 {
        Seq::empty()
    } else {
        let before = results_of(items.drop_last());
        let item = items.last();
        if is_new_manga(before, item) {
            before.push(
                basic_manga(
                    item.link->0.path,
                    item.link->0.url,
                    item.title,
                    item.cover_url,
                    item.status,
                ),
            )
        } else {
            before
        }
    }
}

/// What a search finds: the site may lead straight to the page of a manga, which is then the only
/// result; otherwise the entries of the page are the results.
pub open spec fn found_by_search(query: Seq<char>, page: PageView) -> Seq<MangaView> {
    let path = address::without_trailing_slashes(page.path);
    if address::is_manga_path(path) {
        seq![
            basic_manga(
                path,
                page.url,
                match html::first_of(html::selected(page.body, "h1"@)) {
                    Some(e) => html::text_of(e),
                    None => query,
                },
                html::source_of(html::first_of(html::selected(page.body, ".cover img"@))),
                html::text_or_none(html::first_of(html::selected(page.body, ".status"@))),
            ),
        ]
    } else {
        results_of(items_of(page.body))
    }
}

/// Reads the entries of a page of search results.
pub fn read_items(body: &str) -> (items: Vec<SearchItem>)
    requires
        html::fits_parser(body@),
    ensures
        item_views(items@) == items_of(body@),
{
    proof {
        reveal_strlit(".item");
        reveal_strlit(".title a");
        reveal_strlit(".wrap_img img");
        reveal_strlit(".status");
    }
    let anchors = html::select_within(body, ".item", ".title a");
    let covers = html::select_within(body, ".item", ".wrap_img img");
    let statuses = html::select_within(body, ".item", ".status");
    let mut items: Vec<SearchItem> = Vec::new();
    let mut i: usize = 0;
    while i < anchors.len()
        invariant
            i <= anchors@.len(),
            html::group_views(anchors@) == html::selected_within(body@, ".item"@, ".title a"@),
            html::group_views(covers@) == html::selected_within(
                body@,
                ".item"@,
                ".wrap_img img"@,
            ),
            html::group_views(statuses@) == html::selected_within(body@, ".item"@, ".status"@),
            item_views(items@) == items_of(body@).take(i as int),
        decreases anchors@.len() - i,
    {
        let ghost before = item_views(items@);
        let anchor = html::first_at(&anchors, i);
        let item = SearchItem {
            link: follow(anchor),
            title: html::text_in(anchor),
            cover_url: html::lazy_source(html::first_at(&covers, i)),
            status: html::text_in(html::first_at(&statuses, i)),
        };
        let ghost view = item@;
        items.push(item);
        assert(item_views(items@) =~= before.push(view));
        assert(items_of(body@).take(i as int).push(view) =~= items_of(body@).take(i + 1));
        i += 1;
    }
    assert(items_of(body@).take(i as int) =~= items_of(body@));
    items
}

fn known_url(list: &Vec<Manga>, url: &str) -> (b: bool)
    ensures
        b == has_url(models::manga_views(list@), url@),
{
    let mut i: usize = 0;
    while i < list.len()
        invariant
            i <= list@.len(),
            forall|k: int|
                0 <= k < i ==> (#[trigger] models::manga_views(list@)[k]).url != url@,
        decreases list@.len() - i,
    {
        assert(models::manga_views(list@)[i as int].url == list@[i as int].url@);
        if text::str_eq(list[i].url.as_str(), url) {
            return true;
        }
        i += 1;
    }
    false
}

fn make_basic(path: &str, url: &str, title: &str, cover_url: &str, status: &str) -> (m: Manga)
    ensures
        m@ == basic_manga(path@, url@, title@, cover_url@, status@),
{
    let m = Manga {
        id: address::final_segment(path),
        title: text::copy_str(title),
        url: text::copy_str(url),
        cover_url: text::copy_str(cover_url),
        status: text::copy_str(status),
        description: String::new(),
        genres: Vec::new(),
        authors: Vec::new(),
        alt_names: Vec::new(),
    };
    assert(m@.genres =~= Seq::empty());
    assert(m@.authors =~= Seq::empty());
    assert(m@.alt_names =~= Seq::empty());
    m
}

/// Collects the mangas that the entries of a page lead to.
pub fn collect_results(items: &Vec<SearchItem>) -> (results: Vec<Manga>)
    ensures
        models::manga_views(results@) == results_of(item_views(items@)),
{
    let ghost views = item_views(items@);
    let mut results: Vec<Manga> = Vec::new();
    let mut i: usize = 0;
    assert(views.take(0) =~= Seq::empty());
    assert(models::manga_views(results@) =~= Seq::empty());
    while i < items.len()
        invariant
            i <= items@.len(),
            views == item_views(items@),
            models::manga_views(results@) == results_of(views.take(i as int)),
        decreases items@.len() - i,
    {
        let ghost before = models::manga_views(results@);
        let item = &items[i];
        proof {
            assert(views.take(i + 1).drop_last() =~= views.take(i as int));
            assert(views.take(i + 1).last() == item@);
        }
        if let Some(link) = &item.link {
            if address::matches_manga_path(link.path.as_str()) && !known_url(
                &results,
                link.url.as_str(),
            ) {
                let m = make_basic(
                    link.path.as_str(),
                    link.url.as_str(),
                    item.title.as_str(),
                    item.cover_url.as_str(),
                    item.status.as_str(),
                );
                let ghost view = m@;
                results.push(m);
                assert(models::manga_views(results@) =~= before.push(view));
            }
        }
        i += 1;
    }
    assert(views.take(i as int) =~= views);
    results
}

/// The outcome of a search by its contents.
pub open spec fn search_outcome(r: Result<Vec<Manga>, FetchError>) -> Result<
    Seq<MangaView>,
    FetchErrorView,
> {
    match r {
        Ok(v) => Ok(models::manga_views(v@)),
        Err(e) => Err(e@),
    }
}

/// Reads the reply to a search.
pub fn search_manga(query: &str, page: &Page) -> (r: Result<Vec<Manga>, FetchError>)
    requires
        errors::is_status(page@.status),
        html::fits_parser(page@.body),
    ensures
        search_outcome(r) == match refusal(
            page@,
            "Search blocked or rate limited"@,
            "HTTP error "@,
            " searching MangaKatana for '"@ + query@ + "'"@,
        ) {
            Some(e) => Err::<Seq<MangaView>, FetchErrorView>(e),
            None => Ok(found_by_search(query@, page@)),
        },
{
    let mut after = text::concat(" searching MangaKatana for '", query);
    text::push_str(&mut after, "'");
    let refusal = refused(
        page,
        "Search blocked or rate limited",
        "HTTP error ",
        after.as_str(),
    );
    if let Some(e) = refusal {
        return Err(e);
    }
    let path = address::trim_slashes(page.path.as_str());
    if address::matches_manga_path(path.as_str()) {
        proof {
            reveal_strlit("h1");
            reveal_strlit(".cover img");
            reveal_strlit(".status");
        }
        let headings = html::select(page.body.as_str(), "h1");
        let covers = html::select(page.body.as_str(), ".cover img");
        let statuses = html::select(page.body.as_str(), ".status");
        let title = match html::first(&headings) {
            Some(e) => html::element_text(e),
            None => text::copy_str(query),
        };
        let cover_url = html::source(html::first(&covers));
        let status = html::text_in(html::first(&statuses));
        let m = make_basic(
            path.as_str(),
            page.url.as_str(),
            title.as_str(),
            cover_url.as_str(),
            status.as_str(),
        );
        let ghost view = m@;
        let mut results: Vec<Manga> = Vec::new();
        results.push(m);
        assert(models::manga_views(results@) =~= seq![view]);
        return Ok(results);
    }
    let items = read_items(page.body.as_str());
    Ok(collect_results(&items))
}

// ---------------------------------------------------------------------------------------------
// The page of a manga
// ---------------------------------------------------------------------------------------------

/// The strings that are not empty, in order.
pub open spec fn non_empty(v: Seq<Seq<char>>) -> Seq<Seq<char>> {
    v.filter(|s: Seq<char>| s.len() > 0)
}

/// The texts of the elements that have any.
pub open spec fn texts_in(v: Seq<HtmlElementView>) -> Seq<Seq<char>> {
    non_empty(Seq::new(v.len(), |i: int| html::text_of(v[i])))
}

/// The names in a list separated by semicolons.
pub open spec fn names_in(list: Seq<char>) -> Seq<Seq<char>> {
    let parts = text::pieces(list, ';');
    non_empty(Seq::new(parts.len(), |i: int| text::trimmed(parts[i])))
}

/// What the page of a manga says of it.
pub open spec fn details_of(page: PageView) -> MangaView {
    let id = address::last_segment(address::without_trailing_slashes(page.path));
    let body = page.body;
    MangaView {
        id,
        title: match html::first_of(html::selected(body, "h1"@)) {
            Some(e) => html::text_of(e),
            None => if id.len() == 0 {
                "manga"@
            } else {
                id
            },
        },
        url: page.url,
        cover_url: html::source_of(html::first_of(html::selected(body, ".cover img"@))),
        status: html::text_or_none(html::first_of(html::selected(body, ".status"@))),
        description: html::text_or_none(html::first_of(html::selected(body, ".summary p"@))),
        genres: texts_in(html::selected(body, ".genres a"@)),
        authors: texts_in(html::selected(body, ".authors a.author"@)),
        alt_names: names_in(
            html::text_or_none(html::first_of(html::selected(body, ".alt_name"@))),
        ),
    }
}

/// A link of a page with its text.
#[derive(Debug)]
pub struct LabelledLink {
    pub link: Option<Link>,
    pub label: String,
}

/// The contents of a [`LabelledLink`].
pub struct LabelledLinkView {
    pub link: Option<LinkView>,
    pub label: Seq<char>,
}

impl View for LabelledLink {
    type V = LabelledLinkView;

    open spec fn view(&self) -> LabelledLinkView {
        LabelledLinkView { link: link_view(self.link), label: self.label@ }
    }
}

/// The contents of a list of links.
pub open spec fn labelled_views(v: Seq<LabelledLink>) -> Seq<LabelledLinkView> {
    Seq::new(v.len(), |i: int| v[i]@)
}

/// The links of a page.
pub open spec fn links_of(body: Seq<char>) -> Seq<LabelledLinkView> {
    let anchors = html::selected(body, "a[href]"@);
    Seq::new(
        anchors.len(),
        |i: int|
            LabelledLinkView {
                link: link_of(Some(anchors[i])),
                label: html::text_of(anchors[i]),
            },
    )
}

/// The chapter that a link leads to, where it leads to one of the manga with the given path. The
/// number is the one in the address; a link without text is labelled by it.
pub open spec fn chapter_of(link: LabelledLinkView, manga_path: Seq<char>) -> Option<ChapterView> {
    match link.link {
        Some(l) => match address::chapter_path_parts(l.path) {
            Some((segment, number)) => if manga_path.is_suffix_of(
                address::path_of_segment(segment),
            ) {
                match ChapterNumber::parsed(number) {
                    Some(n) => Some(
                        ChapterView {
                            number: n,
                            label: if link.label.len() == 0 {
                                "Chapter "@ + number
                            } else {
                                link.label
                            },
                            url: l.url,
                        },
                    ),
                    None => None,
                }
            } else {
                None
            },
            None => None,
        },
        None => None,
    }
}

/// The chapters that the links of a page lead to, in order.
pub open spec fn chapters_found(links: Seq<LabelledLinkView>, manga_path: Seq<char>) -> Seq<
    ChapterView,
>
    decreases links.len(),
{
    if links.len() == 0 {
        Seq::empty()
    } else {
        let before = chapters_found(links.drop_last(), manga_path);
        match chapter_of(links.last(), manga_path) {
            Some(c) => before.push(c),
            None => before,
        }
    }
}

/// The chapters of a manga, by the links of its page.
pub open spec fn chapters_of(page: PageView) -> Seq<ChapterView> {
    select::ordered(
        chapters_found(links_of(page.body), address::without_trailing_slashes(page.path)),
    )
}

fn keep_non_empty(v: &Vec<String>) -> (r: Vec<String>)
    ensures
        text::texts(r@) == non_empty(text::texts(v@)),
{
    let ghost all = text::texts(v@);
    let ghost keep = |s: Seq<char>| s.len() > 0;
    let mut r: Vec<String> = Vec::new();
    let mut i: usize = 0;
    reveal(Seq::filter);
    assert(all.take(0) =~= Seq::empty());
    while i < v.len()
        invariant
            i <= v@.len(),
            all == text::texts(v@),
            keep == (|s: Seq<char>| s.len() > 0),
            text::texts(r@) == all.take(i as int).filter(keep),
        decreases v@.len() - i,
    {
        let ghost before = text::texts(r@);
        proof {
            reveal(Seq::filter);
            assert(all.take(i + 1).drop_last() =~= all.take(i as int));
            assert(all.take(i + 1).last() == v@[i as int]@);
        }
        if !v[i].as_str().is_empty() {
            let s = text::copy_str(v[i].as_str());
            let ghost view = s@;
            r.push(s);
            assert(text::texts(r@) =~= before.push(view));
        }
        i += 1;
    }
    assert(all.take(i as int) =~= all);
    r
}

fn element_texts(v: &Vec<HtmlElement>) -> (r: Vec<String>)
    ensures
        text::texts(r@) == texts_in(html::element_views(v@)),
{
    let ghost all = Seq::new(v@.len(), |i: int| html::text_of(html::element_views(v@)[i]));
    let mut r: Vec<String> = Vec::new();
    let mut i: usize = 0;
    while i < v.len()
        invariant
            i <= v@.len(),
            all == Seq::new(v@.len(), |i: int| html::text_of(html::element_views(v@)[i])),
            text::texts(r@) == all.take(i as int),
        decreases v@.len() - i,
    {
        let ghost before = text::texts(r@);
        let s = html::element_text(&v[i]);
        let ghost view = s@;
        r.push(s);
        assert(text::texts(r@) =~= before.push(view));
        assert(html::element_views(v@)[i as int] == v@[i as int]@);
        assert(all.take(i as int).push(view) =~= all.take(i + 1));
        i += 1;
    }
    assert(all.take(i as int) =~= all);
    assert(all =~= Seq::new(
        html::element_views(v@).len(),
        |i: int| html::text_of(html::element_views(v@)[i]),
    ));
    keep_non_empty(&r)
}

/// Reads a list of names separated by semicolons.
pub fn split_names(list: &str) -> (r: Vec<String>)
    ensures
        text::texts(r@) == names_in(list@),
{
    let parts = text::split(list, ';');
    let ghost pieces = text::pieces(list@, ';');
    let ghost all = Seq::new(pieces.len(), |i: int| text::trimmed(pieces[i]));
    let mut r: Vec<String> = Vec::new();
    let mut i: usize = 0;
    while i < parts.len()
        invariant
            i <= parts@.len(),
            pieces == text::texts(parts@),
            all == Seq::new(pieces.len(), |i: int| text::trimmed(pieces[i])),
            text::texts(r@) == all.take(i as int),
        decreases parts@.len() - i,
    {
        let ghost before = text::texts(r@);
        let s = text::trim(parts[i].as_str(), CharClass::WhiteSpace);
        let ghost view = s@;
        r.push(s);
        assert(text::texts(r@) =~= before.push(view));
        assert(all.take(i as int).push(view) =~= all.take(i + 1));
        i += 1;
    }
    assert(all.take(i as int) =~= all);
    keep_non_empty(&r)
}

/// Reads what the page of a manga says of it.
pub fn read_details(page: &Page) -> (m: Manga)
    requires
        html::fits_parser(page@.body),
    ensures
        m@ == details_of(page@),
{
    proof {
        reveal_strlit("h1");
        reveal_strlit(".summary p");
        reveal_strlit(".genres a");
        reveal_strlit(".authors a.author");
        reveal_strlit(".alt_name");
        reveal_strlit(".cover img");
        reveal_strlit(".status");
    }
    let body = page.body.as_str();
    let path = address::trim_slashes(page.path.as_str());
    let id = address::final_segment(path.as_str());
    let headings = html::select(body, "h1");
    let title = match html::first(&headings) {
        Some(e) => html::element_text(e),
        None => if id.as_str().is_empty() {
            text::copy_str("manga")
        } else {
            text::copy_str(id.as_str())
        },
    };
    let summaries = html::select(body, ".summary p");
    let genres = html::select(body, ".genres a");
    let authors = html::select(body, ".authors a.author");
    let alternatives = html::select(body, ".alt_name");
    let covers = html::select(body, ".cover img");
    let statuses = html::select(body, ".status");
    let names = html::text_in(html::first(&alternatives));
    Manga {
        id,
        title,
        url: text::copy_str(page.url.as_str()),
        cover_url: html::source(html::first(&covers)),
        status: html::text_in(html::first(&statuses)),
        description: html::text_in(html::first(&summaries)),
        genres: element_texts(&genres),
        authors: element_texts(&authors),
        alt_names: split_names(names.as_str()),
    }
}

/// Reads the links of a page.
pub fn read_links(body: &str) -> (links: Vec<LabelledLink>)
    requires
        html::fits_parser(body@),
    ensures
        labelled_views(links@) == links_of(body@),
{
    proof {
        reveal_strlit("a[href]");
    }
    let anchors = html::select(body, "a[href]");
    let mut links: Vec<LabelledLink> = Vec::new();
    let mut i: usize = 0;
    while i < anchors.len()
        invariant
            i <= anchors@.len(),
            html::element_views(anchors@) == html::selected(body@, "a[href]"@),
            labelled_views(links@) == links_of(body@).take(i as int),
        decreases anchors@.len() - i,
    {
        let ghost before = labelled_views(links@);
        let anchor = &anchors[i];
        assert(html::element_views(anchors@)[i as int] == anchor@);
        let l = LabelledLink { link: follow(Some(anchor)), label: html::element_text(anchor) };
        let ghost view = l@;
        links.push(l);
        assert(labelled_views(links@) =~= before.push(view));
        assert(links_of(body@).take(i as int).push(view) =~= links_of(body@).take(i + 1));
        i += 1;
    }
    assert(links_of(body@).take(i as int) =~= links_of(body@));
    links
}

/// The contents of an optional chapter.
pub open spec fn chapter_view(c: Option<Chapter>) -> Option<ChapterView> {
    match c {
        Some(c) => Some(c@),
        None => None,
    }
}

/// The chapter that a link leads to.
pub fn read_chapter(link: &LabelledLink, manga_path: &str) -> (c: Option<Chapter>)
    ensures
        chapter_view(c) == chapter_of(link@, manga_path@),
        c matches Some(ch) ==> ch@.number.wf(),
{
    let l = match &link.link {
        Some(l) => l,
        None => return None,
    };
    let (segment, number) = match address::split_chapter_path(l.path.as_str()) {
        Some(parts) => parts,
        None => return None,
    };
    let path = text::concat("/manga/", segment.as_str());
    if !text::ends_with(path.as_str(), manga_path) {
        return None;
    }
    match ChapterNumber::parse(number.as_str()) {
        Some(n) => {
            let label = if link.label.as_str().is_empty() {
                text::concat("Chapter ", number.as_str())
            } else {
                text::copy_str(link.label.as_str())
            };
            Some(Chapter { number: n, label, url: text::copy_str(l.url.as_str()) })
        },
        None => None,
    }
}

/// The chapters that links lead to, in ascending order, each number once.
pub fn collect_chapters(links: &Vec<LabelledLink>, manga_path: &str) -> (chapters: Vec<Chapter>)
    ensures
        models::chapter_views(chapters@) == select::ordered(
            chapters_found(labelled_views(links@), manga_path@),
        ),
        models::numbered(models::chapter_views(chapters@)),
{
    let ghost views = labelled_views(links@);
    let mut found: Vec<Chapter> = Vec::new();
    let mut i: usize = 0;
    assert(views.take(0) =~= Seq::empty());
    assert(models::chapter_views(found@) =~= Seq::empty());
    while i < links.len()
        invariant
            i <= links@.len(),
            views == labelled_views(links@),
            models::chapter_views(found@) == chapters_found(views.take(i as int), manga_path@),
            models::numbered(models::chapter_views(found@)),
        decreases links@.len() - i,
    {
        let ghost before = models::chapter_views(found@);
        proof {
            assert(views.take(i + 1).drop_last() =~= views.take(i as int));
            assert(views.take(i + 1).last() == links@[i as int]@);
        }
        if let Some(c) = read_chapter(&links[i], manga_path) {
            let ghost view = c@;
            found.push(c);
            assert(models::chapter_views(found@) =~= before.push(view));
        }
        i += 1;
    }
    assert(views.take(i as int) =~= views);
    select::order_chapters(found)
}

/// The outcome of reading the page of a manga by its contents.
pub open spec fn series_outcome(r: Result<(Manga, Vec<Chapter>), FetchError>) -> Result<
    (MangaView, Seq<ChapterView>),
    FetchErrorView,
> {
    match r {
        Ok((m, chapters)) => Ok((m@, models::chapter_views(chapters@))),
        Err(e) => Err(e@),
    }
}

/// Reads the reply to a request for the page of a manga: what it says of the manga, and its
/// chapters in ascending order.
pub fn manga_chapters(url: &str, page: &Page) -> (r: Result<(Manga, Vec<Chapter>), FetchError>)
    requires
        errors::is_status(page@.status),
        html::fits_parser(page@.body),
    ensures
        series_outcome(r) == match refusal(
            page@,
            "Manga page blocked or rate limited"@,
            "HTTP error "@,
            " fetching manga from "@ + url@,
        ) {
            Some(e) => Err::<(MangaView, Seq<ChapterView>), FetchErrorView>(e),
            None => if chapters_of(page@).len() == 0 {
                Err(FetchErrorView::Failure("No chapters found on manga page"@))
            } else {
                Ok((details_of(page@), chapters_of(page@)))
            },
        },
        r matches Ok((_, chapters)) ==> models::numbered(models::chapter_views(chapters@)),
{
    let after = text::concat(" fetching manga from ", url);
    let refusal = refused(
        page,
        "Manga page blocked or rate limited",
        "HTTP error ",
        after.as_str(),
    );
    if let Some(e) = refusal {
        return Err(e);
    }
    let manga = read_details(page);
    let path = address::trim_slashes(page.path.as_str());
    let links = read_links(page.body.as_str());
    let chapters = collect_chapters(&links, path.as_str());
    if chapters.len() == 0 {
        return Err(FetchError::Failure(text::copy_str("No chapters found on manga page")));
    }
    Ok((manga, chapters))
}

// ---------------------------------------------------------------------------------------------
// Laws
// ---------------------------------------------------------------------------------------------

/// No address occurs twice among the results of a search, and each result is named by the last
/// segment of the path of a manga.
pub proof fn law_search_results_are_distinct(items: Seq<SearchItemView>)
    ensures
        forall|i: int, j: int|
            0 <= i < j < results_of(items).len() ==> (#[trigger] results_of(items)[i]).url != (
            #[trigger] results_of(items)[j]).url,
        forall|i: int|
            0 <= i < results_of(items).len() ==> comes_from_manga_link(
                items,
                #[trigger] results_of(items)[i],
            ),
    decreases items.len(),
{
    if items.len() > 0 {
        let shorter = items.drop_last();
        let before = results_of(shorter);
        law_search_results_are_distinct(shorter);
        let r = results_of(items);
        assert forall|i: int| 0 <= i < r.len() implies comes_from_manga_link(
            items,
            #[trigger] r[i],
        ) by {
            if i < before.len() {
                let k = choose|k: int|
                    0 <= k < shorter.len() && is_link_of(#[trigger] shorter[k], before[i]);
                assert(items[k] == shorter[k]);
            } else {
                assert(is_link_of(items[items.len() - 1], r[i]));
            }
        }
        assert forall|i: int, j: int| 0 <= i < j < r.len() implies (#[trigger] r[i]).url != (
        #[trigger] r[j]).url by {
            if j == before.len() {
                assert(before[i].url == r[i].url);
            }
        }
    }
}

/// Whether an entry leads to the given manga.
pub open spec fn is_link_of(item: SearchItemView, m: MangaView) -> bool {
    item.link matches Some(l) && address::is_manga_path(l.path) && l.url == m.url && m.id
        == address::last_segment(l.path)
}

/// Whether some entry leads to the given manga.
pub open spec fn comes_from_manga_link(items: Seq<SearchItemView>, m: MangaView) -> bool {
    exists|k: int| 0 <= k < items.len() && is_link_of(#[trigger] items[k], m)
}

/// Every entry that leads to a manga is represented among the results.
pub proof fn law_search_misses_nothing(items: Seq<SearchItemView>, k: int)
    requires
        0 <= k < items.len(),
        items[k].link matches Some(l) && address::is_manga_path(l.path),
    ensures
        has_url(results_of(items), items[k].link->0.url),
    decreases items.len(),
{
    let before = results_of(items.drop_last());
    let r = results_of(items);
    let url = items[k].link->0.url;
    if k < items.len() - 1 {
        law_search_misses_nothing(items.drop_last(), k);
        let i = choose|i: int| 0 <= i < before.len() && (#[trigger] before[i]).url == url;
        assert(r[i] == before[i]);
    } else if is_new_manga(before, items.last()) {
        assert(r[before.len() as int].url == url);
    }
}

/// The chapter list of a manga is in strictly ascending order, and holds every number that the
/// links of the page lead to.
pub proof fn law_chapter_list_is_ordered(page: PageView)
    ensures
        select::ascending(chapters_of(page)),
        forall|v: int| #[trigger]
            select::has_number(chapters_of(page), v) <==> select::has_number(
                chapters_found(
                    links_of(page.body),
                    address::without_trailing_slashes(page.path),
                ),
                v,
            ),
{
    select::law_ordered_list(
        chapters_found(links_of(page.body), address::without_trailing_slashes(page.path)),
    );
}

/// A reply without the wanted page is an error: a block where it is one, without a status code and
/// with the given reason; else a failure with the status code in its message, where that is no
/// success. A success that is no block is never refused.
pub proof fn law_refused_replies(
    page: PageView,
    block: Seq<char>,
    before: Seq<char>,
    after: Seq<char>,
)
    ensures
        refusal(page, block, before, after) is None <==> 200 <= page.status <= 299,
        refusal(page, block, before, after) matches Some(FetchErrorView::RateLimit(e)) ==> {
            &&& errors::is_blocked_reply(page.status, page.body)
            &&& e.reason == block && e.status is None && e.retry_after is None
            &&& e.kind == errors::kind_of(None, block)
        },
        refusal(page, block, before, after) matches Some(FetchErrorView::Failure(m)) ==> {
            &&& !errors::is_blocked_reply(page.status, page.body)
            &&& m == before + errors::status_text(page.status) + after
        },
{
}

proof fn lemma_found_positions(links: Seq<LabelledLinkView>, manga_path: Seq<char>) -> (at: Seq<int>)
    ensures
        at.len() == chapters_found(links, manga_path).len(),
        forall|j: int|
            0 <= j < at.len() ==> 0 <= #[trigger] at[j] < links.len() && chapter_of(
                links[at[j]],
                manga_path,
            ) == Some(chapters_found(links, manga_path)[j]),
        forall|i: int, j: int| 0 <= i < j < at.len() ==> #[trigger] at[i] < #[trigger] at[j],
        forall|k: int|
            0 <= k < links.len() && chapter_of(#[trigger] links[k], manga_path) is Some
                ==> at.contains(k),
    decreases links.len(),
{
    if links.len() == 0 {
        Seq::empty()
    } else {
        let head = links.drop_last();
        let n = head.len() as int;
        let before = lemma_found_positions(head, manga_path);
        assert(forall|j: int|
            0 <= j < before.len() ==> links[#[trigger] before[j]] == head[before[j]]);
        let at = if chapter_of(links.last(), manga_path) is Some {
            before.push(n)
        } else {
            before
        };
        assert forall|k: int|
            0 <= k < links.len() && chapter_of(#[trigger] links[k], manga_path) is Some implies at.contains(
        k) by {
            if k < n {
                assert(head[k] == links[k]);
                assert(before.contains(k));
                let j = choose|j: int| 0 <= j < before.len() && before[j] == k;
                assert(at[j] == k);
            } else {
                assert(at[before.len() as int] == k);
            }
        }
        at
    }
}

/// Every chapter in the list of a manga comes from a link of its page that leads to a chapter of
/// that manga: its url is the whole address that the link leads to, its number the one in that
/// address, and its label the text of the link, or `Chapter` and the number where the link has no
/// text. It is the first such link with that number. The position of the link is given back.
pub proof fn law_chapter_comes_from_a_link(page: PageView, i: int) -> (k: int)
    requires
        0 <= i < chapters_of(page).len(),
    ensures
        ({
            let c = chapters_of(page)[i];
            let anchors = html::selected(page.body, "a[href]"@);
            let a = anchors[k];
            let target = address::joined_url("https://mangakatana.com/"@, a.href->0);
            let (path, url) = target->Ok_0;
            let parts = address::chapter_path_parts(text::trim_end_of(path, CharClass::Slash));
            let (segment, number) = parts->0;
            &&& 0 <= k < anchors.len()
            &&& a.href is Some && target is Ok && parts is Some
            &&& c.url == url
            &&& text::trim_end_of(page.path, CharClass::Slash).is_suffix_of("/manga/"@ + segment)
            &&& ChapterNumber::parsed(number) == Some(c.number)
            &&& html::text_of(a).len() > 0 ==> c.label == html::text_of(a)
            &&& html::text_of(a).len() == 0 ==> c.label == "Chapter "@ + number
            &&& forall|e: int|
                0 <= e < k ==> match chapter_of(
                    #[trigger] links_of(page.body)[e],
                    text::trim_end_of(page.path, CharClass::Slash),
                ) {
                    Some(earlier) => earlier.number.value() != c.number.value(),
                    None => true,
                }
        }),
{
    let manga_path = address::without_trailing_slashes(page.path);
    let links = links_of(page.body);
    let found = chapters_found(links, manga_path);
    let list = chapters_of(page);
    let anchors = html::selected(page.body, "a[href]"@);
    let at = lemma_found_positions(links, manga_path);
    let f = select::law_listed_chapter_was_found(found, i);
    let k = at[f];
    assert(chapter_of(links[k], manga_path) == Some(list[i]));
    assert(links[k].link == link_of(Some(anchors[k])));
    assert(links[k].label == html::text_of(anchors[k]));
    assert forall|e: int| 0 <= e < k implies match chapter_of(#[trigger] links[e], manga_path) {
        Some(earlier) => earlier.number.value() != list[i].number.value(),
        None => true,
    } by {
        if chapter_of(links[e], manga_path) is Some {
            assert(at.contains(e));
            let j = choose|j: int| 0 <= j < at.len() && at[j] == e;
            if j > f {
                assert(at[f] < at[j]);
            }
            assert(j < f);
            assert(found[j].number.value() != found[f].number.value());
        }
    }
    k
}

/// No chapter is missed: for every link of the page that leads to a chapter of the manga whose
/// number can be read, the list has a chapter with that number.
pub proof fn law_no_chapter_is_missed(page: PageView, k: int)
    requires
        0 <= k < html::selected(page.body, "a[href]"@).len(),
    ensures
        ({
            let list = chapters_of(page);
            let a = html::selected(page.body, "a[href]"@)[k];
            match a.href {
                Some(href) => match address::joined_url("https://mangakatana.com/"@, href) {
                    Ok((path, _)) => match address::chapter_path_parts(
                        text::trim_end_of(path, CharClass::Slash),
                    ) {
                        Some((segment, number)) => text::trim_end_of(
                            page.path,
                            CharClass::Slash,
                        ).is_suffix_of("/manga/"@ + segment) && ChapterNumber::parsed(
                            number,
                        ) is Some ==> exists|i: int|
                            0 <= i < list.len() && (#[trigger] list[i]).number.value()
                                == ChapterNumber::parsed(number)->0.value(),
                        None => true,
                    },
                    Err(_) => true,
                },
                None => true,
            }
        }),
        forall|i: int, j: int|
            0 <= i < j < chapters_of(page).len() ==> (#[trigger] chapters_of(
                page,
            )[i]).number.value() < (#[trigger] chapters_of(page)[j]).number.value(),
{
    let manga_path = address::without_trailing_slashes(page.path);
    let links = links_of(page.body);
    let found = chapters_found(links, manga_path);
    let at = lemma_found_positions(links, manga_path);
    assert forall|i: int, j: int| 0 <= i < j < chapters_of(page).len() implies (
    #[trigger] chapters_of(page)[i]).number.value() < (#[trigger] chapters_of(
        page,
    )[j]).number.value() by {
        select::law_chapter_list_ascends(found, i, j);
    }
    let a = html::selected(page.body, "a[href]"@)[k];
    assert(links[k].link == link_of(Some(a)));
    if chapter_of(links[k], manga_path) is Some {
        assert(at.contains(k));
        let j = choose|j: int| 0 <= j < at.len() && at[j] == k;
        let list = chapters_of(page);
        assert(found[j] == chapter_of(links[k], manga_path)->0);
        let i = select::law_found_chapter_is_listed(found, j);
        assert(list[i].number.value() == found[j].number.value());
    }
}

/// Where a search leads straight to the page of a manga, that manga is the only result: its url is
/// the whole address of the reply, its identifier the last segment of the path, its title the first
/// heading of the page, or what was searched for where there is none.
pub proof fn law_search_that_leads_to_a_manga(query: Seq<char>, page: PageView)
    requires
        address::is_manga_path(text::trim_end_of(page.path, CharClass::Slash)),
    ensures
        ({
            let r = found_by_search(query, page);
            let headings = html::selected(page.body, "h1"@);
            let covers = html::selected(page.body, ".cover img"@);
            let statuses = html::selected(page.body, ".status"@);
            &&& r.len() == 1
            &&& r[0].url == page.url
            &&& r[0].id == address::last_segment(text::trim_end_of(page.path, CharClass::Slash))
            &&& headings.len() > 0 ==> r[0].title == html::text_of(headings[0])
            &&& headings.len() == 0 ==> r[0].title == query
            &&& covers.len() > 0 ==> r[0].cover_url == html::source_of(Some(covers[0]))
            &&& covers.len() == 0 ==> r[0].cover_url.len() == 0
            &&& statuses.len() > 0 ==> r[0].status == html::text_of(statuses[0])
            &&& statuses.len() == 0 ==> r[0].status.len() == 0
            &&& r[0].description.len() == 0 && r[0].genres.len() == 0 && r[0].authors.len() == 0
                && r[0].alt_names.len() == 0
        }),
{
}

proof fn lemma_result_positions(items: Seq<SearchItemView>) -> (at: Seq<int>)
    ensures
        at.len() == results_of(items).len(),
        forall|j: int|
            0 <= j < at.len() ==> 0 <= #[trigger] at[j] < items.len() && items[at[j]].link is Some
                && address::is_manga_path(items[at[j]].link->0.path) && results_of(items)[j]
                == basic_manga(
                items[at[j]].link->0.path,
                items[at[j]].link->0.url,
                items[at[j]].title,
                items[at[j]].cover_url,
                items[at[j]].status,
            ),
        forall|i: int, j: int| 0 <= i < j < at.len() ==> #[trigger] at[i] < #[trigger] at[j],
        forall|j: int, e: int|
            0 <= j < at.len() && 0 <= e < at[j] && (#[trigger] items[e]).link is Some
                && address::is_manga_path(items[e].link->0.path) ==> items[e].link->0.url
                != items[#[trigger] at[j]].link->0.url,
    decreases items.len(),
{
    if items.len() == 0 {
        Seq::empty()
    } else {
        let head = items.drop_last();
        let n = head.len() as int;
        let before = lemma_result_positions(head);
        let list = results_of(head);
        assert(forall|j: int|
            0 <= j < before.len() ==> items[#[trigger] before[j]] == head[before[j]]);
        let at = if is_new_manga(list, items.last()) {
            before.push(n)
        } else {
            before
        };
        assert forall|j: int, e: int|
            0 <= j < at.len() && 0 <= e < at[j] && (#[trigger] items[e]).link is Some
                && address::is_manga_path(items[e].link->0.path) implies items[e].link->0.url
            != items[#[trigger] at[j]].link->0.url by {
            assert(items[e] == head[e]);
            if j < before.len() {
                assert(at[j] == before[j]);
                assert(items[at[j]] == head[before[j]]);
            } else {
                law_search_misses_nothing(head, e);
                assert(has_url(list, head[e].link->0.url));
            }
        }
        at
    }
}

/// Each result of a search comes from a block of the page whose first title link leads to a manga:
/// its url is the whole address that the link leads to, its identifier the last segment of the path,
/// its title the text of the link, its cover and its status those of the same block. It is the first
/// block that leads there; the results are in the order of the page.
pub proof fn law_results_come_from_blocks(query: Seq<char>, page: PageView) -> (at: Seq<int>)
    requires
        !address::is_manga_path(text::trim_end_of(page.path, CharClass::Slash)),
    ensures
        ({
            let r = found_by_search(query, page);
            let anchors = html::selected_within(page.body, ".item"@, ".title a"@);
            let covers = html::selected_within(page.body, ".item"@, ".wrap_img img"@);
            let statuses = html::selected_within(page.body, ".item"@, ".status"@);
            &&& at.len() == r.len()
            &&& forall|i: int, j: int| 0 <= i < j < at.len() ==> #[trigger] at[i] < #[trigger] at[j]
            &&& forall|i: int, j: int|
                0 <= i < j < r.len() ==> (#[trigger] r[i]).url != (#[trigger] r[j]).url
            &&& forall|j: int|
                #![trigger at[j]]
                0 <= j < at.len() ==> {
                    let m = r[j];
                    let k = at[j];
                    &&& 0 <= k < anchors.len() && anchors[k].len() > 0
                    &&& anchors[k][0].href is Some
                    &&& address::joined_url(
                        "https://mangakatana.com/"@,
                        anchors[k][0].href->0,
                    ) is Ok
                    &&& ({
                        let (path, url) = address::joined_url(
                            "https://mangakatana.com/"@,
                            anchors[k][0].href->0,
                        )->Ok_0;
                        &&& m.url == url
                        &&& address::is_manga_path(text::trim_end_of(path, CharClass::Slash))
                        &&& m.id == address::last_segment(
                            text::trim_end_of(path, CharClass::Slash),
                        )
                    })
                    &&& m.title == html::text_of(anchors[k][0])
                    &&& k < covers.len() && covers[k].len() > 0 ==> m.cover_url
                        == html::lazy_source_of(Some(covers[k][0]))
                    &&& !(k < covers.len() && covers[k].len() > 0) ==> m.cover_url.len() == 0
                    &&& k < statuses.len() && statuses[k].len() > 0 ==> m.status == html::text_of(
                        statuses[k][0],
                    )
                    &&& !(k < statuses.len() && statuses[k].len() > 0) ==> m.status.len() == 0
                    &&& m.description.len() == 0 && m.genres.len() == 0 && m.authors.len() == 0
                        && m.alt_names.len() == 0
                }
            &&& forall|k: int|
                0 <= k < anchors.len() && (#[trigger] anchors[k]).len() > 0 ==> match anchors[k][0].href {
                    Some(href) => match address::joined_url("https://mangakatana.com/"@, href) {
                        Ok((path, url)) => address::is_manga_path(
                            text::trim_end_of(path, CharClass::Slash),
                        ) ==> exists|i: int| 0 <= i < r.len() && (#[trigger] r[i]).url == url,
                        Err(_) => true,
                    },
                    None => true,
                }
        }),
{
    let items = items_of(page.body);
    let r = found_by_search(query, page);
    let anchors = html::selected_within(page.body, ".item"@, ".title a"@);
    let at = lemma_result_positions(items);
    law_search_results_are_distinct(items);
    assert forall|j: int| 0 <= j < at.len() implies items[#[trigger] at[j]].link == link_of(
        html::first_in_group(anchors, at[j]),
    ) by {}
    assert forall|k: int|
        0 <= k < anchors.len() && (#[trigger] anchors[k]).len() > 0 implies match anchors[k][0].href {
        Some(href) => match address::joined_url("https://mangakatana.com/"@, href) {
            Ok((path, url)) => address::is_manga_path(
                text::trim_end_of(path, CharClass::Slash),
            ) ==> exists|i: int| 0 <= i < r.len() && (#[trigger] r[i]).url == url,
            Err(_) => true,
        },
        None => true,
    } by {
        assert(items[k].link == link_of(Some(anchors[k][0])));
        if items[k].link is Some && address::is_manga_path(items[k].link->0.path) {
            law_search_misses_nothing(items, k);
            assert(has_url(r, items[k].link->0.url));
        }
    }
    at
}

proof fn lemma_non_empty_positions(v: Seq<Seq<char>>) -> (at: Seq<int>)
    ensures
        at.len() == non_empty(v).len(),
        forall|i: int, j: int| 0 <= i < j < at.len() ==> #[trigger] at[i] < #[trigger] at[j],
        forall|j: int|
            0 <= j < at.len() ==> 0 <= #[trigger] at[j] < v.len() && non_empty(v)[j] == v[at[j]]
                && v[at[j]].len() > 0,
        forall|k: int| 0 <= k < v.len() && v[k].len() > 0 ==> #[trigger] at.contains(k),
{
    let keep = |s: Seq<char>| s.len() > 0;
    let at = select::lemma_filter_positions(v, keep);
    assert(forall|j: int| 0 <= j < at.len() ==> keep(v[#[trigger] at[j]]));
    assert forall|k: int| 0 <= k < v.len() && v[k].len() > 0 implies #[trigger] at.contains(k) by {
        assert(keep(v[k]));
    }
    at
}

/// The genres and the authors are the texts of the elements that name them, those that have any, in
/// the order of the page; nothing is added, and none is left out. The positions of those that have a
/// text are given back.
pub proof fn law_texts_of_elements(v: Seq<HtmlElementView>) -> (at: Seq<int>)
    ensures
        at.len() == texts_in(v).len(),
        forall|i: int, j: int| 0 <= i < j < at.len() ==> #[trigger] at[i] < #[trigger] at[j],
        forall|j: int|
            0 <= j < at.len() ==> 0 <= #[trigger] at[j] < v.len() && texts_in(v)[j] == html::text_of(
                v[at[j]],
            ) && texts_in(v)[j].len() > 0,
        forall|k: int|
            0 <= k < v.len() && html::text_of(v[k]).len() > 0 ==> #[trigger] at.contains(k),
{
    let all = Seq::new(v.len(), |i: int| html::text_of(v[i]));
    let at = lemma_non_empty_positions(all);
    assert forall|k: int| 0 <= k < v.len() && html::text_of(v[k]).len() > 0 implies #[trigger] at.contains(
    k) by {
        assert(all[k].len() > 0);
    }
    at
}

/// The other names of a manga are what stands between the semicolons of their list, without the
/// white space at the ends, where something is left. Their positions in the list are given back.
pub proof fn law_other_names(list: Seq<char>) -> (at: Seq<int>)
    ensures
        ({
            let parts = text::pieces(list, ';');
            let names = names_in(list);
            &&& at.len() == names.len()
            &&& forall|i: int, j: int| 0 <= i < j < at.len() ==> #[trigger] at[i] < #[trigger] at[j]
            &&& forall|j: int|
                0 <= j < at.len() ==> 0 <= #[trigger] at[j] < parts.len() && names[j]
                    == text::trimmed(parts[at[j]]) && names[j].len() > 0
            &&& forall|k: int|
                0 <= k < parts.len() && text::trimmed(parts[k]).len() > 0 ==> #[trigger] at.contains(k)
        }),
{
    let parts = text::pieces(list, ';');
    let all = Seq::new(parts.len(), |i: int| text::trimmed(parts[i]));
    let at = lemma_non_empty_positions(all);
    assert forall|k: int|
        0 <= k < parts.len() && text::trimmed(parts[k]).len() > 0 implies #[trigger] at.contains(k) by {
        assert(all[k].len() > 0);
    }
    at
}

/// What the page of a manga says of it: the address is that of the page, the identifier the last
/// segment of its path, and the title the first heading, or the identifier where there is none. Each
/// other detail is read from the first element that has it, or from all of them.
pub proof fn law_details_of_a_manga(page: PageView)
    ensures
        ({
            let m = details_of(page);
            let id = address::last_segment(text::trim_end_of(page.path, CharClass::Slash));
            let headings = html::selected(page.body, "h1"@);
            let covers = html::selected(page.body, ".cover img"@);
            let statuses = html::selected(page.body, ".status"@);
            let summaries = html::selected(page.body, ".summary p"@);
            let names = html::selected(page.body, ".alt_name"@);
            &&& m.url == page.url
            &&& m.id == id
            &&& headings.len() > 0 ==> m.title == html::text_of(headings[0])
            &&& headings.len() == 0 && id.len() > 0 ==> m.title == id
            &&& headings.len() == 0 && id.len() == 0 ==> m.title == "manga"@
            &&& covers.len() > 0 ==> m.cover_url == html::source_of(Some(covers[0]))
            &&& covers.len() == 0 ==> m.cover_url.len() == 0
            &&& statuses.len() > 0 ==> m.status == html::text_of(statuses[0])
            &&& statuses.len() == 0 ==> m.status.len() == 0
            &&& summaries.len() > 0 ==> m.description == html::text_of(summaries[0])
            &&& summaries.len() == 0 ==> m.description.len() == 0
            &&& m.genres == texts_in(html::selected(page.body, ".genres a"@))
            &&& m.authors == texts_in(html::selected(page.body, ".authors a.author"@))
            &&& names.len() > 0 ==> m.alt_names == names_in(html::text_of(names[0]))
            &&& names.len() == 0 ==> m.alt_names == names_in(Seq::empty())
        }),
{
}

/// What pages, links and entries hold is what their parts hold, and lists of them hold each, in order.
pub proof fn law_contents_of_what_is_read(
    page: Page,
    link: Link,
    item: SearchItem,
    labelled: LabelledLink,
    items: Seq<SearchItem>,
    links: Seq<LabelledLink>,
    i: int,
)
    ensures
        page@.status == page.status && page@.url == page.url@ && page@.path == page.path@
            && page@.body == page.body@,
        link@.path == link.path@ && link@.url == link.url@,
        link_view(Some(link)) == Some(link@),
        link_view(None) is None,
        item@.link == link_view(item.link) && item@.title == item.title@ && item@.cover_url
            == item.cover_url@ && item@.status == item.status@,
        labelled@.link == link_view(labelled.link) && labelled@.label == labelled.label@,
        item_views(items).len() == items.len(),
        0 <= i < items.len() ==> item_views(items)[i] == items[i]@,
        labelled_views(links).len() == links.len(),
        0 <= i < links.len() ==> labelled_views(links)[i] == links[i]@,
{
}

/// What the outcome of reading a page holds is what was read, or the error.
pub proof fn law_contents_of_outcomes(
    results: Vec<Manga>,
    m: Manga,
    chapters: Vec<Chapter>,
    c: Chapter,
    e: FetchError,
)
    ensures
        search_outcome(Ok(results)) == Ok::<Seq<MangaView>, FetchErrorView>(
            models::manga_views(results@),
        ),
        search_outcome(Err(e)) == Err::<Seq<MangaView>, FetchErrorView>(e@),
        series_outcome(Ok((m, chapters))) == Ok::<(MangaView, Seq<ChapterView>), FetchErrorView>(
            (m@, models::chapter_views(chapters@)),
        ),
        series_outcome(Err(e)) == Err::<(MangaView, Seq<ChapterView>), FetchErrorView>(e@),
        error_view(Some(e)) == Some(e@),
        error_view(None) is None,
        chapter_view(Some(c)) == Some(c@),
        chapter_view(None) is None,
{
}

} // verus!
