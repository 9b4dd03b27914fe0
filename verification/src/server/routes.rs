//! The endpoints of the server: which one a request is for, and what it is answered.
use crate::address::{self, Address};
use crate::db::CheckTrigger;
use crate::download;
use crate::models::{self, Chapter};
use crate::server::cache::{self, MangaDir, ServerCache};
use crate::server::helpers::{self, Reply};
use crate::sorting;
use crate::text;
use crate::utils;
use std::sync::Arc;
use vstd::prelude::*;

verus! {

// ---------------------------------------------------------------------------------------------
// Requests
// ---------------------------------------------------------------------------------------------

/// The fewest workers that answer requests.
pub const MIN_WORKERS: usize = 4;

/// The most workers that answer requests.
pub const MAX_WORKERS: usize = 16;

/// The number of workers that answer requests: two for each thread, within bounds.
pub fn worker_count(threads: usize) -> (n: usize)
    requires
        threads <= usize::MAX / 2,
    ensures
        n == if threads * 2 < MIN_WORKERS {
            MIN_WORKERS as int
        } else if threads * 2 > MAX_WORKERS {
            MAX_WORKERS as int
        } else {
            threads * 2
        },
{
    let n = threads * 2;
    if n < MIN_WORKERS {
        MIN_WORKERS
    } else if n > MAX_WORKERS {
        MAX_WORKERS
    } else {
        n
    }
}

/// The address that a request is for; a request that gives only a path is for this host.
pub open spec fn target_of(raw: Seq<char>) -> Seq<char> {
    if address::looks_like_url(raw) {
        raw
    } else {
        "http://localhost"@ + raw
    }
}

/// Reads the address that a request is for. One that cannot be read is answered at once.
pub fn read_target(raw: &str) -> (r: Result<Address, Reply>)
    ensures
        match r {
            Ok(a) => address::parsed_url(target_of(raw@)) == Ok::<
                address::AddressView,
                Seq<char>,
            >(a@),
            Err(reply) => address::parsed_url(target_of(raw@)) is Err && reply@
                == helpers::text_reply(400, "Bad Request"@),
        },
{
    let parsed = if address::has_web_scheme(raw) {
        address::parse_url(raw)
    } else {
        let whole = text::concat("http://localhost", raw);
        address::parse_url(whole.as_str())
    };
    match parsed {
        Ok(a) => Ok(a),
        Err(_) => Err(helpers::bad_request("Bad Request")),
    }
}

/// An endpoint of the server.
#[derive(Debug)]
pub enum Route {
    /// Search for mangas.
    Search,
    /// What is known of a manga.
    MangaDetails(String),
    /// The chapters of a manga that are there.
    MangaChapters(String),
    /// The pages of a chapter.
    ChapterPages(String),
    /// An image of a chapter.
    Image(String),
    /// None of these.
    Unknown,
}

/// The contents of a [`Route`].
pub enum RouteView {
    Search,
    MangaDetails(Seq<char>),
    MangaChapters(Seq<char>),
    ChapterPages(Seq<char>),
    Image(Seq<char>),
    Unknown,
}

impl View for Route {
    type V = RouteView;

    open spec fn view(&self) -> RouteView {
        match self {
            Route::Search => RouteView::Search,
            Route::MangaDetails(id) => RouteView::MangaDetails(id@),
            Route::MangaChapters(id) => RouteView::MangaChapters(id@),
            Route::ChapterPages(id) => RouteView::ChapterPages(id@),
            Route::Image(rest) => RouteView::Image(rest@),
            Route::Unknown => RouteView::Unknown,
        }
    }
}

/// What stands in a string between a beginning and an ending, where it has both.
pub open spec fn between(s: Seq<char>, before: Seq<char>, after: Seq<char>) -> Option<Seq<char>> {
    if before.is_prefix_of(s) && after.is_suffix_of(s.skip(before.len() as int)) {
        Some(s.skip(before.len() as int).take(s.len() - before.len() - after.len()))
    } else {
        None
    }
}

/// The endpoint that a path leads to.
pub open spec fn route_of(path: Seq<char>) -> RouteView {
    let manga = "/api/manga/"@;
    let image = "/api/image/"@;
    if path == "/api/search"@ {
        RouteView::Search
    } else if manga.is_prefix_of(path) && !path.skip(manga.len() as int).contains('/') {
        RouteView::MangaDetails(path.skip(manga.len() as int))
    } else if between(path, manga, "/chapters"@) is Some {
        RouteView::MangaChapters(between(path, manga, "/chapters"@)->0)
    } else if between(path, "/api/chapter/"@, "/pages"@) is Some {
        RouteView::ChapterPages(between(path, "/api/chapter/"@, "/pages"@)->0)
    } else if image.is_prefix_of(path) {
        RouteView::Image(path.skip(image.len() as int))
    } else {
        RouteView::Unknown
    }
}

fn strip_both(s: &str, before: &str, after: &str) -> (r: Option<String>)
    ensures
        match r {
            Some(t) => between(s@, before@, after@) == Some(t@),
            None => between(s@, before@, after@) is None,
        },
{
    match text::strip_prefix(s, before) {
        Some(rest) => text::strip_suffix(rest.as_str(), after),
        None => None,
    }
}

/// Finds the endpoint that a path leads to.
pub fn handle_route(path: &str) -> (route: Route)
    ensures
        route@ == route_of(path@),
{
    if text::str_eq(path, "/api/search") {
        return Route::Search;
    }
    if let Some(id) = text::strip_prefix(path, "/api/manga/") {
        if !helpers::has_char(id.as_str(), '/') {
            return Route::MangaDetails(id);
        }
    }
    if let Some(id) = strip_both(path, "/api/manga/", "/chapters") {
        return Route::MangaChapters(id);
    }
    if let Some(id) = strip_both(path, "/api/chapter/", "/pages") {
        return Route::ChapterPages(id);
    }
    if let Some(rest) = text::strip_prefix(path, "/api/image/") {
        return Route::Image(rest);
    }
    Route::Unknown
}

/// The last value given for a parameter.
pub open spec fn parameter(query: Seq<(Seq<char>, Seq<char>)>, key: Seq<char>) -> Option<Seq<char>>
    decreases query.len(),
{
    if query.len() == 0 {
        None
    } else if query.last().0 == key {
        Some(query.last().1)
    } else {
        parameter(query.drop_last(), key)
    }
}

/// What a request for a search looks for: the parameter `q`. Without one the request is refused.
pub fn search(query: &Vec<(String, String)>) -> (r: Result<String, Reply>)
    ensures
        match r {
            Ok(q) => parameter(address::pairs(query@), "q"@) == Some(q@),
            Err(reply) => parameter(address::pairs(query@), "q"@) is None && reply@
                == helpers::text_reply(400, "Missing q"@),
        },
{
    let ghost pairs = address::pairs(query@);
    let mut i: usize = query.len();
    assert(pairs.take(i as int) =~= pairs);
    while i > 0
        invariant
            i <= query@.len(),
            pairs == address::pairs(query@),
            parameter(pairs, "q"@) == parameter(pairs.take(i as int), "q"@),
        decreases i,
    {
        proof {
            assert(pairs.take(i as int).drop_last() =~= pairs.take(i - 1));
            assert(pairs.take(i as int).last() == (query@[i - 1].0@, query@[i - 1].1@));
        }
        if text::str_eq(query[i - 1].0.as_str(), "q") {
            return Ok(text::copy_str(query[i - 1].1.as_str()));
        }
        i -= 1;
    }
    Err(helpers::bad_request("Missing q"))
}

/// The address of the page that a request about a manga has to read. An identifier that is no
/// valid name is refused.
pub fn manga_details(id: &str) -> (r: Result<String, Reply>)
    ensures
        match r {
            Ok(url) => helpers::valid_segment(id@) && url@ == address::manga_url_of(id@),
            Err(reply) => !helpers::valid_segment(id@) && reply@ == helpers::text_reply(
                400,
                "Invalid manga ID"@,
            ),
        },
{
    if !helpers::is_valid_segment(id) {
        return Err(helpers::bad_request("Invalid manga ID"));
    }
    Ok(address::manga_url(id))
}

// ---------------------------------------------------------------------------------------------
// The chapters that are there
// ---------------------------------------------------------------------------------------------

/// What follows from comparing the chapters of a manga with the archives that exist.
pub struct ChaptersAnswer {
    /// The chapters that are there.
    pub existing: Vec<Chapter>,
    /// Whether chapters are missing, which have to be downloaded.
    pub has_new: bool,
    /// How the check counts for the schedule.
    pub trigger: CheckTrigger,
    /// The reply, where it is not the list of the chapters that are there.
    pub reply: Option<Reply>,
}

/// Answers a request for the chapters of a manga; `present` says which archives exist. Missing
/// chapters are downloaded in the background; where none is there yet, the reply is empty.
pub fn manga_chapters_route(chapters: &Vec<Chapter>, present: &Vec<bool>) -> (a: ChaptersAnswer)
    requires
        models::numbered(models::chapter_views(chapters@)),
        present@.len() == chapters@.len(),
    ensures
        models::chapter_views(a.existing@) == utils::with_presence(
            models::chapter_views(chapters@),
            present@,
            true,
        ),
        a.has_new == (a.existing@.len() < chapters@.len()),
        a.trigger == (CheckTrigger::UserRequest { new_chapters: a.has_new }),
        match a.reply {
            Some(r) => a.has_new && a.existing@.len() == 0 && r@ == helpers::accepted_reply(),
            None => !(a.has_new && a.existing@.len() == 0),
        },
{
    let (_width, existing, missing) = utils::scan_manga_chapters(chapters, present);
    let has_new = missing.len() > 0;
    let reply = if has_new && existing.len() == 0 {
        Some(helpers::accepted_empty())
    } else {
        None
    };
    ChaptersAnswer {
        existing,
        has_new,
        trigger: CheckTrigger::UserRequest { new_chapters: has_new },
        reply,
    }
}

/// What the periodic check of a manga leads to: how many chapters are there, how the check counts
/// for the schedule, and whether there is something to download.
pub fn cron_check(chapters: &Vec<Chapter>, present: &Vec<bool>) -> (r: (usize, CheckTrigger, bool))
    requires
        models::numbered(models::chapter_views(chapters@)),
        present@.len() == chapters@.len(),
    ensures
        r.0 == utils::with_presence(
            models::chapter_views(chapters@),
            present@,
            true,
        ).len(),
        r.1 == (CheckTrigger::Cron { new_chapters: r.2 }),
        r.2 == (r.0 < chapters@.len()),
{
    let (_width, existing, missing) = utils::scan_manga_chapters(chapters, present);
    assert(models::chapter_views(existing@).len() == existing@.len());
    let update = missing.len() > 0;
    (existing.len(), CheckTrigger::Cron { new_chapters: update }, update)
}

// ---------------------------------------------------------------------------------------------
// The pages of a chapter
// ---------------------------------------------------------------------------------------------

/// What to do about a request for the pages of a chapter.
#[derive(Debug)]
pub enum PagesStep {
    /// Reply this.
    Answer(Reply),
    /// The pages are known; reply them.
    Known(Vec<String>),
    /// Look at the archive of this chapter of this manga.
    Look { id: String, number: String },
}

/// Takes a request for the pages of a chapter.
pub fn chapter_pages(chap_id: &str, cache: &ServerCache) -> (step: PagesStep)
    requires
        cache.wf(),
    ensures
        match step {
            PagesStep::Answer(r) => helpers::chapter_id_parts(chap_id@) is None && r@
                == helpers::text_reply(400, "Invalid chapter ID"@),
            PagesStep::Known(pages) => helpers::chapter_id_parts(chap_id@) is Some
                && cache.pages_at(chap_id@) == Some(text::texts(pages@)),
            PagesStep::Look { id, number } => helpers::chapter_id_parts(chap_id@) == Some(
                (id@, number@),
            ) && cache.pages_at(chap_id@) is None,
        },
{
    match helpers::parse_chapter_id(chap_id) {
        None => PagesStep::Answer(helpers::bad_request("Invalid chapter ID")),
        Some((id, number)) => match cache.find_pages(chap_id) {
            Some(pages) => PagesStep::Known(pages),
            None => PagesStep::Look { id, number },
        },
    }
}

/// The reply when a chapter has no archive.
pub fn chapter_missing() -> (r: Reply)
    ensures
        r@ == helpers::text_reply(404, "Not downloaded yet"@),
{
    helpers::not_found("Not downloaded yet")
}

/// Whether an entry of an archive is a page: neither the metadata nor a directory.
pub open spec fn is_page(name: Seq<char>) -> bool {
    name != download::COMIC_INFO@ && !"/"@.is_suffix_of(name)
}

/// The address of a page of a chapter.
pub open spec fn page_address(chap_id: Seq<char>, name: Seq<char>) -> Seq<char> {
    "/api/image/"@ + chap_id + "/"@ + name
}

/// The addresses of the pages among the entries of an archive, in the order of the entries.
pub open spec fn page_addresses(chap_id: Seq<char>, names: Seq<Seq<char>>) -> Seq<Seq<char>>
    decreases names.len(),
{
    if names.len() == 0 {
        Seq::empty()
    } else {
        let before = page_addresses(chap_id, names.drop_last());
        if is_page(names.last()) {
            before.push(page_address(chap_id, names.last()))
        } else {
            before
        }
    }
}

/// Lists the pages in an archive with the given entries, in dictionary order, and remembers them.
pub fn list_pages(cache: &mut ServerCache, chap_id: &str, names: &Vec<String>) -> (pages: Vec<
    String,
>)
    requires
        old(cache).wf(),
    ensures
        text::texts(pages@) == sorting::sorted(page_addresses(chap_id@, text::texts(names@))),
        final(cache).wf(),
        forall|k: Seq<char>| #[trigger]
            final(cache).pages_at(k) == if k == chap_id@ {
                Some(text::texts(pages@))
            } else {
                old(cache).pages_at(k)
            },
        final(cache).manga_dirs == old(cache).manga_dirs,
        final(cache).image_cache == old(cache).image_cache,
{
    let mut prefix = text::concat("/api/image/", chap_id);
    text::push_str(&mut prefix, "/");
    let ghost all = text::texts(names@);
    let mut found: Vec<String> = Vec::new();
    let mut i: usize = 0;
    assert(all.take(0) =~= Seq::empty());
    assert(text::texts(found@) =~= Seq::empty());
    while i < names.len()
        invariant
            i <= names@.len(),
            all == text::texts(names@),
            prefix@ == "/api/image/"@ + chap_id@ + "/"@,
            text::texts(found@) == page_addresses(chap_id@, all.take(i as int)),
        decreases names@.len() - i,
    {
        let ghost before = text::texts(found@);
        let name = names[i].as_str();
        proof {
            assert(all.take(i + 1).drop_last() =~= all.take(i as int));
            assert(all.take(i + 1).last() == name@);
        }
        if !text::str_eq(name, download::COMIC_INFO) && !text::ends_with(name, "/") {
            let page = text::concat(prefix.as_str(), name);
            let ghost view = page@;
            found.push(page);
            assert(text::texts(found@) =~= before.push(view));
        }
        i += 1;
    }
    assert(all.take(i as int) =~= all);
    let pages = sorting::sort(found);
    cache.remember_pages(chap_id, &pages);
    pages
}

// ---------------------------------------------------------------------------------------------
// Images
// ---------------------------------------------------------------------------------------------

/// A request for an image of a chapter.
#[derive(Debug)]
pub struct ImageRequest {
    /// The manga.
    pub id: String,
    /// The chapter number.
    pub number: String,
    /// The name of the image in the archive.
    pub filename: String,
    /// The name of the image in the cache.
    pub cache_key: String,
}

/// What a request for an image asks for: the identifier of the chapter and the name of the image,
/// or the reply that refuses it.
pub open spec fn image_target(rest: Seq<char>) -> Result<
    (Seq<char>, Seq<char>),
    helpers::ReplyView,
> {
    match text::split_once_of(rest, "/"@) {
        None => Err(helpers::text_reply(404, "Not Found"@)),
        Some((chap_id, filename)) => if !helpers::valid_segment(filename) {
            Err(helpers::text_reply(400, "Invalid filename"@))
        } else if helpers::chapter_id_parts(chap_id) is None {
            Err(helpers::text_reply(400, "Invalid chapter ID"@))
        } else {
            Ok((chap_id, filename))
        },
    }
}

/// What to do about a request for an image.
#[derive(Debug)]
pub enum ImageStep {
    /// Reply this.
    Answer(Reply),
    /// Look into the archive.
    Look(ImageRequest),
}

/// Takes a request for an image. One that is in the cache is answered at once.
pub fn image(rest: &str, cache: &mut ServerCache) -> (step: ImageStep)
    requires
        old(cache).wf(),
    ensures
        final(cache).wf(),
        final(cache).manga_dirs == old(cache).manga_dirs,
        final(cache).chapter_pages == old(cache).chapter_pages,
        final(cache).image_cache.limit() == old(cache).image_cache.limit(),
        match image_target(rest@) {
            Err(reply) => {
                &&& step matches ImageStep::Answer(r) && r@ == reply
                &&& final(cache).image_cache == old(cache).image_cache
            },
            Ok((chap_id, filename)) => {
                let key = chap_id + "/"@ + filename;
                &&& final(cache).image_cache.entries() == cache::touched(
                    old(cache).image_cache.entries(),
                    key,
                )
                &&& match cache::value_of(old(cache).image_cache.entries(), key) {
                    Some(data) => step matches ImageStep::Answer(r) && r@ == helpers::image_reply(
                        data,
                        utils::mime_type_of(filename),
                    ),
                    None => step matches ImageStep::Look(req) && Some((req.id@, req.number@))
                        == helpers::chapter_id_parts(chap_id) && req.filename@ == filename
                        && req.cache_key@ == key,
                }
            },
        },
{
    let (chap_id, filename) = match text::split_once(rest, "/") {
        Some(parts) => parts,
        None => return ImageStep::Answer(helpers::not_found("Not Found")),
    };
    if !helpers::is_valid_segment(filename.as_str()) {
        return ImageStep::Answer(helpers::bad_request("Invalid filename"));
    }
    let (id, number) = match helpers::parse_chapter_id(chap_id.as_str()) {
        Some(parts) => parts,
        None => return ImageStep::Answer(helpers::bad_request("Invalid chapter ID")),
    };
    let mut cache_key = text::concat(chap_id.as_str(), "/");
    text::push_str(&mut cache_key, filename.as_str());
    match cache.image_cache.get(cache_key.as_str()) {
        Some(data) => {
            let mime = utils::get_mime_type(filename.as_str());
            ImageStep::Answer(helpers::image_response(data, mime))
        },
        None => ImageStep::Look(ImageRequest { id, number, filename, cache_key }),
    }
}

/// Why an image could not be found.
#[derive(Debug, Clone, Copy)]
pub enum ImageMissing {
    /// The chapter has no archive.
    Chapter,
    /// The archive has no such entry.
    Entry,
}

/// The reply when an image could not be found.
pub fn image_missing(why: ImageMissing) -> (r: Reply)
    ensures
        r@ == helpers::text_reply(
            404,
            match why {
                ImageMissing::Chapter => "Chapter not found"@,
                ImageMissing::Entry => "Image not found in chapter"@,
            },
        ),
{
    match why {
        ImageMissing::Chapter => helpers::not_found("Chapter not found"),
        ImageMissing::Entry => helpers::not_found("Image not found in chapter"),
    }
}

/// Replies an image that was read from its archive, and puts it into the cache.
pub fn image_found(cache: &mut ServerCache, request: &ImageRequest, data: Arc<[u8]>) -> (r: Reply)
    requires
        old(cache).wf(),
        old(cache).image_cache.entries().len() < usize::MAX,
    ensures
        r@ == helpers::image_reply(data@, utils::mime_type_of(request.filename@)),
        final(cache).wf(),
        final(cache).manga_dirs == old(cache).manga_dirs,
        final(cache).chapter_pages == old(cache).chapter_pages,
        final(cache).image_cache.limit() == old(cache).image_cache.limit(),
        final(cache).image_cache.entries() == cache::stored(
            old(cache).image_cache.entries(),
            request.cache_key@,
            data@,
            old(cache).image_cache.limit(),
        ),
{
    cache.image_cache.insert(text::copy_str(request.cache_key.as_str()), data.clone());
    let mime = utils::get_mime_type(request.filename.as_str());
    helpers::image_response(data, mime)
}

// ---------------------------------------------------------------------------------------------
// Where a manga is kept
// ---------------------------------------------------------------------------------------------

/// Where a manga is kept, or how to find out.
#[derive(Debug)]
pub enum Resolution {
    /// It is kept here.
    Known(MangaDir),
    /// Its page has to be read for its title.
    FetchFrom(String),
}

/// Where the manga with an identifier is kept: as the cache says, else by the title that the
/// database holds, which the cache then remembers.
pub fn resolve_manga(cache: &mut ServerCache, id: &str, stored_title: Option<&str>) -> (r: Resolution)
    requires
        old(cache).wf(),
    ensures
        final(cache).wf(),
        final(cache).chapter_pages == old(cache).chapter_pages,
        final(cache).image_cache == old(cache).image_cache,
        match old(cache).dir_at(id@) {
            Some(dir) => {
                &&& r matches Resolution::Known(d) && d@ == dir
                &&& final(cache).manga_dirs == old(cache).manga_dirs
            },
            None => match stored_title {
                Some(title) => {
                    &&& r matches Resolution::Known(d) && d@ == cache::dir_for(title@)
                    &&& forall|k: Seq<char>| #[trigger]
                        final(cache).dir_at(k) == if k == id@ {
                            Some(cache::dir_for(title@))
                        } else {
                            old(cache).dir_at(k)
                        }
                },
                None => {
                    &&& r matches Resolution::FetchFrom(url) && url@ == address::manga_url_of(id@)
                    &&& final(cache).manga_dirs == old(cache).manga_dirs
                },
            },
        },
{
    if let Some(dir) = cache.find_dir(id) {
        return Resolution::Known(dir);
    }
    match stored_title {
        Some(title) => {
            cache.remember_dir(id, title);
            Resolution::Known(cache::make_dir(title))
        },
        None => Resolution::FetchFrom(address::manga_url(id)),
    }
}

// ---------------------------------------------------------------------------------------------
// Laws
// ---------------------------------------------------------------------------------------------

/// The endpoints about a manga are reached with every identifier that is a valid name.
pub proof fn law_manga_endpoints_are_reached(id: Seq<char>)
    requires
        helpers::valid_segment(id),
    ensures
        route_of("/api/manga/"@ + id) == RouteView::MangaDetails(id),
        route_of("/api/manga/"@ + id + "/chapters"@) == RouteView::MangaChapters(id),
{
    reveal_strlit("/api/search");
    reveal_strlit("/api/manga/");
    reveal_strlit("/chapters");
    let manga = "/api/manga/"@;
    let n = manga.len() as int;
    let short = manga + id;
    assert(short.subrange(0, n) =~= manga);
    assert(short.skip(n) =~= id);
    assert(short[5] != "/api/search"@[5]);
    let long = manga + id + "/chapters"@;
    assert(long.subrange(0, n) =~= manga);
    let rest = long.skip(n);
    assert(rest =~= id + "/chapters"@);
    assert(rest[id.len() as int] == '/');
    assert(long[5] != "/api/search"@[5]);
    assert(rest.subrange(rest.len() - 9, rest.len() as int) =~= "/chapters"@);
    assert(rest.take(long.len() - n - 9) =~= id);
}

proof fn lemma_chapter_id_has_no_slash(chap_id: Seq<char>)
    requires
        helpers::chapter_id_parts(chap_id) is Some,
    ensures
        !chap_id.contains('/'),
{
    reveal_strlit("::");
    text::lemma_find_from(chap_id, "::"@, 0);
    let i = text::find(chap_id, "::"@)->0;
    let (id, number) = helpers::chapter_id_parts(chap_id)->0;
    assert forall|k: int| 0 <= k < chap_id.len() implies chap_id[k] != '/' by {
        if k < i {
            assert(id[k] == chap_id[k]);
            assert(id.contains(id[k]));
        } else if k < i + 2 {
            assert(chap_id.subrange(i, i + 2)[k - i] == chap_id[k]);
        } else {
            assert(number[k - i - 2] == chap_id[k]);
            assert(number.contains(number[k - i - 2]));
        }
    }
}

/// Every page that is listed can be asked for at the address it is listed with: the request
/// arrives at the endpoint for images, with the chapter and the name of the page.
pub proof fn law_listed_page_is_served(chap_id: Seq<char>, name: Seq<char>)
    requires
        helpers::chapter_id_parts(chap_id) is Some,
        helpers::valid_segment(name),
    ensures
        route_of(page_address(chap_id, name)) == RouteView::Image(chap_id + "/"@ + name),
        image_target(chap_id + "/"@ + name) == Ok::<(Seq<char>, Seq<char>), helpers::ReplyView>(
            (chap_id, name),
        ),
{
    reveal_strlit("/api/search");
    reveal_strlit("/api/manga/");
    reveal_strlit("/api/chapter/");
    reveal_strlit("/api/image/");
    reveal_strlit("/");
    lemma_chapter_id_has_no_slash(chap_id);
    let path = page_address(chap_id, name);
    let image = "/api/image/"@;
    assert(path[5] == 'i');
    assert(path.subrange(0, image.len() as int) =~= image);
    assert(path.skip(image.len() as int) =~= chap_id + "/"@ + name);
    assert(!"/api/manga/"@.is_prefix_of(path)) by {
        if "/api/manga/"@.is_prefix_of(path) {
            assert(path.subrange(0, 11)[5] == path[5]);
        }
    }
    assert(!"/api/chapter/"@.is_prefix_of(path)) by {
        if "/api/chapter/"@.is_prefix_of(path) {
            assert(path.subrange(0, 13)[5] == path[5]);
        }
    }
    assert("/api/search"@[5] == 's');
    let rest = chap_id + "/"@ + name;
    let n = chap_id.len() as int;
    text::lemma_find_from(rest, "/"@, 0);
    assert(rest.subrange(n, n + 1) =~= "/"@);
    assert(text::occurs_at(rest, "/"@, n));
    let i = text::find(rest, "/"@)->0;
    assert(i == n) by {
        if i < n {
            assert(rest.subrange(i, i + 1)[0] == rest[i]);
            assert(chap_id.contains(chap_id[i]));
        }
    }
    assert(rest.take(n) =~= chap_id);
    assert(rest.skip(n + 1) =~= name);
}

proof fn lemma_common_start(start: Seq<char>, a: Seq<char>, b: Seq<char>)
    ensures
        sorting::in_order(start + a, start + b) == sorting::in_order(a, b),
    decreases start.len(),
{
    if start.len() == 0 {
        assert(start + a =~= a);
        assert(start + b =~= b);
    } else {
        lemma_common_start(start.skip(1), a, b);
        assert((start + a).skip(1) =~= start.skip(1) + a);
        assert((start + b).skip(1) =~= start.skip(1) + b);
    }
}

proof fn lemma_three_digits_spelled(n: nat)
    requires
        n < 1000,
    ensures
        download::three_digits(n) == seq![
            text::digit_char(n / 100),
            text::digit_char((n / 10) % 10),
            text::digit_char(n % 10),
        ],
{
    reveal_with_fuel(text::digits, 3);
    assert(download::three_digits(n) =~= seq![
        text::digit_char(n / 100),
        text::digit_char((n / 10) % 10),
        text::digit_char(n % 10),
    ]);
}

proof fn lemma_pages_in_order(i: int, a: Seq<char>, j: int, b: Seq<char>)
    requires
        0 <= i < j < 999,
    ensures
        sorting::in_order(download::page_entry(i, a), download::page_entry(j, b)),
{
    let n = (i + 1) as nat;
    let m = (j + 1) as nat;
    lemma_three_digits_spelled(n);
    lemma_three_digits_spelled(m);
    let x = download::page_entry(i, a);
    let y = download::page_entry(j, b);
    let k: int = if n / 100 < m / 100 {
        0
    } else if (n / 10) % 10 < (m / 10) % 10 {
        1
    } else {
        2
    };
    assert(k >= 1 ==> n / 100 == m / 100);
    assert(k == 2 ==> (n / 10) % 10 == (m / 10) % 10 && n % 10 < m % 10);
    assert(x[0] == text::digit_char(n / 100) && x[1] == text::digit_char((n / 10) % 10) && x[2]
        == text::digit_char(n % 10));
    assert(y[0] == text::digit_char(m / 100) && y[1] == text::digit_char((m / 10) % 10) && y[2]
        == text::digit_char(m % 10));
    sorting::law_dictionary_order(x, y, k);
}

/// The pages of an archive as it was written are listed in reading order, as long as their
/// numbers have three digits.
pub proof fn law_pages_are_listed_in_reading_order(
    chap_id: Seq<char>,
    extensions: Seq<Seq<char>>,
)
    requires
        extensions.len() <= 999,
        forall|i: int|
            0 <= i < extensions.len() ==> (#[trigger] extensions[i]).len() > 0
                && extensions[i].last() != '/',
    ensures
        sorting::sorted(page_addresses(chap_id, download::archive_entries(extensions)))
            == Seq::new(
            extensions.len(),
            |i: int| page_address(chap_id, download::page_entry(i, extensions[i])),
        ),
{
    let pages = Seq::new(
        extensions.len(),
        |i: int| page_address(chap_id, download::page_entry(i, extensions[i])),
    );
    lemma_listed_pages(chap_id, extensions, extensions.len() as int);
    let names = download::archive_entries(extensions);
    assert(names.take(extensions.len() + 1int) =~= names);
    assert(pages.take(extensions.len() as int) =~= pages);
    let r = sorting::dictionary();
    assert forall|i: int, j: int| 0 <= i < j < pages.len() implies #[trigger] r(
        pages[i],
        pages[j],
    ) by {
        let start = "/api/image/"@ + chap_id + "/"@;
        let a = download::page_entry(i, extensions[i]);
        let b = download::page_entry(j, extensions[j]);
        lemma_pages_in_order(i, extensions[i], j, extensions[j]);
        lemma_common_start(start, a, b);
    }
    sorting::lemma_dictionary_is_total();
    pages.lemma_sort_by_ensures(r);
    vstd::seq_lib::lemma_sorted_unique(pages, sorting::sorted(pages), r);
}

proof fn lemma_listed_pages(chap_id: Seq<char>, extensions: Seq<Seq<char>>, n: int)
    requires
        0 <= n <= extensions.len(),
        forall|i: int|
            0 <= i < extensions.len() ==> (#[trigger] extensions[i]).len() > 0
                && extensions[i].last() != '/',
    ensures
        page_addresses(chap_id, download::archive_entries(extensions).take(n + 1)) == Seq::new(
            extensions.len(),
            |i: int| page_address(chap_id, download::page_entry(i, extensions[i])),
        ).take(n),
    decreases n,
{
    let names = download::archive_entries(extensions);
    let pages = Seq::new(
        extensions.len(),
        |i: int| page_address(chap_id, download::page_entry(i, extensions[i])),
    );
    let head = names.take(n + 1);
    if n == 0 {
        assert(head.drop_last() =~= Seq::empty());
        assert(head.last() == download::COMIC_INFO@);
        assert(page_addresses(chap_id, head.drop_last()) =~= Seq::empty());
        assert(pages.take(0) =~= Seq::empty());
    } else {
        lemma_listed_pages(chap_id, extensions, n - 1);
        assert(head.drop_last() =~= names.take(n));
        let name = download::page_entry(n - 1, extensions[n - 1]);
        assert(head.last() == name);
        download::law_pages_are_not_metadata(n - 1, extensions[n - 1]);
        reveal_strlit("/");
        assert(!"/"@.is_suffix_of(name)) by {
            if "/"@.is_suffix_of(name) {
                assert(name.subrange(name.len() - 1, name.len() as int)[0] == name.last());
            }
        }
        assert(pages.take(n) =~= pages.take(n - 1).push(pages[n - 1]));
    }
}

/// A request is for the address it gives; where it gives only a path, for that path on this host.
pub proof fn law_target_of_a_request(raw: Seq<char>)
    ensures
        address::looks_like_url(raw) ==> target_of(raw) == raw,
        !address::looks_like_url(raw) ==> target_of(raw) == "http://localhost"@ + raw,
{
}

proof fn lemma_between(s: Seq<char>, before: Seq<char>, t: Seq<char>, after: Seq<char>)
    ensures
        between(before + t + after, before, after) == Some(t),
        between(s, before, after) matches Some(u) ==> s == before + u + after,
{
    let n = before.len() as int;
    let m = after.len() as int;
    let all = before + t + after;
    assert(all.subrange(0, n) =~= before);
    let rest = all.skip(n);
    assert(rest =~= t + after);
    assert(rest.subrange(rest.len() - m, rest.len() as int) =~= after);
    assert(rest.take(all.len() - n - m) =~= t);
    if before.is_prefix_of(s) && after.is_suffix_of(s.skip(n)) {
        let tail = s.skip(n);
        let u = tail.take(s.len() - n - m);
        assert(s =~= s.subrange(0, n) + tail);
        assert(tail =~= u + tail.subrange(tail.len() - m, tail.len() as int));
        assert(s =~= before + u + after);
    }
}

/// Every endpoint is reached at its address, whatever stands in the places left open: the names of
/// mangas hold no slash, what stands between the two parts of the other addresses may be anything.
pub proof fn law_endpoints(x: Seq<char>)
    ensures
        route_of("/api/search"@) == RouteView::Search,
        !x.contains('/') ==> route_of("/api/manga/"@ + x) == RouteView::MangaDetails(x),
        route_of("/api/manga/"@ + x + "/chapters"@) == RouteView::MangaChapters(x),
        route_of("/api/chapter/"@ + x + "/pages"@) == RouteView::ChapterPages(x),
        route_of("/api/image/"@ + x) == RouteView::Image(x),
{
    reveal_strlit("/api/search");
    reveal_strlit("/api/manga/");
    reveal_strlit("/api/chapter/");
    reveal_strlit("/api/image/");
    reveal_strlit("/chapters");
    reveal_strlit("/pages");
    let manga = "/api/manga/"@;
    let chapter = "/api/chapter/"@;
    let image = "/api/image/"@;
    let a = manga + x;
    assert(a[5] == 'm');
    assert(a.subrange(0, 11) =~= manga);
    assert(a.skip(11) =~= x);
    let b = manga + x + "/chapters"@;
    assert(b[5] == 'm');
    assert(b.subrange(0, 11) =~= manga);
    assert(b.skip(11)[x.len() as int] == '/');
    lemma_between(b, manga, x, "/chapters"@);
    let c = chapter + x + "/pages"@;
    assert(c[5] == 'c');
    lemma_between(c, chapter, x, "/pages"@);
    lemma_other_start(c, manga, 5);
    let d = image + x;
    assert(d[5] == 'i');
    assert(d.subrange(0, 11) =~= image);
    assert(d.skip(11) =~= x);
    lemma_other_start(d, manga, 5);
    lemma_other_start(d, chapter, 5);
    assert("/api/search"@[5] == 's');
}

proof fn lemma_other_start(s: Seq<char>, p: Seq<char>, k: int)
    requires
        0 <= k < s.len(),
        k < p.len(),
        s[k] != p[k],
    ensures
        !p.is_prefix_of(s),
{
    if p.is_prefix_of(s) {
        assert(s.subrange(0, p.len() as int)[k] == s[k]);
    }
}

/// A path leads nowhere else: the endpoint tells what the path was, and a path that leads to none has
/// none of the forms.
pub proof fn law_path_of_an_endpoint(path: Seq<char>)
    ensures
        match route_of(path) {
            RouteView::Search => path == "/api/search"@,
            RouteView::MangaDetails(id) => path == "/api/manga/"@ + id && !id.contains('/'),
            RouteView::MangaChapters(id) => path == "/api/manga/"@ + id + "/chapters"@,
            RouteView::ChapterPages(id) => path == "/api/chapter/"@ + id + "/pages"@,
            RouteView::Image(rest) => path == "/api/image/"@ + rest,
            RouteView::Unknown => {
                &&& path != "/api/search"@
                &&& forall|x: Seq<char>| !x.contains('/') ==> path != #[trigger] ("/api/manga/"@ + x)
                &&& forall|x: Seq<char>| path != #[trigger] ("/api/manga/"@ + x + "/chapters"@)
                &&& forall|x: Seq<char>| path != #[trigger] ("/api/chapter/"@ + x + "/pages"@)
                &&& forall|x: Seq<char>| path != #[trigger] ("/api/image/"@ + x)
            },
        },
{
    let manga = "/api/manga/"@;
    let chapter = "/api/chapter/"@;
    let image = "/api/image/"@;
    let none = Seq::<char>::empty();
    lemma_between(path, manga, none, "/chapters"@);
    lemma_between(path, chapter, none, "/pages"@);
    if manga.is_prefix_of(path) {
        assert(path =~= path.subrange(0, manga.len() as int) + path.skip(manga.len() as int));
    }
    if image.is_prefix_of(path) {
        assert(path =~= path.subrange(0, image.len() as int) + path.skip(image.len() as int));
    }
    if route_of(path) is Unknown {
        assert forall|x: Seq<char>| !x.contains('/') implies path != #[trigger] (manga + x) by {
            law_endpoints(x);
        }
        assert forall|x: Seq<char>| path != #[trigger] (manga + x + "/chapters"@) by {
            law_endpoints(x);
        }
        assert forall|x: Seq<char>| path != #[trigger] (chapter + x + "/pages"@) by {
            law_endpoints(x);
        }
        assert forall|x: Seq<char>| path != #[trigger] (image + x) by {
            law_endpoints(x);
        }
    }
}

/// Of several values given for a parameter the last one counts, and one that is given is found.
pub proof fn law_last_value_counts(
    before: Seq<(Seq<char>, Seq<char>)>,
    key: Seq<char>,
    value: Seq<char>,
    after: Seq<(Seq<char>, Seq<char>)>,
)
    requires
        forall|i: int| 0 <= i < after.len() ==> (#[trigger] after[i]).0 != key,
    ensures
        parameter(before.push((key, value)) + after, key) == Some(value),
        parameter(after, key) is None,
    decreases after.len(),
{
    let all = before.push((key, value)) + after;
    if after.len() == 0 {
        assert(all =~= before.push((key, value)));
        assert(all.last() == (key, value));
    } else {
        let shorter = after.drop_last();
        assert forall|i: int| 0 <= i < shorter.len() implies (#[trigger] shorter[i]).0 != key by {
            assert(shorter[i] == after[i]);
        }
        law_last_value_counts(before, key, value, shorter);
        assert(after[after.len() - 1].0 != key);
        assert(all.drop_last() =~= before.push((key, value)) + shorter);
        assert(all.last() == after.last());
    }
}

/// Which entries of an archive are listed as pages: all but the metadata and the directories, in the
/// order of the archive, each at its address. Their positions are given back.
pub proof fn law_which_entries_are_pages(chap_id: Seq<char>, names: Seq<Seq<char>>) -> (at: Seq<int>)
    ensures
        at.len() == page_addresses(chap_id, names).len(),
        forall|i: int, j: int| 0 <= i < j < at.len() ==> #[trigger] at[i] < #[trigger] at[j],
        forall|j: int|
            0 <= j < at.len() ==> 0 <= #[trigger] at[j] < names.len() && page_addresses(
                chap_id,
                names,
            )[j] == "/api/image/"@ + chap_id + "/"@ + names[at[j]],
        forall|k: int|
            0 <= k < names.len() ==> (#[trigger] at.contains(k) <==> names[k] != "ComicInfo.xml"@ && (
            names[k].len() == 0 || names[k][names[k].len() - 1] != '/')),
    decreases names.len(),
{
    if names.len() == 0 {
        Seq::empty()
    } else {
        let n = names.len() - 1;
        let last = names.last();
        let before = law_which_entries_are_pages(chap_id, names.drop_last());
        reveal_strlit("/");
        assert("/"@.is_suffix_of(last) <==> last.len() > 0 && last[last.len() - 1] == '/') by {
            if last.len() > 0 {
                let tail = last.subrange(last.len() - 1, last.len() as int);
                assert(tail[0] == last[last.len() - 1]);
                if last[last.len() - 1] == '/' {
                    assert(tail =~= "/"@);
                }
            }
        }
        let at = if is_page(last) {
            before.push(n)
        } else {
            before
        };
        assert forall|k: int| 0 <= k < names.len() implies (#[trigger] at.contains(k) <==> names[k]
            != "ComicInfo.xml"@ && (names[k].len() == 0 || names[k][names[k].len() - 1] != '/')) by {
            if k < n {
                assert(names.drop_last()[k] == names[k]);
                if before.contains(k) {
                    let j = choose|j: int| 0 <= j < before.len() && before[j] == k;
                    assert(at[j] == k);
                }
                if at.contains(k) {
                    let j = choose|j: int| 0 <= j < at.len() && at[j] == k;
                    assert(before[j] == k);
                }
            } else {
                if at.contains(k) {
                    let j = choose|j: int| 0 <= j < at.len() && at[j] == k;
                    if j < before.len() {
                        assert(before[j] < n);
                    }
                }
                if is_page(last) {
                    assert(at[before.len() as int] == k);
                }
            }
        }
        at
    }
}

/// What a request for an image asks for: the chapter up to the first slash and the file behind it. It
/// is refused without a slash, then for the name of the file, then for the chapter.
pub proof fn law_what_an_image_request_asks_for(chap_id: Seq<char>, name: Seq<char>)
    requires
        !chap_id.contains('/'),
    ensures
        image_target(chap_id) == Err::<(Seq<char>, Seq<char>), helpers::ReplyView>(
            helpers::text_reply(404, "Not Found"@),
        ),
        !helpers::valid_segment(name) ==> image_target(chap_id + "/"@ + name) == Err::<
            (Seq<char>, Seq<char>),
            helpers::ReplyView,
        >(helpers::text_reply(400, "Invalid filename"@)),
        helpers::valid_segment(name) && helpers::chapter_id_parts(chap_id) is None ==> image_target(
            chap_id + "/"@ + name,
        ) == Err::<(Seq<char>, Seq<char>), helpers::ReplyView>(
            helpers::text_reply(400, "Invalid chapter ID"@),
        ),
        helpers::valid_segment(name) && helpers::chapter_id_parts(chap_id) is Some ==> image_target(
            chap_id + "/"@ + name,
        ) == Ok::<(Seq<char>, Seq<char>), helpers::ReplyView>((chap_id, name)),
{
    reveal_strlit("/");
    let s = chap_id + "/"@ + name;
    text::law_split_once(s, "/"@);
    text::law_split_once(chap_id, "/"@);
    if let Some((a, b)) = text::split_once_of(chap_id, "/"@) {
        assert((a + "/"@ + b)[a.len() as int] == '/');
        assert(chap_id.contains(chap_id[a.len() as int]));
    }
    let (a, b) = text::split_once_of(s, "/"@)->0;
    assert(s == a + "/"@ + b);
    assert(a.len() <= chap_id.len());
    assert(a.len() == chap_id.len()) by {
        if a.len() < chap_id.len() {
            assert(s[a.len() as int] == '/');
            assert(chap_id[a.len() as int] == '/');
            assert(chap_id.contains(chap_id[a.len() as int]));
        }
    }
    assert(a =~= s.take(a.len() as int));
    assert(chap_id =~= s.take(chap_id.len() as int));
    assert(b =~= s.skip(a.len() + 1int));
    assert(name =~= s.skip(chap_id.len() + 1int));
}

/// Between four and sixteen workers answer requests.
pub proof fn law_bounds_on_workers()
    ensures
        MIN_WORKERS == 4,
        MAX_WORKERS == 16,
{
}

} // verus!
