//! Addresses of the site: how they are read, and which pages they name.
use crate::config;
use crate::text::{self, CharClass};
use url::Url;
use vstd::prelude::*;

verus! {

/// The address of the site.
pub const BASE_URL: &'static str = "https://mangakatana.com/";

/// The address of the page of the site with the given path.
pub open spec fn site_address(path: Seq<char>) -> Seq<char> {
    "https://mangakatana.com"@ + path
}

// ---------------------------------------------------------------------------------------------
// Reading addresses
// ---------------------------------------------------------------------------------------------

/// An address, taken apart.
#[derive(Debug)]
pub struct Address {
    /// The host, where there is one.
    pub host: Option<String>,
    /// The path, percent-encoded.
    pub path: String,
    /// The whole address in normal form.
    pub href: String,
    /// The decoded parameters of the query, in order.
    pub query: Vec<(String, String)>,
}

/// The contents of an [`Address`].
pub struct AddressView {
    pub host: Option<Seq<char>>,
    pub path: Seq<char>,
    pub href: Seq<char>,
    pub query: Seq<(Seq<char>, Seq<char>)>,
}

/// The contents of a list of named values.
pub open spec fn pairs(v: Seq<(String, String)>) -> Seq<(Seq<char>, Seq<char>)> {
    Seq::new(v.len(), |i: int| (v[i].0@, v[i].1@))
}

/// The characters of an optional string.
pub open spec fn chars_in(s: Option<String>) -> Option<Seq<char>> {
    match s {
        Some(s) => Some(s@),
        None => None,
    }
}

impl View for Address {
    type V = AddressView;

    open spec fn view(&self) -> AddressView {
        AddressView {
            host: chars_in(self.host),
            path: self.path@,
            href: self.href@,
            query: pairs(self.query@),
        }
    }
}

/// What the URL parser makes of a string: an address, or the reason why it is none.
pub uninterp spec fn parsed_url(s: Seq<char>) -> Result<AddressView, Seq<char>>;

/// Whether a character stands for itself in the path of a web address: a visible ASCII character
/// that is neither percent-encoded there nor ends the path nor counts as a slash.
pub open spec fn is_path_char(c: char) -> bool {
    &&& 0x21 <= c as u32 <= 0x7e
    &&& c != '"' && c != '#' && c != '<' && c != '>' && c != '?' && c != '`' && c != '{' && c != '}'
        && c != '\\'
}

/// Whether every character of a path stands for itself.
pub open spec fn is_plain(path: Seq<char>) -> bool {
    forall|i: int| 0 <= i < path.len() ==> is_path_char(#[trigger] path[i])
}

/// `Url::parse` reads an absolute address. Host, path, normal form and query parameters are what
/// `host_str`, `path`, `to_string` and `query_pairs` return of it. The path of a web address is
/// encoded, so that every character in it stands for itself, and the address of a manga on the site
/// whose path is such is read as it stands.
#[verifier::external_body]
pub(crate) fn parse_url(s: &str) -> (r: Result<Address, String>)
    ensures
        match r {
            Ok(a) => parsed_url(s@) == Ok::<AddressView, Seq<char>>(a@),
            Err(e) => parsed_url(s@) == Err::<AddressView, Seq<char>>(e@),
        },
        looks_like_url(s@) && r is Ok ==> is_plain(r->Ok_0@.path),
        forall|p: Seq<char>|
            is_manga_path(p) && is_plain(p) && s@ == #[trigger] site_address(p) ==> r is Ok
                && r->Ok_0@.host == Some("mangakatana.com"@) && r->Ok_0@.path == p
                && r->Ok_0@.href == s@,
{
    match Url::parse(s) {
        Ok(u) => Ok(
            Address {
                host: u.host_str().map(|h| h.to_string()),
                path: u.path().to_string(),
                href: u.to_string(),
                query: u.query_pairs().into_owned().collect(),
            },
        ),
        Err(e) => Err(e.to_string()),
    }
}

/// What a reference means on a page with the given address: path and normal form of the address
/// that it leads to, or the reason why it leads nowhere.
pub uninterp spec fn joined_url(base: Seq<char>, href: Seq<char>) -> Result<
    (Seq<char>, Seq<char>),
    Seq<char>,
>;

/// `Url::join` resolves a reference against a base address. Path and normal form are what `path`
/// and `to_string` return of the result. The path of a manga whose characters stand for themselves,
/// resolved against the address of the site, leads to that path on the site.
#[verifier::external_body]
pub(crate) fn join_url(base: &str, href: &str) -> (r: Result<(String, String), String>)
    ensures
        match r {
            Ok((path, url)) => joined_url(base@, href@) == Ok::<
                (Seq<char>, Seq<char>),
                Seq<char>,
            >((path@, url@)),
            Err(e) => joined_url(base@, href@) == Err::<(Seq<char>, Seq<char>), Seq<char>>(e@),
        },
        base@ == BASE_URL@ && is_manga_path(href@) && is_plain(href@) ==> r is Ok
            && r->Ok_0.0@ == href@ && r->Ok_0.1@ == site_address(href@),
{
    match Url::parse(base).and_then(|b| b.join(href)) {
        Ok(u) => Ok((u.path().to_string(), u.to_string())),
        Err(e) => Err(e.to_string()),
    }
}

/// A base address with one query parameter added.
pub uninterp spec fn url_with_parameter(
    base: Seq<char>,
    key: Seq<char>,
    value: Seq<char>,
) -> Result<Seq<char>, Seq<char>>;

/// `Url::parse_with_params` reads an address and adds an encoded parameter to its query. It gives up
/// on some addresses that are too long; the address of the site is none of them.
#[verifier::external_body]
pub(crate) fn add_parameter(base: &str, key: &str, value: &str) -> (r: Result<String, String>)
    requires
        base@ == BASE_URL@,
    ensures
        match r {
            Ok(url) => url_with_parameter(base@, key@, value@) == Ok::<Seq<char>, Seq<char>>(url@),
            Err(e) => url_with_parameter(base@, key@, value@) == Err::<Seq<char>, Seq<char>>(e@),
        },
{
    match Url::parse_with_params(base, &[(key, value)]) {
        Ok(u) => Ok(u.to_string()),
        Err(e) => Err(e.to_string()),
    }
}

/// The address of the search for a query, or the reason why there is none.
pub fn search_url(query: &str) -> (r: Result<String, String>)
    ensures
        match r {
            Ok(url) => url_with_parameter(BASE_URL@, "search"@, query@) == Ok::<
                Seq<char>,
                Seq<char>,
            >(url@),
            Err(e) => url_with_parameter(BASE_URL@, "search"@, query@) == Err::<
                Seq<char>,
                Seq<char>,
            >(e@),
        },
{
    add_parameter(BASE_URL, "search", query)
}

/// The address of the page of a manga.
pub open spec fn manga_url_of(id: Seq<char>) -> Seq<char> {
    "https://mangakatana.com/manga/"@ + id
}

/// The address of the page of a manga.
pub fn manga_url(id: &str) -> (url: String)
    ensures
        url@ == manga_url_of(id@),
{
    text::concat("https://mangakatana.com/manga/", id)
}

// ---------------------------------------------------------------------------------------------
// The grammar of paths
// ---------------------------------------------------------------------------------------------

/// Whether a path segment names a manga: some name, a point, and a number.
pub open spec fn is_manga_segment(s: Seq<char>) -> bool {
    exists|i: int| names_manga_at(s, i)
}

/// Whether the point at position `i` splits a segment into a name and a number.
pub open spec fn names_manga_at(s: Seq<char>, i: int) -> bool {
    0 < i < s.len() - 1 && s[i] == '.' && config::all_digits(s.skip(i + 1))
}

/// Whether a path is that of a manga: `/manga/<name>.<number>`.
pub open spec fn is_manga_path(path: Seq<char>) -> bool {
    let parts = text::pieces(path, '/');
    parts.len() == 3 && parts[0].len() == 0 && parts[1] == "manga"@ && is_manga_segment(parts[2])
}

/// The manga segment and the chapter number in the path of a chapter:
/// `/manga/<name>.<number>/c<chapter>`.
pub open spec fn chapter_path_parts(path: Seq<char>) -> Option<(Seq<char>, Seq<char>)> {
    let parts = text::pieces(path, '/');
    if parts.len() == 4 && parts[0].len() == 0 && parts[1] == "manga"@ && is_manga_segment(
        parts[2],
    ) && parts[3].len() > 1 && parts[3][0] == 'c' {
        Some((parts[2], parts[3].skip(1)))
    } else {
        None
    }
}

/// The path of the manga with the given segment.
pub open spec fn path_of_segment(segment: Seq<char>) -> Seq<char> {
    "/manga/"@ + segment
}

/// A path without the slashes at its end.
pub open spec fn without_trailing_slashes(path: Seq<char>) -> Seq<char> {
    text::trim_end_of(path, CharClass::Slash)
}

/// The last segment of a path.
pub open spec fn last_segment(path: Seq<char>) -> Seq<char> {
    text::pieces(path, '/').last()
}

/// Removes the slashes at the end of a path.
pub fn trim_slashes(path: &str) -> (r: String)
    ensures
        r@ == without_trailing_slashes(path@),
{
    text::trim_end(path, CharClass::Slash)
}

/// The last segment of a path.
pub fn final_segment(path: &str) -> (r: String)
    ensures
        r@ == last_segment(path@),
{
    let parts = text::split(path, '/');
    assert(text::texts(parts@).last() == parts@[parts@.len() - 1]@);
    text::copy_str(parts[parts.len() - 1].as_str())
}

fn matches_manga_segment(s: &str) -> (b: bool)
    ensures
        b == is_manga_segment(s@),
{
    let v = text::chars_of(s);
    let n: usize = v.len();
    // The number is the run of digits at the end.
    let mut i: usize = n;
    while i > 0 && '0' <= v[i - 1] && v[i - 1] <= '9'
        invariant
            v@ == s@,
            n == s@.len(),
            i <= n,
            forall|k: int| i <= k < n ==> '0' <= #[trigger] s@[k] <= '9',
        decreases i,
    {
        i -= 1;
    }
    let found = i < n && i >= 2 && v[i - 1] == '.';
    proof {
        if found {
            let tail = s@.skip(i as int);
            assert forall|k: int| 0 <= k < tail.len() implies '0' <= #[trigger] tail[k]
                <= '9' by {
                assert(tail[k] == s@[i + k]);
            }
            assert(names_manga_at(s@, i - 1));
        }
        assert forall|j: int| names_manga_at(s@, j) implies found by {
            let tail = s@.skip(j + 1);
            if i > j + 1 {
                assert(tail[i - 1 - (j + 1)] == s@[i - 1]);
            } else if i < j + 1 {
                assert('0' <= s@[j] <= '9');
            }
        }
    }
    found
}

/// Decides whether a path is that of a manga.
pub fn matches_manga_path(path: &str) -> (b: bool)
    ensures
        b == is_manga_path(path@),
{
    let parts = text::split(path, '/');
    if parts.len() != 3 {
        return false;
    }
    assert(forall|i: int| 0 <= i < 3 ==> text::texts(parts@)[i] == (#[trigger] parts@[i])@);
    parts[0].as_str().is_empty() && text::str_eq(parts[1].as_str(), "manga")
        && matches_manga_segment(parts[2].as_str())
}

/// Takes the path of a chapter apart.
pub fn split_chapter_path(path: &str) -> (r: Option<(String, String)>)
    ensures
        match r {
            Some((segment, number)) => chapter_path_parts(path@) == Some((segment@, number@)),
            None => chapter_path_parts(path@) is None,
        },
{
    let parts = text::split(path, '/');
    if parts.len() != 4 {
        return None;
    }
    assert(forall|i: int| 0 <= i < 4 ==> text::texts(parts@)[i] == (#[trigger] parts@[i])@);
    let last = text::chars_of(parts[3].as_str());
    if parts[0].as_str().is_empty() && text::str_eq(parts[1].as_str(), "manga")
        && matches_manga_segment(parts[2].as_str()) && last.len() > 1 && last[0] == 'c' {
        let number = text::string_of_range(&last, 1, last.len());
        assert(number@ =~= last@.skip(1));
        Some((text::copy_str(parts[2].as_str()), number))
    } else {
        None
    }
}

// ---------------------------------------------------------------------------------------------
// Addresses typed by the user
// ---------------------------------------------------------------------------------------------

/// Why an address does not lead to a manga.
#[derive(Debug)]
pub enum SeriesError {
    /// It is no address, for the reason given.
    Unreadable(String),
    /// It belongs to another site.
    ForeignHost,
    /// It is neither that of a manga nor that of a chapter.
    WrongPage,
}

impl SeriesError {
    /// The message shown to the user.
    pub open spec fn text(self) -> Seq<char> {
        match self {
            SeriesError::Unreadable(reason) => reason@,
            SeriesError::ForeignHost => "URL must belong to mangakatana.com"@,
            SeriesError::WrongPage => "Expected MangaKatana manga or chapter URL"@,
        }
    }

    /// The message shown to the user.
    pub fn message(&self) -> (s: String)
        ensures
            s@ == self.text(),
    {
        match self {
            SeriesError::Unreadable(reason) => text::copy_str(reason.as_str()),
            SeriesError::ForeignHost => text::copy_str("URL must belong to mangakatana.com"),
            SeriesError::WrongPage => text::copy_str("Expected MangaKatana manga or chapter URL"),
        }
    }
}

/// Whether a host is that of the site.
pub open spec fn is_site_host(host: Option<Seq<char>>) -> bool {
    host == Some("mangakatana.com"@) || host == Some("www.mangakatana.com"@)
}

/// The path of the manga that a page belongs to: that of a chapter without the chapter, that of a
/// download page without its ending, or the path itself.
pub open spec fn series_path_of(path: Seq<char>) -> Seq<char> {
    let p = without_trailing_slashes(path);
    match chapter_path_parts(p) {
        Some((segment, _)) => path_of_segment(segment),
        None => if "/download"@.is_suffix_of(p) {
            p.take(p.len() - "/download"@.len())
        } else {
            p
        },
    }
}

/// The path of the manga that an address of the site belongs to.
pub fn series_path(host: &Option<String>, path: &str) -> (r: Result<String, SeriesError>)
    ensures
        match r {
            Ok(p) => is_site_host(chars_in(*host)) && p@ == series_path_of(path@)
                && is_manga_path(p@),
            Err(SeriesError::ForeignHost) => !is_site_host(chars_in(*host)),
            Err(SeriesError::WrongPage) => is_site_host(chars_in(*host)) && !is_manga_path(
                series_path_of(path@),
            ),
            Err(SeriesError::Unreadable(_)) => false,
        },
{
    let ours = match host {
        Some(h) => text::str_eq(h.as_str(), "mangakatana.com") || text::str_eq(
            h.as_str(),
            "www.mangakatana.com",
        ),
        None => false,
    };
    if !ours {
        return Err(SeriesError::ForeignHost);
    }
    let p = trim_slashes(path);
    let series = match split_chapter_path(p.as_str()) {
        Some((segment, _)) => text::concat("/manga/", segment.as_str()),
        None => match text::strip_suffix(p.as_str(), "/download") {
            Some(stem) => stem,
            None => p,
        },
    };
    if matches_manga_path(series.as_str()) {
        Ok(series)
    } else {
        Err(SeriesError::WrongPage)
    }
}

proof fn lemma_site_address_is_url(p: Seq<char>)
    ensures
        looks_like_url(site_address(p)),
{
    reveal_strlit("https://");
    reveal_strlit("https://mangakatana.com");
    assert(site_address(p).subrange(0, 8) =~= "https://"@);
}

/// The last character of the path of a manga is a digit.
proof fn lemma_manga_path_ends_in_digit(p: Seq<char>)
    requires
        is_manga_path(p),
    ensures
        p.len() > 0,
        '0' <= p.last() <= '9',
{
    let parts = text::pieces(p, '/');
    let i = choose|i: int| names_manga_at(parts[2], i);
    let tail = parts[2].skip(i + 1);
    assert('0' <= tail[tail.len() - 1] <= '9');
    assert(tail.last() == parts[2].last());
    text::lemma_last_piece_is_suffix(p, '/');
}

/// The path of a manga is that of its series.
proof fn lemma_manga_path_is_its_series(p: Seq<char>)
    requires
        is_manga_path(p),
    ensures
        series_path_of(p) == p,
{
    lemma_manga_path_ends_in_digit(p);
    reveal_strlit("/download");
    assert(without_trailing_slashes(p) == p);
    assert(chapter_path_parts(p) is None);
    if "/download"@.is_suffix_of(p) {
        assert(p.subrange(p.len() - 9, p.len() as int)[8] == p.last());
    }
}

proof fn lemma_trimmed_is_plain(p: Seq<char>, class: CharClass)
    requires
        is_plain(p),
    ensures
        is_plain(text::trim_end_of(p, class)),
    decreases p.len(),
{
    if p.len() > 0 && class.has(p.last()) {
        lemma_trimmed_is_plain(p.drop_last(), class);
    }
}

/// What is left of an encoded path is encoded.
proof fn lemma_series_path_is_plain(path: Seq<char>)
    requires
        is_plain(path),
    ensures
        is_plain(series_path_of(path)),
{
    let p = without_trailing_slashes(path);
    lemma_trimmed_is_plain(path, CharClass::Slash);
    if let Some((segment, _)) = chapter_path_parts(p) {
        reveal_strlit("/manga/");
        let series = path_of_segment(segment);
        assert forall|i: int| 0 <= i < series.len() implies is_path_char(#[trigger] series[i]) by {
            if i >= 7 {
                assert(series[i] == segment[i - 7]);
                text::lemma_piece_chars(p, '/', 2, i - 7);
                let k = choose|k: int| 0 <= k < p.len() && p[k] == segment[i - 7];
                assert(is_path_char(p[k]));
            }
        }
    }
}

/// Whether a string begins like a web address.
pub open spec fn looks_like_url(s: Seq<char>) -> bool {
    "http://"@.is_prefix_of(s) || "https://"@.is_prefix_of(s)
}

/// Whether a string begins like a web address.
pub fn has_web_scheme(s: &str) -> (b: bool)
    ensures
        b == looks_like_url(s@),
{
    text::starts_with(s, "http://") || text::starts_with(s, "https://")
}

/// The address of the manga that the user's input names, if the input is an address at all: the
/// path of the manga on the site. What comes out is left unchanged when it is put in again.
pub fn series_url(value: &str) -> (r: Result<Option<String>, SeriesError>)
    ensures
        !looks_like_url(value@) <==> (r matches Ok(None)),
        looks_like_url(value@) ==> match parsed_url(value@) {
            Err(reason) => (r matches Err(SeriesError::Unreadable(e)) && e@ == reason),
            Ok(a) => if !is_site_host(a.host) {
                r matches Err(SeriesError::ForeignHost)
            } else if !is_manga_path(series_path_of(a.path)) {
                r matches Err(SeriesError::WrongPage)
            } else {
                r matches Ok(Some(u)) && u@ == site_address(series_path_of(a.path)) && is_plain(
                    series_path_of(a.path),
                )
            },
        },
        forall|p: Seq<char>|
            is_manga_path(p) && is_plain(p) && value@ == #[trigger] site_address(p) ==> (
            r matches Ok(Some(u)) && u@ == value@),
{
    proof {
        assert forall|p: Seq<char>|
            is_manga_path(p) && is_plain(p) && value@ == #[trigger] site_address(
                p,
            ) implies looks_like_url(value@) && series_path_of(p) == p by {
            lemma_site_address_is_url(p);
            lemma_manga_path_is_its_series(p);
        }
    }
    if !has_web_scheme(value) {
        return Ok(None);
    }
    let parsed = match parse_url(value) {
        Ok(a) => a,
        Err(e) => return Err(SeriesError::Unreadable(e)),
    };
    proof {
        lemma_series_path_is_plain(parsed@.path);
    }
    let path = match series_path(&parsed.host, parsed.path.as_str()) {
        Ok(p) => p,
        Err(e) => return Err(e),
    };
    match join_url(BASE_URL, path.as_str()) {
        Ok((_, url)) => Ok(Some(url)),
        Err(e) => Err(SeriesError::Unreadable(e)),
    }
}

// ---------------------------------------------------------------------------------------------
// Laws
// ---------------------------------------------------------------------------------------------

proof fn lemma_manga_path_pieces(segment: Seq<char>)
    requires
        !segment.contains('/'),
    ensures
        text::pieces(path_of_segment(segment), '/') == seq![
            Seq::<char>::empty(),
            "manga"@,
            segment,
        ],
{
    reveal_strlit("/manga/");
    reveal_strlit("manga");
    let none = Seq::<char>::empty();
    assert(text::pieces(none, '/') =~= seq![none]);
    text::lemma_pieces_separator(none, '/');
    let one = none.push('/');
    text::lemma_pieces_extend(one, "manga"@, '/');
    let two = one + "manga"@;
    assert(none + "manga"@ =~= "manga"@);
    assert(text::pieces(two, '/') =~= seq![none, "manga"@]);
    text::lemma_pieces_separator(two, '/');
    let three = two.push('/');
    assert(three =~= "/manga/"@);
    text::lemma_pieces_extend(three, segment, '/');
    assert(none + segment =~= segment);
    assert(text::pieces(three + segment, '/') =~= seq![none, "manga"@, segment]);
}

/// A chapter always belongs to a manga: cutting the chapter off the path of a chapter leaves the
/// path of a manga.
pub proof fn law_chapter_page_leads_to_manga(path: Seq<char>)
    requires
        chapter_path_parts(without_trailing_slashes(path)) is Some,
    ensures
        is_manga_path(series_path_of(path)),
{
    let p = without_trailing_slashes(path);
    let parts = text::pieces(p, '/');
    text::lemma_pieces_hold_no_separator(p, '/', 2);
    lemma_manga_path_pieces(parts[2]);
}

/// The path of a manga is left alone, and its last segment is the one it was made from.
pub proof fn law_manga_path_is_kept(segment: Seq<char>)
    requires
        is_manga_segment(segment),
        !segment.contains('/'),
    ensures
        is_manga_path(path_of_segment(segment)),
        last_segment(path_of_segment(segment)) == segment,
        chapter_path_parts(path_of_segment(segment)) is None,
{
    lemma_manga_path_pieces(segment);
}

/// The path made from a manga and a chapter number is read back as that manga and that number.
pub proof fn law_chapter_path_is_read_back(segment: Seq<char>, number: Seq<char>)
    requires
        is_manga_segment(segment),
        !segment.contains('/'),
        number.len() > 0,
        !number.contains('/'),
    ensures
        chapter_path_parts(path_of_segment(segment) + "/c"@ + number) == Some((segment, number)),
{
    reveal_strlit("/c");
    lemma_manga_path_pieces(segment);
    let head = path_of_segment(segment);
    let none = Seq::<char>::empty();
    text::lemma_pieces_separator(head, '/');
    let tail = seq!['c'] + number;
    assert forall|k: int| 0 <= k < tail.len() implies tail[k] != '/' by {
        if k > 0 {
            assert(number.contains(number[k - 1]));
        }
    }
    text::lemma_pieces_extend(head.push('/'), tail, '/');
    assert(head.push('/') + tail =~= head + "/c"@ + number);
    assert(none + tail =~= tail);
    let parts = text::pieces(head + "/c"@ + number, '/');
    assert(parts =~= seq![none, "manga"@, segment, tail]);
    assert(tail.skip(1) =~= number);
}

/// The path of a manga is `/manga/`, a name, a point and a number, where the name holds no slash.
pub proof fn law_manga_paths(path: Seq<char>)
    ensures
        is_manga_path(path) <==> exists|name: Seq<char>, number: Seq<char>|
            {
                &&& path == #[trigger] ("/manga/"@ + name + "."@ + number)
                &&& name.len() > 0 && !name.contains('/')
                &&& number.len() > 0 && forall|i: int|
                    0 <= i < number.len() ==> 48 <= (#[trigger] number[i]) as int <= 57
            },
{
    reveal_strlit("/manga/");
    reveal_strlit("manga");
    reveal_strlit(".");
    if is_manga_path(path) {
        let parts = text::pieces(path, '/');
        lemma_joined_three(path);
        let segment = parts[2];
        let i = choose|i: int| names_manga_at(segment, i);
        let name = segment.take(i);
        let number = segment.skip(i + 1);
        text::lemma_pieces_hold_no_separator(path, '/', 2);
        assert(!name.contains('/')) by {
            assert forall|k: int| 0 <= k < name.len() implies name[k] != '/' by {
                assert(segment.contains(segment[k]));
            }
        }
        assert(segment =~= name + "."@ + number);
        assert(path =~= "/manga/"@ + name + "."@ + number);
    }
    if exists|name: Seq<char>, number: Seq<char>|
        {
            &&& path == #[trigger] ("/manga/"@ + name + "."@ + number)
            &&& name.len() > 0 && !name.contains('/')
            &&& number.len() > 0 && forall|i: int|
                0 <= i < number.len() ==> 48 <= (#[trigger] number[i]) as int <= 57
        } {
        let (name, number) = choose|name: Seq<char>, number: Seq<char>|
            {
                &&& path == #[trigger] ("/manga/"@ + name + "."@ + number)
                &&& name.len() > 0 && !name.contains('/')
                &&& number.len() > 0 && forall|i: int|
                    0 <= i < number.len() ==> 48 <= (#[trigger] number[i]) as int <= 57
            };
        let segment = name + "."@ + number;
        assert(segment.skip(name.len() + 1int) =~= number);
        assert(names_manga_at(segment, name.len() as int));
        assert(!segment.contains('/')) by {
            assert forall|k: int| 0 <= k < segment.len() implies segment[k] != '/' by {
                if k < name.len() {
                    assert(name.contains(name[k]));
                } else if k > name.len() {
                    assert(segment[k] == number[k - name.len() - 1]);
                }
            }
        }
        lemma_manga_path_pieces(segment);
        assert(path =~= path_of_segment(segment));
    }
}

proof fn lemma_joined_three(path: Seq<char>)
    requires
        is_manga_path(path),
    ensures
        path == "/manga/"@ + text::pieces(path, '/')[2],
{
    reveal_strlit("/manga/");
    reveal_strlit("manga");
    let parts = text::pieces(path, '/');
    let m = seq!['/'];
    text::law_splitting(path, '/');
    assert(parts =~= seq![parts[0], parts[1], parts[2]]);
    let two = parts.drop_last();
    assert(two =~= seq![parts[0], parts[1]]);
    let one = two.drop_last();
    assert(one =~= seq![parts[0]]);
    assert(text::joined(one, m) == parts[0]);
    assert(text::joined(two, m) == parts[0] + m + parts[1]);
    assert(text::joined(parts, m) == parts[0] + m + parts[1] + m + parts[2]);
    assert(path =~= "/manga/"@ + parts[2]);
}

/// The path of a chapter is that of a manga, `/c`, and what the chapter is numbered by; that is what
/// it is taken apart into.
pub proof fn law_chapter_paths(path: Seq<char>)
    requires
        chapter_path_parts(path) is Some,
    ensures
        ({
            let (segment, number) = chapter_path_parts(path)->0;
            &&& path == "/manga/"@ + segment + "/c"@ + number
            &&& is_manga_path("/manga/"@ + segment)
            &&& number.len() > 0 && !number.contains('/')
            &&& !segment.contains('/')
        }),
{
    reveal_strlit("/manga/");
    reveal_strlit("manga");
    reveal_strlit("/c");
    let parts = text::pieces(path, '/');
    let (segment, number) = chapter_path_parts(path)->0;
    let m = seq!['/'];
    text::law_splitting(path, '/');
    assert(parts =~= seq![parts[0], parts[1], parts[2], parts[3]]);
    let three = parts.drop_last();
    assert(three =~= seq![parts[0], parts[1], parts[2]]);
    let two = three.drop_last();
    assert(two =~= seq![parts[0], parts[1]]);
    let one = two.drop_last();
    assert(one =~= seq![parts[0]]);
    assert(text::joined(one, m) == parts[0]);
    assert(text::joined(two, m) == parts[0] + m + parts[1]);
    assert(text::joined(three, m) == parts[0] + m + parts[1] + m + parts[2]);
    assert(text::joined(parts, m) == parts[0] + m + parts[1] + m + parts[2] + m + parts[3]);
    assert(parts[3] =~= seq!['c'] + number);
    assert(path =~= "/manga/"@ + segment + "/c"@ + number);
    text::lemma_pieces_hold_no_separator(path, '/', 2);
    text::lemma_pieces_hold_no_separator(path, '/', 3);
    assert(!number.contains('/')) by {
        assert forall|k: int| 0 <= k < number.len() implies number[k] != '/' by {
            assert(parts[3].contains(parts[3][k + 1]));
        }
    }
    law_manga_path_is_kept(segment);
}

proof fn lemma_slashes_go(path: Seq<char>, slashes: Seq<char>)
    requires
        path.len() > 0,
        path.last() != '/',
        forall|i: int| 0 <= i < slashes.len() ==> #[trigger] slashes[i] == '/',
    ensures
        without_trailing_slashes(path + slashes) == path,
    decreases slashes.len(),
{
    let all = path + slashes;
    if slashes.len() > 0 {
        lemma_slashes_go(path, slashes.drop_last());
        assert(all.drop_last() =~= path + slashes.drop_last());
        assert(all.last() == slashes[slashes.len() - 1]);
    } else {
        assert(all =~= path);
    }
}

/// The page of a manga, that of one of its chapters, and its download page all belong to the manga,
/// with slashes at the end of their addresses or without.
pub proof fn law_pages_of_a_manga(path: Seq<char>, number: Seq<char>, slashes: Seq<char>)
    requires
        is_manga_path(path),
        number.len() > 0,
        !number.contains('/'),
        forall|i: int| 0 <= i < slashes.len() ==> #[trigger] slashes[i] == '/',
    ensures
        series_path_of(path + slashes) == path,
        series_path_of(path + "/c"@ + number + slashes) == path,
        series_path_of(path + "/download"@ + slashes) == path,
        is_site_host(Some("mangakatana.com"@)),
        is_site_host(Some("www.mangakatana.com"@)),
        forall|host: Seq<char>|
            host != "mangakatana.com"@ && host != "www.mangakatana.com"@ ==> !#[trigger] is_site_host(
                Some(host),
            ),
        !is_site_host(None),
{
    reveal_strlit("/download");
    reveal_strlit("/c");
    reveal_strlit("/manga/");
    lemma_manga_path_ends_in_digit(path);
    lemma_slashes_go(path, slashes);
    lemma_manga_path_is_its_series(path);
    assert(without_trailing_slashes(path) == path);
    let chapter = path + "/c"@ + number;
    assert(number.contains(number[number.len() - 1]));
    assert(chapter.last() == number[number.len() - 1]);
    lemma_slashes_go(chapter, slashes);
    let segment = text::pieces(path, '/')[2];
    lemma_joined_three(path);
    text::lemma_pieces_hold_no_separator(path, '/', 2);
    assert(path == path_of_segment(segment));
    law_chapter_path_is_read_back(segment, number);
    let download = path + "/download"@;
    assert(download.last() == 'd');
    lemma_slashes_go(download, slashes);
    assert(download.subrange(download.len() - 9, download.len() as int) =~= "/download"@);
    assert(download.take(download.len() - 9) =~= path);
    if let Some((s, n)) = chapter_path_parts(download) {
        law_chapter_paths(download);
        text::lemma_pieces_separator(path, '/');
        lemma_manga_path_pieces(segment);
        let tail = "download"@;
        reveal_strlit("download");
        text::lemma_pieces_extend(path.push('/'), tail, '/');
        assert(path.push('/') + tail =~= download);
        assert(text::pieces(download, '/').last() =~= tail);
    }
}

/// The last segment of a path is what stands behind its last slash.
pub proof fn law_last_segment(path: Seq<char>)
    ensures
        !last_segment(path).contains('/'),
        last_segment(path) == path || (seq!['/'] + last_segment(path)).is_suffix_of(path),
{
    let parts = text::pieces(path, '/');
    let last = last_segment(path);
    let m = seq!['/'];
    text::law_splitting(path, '/');
    text::lemma_pieces_hold_no_separator(path, '/', parts.len() - 1);
    if parts.len() > 1 {
        let head = text::joined(parts.drop_last(), m);
        assert(path == head + m + last);
        let end = m + last;
        assert(path.subrange(path.len() - end.len(), path.len() as int) =~= end);
    }
}

/// The page of a manga stands at the site's address, followed by `/manga/` and the identifier of the
/// manga, and that identifier is the last segment of its path.
pub proof fn law_where_a_manga_is(id: Seq<char>)
    requires
        is_manga_segment(id),
        !id.contains('/'),
    ensures
        manga_url_of(id) == site_address("/manga/"@ + id),
        manga_url_of(id) == "https://mangakatana.com"@ + ("/manga/"@ + id),
        looks_like_url(manga_url_of(id)),
        is_manga_path("/manga/"@ + id),
        last_segment("/manga/"@ + id) == id,
{
    reveal_strlit("https://mangakatana.com/manga/");
    reveal_strlit("https://mangakatana.com");
    reveal_strlit("/manga/");
    assert(manga_url_of(id) =~= site_address("/manga/"@ + id));
    lemma_site_address_is_url("/manga/"@ + id);
    law_manga_path_is_kept(id);
}

/// Only what begins with one of the two schemes of the web looks like an address.
pub proof fn law_web_addresses(s: Seq<char>, rest: Seq<char>)
    ensures
        looks_like_url("http://"@ + rest),
        looks_like_url("https://"@ + rest),
        looks_like_url(s) ==> s == "http://"@ + s.skip(7) || s == "https://"@ + s.skip(8),
{
    reveal_strlit("http://");
    reveal_strlit("https://");
    assert(("http://"@ + rest).subrange(0, 7) =~= "http://"@);
    assert(("https://"@ + rest).subrange(0, 8) =~= "https://"@);
    if "http://"@.is_prefix_of(s) {
        assert(s =~= s.subrange(0, 7) + s.skip(7));
    } else if "https://"@.is_prefix_of(s) {
        assert(s =~= s.subrange(0, 8) + s.skip(8));
    }
}

/// What an address and named values hold is what their parts hold.
pub proof fn law_contents_of_an_address(a: Address, v: Seq<(String, String)>, s: String, i: int)
    ensures
        a@.host == chars_in(a.host) && a@.path == a.path@ && a@.href == a.href@,
        a@.query == pairs(a.query@),
        pairs(v).len() == v.len(),
        0 <= i < v.len() ==> pairs(v)[i] == (v[i].0@, v[i].1@),
        chars_in(Some(s)) == Some(s@),
        chars_in(None) is None,
{
}

/// Only the pages of a manga lead to it: its own, its download page, and those of its chapters, with
/// slashes at the end of their addresses or without.
pub proof fn law_only_pages_of_a_manga_lead_to_it(path: Seq<char>)
    requires
        is_manga_path(series_path_of(path)),
    ensures
        ({
            let p = text::trim_end_of(path, CharClass::Slash);
            let m = series_path_of(path);
            ||| p == m
            ||| p == m + "/download"@
            ||| exists|n: Seq<char>|
                p == #[trigger] (m + "/c"@ + n) && n.len() > 0 && !n.contains('/')
        }),
{
    let p = text::trim_end_of(path, CharClass::Slash);
    let m = series_path_of(path);
    reveal_strlit("/download");
    match chapter_path_parts(p) {
        Some((segment, number)) => {
            law_chapter_paths(p);
            reveal_strlit("/manga/");
            reveal_strlit("/c");
            text::lemma_pieces_hold_no_separator(p, '/', 3);
            let last = text::pieces(p, '/')[3];
            assert(!number.contains('/')) by {
                if number.contains('/') {
                    let k = choose|k: int| 0 <= k < number.len() && number[k] == '/';
                    assert(last[k + 1] == '/');
                    assert(last.contains(last[k + 1]));
                }
            }
            assert(p =~= m + "/c"@ + number);
        },
        None => {
            if "/download"@.is_suffix_of(p) {
                let n = p.len() - 9;
                assert(p =~= p.take(n) + p.subrange(n, p.len() as int));
            }
        },
    }
}

/// Where the site is, what its paths are written with, and what the user is told of an address that
/// is refused.
pub proof fn law_addresses_of_the_site(path: Seq<char>, c: char, e: SeriesError)
    ensures
        site_address(path) == "https://mangakatana.com"@ + path,
        is_path_char(c) <==> 0x21 <= c as int <= 0x7e && !seq![
            '"',
            '#',
            '<',
            '>',
            '?',
            '`',
            '{',
            '}',
            '\\',
        ].contains(c),
        is_plain(path) <==> forall|i: int| 0 <= i < path.len() ==> is_path_char(#[trigger] path[i]),
        match e {
            SeriesError::Unreadable(reason) => e.text() == reason@,
            SeriesError::ForeignHost => e.text() == "URL must belong to mangakatana.com"@,
            SeriesError::WrongPage => e.text() == "Expected MangaKatana manga or chapter URL"@,
        },
{
    let refused = seq!['"', '#', '<', '>', '?', '`', '{', '}', '\\'];
    assert(refused[0] == '"' && refused[1] == '#' && refused[2] == '<' && refused[3] == '>'
        && refused[4] == '?' && refused[5] == '`' && refused[6] == '{' && refused[7] == '}'
        && refused[8] == '\\');
}

} // verus!
