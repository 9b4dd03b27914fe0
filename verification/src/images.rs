//! The images of a chapter: how its page lists them, and how the mirrors of the site are tried.
use crate::errors::{self, RateLimitError, RateLimitErrorView};
use crate::text::{self, CharClass};
use crate::utils;
use vstd::prelude::*;

verus! {

// ---------------------------------------------------------------------------------------------
// The array of images in a page
// ---------------------------------------------------------------------------------------------

/// The first position at or after `i` that holds no white space.
pub open spec fn after_spaces(s: Seq<char>, i: int) -> int
    decreases s.len() - i,
{
    if 0 <= i < s.len() && text::is_white_space(s[i]) {
        after_spaces(s, i + 1)
    } else {
        i
    }
}

/// Where the contents of the array begin if its declaration stands at position `i`: the word
/// `var`, white space, the name `thzq`, an equals sign and a bracket, with white space as it
/// pleases.
pub open spec fn array_start(s: Seq<char>, i: int) -> Option<int> {
    let name = after_spaces(s, i + 3);
    let equals = after_spaces(s, name + 4);
    let bracket = after_spaces(s, equals + 1);
    if text::occurs_at(s, "var"@, i) && name > i + 3 && text::occurs_at(s, "thzq"@, name) && equals
        < s.len() && s[equals] == '=' && bracket < s.len() && s[bracket] == '[' {
        Some(bracket + 1)
    } else {
        None
    }
}

/// Where the contents of the first array declared at or after `i` begin.
pub open spec fn first_array(s: Seq<char>, i: int) -> Option<int>
    decreases s.len() - i,
{
    if i >= s.len() {
        None
    } else {
        match array_start(s, i) {
            Some(c) => Some(c),
            None => first_array(s, i + 1),
        }
    }
}

/// Whether an array ends at position `i`: a bracket, white space as it pleases, and a semicolon.
pub open spec fn array_ends(s: Seq<char>, i: int) -> bool {
    let semicolon = after_spaces(s, i + 1);
    0 <= i < s.len() && s[i] == ']' && semicolon < s.len() && s[semicolon] == ';'
}

/// The first position at or after `i` where an array ends.
pub open spec fn first_array_end(s: Seq<char>, i: int) -> Option<int>
    decreases s.len() - i,
{
    if i >= s.len() {
        None
    } else if array_ends(s, i) {
        Some(i)
    } else {
        first_array_end(s, i + 1)
    }
}

/// The contents of the array of images in the text of a page.
pub open spec fn image_array(s: Seq<char>) -> Option<Seq<char>> {
    match first_array(s, 0) {
        Some(from) => match first_array_end(s, from) {
            Some(to) => Some(s.subrange(from, to)),
            None => None,
        },
        None => None,
    }
}

fn skip_spaces(v: &Vec<char>, i: usize) -> (r: usize)
    ensures
        r == after_spaces(v@, i as int),
        r >= i,
        r > i ==> r <= v@.len(),
{
    let n: usize = v.len();
    let mut k: usize = i;
    while k < n && CharClass::WhiteSpace.contains(v[k])
        invariant
            n == v@.len(),
            i <= k,
            k > i ==> k <= n,
            after_spaces(v@, i as int) == after_spaces(v@, k as int),
        decreases n - k,
    {
        k += 1;
    }
    k
}

fn starts_array(v: &Vec<char>, i: usize) -> (r: Option<usize>)
    requires
        i < v@.len(),
    ensures
        match r {
            Some(c) => array_start(v@, i as int) == Some(c as int),
            None => array_start(v@, i as int) is None,
        },
        r matches Some(c) ==> c <= v@.len(),
{
    let n: usize = v.len();
    let var = text::chars_of("var");
    let thzq = text::chars_of("thzq");
    proof {
        reveal_strlit("var");
        reveal_strlit("thzq");
    }
    if !text::chars_match_at(v, &var, i) {
        return None;
    }
    let name = skip_spaces(v, i + 3);
    if name == i + 3 || !text::chars_match_at(v, &thzq, name) {
        return None;
    }
    let equals = skip_spaces(v, name + 4);
    if equals >= n || v[equals] != '=' {
        return None;
    }
    let bracket = skip_spaces(v, equals + 1);
    if bracket >= n || v[bracket] != '[' {
        return None;
    }
    Some(bracket + 1)
}

fn ends_array(v: &Vec<char>, i: usize) -> (b: bool)
    requires
        i < v@.len(),
    ensures
        b == array_ends(v@, i as int),
{
    let n: usize = v.len();
    if v[i] != ']' {
        return false;
    }
    let semicolon = skip_spaces(v, i + 1);
    semicolon < n && v[semicolon] == ';'
}

/// Finds the array of images in the text of a page.
pub fn find_image_array(s: &str) -> (r: Option<String>)
    ensures
        match r {
            Some(a) => image_array(s@) == Some(a@),
            None => image_array(s@) is None,
        },
{
    let v = text::chars_of(s);
    let n: usize = v.len();
    let mut i: usize = 0;
    while i < n
        invariant
            v@ == s@,
            n == v@.len(),
            i <= n,
            first_array(v@, 0) == first_array(v@, i as int),
        decreases n - i,
    {
        if let Some(from) = starts_array(&v, i) {
            let mut k: usize = from;
            while k < n
                invariant
                    v@ == s@,
                    n == v@.len(),
                    from <= k <= n,
                    first_array(v@, 0) == Some(from as int),
                    first_array_end(v@, from as int) == first_array_end(v@, k as int),
                decreases n - k,
            {
                if ends_array(&v, k) {
                    let found = text::string_of_range(&v, from, k);
                    return Some(found);
                }
                k += 1;
            }
            return None;
        }
        i += 1;
    }
    None
}

// ---------------------------------------------------------------------------------------------
// The addresses in the array
// ---------------------------------------------------------------------------------------------

/// Whether a character is a quotation mark of either form.
pub open spec fn is_quote(c: char) -> bool {
    c == '\'' || c == '"'
}

/// The first position at or after `i` that holds a quotation mark, or the end.
pub open spec fn next_quote(s: Seq<char>, i: int) -> int
    decreases s.len() - i,
{
    if 0 <= i < s.len() && !is_quote(s[i]) {
        next_quote(s, i + 1)
    } else {
        i
    }
}

/// The length of the web scheme at position `i`.
pub open spec fn scheme_len(s: Seq<char>, i: int) -> Option<int> {
    if text::occurs_at(s, "https://"@, i) {
        Some(8)
    } else if text::occurs_at(s, "http://"@, i) {
        Some(7)
    } else {
        None
    }
}

/// Where a quoted web address that begins at position `i` ends: the position of its closing
/// quotation mark.
pub open spec fn quoted_url_end(s: Seq<char>, i: int) -> Option<int> {
    if 0 <= i < s.len() && is_quote(s[i]) {
        match scheme_len(s, i + 1) {
            Some(n) => {
                let end = next_quote(s, i + 1 + n);
                if end > i + 1 + n && end < s.len() {
                    Some(end)
                } else {
                    None
                }
            },
            None => None,
        }
    } else {
        None
    }
}

/// A string with the entity for the ampersand resolved, from position `i` on.
pub open spec fn ampersands_from(s: Seq<char>, i: int) -> Seq<char>
    decreases s.len() - i,
{
    if i < 0 || i >= s.len() {
        Seq::empty()
    } else if i + 5 <= s.len() && text::occurs_at(s, "&amp;"@, i) {
        seq!['&'] + ampersands_from(s, i + 5)
    } else {
        seq![s[i]] + ampersands_from(s, i + 1)
    }
}

/// A string with the entity for the ampersand resolved.
pub open spec fn with_ampersands(s: Seq<char>) -> Seq<char> {
    ampersands_from(s, 0)
}

/// The quoted web addresses at or after position `i`, in order.
pub open spec fn urls_from(s: Seq<char>, i: int) -> Seq<Seq<char>>
    decreases s.len() - i,
{
    if i < 0 || i >= s.len() {
        Seq::empty()
    } else {
        match quoted_url_end(s, i) {
            Some(end) => seq![with_ampersands(s.subrange(i + 1, end))] + urls_from(s, end + 1),
            None => urls_from(s, i + 1),
        }
    }
}

/// The addresses of the images that the text of a page lists.
pub open spec fn images_in(s: Seq<char>) -> Seq<Seq<char>> {
    match image_array(s) {
        Some(array) => urls_from(array, 0),
        None => Seq::empty(),
    }
}

fn resolve_ampersands(s: &str) -> (r: String)
    ensures
        r@ == with_ampersands(s@),
{
    let v = text::chars_of(s);
    let entity = text::chars_of("&amp;");
    proof {
        reveal_strlit("&amp;");
    }
    let n: usize = v.len();
    let mut r = String::new();
    let mut i: usize = 0;
    assert(r@ + ampersands_from(s@, 0) =~= ampersands_from(s@, 0));
    while i < n
        invariant
            v@ == s@,
            n == v@.len(),
            i <= n,
            entity@ == "&amp;"@,
            entity@.len() == 5,
            r@ + ampersands_from(s@, i as int) == with_ampersands(s@),
        decreases n - i,
    {
        let ghost before = r@;
        if text::chars_match_at(&v, &entity, i) {
            r.push('&');
            assert(before + (seq!['&'] + ampersands_from(s@, i + 5)) =~= r@ + ampersands_from(
                s@,
                i + 5,
            ));
            i += 5;
        } else {
            r.push(v[i]);
            assert(before + (seq![s@[i as int]] + ampersands_from(s@, i + 1)) =~= r@
                + ampersands_from(s@, i + 1));
            i += 1;
        }
    }
    assert(r@ + ampersands_from(s@, i as int) =~= r@);
    r
}

fn find_url_end(v: &Vec<char>, i: usize) -> (r: Option<usize>)
    requires
        i < v@.len(),
    ensures
        match r {
            Some(end) => quoted_url_end(v@, i as int) == Some(end as int) && i < end < v@.len(),
            None => quoted_url_end(v@, i as int) is None,
        },
{
    let n: usize = v.len();
    let http = text::chars_of("http://");
    let https = text::chars_of("https://");
    proof {
        reveal_strlit("http://");
        reveal_strlit("https://");
    }
    if v[i] != '\'' && v[i] != '"' {
        return None;
    }
    let from: usize = if text::chars_match_at(v, &https, i + 1) {
        i + 9
    } else if text::chars_match_at(v, &http, i + 1) {
        i + 8
    } else {
        return None;
    };
    let mut k: usize = from;
    while k < n && v[k] != '\'' && v[k] != '"'
        invariant
            n == v@.len(),
            from <= k <= n,
            next_quote(v@, from as int) == next_quote(v@, k as int),
        decreases n - k,
    {
        k += 1;
    }
    if k > from && k < n {
        Some(k)
    } else {
        None
    }
}

/// Reads the quoted web addresses in the array of images.
pub fn read_image_urls(array: &str) -> (urls: Vec<String>)
    ensures
        text::texts(urls@) == urls_from(array@, 0),
{
    let v = text::chars_of(array);
    let n: usize = v.len();
    let mut urls: Vec<String> = Vec::new();
    let mut i: usize = 0;
    assert(text::texts(urls@) + urls_from(array@, 0) =~= urls_from(array@, 0));
    while i < n
        invariant
            v@ == array@,
            n == v@.len(),
            i <= n,
            text::texts(urls@) + urls_from(array@, i as int) == urls_from(array@, 0),
        decreases n - i,
    {
        match find_url_end(&v, i) {
            Some(end) => {
                let ghost before = text::texts(urls@);
                let quoted = text::string_of_range(&v, i + 1, end);
                let url = resolve_ampersands(quoted.as_str());
                let ghost view = url@;
                urls.push(url);
                assert(text::texts(urls@) =~= before.push(view));
                assert(before + (seq![view] + urls_from(array@, end + 1)) =~= text::texts(urls@)
                    + urls_from(array@, end + 1));
                i = end + 1;
            },
            None => {
                i += 1;
            },
        }
    }
    assert(text::texts(urls@) + urls_from(array@, i as int) =~= text::texts(urls@));
    urls
}

/// The addresses of the images that the text of a page lists.
pub fn page_images(body: &str) -> (urls: Vec<String>)
    ensures
        text::texts(urls@) == images_in(body@),
{
    match find_image_array(body) {
        Some(array) => read_image_urls(array.as_str()),
        None => {
            let urls: Vec<String> = Vec::new();
            assert(text::texts(urls@) =~= Seq::empty());
            urls
        },
    }
}

// ---------------------------------------------------------------------------------------------
// Trying the mirrors
// ---------------------------------------------------------------------------------------------

/// The number of mirrors of the site.
pub const MIRRORS: usize = 3;

/// What the address of a chapter is followed by for each mirror.
pub open spec fn mirror_suffix(mirror: int) -> Seq<char> {
    if mirror == 0 {
        ""@
    } else if mirror == 1 {
        "?sv=mk"@
    } else {
        "?sv=3"@
    }
}

/// What came back from a mirror.
#[derive(Debug)]
pub enum MirrorReply {
    /// The request failed, for the reason given.
    Unreachable(String),
    /// The reply broke off.
    Unreadable { retry_after: Option<u128> },
    /// A reply was received.
    Received { status: u16, retry_after: Option<u128>, body: String },
}

/// The contents of a [`MirrorReply`].
pub enum MirrorReplyView {
    Unreachable(Seq<char>),
    Unreadable { retry_after: Option<u128> },
    Received { status: u16, retry_after: Option<u128>, body: Seq<char> },
}

impl View for MirrorReply {
    type V = MirrorReplyView;

    open spec fn view(&self) -> MirrorReplyView {
        match self {
            MirrorReply::Unreachable(e) => MirrorReplyView::Unreachable(e@),
            MirrorReply::Unreadable { retry_after } => MirrorReplyView::Unreadable {
                retry_after: *retry_after,
            },
            MirrorReply::Received { status, retry_after, body } => MirrorReplyView::Received {
                status: *status,
                retry_after: *retry_after,
                body: body@,
            },
        }
    }
}

impl MirrorReplyView {
    /// Whether the status code, where there is one, is a status code.
    pub open spec fn wf(self) -> bool {
        self matches MirrorReplyView::Received { status, .. } ==> errors::is_status(status)
    }

    /// The span that the mirror asked to wait for.
    pub open spec fn wait(self) -> Option<u128> {
        match self {
            MirrorReplyView::Unreachable(_) => None,
            MirrorReplyView::Unreadable { retry_after } => retry_after,
            MirrorReplyView::Received { retry_after, .. } => retry_after,
        }
    }

    /// The images that the reply lists; a block lists none.
    pub open spec fn images(self) -> Seq<Seq<char>> {
        match self {
            MirrorReplyView::Received { status, body, .. } => if errors::is_blocked_reply(
                status,
                body,
            ) {
                Seq::empty()
            } else {
                images_in(body)
            },
            _ => Seq::empty(),
        }
    }

    /// What to say of a reply from `url` that lists no images.
    pub open spec fn complaint(self, url: Seq<char>) -> Seq<char> {
        match self {
            MirrorReplyView::Unreachable(e) => "request failed: "@ + e,
            MirrorReplyView::Unreadable { .. } => "failed reading body from "@ + url,
            MirrorReplyView::Received { status, body, .. } => if errors::is_blocked_reply(
                status,
                body,
            ) {
                "HTTP "@ + errors::status_text(status) + " ("@ + text::digits(
                    utils::byte_len(body),
                ) + " bytes) from "@ + url + " (rate limit or down)"@
            } else {
                "HTTP "@ + errors::status_text(status) + " from "@ + url
                    + " contained no image array"@
            },
        }
    }
}

/// How far the search for the images of a chapter has come.
#[derive(Debug)]
pub struct MirrorProbe {
    /// The address of the chapter.
    pub chapter_url: String,
    /// How many mirrors have answered.
    pub tried: usize,
    /// The last span that a mirror asked to wait for.
    pub last_retry_after: Option<u128>,
    /// What was wrong with the last answer.
    pub last_error: String,
}

/// The contents of a [`MirrorProbe`].
pub struct MirrorProbeView {
    pub chapter_url: Seq<char>,
    pub tried: int,
    pub last_retry_after: Option<u128>,
    pub last_error: Seq<char>,
}

impl View for MirrorProbe {
    type V = MirrorProbeView;

    open spec fn view(&self) -> MirrorProbeView {
        MirrorProbeView {
            chapter_url: self.chapter_url@,
            tried: self.tried as int,
            last_retry_after: self.last_retry_after,
            last_error: self.last_error@,
        }
    }
}

impl MirrorProbeView {
    /// The start of the search.
    pub open spec fn start(chapter_url: Seq<char>) -> MirrorProbeView {
        MirrorProbeView {
            chapter_url,
            tried: 0,
            last_retry_after: None,
            last_error: Seq::empty(),
        }
    }

    /// The address of the mirror whose turn it is.
    pub open spec fn url(self) -> Seq<char> {
        self.chapter_url + mirror_suffix(self.tried)
    }

    /// The search after a reply without images.
    pub open spec fn disappointed(self, reply: MirrorReplyView) -> MirrorProbeView {
        MirrorProbeView {
            chapter_url: self.chapter_url,
            tried: self.tried + 1,
            last_retry_after: if reply.wait() is Some {
                reply.wait()
            } else {
                self.last_retry_after
            },
            last_error: reply.complaint(self.url()),
        }
    }

    /// The error when no mirror is left.
    pub open spec fn failure(self) -> RateLimitErrorView {
        let reason = "All mirrors failed to provide images (last: "@ + self.last_error + ")"@;
        RateLimitErrorView {
            kind: errors::kind_of(None, reason),
            status: None,
            retry_after: self.last_retry_after,
            reason,
        }
    }
}

/// What to do after a reply from a mirror.
#[derive(Debug)]
pub enum MirrorStep {
    /// These are the images.
    Images(Vec<String>),
    /// Ask the next mirror.
    TryNext,
    /// No mirror is left.
    GiveUp(RateLimitError),
}

impl MirrorProbe {
    /// Starts the search for the images of a chapter.
    pub fn new(chapter_url: &str) -> (probe: Self)
        ensures
            probe@ == MirrorProbeView::start(chapter_url@),
    {
        let probe = MirrorProbe {
            chapter_url: text::copy_str(chapter_url),
            tried: 0,
            last_retry_after: None,
            last_error: String::new(),
        };
        assert(probe.last_error@ =~= Seq::empty());
        probe
    }

    /// The address of the mirror whose turn it is.
    pub fn url(&self) -> (url: String)
        ensures
            url@ == self@.url(),
    {
        let suffix = if self.tried == 0 {
            ""
        } else if self.tried == 1 {
            "?sv=mk"
        } else {
            "?sv=3"
        };
        text::concat(self.chapter_url.as_str(), suffix)
    }
}

fn complaint_about(reply: &MirrorReply, url: &str) -> (s: String)
    requires
        reply@.wf(),
    ensures
        s@ == reply@.complaint(url@),
{
    match reply {
        MirrorReply::Unreachable(e) => text::concat("request failed: ", e.as_str()),
        MirrorReply::Unreadable { .. } => text::concat("failed reading body from ", url),
        MirrorReply::Received { status, body, .. } => {
            let shown = errors::show_status(*status);
            let mut s = text::concat("HTTP ", shown.as_str());
            if errors::is_rate_limited_response(*status, body.as_str()) {
                let bytes: usize = body.as_str().as_bytes().len();
                text::push_str(&mut s, " (");
                text::push_str(&mut s, text::decimal(bytes as u128).as_str());
                text::push_str(&mut s, " bytes) from ");
                text::push_str(&mut s, url);
                text::push_str(&mut s, " (rate limit or down)");
            } else {
                text::push_str(&mut s, " from ");
                text::push_str(&mut s, url);
                text::push_str(&mut s, " contained no image array");
            }
            s
        },
    }
}

fn images_of_reply(reply: &MirrorReply) -> (urls: Vec<String>)
    ensures
        text::texts(urls@) == reply@.images(),
{
    match reply {
        MirrorReply::Received { status, body, .. } => {
            if !errors::is_rate_limited_response(*status, body.as_str()) {
                return page_images(body.as_str());
            }
        },
        _ => {},
    }
    let urls: Vec<String> = Vec::new();
    assert(text::texts(urls@) =~= Seq::empty());
    urls
}

/// Takes the reply of the mirror whose turn it was. The first mirror that lists images ends the
/// search; when none is left, the search fails with what was wrong last and the last span that a
/// mirror asked to wait for.
pub fn chapter_images(probe: &mut MirrorProbe, reply: &MirrorReply) -> (step: MirrorStep)
    requires
        old(probe)@.tried < MIRRORS,
        reply@.wf(),
    ensures
        match step {
            MirrorStep::Images(urls) => {
                &&& reply@.images().len() > 0
                &&& text::texts(urls@) == reply@.images()
                &&& final(probe)@ == old(probe)@
            },
            MirrorStep::TryNext => {
                &&& reply@.images().len() == 0
                &&& final(probe)@ == old(probe)@.disappointed(reply@)
                &&& final(probe)@.tried < MIRRORS
            },
            MirrorStep::GiveUp(e) => {
                &&& reply@.images().len() == 0
                &&& final(probe)@ == old(probe)@.disappointed(reply@)
                &&& final(probe)@.tried == MIRRORS
                &&& e@ == final(probe)@.failure()
            },
        },
{
    let urls = images_of_reply(reply);
    assert(text::texts(urls@).len() == urls@.len());
    if urls.len() > 0 {
        return MirrorStep::Images(urls);
    }
    let url = probe.url();
    let wait = match reply {
        MirrorReply::Unreachable(_) => None,
        MirrorReply::Unreadable { retry_after } => *retry_after,
        MirrorReply::Received { retry_after, .. } => *retry_after,
    };
    if wait.is_some() {
        probe.last_retry_after = wait;
    }
    probe.last_error = complaint_about(reply, url.as_str());
    probe.tried = probe.tried + 1;
    if probe.tried < MIRRORS {
        return MirrorStep::TryNext;
    }
    let mut reason = text::concat(
        "All mirrors failed to provide images (last: ",
        probe.last_error.as_str(),
    );
    text::push_str(&mut reason, ")");
    MirrorStep::GiveUp(
        RateLimitError::with_retry(None, reason.as_str(), probe.last_retry_after),
    )
}

// ---------------------------------------------------------------------------------------------
// Laws
// ---------------------------------------------------------------------------------------------

/// The search after replies none of which listed images.
pub open spec fn probed(chapter_url: Seq<char>, replies: Seq<MirrorReplyView>) -> MirrorProbeView
    decreases replies.len(),
{
    if replies.len() == 0 {
        MirrorProbeView::start(chapter_url)
    } else {
        probed(chapter_url, replies.drop_last()).disappointed(replies.last())
    }
}

/// The last span that any of the replies asked to wait for.
pub open spec fn latest_wait(replies: Seq<MirrorReplyView>) -> Option<u128>
    decreases replies.len(),
{
    if replies.len() == 0 {
        None
    } else if replies.last().wait() is Some {
        replies.last().wait()
    } else {
        latest_wait(replies.drop_last())
    }
}

/// When all mirrors fail, the error carries the last span that any of them asked to wait for, and
/// every mirror was asked at its own address.
pub proof fn law_failed_search_keeps_latest_wait(
    chapter_url: Seq<char>,
    replies: Seq<MirrorReplyView>,
)
    ensures
        probed(chapter_url, replies).tried == replies.len(),
        probed(chapter_url, replies).chapter_url == chapter_url,
        probed(chapter_url, replies).url() == chapter_url + mirror_suffix(replies.len() as int),
        probed(chapter_url, replies).failure().retry_after == latest_wait(replies),
    decreases replies.len(),
{
    if replies.len() > 0 {
        law_failed_search_keeps_latest_wait(chapter_url, replies.drop_last());
    }
}

proof fn lemma_ampersands_keep_prefix(s: Seq<char>, i: int, n: int)
    requires
        0 <= i <= n <= s.len(),
        forall|k: int| i <= k < n ==> #[trigger] s[k] != '&',
    ensures
        ampersands_from(s, i).len() >= n - i,
        forall|k: int| i <= k < n ==> #[trigger] s[k] == ampersands_from(s, i)[k - i],
    decreases n - i,
{
    if i < n {
        reveal_strlit("&amp;");
        assert(!text::occurs_at(s, "&amp;"@, i)) by {
            if text::occurs_at(s, "&amp;"@, i) {
                assert(s.subrange(i, i + 5)[0] == s[i]);
            }
        }
        lemma_ampersands_keep_prefix(s, i + 1, n);
        let rest = ampersands_from(s, i + 1);
        let all = ampersands_from(s, i);
        assert(all == seq![s[i]] + rest);
        assert forall|k: int| i <= k < n implies #[trigger] s[k] == all[k - i] by {
            if k > i {
                assert(all[k - i] == rest[k - (i + 1)]);
            }
        }
    }
}

/// Every address that is read from an array of images is a web address.
pub proof fn law_image_urls_are_web_addresses(array: Seq<char>, from: int, k: int)
    requires
        0 <= from,
        0 <= k < urls_from(array, from).len(),
    ensures
        "http://"@.is_prefix_of(urls_from(array, from)[k]) || "https://"@.is_prefix_of(
            urls_from(array, from)[k],
        ),
    decreases array.len() - from,
{
    match quoted_url_end(array, from) {
        Some(end) => {
            if k > 0 {
                law_image_urls_are_web_addresses(array, end + 1, k - 1);
            } else {
                reveal_strlit("http://");
                reveal_strlit("https://");
                let s = array.subrange(from + 1, end);
                let n = scheme_len(array, from + 1)->0;
                let scheme = if n == 8 {
                    "https://"@
                } else {
                    "http://"@
                };
                assert(array.subrange(from + 1, from + 1 + n) =~= scheme);
                assert forall|j: int| 0 <= j < n implies #[trigger] s[j] != '&' && s[j]
                    == scheme[j] by {
                    assert(array.subrange(from + 1, from + 1 + n)[j] == array[from + 1 + j]);
                }
                lemma_ampersands_keep_prefix(s, 0, n);
                let url = with_ampersands(s);
                assert forall|j: int| 0 <= j < n implies #[trigger] url[j] == scheme[j] by {
                    assert(s[j] == ampersands_from(s, 0)[j - 0]);
                }
                assert(url.subrange(0, n) =~= scheme);
                assert(urls_from(array, from)[0] == url);
            }
        },
        None => {
            law_image_urls_are_web_addresses(array, from + 1, k);
        },
    }
}

proof fn lemma_after_spaces(s: Seq<char>, i: int)
    requires
        0 <= i,
    ensures
        i <= after_spaces(s, i),
        after_spaces(s, i) > i ==> after_spaces(s, i) <= s.len(),
        forall|k: int| i <= k < after_spaces(s, i) ==> text::is_white_space(#[trigger] s[k]),
        after_spaces(s, i) < s.len() ==> !text::is_white_space(s[after_spaces(s, i)]),
    decreases s.len() - i,
{
    if i < s.len() && text::is_white_space(s[i]) {
        lemma_after_spaces(s, i + 1);
    }
}

proof fn lemma_spaces_end(s: Seq<char>, i: int, j: int)
    requires
        0 <= i <= j < s.len(),
        forall|k: int| i <= k < j ==> text::is_white_space(#[trigger] s[k]),
        !text::is_white_space(s[j]),
    ensures
        after_spaces(s, i) == j,
    decreases j - i,
{
    if i < j {
        lemma_spaces_end(s, i + 1, j);
    }
}

proof fn lemma_first_array(s: Seq<char>, from: int, i: int)
    requires
        0 <= from <= i < s.len(),
        forall|k: int| from <= k < i ==> #[trigger] array_start(s, k) is None,
        array_start(s, i) is Some,
    ensures
        first_array(s, from) == array_start(s, i),
    decreases i - from,
{
    if from < i {
        assert(array_start(s, from) is None);
        lemma_first_array(s, from + 1, i);
    }
}

proof fn lemma_where_array_starts(s: Seq<char>, from: int) -> (i: int)
    requires
        0 <= from,
        first_array(s, from) is Some,
    ensures
        from <= i < s.len(),
        array_start(s, i) == first_array(s, from),
        forall|k: int| from <= k < i ==> #[trigger] array_start(s, k) is None,
    decreases s.len() - from,
{
    if array_start(s, from) is Some {
        from
    } else {
        lemma_where_array_starts(s, from + 1)
    }
}

proof fn lemma_first_array_end(s: Seq<char>, from: int, i: int)
    requires
        0 <= from <= i < s.len(),
        forall|k: int| from <= k < i ==> !#[trigger] array_ends(s, k),
        array_ends(s, i),
    ensures
        first_array_end(s, from) == Some(i),
    decreases i - from,
{
    if from < i {
        assert(!array_ends(s, from));
        lemma_first_array_end(s, from + 1, i);
    }
}

proof fn lemma_where_array_ends(s: Seq<char>, from: int)
    requires
        0 <= from,
        first_array_end(s, from) is Some,
    ensures
        from <= first_array_end(s, from)->0 < s.len(),
        array_ends(s, first_array_end(s, from)->0),
        forall|k: int| from <= k < first_array_end(s, from)->0 ==> !#[trigger] array_ends(s, k),
    decreases s.len() - from,
{
    if !array_ends(s, from) {
        lemma_where_array_ends(s, from + 1);
    }
}

/// Whether a variable `thzq` is declared as an array at position `i`: the word `var`, white space,
/// the name at `name`, an equals sign at `equals` and a bracket at `bracket`, with nothing but white
/// space between these.
pub open spec fn declared_at(s: Seq<char>, i: int, name: int, equals: int, bracket: int) -> bool {
    &&& 0 <= i
    &&& i + 3 < name
    &&& name + 4 <= equals
    &&& equals < bracket < s.len()
    &&& s[i] == 'v' && s[i + 1] == 'a' && s[i + 2] == 'r'
    &&& s[name] == 't' && s[name + 1] == 'h' && s[name + 2] == 'z' && s[name + 3] == 'q'
    &&& s[equals] == '='
    &&& s[bracket] == '['
    &&& forall|k: int| i + 3 <= k < name ==> text::is_white_space(#[trigger] s[k])
    &&& forall|k: int| name + 4 <= k < equals ==> text::is_white_space(#[trigger] s[k])
    &&& forall|k: int| equals < k < bracket ==> text::is_white_space(#[trigger] s[k])
}

proof fn lemma_marks_are_no_spaces()
    ensures
        !text::is_white_space('t'),
        !text::is_white_space('='),
        !text::is_white_space('['),
        !text::is_white_space(']'),
        !text::is_white_space(';'),
{
    text::law_white_space('t');
    text::law_white_space('=');
    text::law_white_space('[');
    text::law_white_space(']');
    text::law_white_space(';');
}

proof fn lemma_declaration_is_seen(s: Seq<char>, i: int, name: int, equals: int, bracket: int)
    requires
        declared_at(s, i, name, equals, bracket),
    ensures
        array_start(s, i) == Some(bracket + 1),
{
    reveal_strlit("var");
    reveal_strlit("thzq");
    lemma_marks_are_no_spaces();
    assert(s.subrange(i, i + 3) =~= "var"@);
    assert(s.subrange(name, name + 4) =~= "thzq"@);
    lemma_spaces_end(s, i + 3, name);
    lemma_spaces_end(s, name + 4, equals);
    lemma_spaces_end(s, equals + 1, bracket);
}

proof fn lemma_seen_declaration(s: Seq<char>, i: int) -> (at: (int, int, int))
    requires
        array_start(s, i) is Some,
    ensures
        declared_at(s, i, at.0, at.1, at.2),
        array_start(s, i) == Some(at.2 + 1),
{
    reveal_strlit("var");
    reveal_strlit("thzq");
    let name = after_spaces(s, i + 3);
    let equals = after_spaces(s, name + 4);
    let bracket = after_spaces(s, equals + 1);
    lemma_after_spaces(s, i + 3);
    lemma_after_spaces(s, name + 4);
    lemma_after_spaces(s, equals + 1);
    let var = s.subrange(i, i + 3);
    let thzq = s.subrange(name, name + 4);
    assert(var[0] == s[i] && var[1] == s[i + 1] && var[2] == s[i + 2]);
    assert(thzq[0] == s[name] && thzq[1] == s[name + 1] && thzq[2] == s[name + 2] && thzq[3]
        == s[name + 3]);
    (name, equals, bracket)
}

/// The array of images is what stands between the brackets of the first declaration of `thzq`, up to
/// the first closing bracket that a semicolon follows, whatever stands before, between and after.
pub proof fn law_array_of_images_is_found(
    s: Seq<char>,
    i: int,
    name: int,
    equals: int,
    open: int,
    close: int,
    semicolon: int,
)
    requires
        declared_at(s, i, name, equals, open),
        forall|k: int, a: int, b: int, c: int|
            0 <= k < i ==> !#[trigger] declared_at(s, k, a, b, c),
        open < close < semicolon < s.len(),
        s[close] == ']',
        s[semicolon] == ';',
        forall|k: int| close < k < semicolon ==> text::is_white_space(#[trigger] s[k]),
        forall|k: int, m: int|
            open < k < close && k < m < s.len() && s[k] == ']' && s[m] == ';' ==> exists|j: int|
                k < j < m && !text::is_white_space(#[trigger] s[j]),
    ensures
        image_array(s) == Some(s.subrange(open + 1, close)),
{
    lemma_declaration_is_seen(s, i, name, equals, open);
    assert forall|k: int| 0 <= k < i implies #[trigger] array_start(s, k) is None by {
        if array_start(s, k) is Some {
            let at = lemma_seen_declaration(s, k);
            assert(declared_at(s, k, at.0, at.1, at.2));
        }
    }
    lemma_first_array(s, 0, i);
    lemma_marks_are_no_spaces();
    lemma_spaces_end(s, close + 1, semicolon);
    assert forall|k: int| open + 1 <= k < close implies !#[trigger] array_ends(s, k) by {
        lemma_after_spaces(s, k + 1);
        if array_ends(s, k) {
            let m = after_spaces(s, k + 1);
            assert(s[k] == ']' && s[m] == ';');
            let j = choose|j: int| k < j < m && !text::is_white_space(#[trigger] s[j]);
            assert(text::is_white_space(s[j]));
        }
    }
    lemma_first_array_end(s, open + 1, close);
}

/// An array of images that is found stands in the page: between the brackets of the first
/// declaration of `thzq`, with a semicolon after it. Its positions are given back.
pub proof fn law_array_of_images_is_there(s: Seq<char>) -> (at: Seq<int>)
    requires
        image_array(s) is Some,
    ensures
        at.len() == 6,
        declared_at(s, at[0], at[1], at[2], at[3]),
        forall|k: int, a: int, b: int, c: int|
            0 <= k < at[0] ==> !#[trigger] declared_at(s, k, a, b, c),
        at[3] < at[4] < at[5] < s.len(),
        s[at[4]] == ']',
        s[at[5]] == ';',
        forall|k: int| at[4] < k < at[5] ==> text::is_white_space(#[trigger] s[k]),
        image_array(s) == Some(s.subrange(at[3] + 1, at[4])),
{
    let i = lemma_where_array_starts(s, 0);
    let p = lemma_seen_declaration(s, i);
    assert forall|k: int, a: int, b: int, c: int| 0 <= k < i implies !#[trigger] declared_at(
        s,
        k,
        a,
        b,
        c,
    ) by {
        if declared_at(s, k, a, b, c) {
            lemma_declaration_is_seen(s, k, a, b, c);
            assert(array_start(s, k) is Some);
        }
    }
    lemma_where_array_ends(s, p.2 + 1);
    let close = first_array_end(s, p.2 + 1)->0;
    lemma_after_spaces(s, close + 1);
    seq![i, p.0, p.1, p.2, close, after_spaces(s, close + 1)]
}

proof fn lemma_next_quote(s: Seq<char>, i: int)
    requires
        0 <= i,
    ensures
        i <= next_quote(s, i),
        next_quote(s, i) > i ==> next_quote(s, i) <= s.len(),
        next_quote(s, i) < s.len() ==> is_quote(s[next_quote(s, i)]),
        forall|k: int| i <= k < next_quote(s, i) ==> !is_quote(#[trigger] s[k]),
    decreases s.len() - i,
{
    if i < s.len() && !is_quote(s[i]) {
        lemma_next_quote(s, i + 1);
    }
}

proof fn lemma_quote_ends(s: Seq<char>, i: int, j: int)
    requires
        0 <= i <= j < s.len(),
        forall|k: int| i <= k < j ==> !is_quote(#[trigger] s[k]),
        is_quote(s[j]),
    ensures
        next_quote(s, i) == j,
    decreases j - i,
{
    if i < j {
        lemma_quote_ends(s, i + 1, j);
    }
}

proof fn lemma_scheme(s: Seq<char>, i: int)
    requires
        0 <= i <= s.len(),
    ensures
        scheme_len(s, i) == Some(8int) <==> "https://"@.is_prefix_of(s.skip(i)),
        scheme_len(s, i) == Some(7int) <==> "http://"@.is_prefix_of(s.skip(i)),
        scheme_len(s, i) is None || scheme_len(s, i) == Some(8int) || scheme_len(s, i) == Some(
            7int,
        ),
{
    reveal_strlit("https://");
    reveal_strlit("http://");
    let t = s.skip(i);
    if i + 8 <= s.len() {
        assert(t.subrange(0, 8) =~= s.subrange(i, i + 8));
    }
    if i + 7 <= s.len() {
        assert(t.subrange(0, 7) =~= s.subrange(i, i + 7));
    }
    if "https://"@.is_prefix_of(t) && "http://"@.is_prefix_of(t) {
        assert(t.subrange(0, 8)[4] == t[4]);
        assert(t.subrange(0, 7)[4] == t[4]);
    }
}

/// Addresses are read one after the other: where the next web address in quotation marks of either
/// form stands between `open` and `close`, it is the next that is read, with its ampersands resolved,
/// and reading goes on behind it. What stands before it, and other quoted texts, are passed over.
pub proof fn law_next_address(s: Seq<char>, from: int, open: int, close: int)
    requires
        0 <= from <= open < close < s.len(),
        s[open] == '\'' || s[open] == '"',
        s[close] == '\'' || s[close] == '"',
        forall|k: int| open < k < close ==> #[trigger] s[k] != '\'' && s[k] != '"',
        ("http://"@.is_prefix_of(s.skip(open + 1)) && close > open + 8) || ("https://"@.is_prefix_of(
            s.skip(open + 1),
        ) && close > open + 9),
        forall|k: int|
            from <= k < open && (#[trigger] s[k] == '\'' || s[k] == '"') ==> !"http://"@.is_prefix_of(
                s.skip(k + 1),
            ) && !"https://"@.is_prefix_of(s.skip(k + 1)),
    ensures
        urls_from(s, from) == seq![with_ampersands(s.subrange(open + 1, close))] + urls_from(
            s,
            close + 1,
        ),
    decreases open - from,
{
    if from < open {
        if is_quote(s[from]) {
            assert(s[from] == '\'' || s[from] == '"');
            lemma_scheme(s, from + 1);
        }
        assert(quoted_url_end(s, from) is None);
        law_next_address(s, from + 1, open, close);
    } else {
        lemma_scheme(s, open + 1);
        let n = scheme_len(s, open + 1)->0;
        reveal_strlit("https://");
        reveal_strlit("http://");
        lemma_quote_ends(s, open + 1 + n, close);
    }
}

/// Where no two quotation marks have a web address between them, none is read.
pub proof fn law_no_address(s: Seq<char>, from: int)
    requires
        0 <= from,
        forall|k: int, m: int|
            from <= k < m < s.len() && (#[trigger] s[k] == '\'' || s[k] == '"') && (#[trigger] s[m]
                == '\'' || s[m] == '"') ==> !"http://"@.is_prefix_of(s.skip(k + 1))
                && !"https://"@.is_prefix_of(s.skip(k + 1)),
    ensures
        urls_from(s, from).len() == 0,
    decreases s.len() - from,
{
    if from < s.len() {
        if let Some(end) = quoted_url_end(s, from) {
            let n = scheme_len(s, from + 1)->0;
            lemma_scheme(s, from + 1);
            lemma_next_quote(s, from + 1 + n);
            assert(s[from] == '\'' || s[from] == '"');
            assert(s[end] == '\'' || s[end] == '"');
        }
        law_no_address(s, from + 1);
    }
}

/// The images of a page are the addresses in its array, all of them; a page without one has none.
pub proof fn law_images_of_a_page(s: Seq<char>)
    ensures
        image_array(s) matches Some(array) ==> images_in(s) == urls_from(array, 0),
        image_array(s) is None ==> images_in(s).len() == 0,
{
}

proof fn lemma_ampersands_behind(s: Seq<char>, n: int, i: int)
    requires
        0 <= n <= s.len(),
        0 <= i,
    ensures
        ampersands_from(s, n + i) == ampersands_from(s.skip(n), i),
    decreases s.len() - n - i,
{
    reveal_strlit("&amp;");
    if n + i < s.len() {
        let t = s.skip(n);
        if i + 5 <= t.len() {
            assert(t.subrange(i, i + 5) =~= s.subrange(n + i, n + i + 5));
        }
        if i + 5 <= t.len() && text::occurs_at(t, "&amp;"@, i) {
            lemma_ampersands_behind(s, n, i + 5);
        } else {
            lemma_ampersands_behind(s, n, i + 1);
        }
    }
}

/// Every entity for the ampersand becomes one, from the first on; everything else is kept.
pub proof fn law_ampersands(before: Seq<char>, rest: Seq<char>)
    requires
        forall|a: Seq<char>, b: Seq<char>| before != #[trigger] (a + "&amp;"@ + b),
    ensures
        with_ampersands(before) == before,
        with_ampersands(before + "&amp;"@ + rest) == before.push('&') + with_ampersands(rest),
{
    text::law_occurrence(before, "&amp;"@);
    lemma_ampersands_before(before, Seq::empty(), 0);
    assert(before + Seq::<char>::empty() =~= before);
    assert(ampersands_from(before, before.len() as int) =~= Seq::empty());
    assert(before.skip(0) =~= before);
    reveal_strlit("&amp;");
    let s = before + "&amp;"@ + rest;
    let n = before.len() as int;
    lemma_ampersands_before(before, "&amp;"@ + rest, 0);
    assert(before + ("&amp;"@ + rest) =~= s);
    assert(s.subrange(n, n + 5) =~= "&amp;"@);
    lemma_ampersands_behind(s, n + 5, 0);
    assert(s.skip(n + 5) =~= rest);
    assert(ampersands_from(s, n) == seq!['&'] + with_ampersands(rest));
    assert(with_ampersands(s) =~= before.push('&') + with_ampersands(rest));
}

proof fn lemma_ampersands_before(before: Seq<char>, after: Seq<char>, i: int)
    requires
        !text::occurs(before, "&amp;"@),
        after.len() == 0 || "&amp;"@.is_prefix_of(after),
        0 <= i <= before.len(),
    ensures
        ampersands_from(before + after, i) == before.skip(i) + ampersands_from(
            before + after,
            before.len() as int,
        ),
    decreases before.len() - i,
{
    let s = before + after;
    let tail = ampersands_from(s, before.len() as int);
    if i < before.len() {
        reveal_strlit("&amp;");
        lemma_ampersands_before(before, after, i + 1);
        assert(!text::occurs_at(s, "&amp;"@, i)) by {
            if text::occurs_at(s, "&amp;"@, i) {
                let w = s.subrange(i, i + 5);
                if i + 5 <= before.len() {
                    assert(w =~= before.subrange(i, i + 5));
                    assert(text::occurs_at(before, "&amp;"@, i));
                } else {
                    let k = before.len() - i;
                    assert(after.len() > 0);
                    assert(after.subrange(0, 5)[0] == after[0]);
                    assert(w[k] == s[i + k]);
                    assert(s[i + k] == after[0]);
                }
            }
        }
        assert(seq![s[i]] + (before.skip(i + 1) + tail) =~= before.skip(i) + tail);
    } else {
        assert(before.skip(i) + tail =~= tail);
    }
}

/// The mirrors are asked in turn: the address of the chapter itself, and then with either parameter.
pub proof fn law_addresses_of_the_mirrors(chapter_url: Seq<char>, p: MirrorProbeView)
    requires
        p.chapter_url == chapter_url,
    ensures
        p.tried == 0 ==> p.url() == chapter_url,
        p.tried == 1 ==> p.url() == chapter_url + "?sv=mk"@,
        p.tried == 2 ==> p.url() == chapter_url + "?sv=3"@,
        MirrorProbeView::start(chapter_url).tried == 0,
        MirrorProbeView::start(chapter_url).chapter_url == chapter_url,
        MirrorProbeView::start(chapter_url).last_retry_after is None,
{
    reveal_strlit("");
    assert(chapter_url + ""@ =~= chapter_url);
}

/// A reply lists the images of its page, unless it is a block; a request that failed lists none.
pub proof fn law_images_of_a_reply(status: u16, wait: Option<u128>, body: Seq<char>, e: Seq<char>)
    ensures
        ({
            let received = MirrorReplyView::Received { status, retry_after: wait, body };
            let broken = MirrorReplyView::Unreadable { retry_after: wait };
            let failed = MirrorReplyView::Unreachable(e);
            &&& !errors::is_blocked_reply(status, body) ==> received.images() == images_in(body)
            &&& errors::is_blocked_reply(status, body) ==> received.images().len() == 0
            &&& broken.images().len() == 0
            &&& failed.images().len() == 0
            &&& received.wait() == wait
            &&& broken.wait() == wait
            &&& failed.wait() is None
        }),
{
}

/// A reply without images makes it the next mirror's turn. The last span that a mirror asked to wait
/// for is kept until another one asks, and the complaint is about this reply and this address.
pub proof fn law_disappointment(p: MirrorProbeView, reply: MirrorReplyView)
    ensures
        ({
            let next = p.disappointed(reply);
            &&& next.chapter_url == p.chapter_url
            &&& next.tried == p.tried + 1
            &&& match reply {
                MirrorReplyView::Unreachable(e) => {
                    &&& next.last_retry_after == p.last_retry_after
                    &&& next.last_error == "request failed: "@ + e
                },
                MirrorReplyView::Unreadable { retry_after } => {
                    &&& next.last_retry_after == if retry_after is Some {
                        retry_after
                    } else {
                        p.last_retry_after
                    }
                    &&& next.last_error == "failed reading body from "@ + p.url()
                },
                MirrorReplyView::Received { status, retry_after, body } => {
                    &&& next.last_retry_after == if retry_after is Some {
                        retry_after
                    } else {
                        p.last_retry_after
                    }
                    &&& errors::is_blocked_reply(status, body) ==> next.last_error == "HTTP "@
                        + errors::status_text(status) + " ("@ + text::digits(utils::byte_len(body))
                        + " bytes) from "@ + p.url() + " (rate limit or down)"@
                    &&& !errors::is_blocked_reply(status, body) ==> next.last_error == "HTTP "@
                        + errors::status_text(status) + " from "@ + p.url()
                        + " contained no image array"@
                },
            }
        }),
{
}

/// When no mirror is left, the error tells what was wrong last, and how long to wait.
pub proof fn law_failed_search(p: MirrorProbeView)
    ensures
        p.failure().reason == "All mirrors failed to provide images (last: "@ + p.last_error + ")"@,
        p.failure().retry_after == p.last_retry_after,
        p.failure().status is None,
        p.failure().kind == errors::kind_of(None, p.failure().reason),
{
}

/// The site has three mirrors, and a search that nothing came of ends when each has answered.
pub proof fn law_every_mirror_is_asked(chapter_url: Seq<char>, replies: Seq<MirrorReplyView>)
    ensures
        MIRRORS == 3,
        probed(chapter_url, replies).tried == MIRRORS <==> replies.len() == 3,
{
    law_failed_search_keeps_latest_wait(chapter_url, replies);
}

/// The array of images in a page is what stands between the brackets of `var thzq = [...];`, with
/// white space as it pleases, wherever in the page that stands and whatever stands around it.
pub proof fn law_array_in_a_page(
    before: Seq<char>,
    gaps: Seq<Seq<char>>,
    array: Seq<char>,
    after: Seq<char>,
)
    requires
        forall|a: Seq<char>, b: Seq<char>| before + seq!['v', 'a'] != #[trigger] (a + "var"@ + b),
        gaps.len() == 4,
        forall|g: int, i: int|
            0 <= g < 4 && 0 <= i < gaps[g].len() ==> text::is_white_space(#[trigger] gaps[g][i]),
        gaps[0].len() > 0,
        forall|k: int, m: int|
            0 <= k < m < array.len() && array[k] == ']' && array[m] == ';' ==> exists|j: int|
                k < j < m && !text::is_white_space(#[trigger] array[j]),
    ensures
        image_array(
            before + "var"@ + gaps[0] + "thzq"@ + gaps[1] + "="@ + gaps[2] + "["@ + array + "]"@
                + gaps[3] + ";"@ + after,
        ) == Some(array),
{
    reveal_strlit("var");
    reveal_strlit("thzq");
    reveal_strlit("=");
    reveal_strlit("[");
    reveal_strlit("]");
    reveal_strlit(";");
    let s = before + "var"@ + gaps[0] + "thzq"@ + gaps[1] + "="@ + gaps[2] + "["@ + array + "]"@
        + gaps[3] + ";"@ + after;
    let i = before.len() as int;
    let name = i + 3 + gaps[0].len();
    let equals = name + 4 + gaps[1].len();
    let open = equals + 1 + gaps[2].len();
    let close = open + 1 + array.len();
    let semicolon = close + 1 + gaps[3].len();
    assert forall|k: int| i + 3 <= k < name implies text::is_white_space(#[trigger] s[k]) by {
        assert(s[k] == gaps[0][k - i - 3]);
    }
    assert forall|k: int| name + 4 <= k < equals implies text::is_white_space(#[trigger] s[k]) by {
        assert(s[k] == gaps[1][k - name - 4]);
    }
    assert forall|k: int| equals < k < open implies text::is_white_space(#[trigger] s[k]) by {
        assert(s[k] == gaps[2][k - equals - 1]);
    }
    assert forall|k: int| close < k < semicolon implies text::is_white_space(#[trigger] s[k]) by {
        assert(s[k] == gaps[3][k - close - 1]);
    }
    assert(declared_at(s, i, name, equals, open));
    let start = before + seq!['v', 'a'];
    assert forall|k: int, a: int, b: int, c: int| 0 <= k < i implies !#[trigger] declared_at(
        s,
        k,
        a,
        b,
        c,
    ) by {
        if declared_at(s, k, a, b, c) {
            assert(start[k] == s[k] && start[k + 1] == s[k + 1] && start[k + 2] == s[k + 2]);
            assert(start =~= start.take(k) + "var"@ + start.skip(k + 3));
        }
    }
    lemma_marks_are_no_spaces();
    assert forall|k: int, m: int|
        open < k < close && k < m < s.len() && s[k] == ']' && s[m] == ';' implies exists|j: int|
        k < j < m && !text::is_white_space(#[trigger] s[j]) by {
        assert(array[k - open - 1] == s[k]);
        if m < close {
            assert(array[m - open - 1] == s[m]);
            let j = choose|j: int|
                k - open - 1 < j < m - open - 1 && !text::is_white_space(#[trigger] array[j]);
            assert(s[j + open + 1] == array[j]);
        } else {
            assert(s[close] == ']');
            assert(m > close);
        }
    }
    law_array_of_images_is_found(s, i, name, equals, open, close, semicolon);
    assert(s.subrange(open + 1, close) =~= array);
}

/// A page in which an array is found is written like that: what stands around the array is given
/// back, and the four gaps are white space.
pub proof fn law_page_around_an_array(s: Seq<char>) -> (parts: Seq<Seq<char>>)
    requires
        image_array(s) is Some,
    ensures
        parts.len() == 6,
        s == parts[0] + "var"@ + parts[1] + "thzq"@ + parts[2] + "="@ + parts[3] + "["@
            + image_array(s)->0 + "]"@ + parts[4] + ";"@ + parts[5],
        forall|g: int, i: int|
            1 <= g <= 4 && 0 <= i < parts[g].len() ==> text::is_white_space(#[trigger] parts[g][i]),
        parts[1].len() > 0,
{
    reveal_strlit("var");
    reveal_strlit("thzq");
    reveal_strlit("=");
    reveal_strlit("[");
    reveal_strlit("]");
    reveal_strlit(";");
    let at = law_array_of_images_is_there(s);
    let parts = seq![
        s.take(at[0]),
        s.subrange(at[0] + 3, at[1]),
        s.subrange(at[1] + 4, at[2]),
        s.subrange(at[2] + 1, at[3]),
        s.subrange(at[4] + 1, at[5]),
        s.skip(at[5] + 1),
    ];
    assert forall|g: int, i: int|
        1 <= g <= 4 && 0 <= i < parts[g].len() implies text::is_white_space(
        #[trigger] parts[g][i],
    ) by {
        if g == 1 {
            assert(parts[g][i] == s[at[0] + 3 + i]);
        } else if g == 2 {
            assert(parts[g][i] == s[at[1] + 4 + i]);
        } else if g == 3 {
            assert(parts[g][i] == s[at[2] + 1 + i]);
        } else {
            assert(parts[g][i] == s[at[4] + 1 + i]);
        }
    }
    assert(s =~= parts[0] + "var"@ + parts[1] + "thzq"@ + parts[2] + "="@ + parts[3] + "["@
        + image_array(s)->0 + "]"@ + parts[4] + ";"@ + parts[5]);
    parts
}

} // verus!
