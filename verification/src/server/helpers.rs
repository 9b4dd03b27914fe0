//! Replies of the server, and the checks that requests have to pass.
use crate::address;
use crate::errors::{self, ErrorReport};
use crate::rate_limit::AdaptiveRateLimiter;
use crate::text;
use std::sync::Arc;
use vstd::prelude::*;

verus! {

// ---------------------------------------------------------------------------------------------
// Replies
// ---------------------------------------------------------------------------------------------

/// What a reply carries.
#[derive(Debug)]
pub enum Body {
    /// Text.
    Text(String),
    /// Raw bytes.
    Data(Arc<[u8]>),
}

/// The contents of a [`Body`].
pub enum BodyView {
    Text(Seq<char>),
    Data(Seq<u8>),
}

/// A reply to a request. The headers are those that are set beside the ones that every reply with
/// such a body has.
#[derive(Debug)]
pub struct Reply {
    pub status: u16,
    pub headers: Vec<(String, String)>,
    pub body: Body,
}

/// The contents of a [`Reply`].
pub struct ReplyView {
    pub status: u16,
    pub headers: Seq<(Seq<char>, Seq<char>)>,
    pub body: BodyView,
}

impl View for Body {
    type V = BodyView;

    open spec fn view(&self) -> BodyView {
        match self {
            Body::Text(s) => BodyView::Text(s@),
            Body::Data(d) => BodyView::Data(d@),
        }
    }
}

impl View for Reply {
    type V = ReplyView;

    open spec fn view(&self) -> ReplyView {
        ReplyView {
            status: self.status,
            headers: address::pairs(self.headers@),
            body: self.body@,
        }
    }
}

/// Plain text with a status code.
pub open spec fn text_reply(status: u16, msg: Seq<char>) -> ReplyView {
    ReplyView { status, headers: Seq::empty(), body: BodyView::Text(msg) }
}

/// A successful reply that carries JSON.
pub open spec fn json_reply(json: Seq<char>) -> ReplyView {
    ReplyView {
        status: 200,
        headers: seq![("Content-Type"@, "application/json"@)],
        body: BodyView::Text(json),
    }
}

/// An empty reply that says that the work has been taken on.
pub open spec fn accepted_reply() -> ReplyView {
    ReplyView {
        status: 202,
        headers: seq![("Content-Type"@, "text/plain"@)],
        body: BodyView::Text(""@),
    }
}

/// A successful reply that carries an image, which never changes.
pub open spec fn image_reply(data: Seq<u8>, content_type: Seq<char>) -> ReplyView {
    ReplyView {
        status: 200,
        headers: seq![
            ("Content-Type"@, content_type),
            ("Cache-Control"@, "public, max-age=31536000, immutable"@),
        ],
        body: BodyView::Data(data),
    }
}

/// Plain text with a status code.
pub fn text_response(status: u16, msg: &str) -> (r: Reply)
    ensures
        r@ == text_reply(status, msg@),
{
    let r = Reply { status, headers: Vec::new(), body: Body::Text(text::copy_str(msg)) };
    assert(r@.headers =~= Seq::empty());
    r
}

/// The reply to a request that makes no sense.
pub fn bad_request(msg: &str) -> (r: Reply)
    ensures
        r@ == text_reply(400, msg@),
{
    text_response(400, msg)
}

/// The reply to a request for something that is not there.
pub fn not_found(msg: &str) -> (r: Reply)
    ensures
        r@ == text_reply(404, msg@),
{
    text_response(404, msg)
}

/// A successful reply that carries JSON.
pub fn json_response(json: String) -> (r: Reply)
    ensures
        r@ == json_reply(json@),
{
    let mut headers: Vec<(String, String)> = Vec::new();
    headers.push((text::copy_str("Content-Type"), text::copy_str("application/json")));
    let r = Reply { status: 200, headers, body: Body::Text(json) };
    assert(r@.headers =~= seq![("Content-Type"@, "application/json"@)]);
    r
}

/// An empty reply that says that the work has been taken on.
pub fn accepted_empty() -> (r: Reply)
    ensures
        r@ == accepted_reply(),
{
    let mut headers: Vec<(String, String)> = Vec::new();
    headers.push((text::copy_str("Content-Type"), text::copy_str("text/plain")));
    let r = Reply { status: 202, headers, body: Body::Text(text::copy_str("")) };
    assert(r@.headers =~= seq![("Content-Type"@, "text/plain"@)]);
    r
}

/// A successful reply that carries an image, which never changes.
pub fn image_response(data: Arc<[u8]>, content_type: &str) -> (r: Reply)
    ensures
        r@ == image_reply(data@, content_type@),
{
    let mut headers: Vec<(String, String)> = Vec::new();
    headers.push((text::copy_str("Content-Type"), text::copy_str(content_type)));
    headers.push(
        (
            text::copy_str("Cache-Control"),
            text::copy_str("public, max-age=31536000, immutable"),
        ),
    );
    let r = Reply { status: 200, headers, body: Body::Data(data) };
    assert(r@.headers =~= image_reply(data@, content_type@).headers);
    r
}

/// The status code of the reply when a request failed: a block by the site is passed on.
pub open spec fn failure_status(report: ErrorReport) -> u16 {
    if errors::counts_as_block(report) {
        errors::TOO_MANY_REQUESTS
    } else {
        500
    }
}

/// The reply when a request failed with an error. A block by the site is reported to the limiter.
pub fn error_response(
    limiter: &mut AdaptiveRateLimiter,
    report: &ErrorReport,
    message: &str,
    now: u128,
) -> (r: Reply)
    requires
        old(limiter)@.wf(),
        errors::counts_as_block(*report) ==> old(limiter)@.can_block(
            errors::requested_wait(report.causes@),
            now,
        ),
    ensures
        r@ == text_reply(failure_status(*report), "Error: "@ + message@),
        final(limiter)@.wf(),
        final(limiter)@ == if errors::counts_as_block(*report) {
            old(limiter)@.after_block(errors::requested_wait(report.causes@), now)
        } else {
            old(limiter)@
        },
{
    let body = text::concat("Error: ", message);
    if errors::is_rate_limit_error(report) {
        let wait = errors::extract_retry_after(report);
        limiter.on_rate_limit_hit_with_retry(wait, now);
        text_response(errors::TOO_MANY_REQUESTS, body.as_str())
    } else {
        text_response(500, body.as_str())
    }
}

// ---------------------------------------------------------------------------------------------
// Segments
// ---------------------------------------------------------------------------------------------

/// Whether a segment of a path or address can be used as a name: it is not empty, stays in its
/// directory, and does not lead up.
pub open spec fn valid_segment(s: Seq<char>) -> bool {
    &&& s.len() > 0
    &&& s != "."@
    &&& !s.contains('/')
    &&& !s.contains('\\')
    &&& !text::occurs(s, ".."@)
}

/// Whether a character occurs in a string.
pub fn has_char(s: &str, c: char) -> (b: bool)
    ensures
        b == s@.contains(c),
{
    let v = text::chars_of(s);
    let mut i: usize = 0;
    while i < v.len()
        invariant
            v@ == s@,
            i <= v@.len(),
            forall|k: int| 0 <= k < i ==> #[trigger] s@[k] != c,
        decreases v@.len() - i,
    {
        if v[i] == c {
            assert(s@[i as int] == c);
            return true;
        }
        i += 1;
    }
    false
}

/// Decides whether a segment can be used as a name.
pub fn is_valid_segment(s: &str) -> (b: bool)
    ensures
        b == valid_segment(s@),
{
    !s.is_empty() && !text::str_eq(s, ".") && !has_char(s, '/') && !has_char(s, '\\')
        && !text::contains(s, "..")
}

/// The manga and the chapter number in the identifier of a chapter, `<manga>::<number>`, where
/// both can be used as names.
pub open spec fn chapter_id_parts(chap_id: Seq<char>) -> Option<(Seq<char>, Seq<char>)> {
    match text::split_once_of(chap_id, "::"@) {
        Some((id, number)) => if valid_segment(id) && valid_segment(number) {
            Some((id, number))
        } else {
            None
        },
        None => None,
    }
}

/// Takes the identifier of a chapter apart.
pub fn parse_chapter_id(chap_id: &str) -> (r: Option<(String, String)>)
    ensures
        match r {
            Some((id, number)) => chapter_id_parts(chap_id@) == Some((id@, number@)),
            None => chapter_id_parts(chap_id@) is None,
        },
{
    match text::split_once(chap_id, "::") {
        Some((id, number)) => if is_valid_segment(id.as_str()) && is_valid_segment(
            number.as_str(),
        ) {
            Some((id, number))
        } else {
            None
        },
        None => None,
    }
}

// ---------------------------------------------------------------------------------------------
// Laws
// ---------------------------------------------------------------------------------------------

/// A segment that is let through is never a step up or a step aside.
pub proof fn law_valid_segment_stays_in_place(s: Seq<char>)
    requires
        valid_segment(s),
    ensures
        s != "."@,
        s != ".."@,
        s.len() > 0,
        text::pieces(s, '/') == seq![s],
{
    if s == ".."@ {
        assert(s.subrange(0, s.len() as int) =~= ".."@);
        assert(text::occurs_at(s, ".."@, 0));
    }
    let none = Seq::<char>::empty();
    text::lemma_pieces_extend(none, s, '/');
    assert(none + s =~= s);
    assert(text::pieces(none, '/') =~= seq![none]);
    assert(text::pieces(s, '/') =~= seq![s]);
}

/// The identifier made from a manga and a chapter number is taken apart into these two, as long
/// as the manga's own identifier holds no separator and does not end in half of one.
pub proof fn law_chapter_id_is_read_back(id: Seq<char>, number: Seq<char>)
    requires
        valid_segment(id),
        valid_segment(number),
        !text::occurs(id.push(':'), "::"@),
    ensures
        chapter_id_parts(id + "::"@ + number) == Some((id, number)),
{
    reveal_strlit("::");
    let s = id + "::"@ + number;
    let n = id.len() as int;
    assert(s.subrange(n, n + 2) =~= "::"@);
    assert(text::occurs_at(s, "::"@, n));
    text::lemma_find_from(s, "::"@, 0);
    let i = text::find(s, "::"@)->0;
    assert(i == n) by {
        assert(i <= n);
        if i < n {
            let t = id.push(':');
            assert(s.subrange(i, i + 2)[0] == s[i]);
            assert(s.subrange(i, i + 2)[1] == s[i + 1]);
            assert(t[i] == s[i]);
            assert(t[i + 1] == s[i + 1]);
            assert(t.subrange(i, i + 2) =~= "::"@);
            assert(text::occurs_at(t, "::"@, i));
        }
    }
    assert(s.take(n) =~= id);
    assert(s.skip(n + 2) =~= number);
}

/// What replies are made of: text has the status code and the message and nothing else; JSON and
/// images are successes that say what they are; work that was taken on is answered by nothing.
pub proof fn law_replies(status: u16, msg: Seq<char>, data: Seq<u8>, content_type: Seq<char>)
    ensures
        text_reply(status, msg).status == status,
        text_reply(status, msg).headers.len() == 0,
        text_reply(status, msg).body == BodyView::Text(msg),
        json_reply(msg).status == 200,
        json_reply(msg).headers == seq![("Content-Type"@, "application/json"@)],
        json_reply(msg).body == BodyView::Text(msg),
        accepted_reply().status == 202,
        accepted_reply().headers == seq![("Content-Type"@, "text/plain"@)],
        accepted_reply().body == BodyView::Text(""@),
        image_reply(data, content_type).status == 200,
        image_reply(data, content_type).headers == seq![
            ("Content-Type"@, content_type),
            ("Cache-Control"@, "public, max-age=31536000, immutable"@),
        ],
        image_reply(data, content_type).body == BodyView::Data(data),
{
}

/// A request that failed is answered 429 where the site blocks, and 500 otherwise.
pub proof fn law_answer_to_a_failure(report: ErrorReport)
    ensures
        errors::counts_as_block(report) ==> failure_status(report) == 429,
        !errors::counts_as_block(report) ==> failure_status(report) == 500,
{
}

/// What a reply holds is what its parts hold.
pub proof fn law_contents_of_a_reply(r: Reply, i: int)
    ensures
        r@.status == r.status,
        r@.headers.len() == r.headers@.len(),
        0 <= i < r.headers@.len() ==> r@.headers[i] == (r.headers@[i].0@, r.headers@[i].1@),
        r.body matches Body::Text(s) ==> r@.body == BodyView::Text(s@),
        r.body matches Body::Data(d) ==> r@.body == BodyView::Data(d@),
{
}

/// Which segments can be used as names: those that are not empty, are not a single dot, and have no
/// slash of either form and no two dots in a row.
pub proof fn law_which_segments_are_names(s: Seq<char>)
    ensures
        valid_segment(s) <==> {
            &&& s.len() > 0
            &&& !(s.len() == 1 && s[0] == '.')
            &&& forall|i: int| 0 <= i < s.len() ==> #[trigger] s[i] != '/' && s[i] != '\\'
            &&& forall|i: int, j: int|
                0 <= i < s.len() && j == i + 1 && j < s.len() ==> !(#[trigger] s[i] == '.'
                    && #[trigger] s[j] == '.')
        },
{
    reveal_strlit(".");
    reveal_strlit("..");
    if s.len() == 1 && s[0] == '.' {
        assert(s =~= "."@);
    }
    if text::occurs(s, ".."@) {
        let i = choose|i: int| text::occurs_at(s, ".."@, i);
        assert(s.subrange(i, i + 2)[0] == s[i]);
        assert(s.subrange(i, i + 2)[1] == s[i + 1]);
    }
    if exists|i: int, j: int|
        0 <= i < s.len() && j == i + 1 && j < s.len() && #[trigger] s[i] == '.' && #[trigger] s[j]
            == '.' {
        let (i, j) = choose|i: int, j: int|
            0 <= i < s.len() && j == i + 1 && j < s.len() && #[trigger] s[i] == '.'
                && #[trigger] s[j] == '.';
        assert(s.subrange(i, i + 2) =~= ".."@);
        assert(text::occurs_at(s, ".."@, i));
    }
    assert forall|c: char| s.contains(c) <==> exists|i: int| 0 <= i < s.len() && #[trigger] s[i]
        == c by {}
}

/// The identifier of a chapter is taken apart at its first separator, and only where both parts can
/// be used as names.
pub proof fn law_parts_of_a_chapter_id(id: Seq<char>, number: Seq<char>, other: Seq<char>)
    requires
        forall|a: Seq<char>, b: Seq<char>|
            id + "::"@ + number == #[trigger] (a + "::"@ + b) ==> id.len() <= a.len(),
        forall|a: Seq<char>, b: Seq<char>| other != #[trigger] (a + "::"@ + b),
    ensures
        valid_segment(id) && valid_segment(number) ==> chapter_id_parts(id + "::"@ + number)
            == Some((id, number)),
        !valid_segment(id) || !valid_segment(number) ==> chapter_id_parts(id + "::"@ + number)
            is None,
        chapter_id_parts(other) is None,
{
    reveal_strlit("::");
    let s = id + "::"@ + number;
    text::law_split_once(s, "::"@);
    text::law_split_once(other, "::"@);
    let (a, b) = text::split_once_of(s, "::"@)->0;
    assert(s == a + "::"@ + b);
    assert(a.len() == id.len());
    assert(a =~= s.take(a.len() as int));
    assert(id =~= s.take(id.len() as int));
    assert(b =~= s.skip(a.len() + 2int));
    assert(number =~= s.skip(id.len() + 2int));
}

/// Parts that an identifier was taken apart into make it up again, and can be used as names.
pub proof fn law_chapter_id_is_put_together(chap_id: Seq<char>)
    requires
        chapter_id_parts(chap_id) is Some,
    ensures
        ({
            let (id, number) = chapter_id_parts(chap_id)->0;
            &&& chap_id == id + "::"@ + number
            &&& valid_segment(id)
            &&& valid_segment(number)
        }),
{
    text::law_split_once(chap_id, "::"@);
}

} // verus!
