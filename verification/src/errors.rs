//! What can go wrong on the network, and which of it counts as a block by the site.
use crate::config;
use crate::rate_limit::NANOS_PER_SEC;
use crate::text::{self, CharClass};
use vstd::prelude::*;

verus! {

/// The status code of a reply that asks the client to slow down.
pub const TOO_MANY_REQUESTS: u16 = 429;

/// What kind of block was met.
#[derive(Debug, Clone, Copy, PartialEq, Eq, Structural)]
pub enum RateLimitKind {
    /// The server answered with the status code for too many requests.
    Http429,
    /// The server asked for a browser challenge.
    CloudflareChallenge,
    /// Anything else that counts as a block.
    Other,
}

/// A block by the server.
#[derive(Debug)]
pub struct RateLimitError {
    /// What kind of block it is.
    pub kind: RateLimitKind,
    /// The status code of the reply, where there was one.
    pub status: Option<u16>,
    /// How many nanoseconds the server asked to wait for, if it did.
    pub retry_after: Option<u128>,
    /// What happened, in words.
    pub reason: String,
}

/// The contents of a [`RateLimitError`].
pub struct RateLimitErrorView {
    pub kind: RateLimitKind,
    pub status: Option<u16>,
    pub retry_after: Option<u128>,
    pub reason: Seq<char>,
}

impl View for RateLimitError {
    type V = RateLimitErrorView;

    open spec fn view(&self) -> RateLimitErrorView {
        RateLimitErrorView {
            kind: self.kind,
            status: self.status,
            retry_after: self.retry_after,
            reason: self.reason@,
        }
    }
}

/// The kind of block that a status code and a reason stand for: the status code decides, then the
/// mention of Cloudflare.
pub open spec fn kind_of(status: Option<u16>, reason: Seq<char>) -> RateLimitKind {
    if status == Some(TOO_MANY_REQUESTS) {
        RateLimitKind::Http429
    } else if text::occurs(text::lowered(reason), "cloudflare"@) {
        RateLimitKind::CloudflareChallenge
    } else {
        RateLimitKind::Other
    }
}

/// Whether a number is a status code.
pub open spec fn is_status(code: u16) -> bool {
    100 <= code <= 999
}

/// A status code with its reason phrase.
pub uninterp spec fn status_text(code: u16) -> Seq<char>;

/// `StatusCode`'s `Display` prints the number, a space and the reason phrase of the code.
#[verifier::external_body]
pub(crate) fn show_status(code: u16) -> (s: String)
    requires
        is_status(code),
    ensures
        s@ == status_text(code),
        (text::digits(code as nat) + seq![' ']).is_prefix_of(s@),
{
    reqwest::StatusCode::from_u16(code).unwrap().to_string()
}

/// Whether a status code means success.
pub open spec fn is_success_status(code: u16) -> bool {
    200 <= code < 300
}

/// The message of a block.
pub open spec fn block_message(status: Option<u16>, reason: Seq<char>) -> Seq<char> {
    match status {
        Some(code) => "Rate limited by Cloudflare/MangaKatana (status "@ + status_text(code)
            + "): "@ + reason,
        None => "Rate limited by Cloudflare/MangaKatana: "@ + reason,
    }
}

impl RateLimitError {
    /// Whether the status code, where there is one, is a status code.
    pub open spec fn wf(self) -> bool {
        self.status matches Some(code) ==> is_status(code)
    }

    /// A block without a span to wait for; its kind follows from the status code and the reason.
    pub fn new(status: Option<u16>, reason: &str) -> (e: Self)
        ensures
            e@ == (RateLimitErrorView {
                kind: kind_of(status, reason@),
                status,
                retry_after: None,
                reason: reason@,
            }),
    {
        Self::with_retry(status, reason, None)
    }

    /// A block; its kind follows from the status code and the reason.
    pub fn with_retry(status: Option<u16>, reason: &str, retry_after: Option<u128>) -> (e: Self)
        ensures
            e@ == (RateLimitErrorView {
                kind: kind_of(status, reason@),
                status,
                retry_after,
                reason: reason@,
            }),
    {
        let too_many = match status {
            Some(code) => code == TOO_MANY_REQUESTS,
            None => false,
        };
        let kind = if too_many {
            RateLimitKind::Http429
        } else if text::contains(text::to_ascii_lower(reason).as_str(), "cloudflare") {
            RateLimitKind::CloudflareChallenge
        } else {
            RateLimitKind::Other
        };
        RateLimitError { kind, status, retry_after, reason: text::copy_str(reason) }
    }

    /// A block of a given kind.
    pub fn with_kind(status: Option<u16>, reason: &str, kind: RateLimitKind) -> (e: Self)
        ensures
            e@ == (RateLimitErrorView { kind, status, retry_after: None, reason: reason@ }),
    {
        RateLimitError { kind, status, retry_after: None, reason: text::copy_str(reason) }
    }

    /// The same block with another span to wait for.
    pub fn with_retry_after(self, retry_after: Option<u128>) -> (e: Self)
        ensures
            e@ == (RateLimitErrorView { retry_after, ..self@ }),
    {
        RateLimitError { kind: self.kind, status: self.status, retry_after, reason: self.reason }
    }

    /// How long the server asked to wait for.
    pub fn retry_after(&self) -> (span: Option<u128>)
        ensures
            span == self@.retry_after,
    {
        self.retry_after
    }

    /// The message shown to the user.
    pub fn message(&self) -> (s: String)
        requires
            self.wf(),
        ensures
            s@ == block_message(self@.status, self@.reason),
    {
        let mut s = match self.status {
            Some(code) => {
                let mut s = text::copy_str("Rate limited by Cloudflare/MangaKatana (status ");
                let shown = show_status(code);
                text::push_str(&mut s, shown.as_str());
                text::push_str(&mut s, "): ");
                s
            },
            None => text::copy_str("Rate limited by Cloudflare/MangaKatana: "),
        };
        text::push_str(&mut s, self.reason.as_str());
        s
    }
}

impl Clone for RateLimitError {
    fn clone(&self) -> (e: Self)
        ensures
            e@ == self@,
    {
        RateLimitError {
            kind: self.kind,
            status: self.status,
            retry_after: self.retry_after,
            reason: text::copy_str(self.reason.as_str()),
        }
    }
}

/// Whether lower-case text comes from a browser challenge.
pub open spec fn is_challenge(lower: Seq<char>) -> bool {
    ||| text::occurs(lower, "cf-chl-bypass"@)
    ||| text::occurs(lower, "challenge-platform"@)
    ||| text::occurs(lower, "just a moment..."@)
    ||| (text::occurs(lower, "turnstile"@) && text::occurs(lower, "challenge"@))
}

fn challenged(lower: &str) -> (b: bool)
    ensures
        b == is_challenge(lower@),
{
    text::contains(lower, "cf-chl-bypass") || text::contains(lower, "challenge-platform")
        || text::contains(lower, "just a moment...") || (text::contains(lower, "turnstile")
        && text::contains(lower, "challenge"))
}

/// One link of the chain of causes of an error.
#[derive(Debug)]
pub enum Cause {
    /// A block that was recognised where it happened.
    RateLimit(RateLimitError),
    /// An error of the HTTP client, with the status code that it carries, if any.
    Http { status: Option<u16> },
    /// Anything else.
    Other,
}

/// An error as its handler sees it: the chain of its causes, outermost first, and its full
/// description.
#[derive(Debug)]
pub struct ErrorReport {
    pub causes: Vec<Cause>,
    pub description: String,
}

/// Whether a cause is a block.
pub open spec fn is_block(cause: Cause) -> bool {
    match cause {
        Cause::RateLimit(_) => true,
        Cause::Http { status } => status == Some(TOO_MANY_REQUESTS),
        Cause::Other => false,
    }
}

/// Whether the description of an error speaks of a block.
pub open spec fn speaks_of_block(description: Seq<char>) -> bool {
    let lower = text::lowered(description);
    ||| is_challenge(lower)
    ||| text::occurs(lower, "rate limited"@)
    ||| text::occurs(lower, "429 too many requests"@)
}

/// Whether an error counts as a block: one of its causes is one, or its description says so.
pub open spec fn counts_as_block(report: ErrorReport) -> bool {
    ||| exists|i: int| 0 <= i < report.causes@.len() && is_block(#[trigger] report.causes@[i])
    ||| speaks_of_block(report.description@)
}

/// The span to wait for that the first recognised block of a chain carries.
pub open spec fn requested_wait(causes: Seq<Cause>) -> Option<u128>
    decreases causes.len(),
{
    if causes.len() == 0 {
        None
    } else {
        match causes[0] {
            Cause::RateLimit(e) => e@.retry_after,
            _ => requested_wait(causes.skip(1)),
        }
    }
}

/// Decides whether an error counts as a block by the server.
pub fn is_rate_limit_error(report: &ErrorReport) -> (b: bool)
    ensures
        b == counts_as_block(*report),
{
    let mut i: usize = 0;
    while i < report.causes.len()
        invariant
            i <= report.causes@.len(),
            forall|k: int| 0 <= k < i ==> !is_block(#[trigger] report.causes@[k]),
        decreases report.causes@.len() - i,
    {
        let hit = match &report.causes[i] {
            Cause::RateLimit(_) => true,
            Cause::Http { status } => match status {
                Some(code) => *code == TOO_MANY_REQUESTS,
                None => false,
            },
            Cause::Other => false,
        };
        if hit {
            assert(is_block(report.causes@[i as int]));
            return true;
        }
        i += 1;
    }
    let lower = text::to_ascii_lower(report.description.as_str());
    challenged(lower.as_str()) || text::contains(lower.as_str(), "rate limited")
        || text::contains(lower.as_str(), "429 too many requests")
}

/// The span that the server asked to wait for, where the error carries one.
pub fn extract_retry_after(report: &ErrorReport) -> (span: Option<u128>)
    ensures
        span == requested_wait(report.causes@),
{
    let mut i: usize = 0;
    assert(report.causes@.skip(0) =~= report.causes@);
    while i < report.causes.len()
        invariant
            i <= report.causes@.len(),
            requested_wait(report.causes@) == requested_wait(report.causes@.skip(i as int)),
        decreases report.causes@.len() - i,
    {
        assert(report.causes@.skip(i as int)[0] == report.causes@[i as int]);
        assert(report.causes@.skip(i as int).skip(1) =~= report.causes@.skip(i + 1));
        if let Cause::RateLimit(e) = &report.causes[i] {
            return e.retry_after();
        }
        i += 1;
    }
    None
}

/// Whether a reply is a block: it says so by its status code, or it is no success and its body is
/// a browser challenge.
pub open spec fn is_blocked_reply(status: u16, body: Seq<char>) -> bool {
    status == TOO_MANY_REQUESTS || (!is_success_status(status) && is_challenge(
        text::lowered(body),
    ))
}

/// Decides whether a reply is a block.
pub fn is_rate_limited_response(status: u16, body: &str) -> (b: bool)
    ensures
        b == is_blocked_reply(status, body@),
{
    if status == TOO_MANY_REQUESTS {
        return true;
    }
    if 200 <= status && status < 300 {
        return false;
    }
    challenged(text::to_ascii_lower(body).as_str())
}

/// The span in nanoseconds that a `Retry-After` header asks for. Only the form that counts seconds
/// is understood.
pub open spec fn retry_span(header: Option<Seq<char>>) -> Option<int> {
    match header {
        Some(value) => match config::natural(text::trimmed(value), u64::MAX as nat) {
            Some(n) => Some(n * NANOS_PER_SEC),
            None => None,
        },
        None => None,
    }
}

/// Reads a `Retry-After` header.
pub fn parse_retry_after(header: Option<&str>) -> (span: Option<u128>)
    ensures
        match span {
            Some(ns) => retry_span(
                match header {
                    Some(v) => Some(v@),
                    None => None,
                },
            ) == Some(ns as int),
            None => retry_span(
                match header {
                    Some(v) => Some(v@),
                    None => None,
                },
            ) is None,
        },
{
    match header {
        Some(value) => {
            let t = text::trim(value, CharClass::WhiteSpace);
            let v = text::chars_of(t.as_str());
            assert(v@.skip(0) =~= v@);
            match config::parse_natural(&v, 0, u64::MAX) {
                Some(n) => Some(n as u128 * NANOS_PER_SEC),
                None => None,
            }
        },
        None => None,
    }
}

/// Why a page could not be used.
#[derive(Debug)]
pub enum FetchError {
    /// The server blocks the client.
    RateLimit(RateLimitError),
    /// Anything else, in words.
    Failure(String),
}

/// The contents of a [`FetchError`].
pub enum FetchErrorView {
    RateLimit(RateLimitErrorView),
    Failure(Seq<char>),
}

impl View for FetchError {
    type V = FetchErrorView;

    open spec fn view(&self) -> FetchErrorView {
        match self {
            FetchError::RateLimit(e) => FetchErrorView::RateLimit(e@),
            FetchError::Failure(s) => FetchErrorView::Failure(s@),
        }
    }
}

/// An error that carries a span to wait for always counts as a block.
pub proof fn law_requested_wait_means_block(report: ErrorReport)
    requires
        requested_wait(report.causes@) is Some,
    ensures
        counts_as_block(report),
{
    lemma_requested_wait_has_source(report.causes@);
}

proof fn lemma_requested_wait_has_source(causes: Seq<Cause>)
    requires
        requested_wait(causes) is Some,
    ensures
        exists|i: int| 0 <= i < causes.len() && is_block(#[trigger] causes[i]),
    decreases causes.len(),
{
    if !(causes[0] is RateLimit) {
        lemma_requested_wait_has_source(causes.skip(1));
        let i = choose|i: int|
            0 <= i < causes.skip(1).len() && is_block(#[trigger] causes.skip(1)[i]);
        assert(causes[i + 1] == causes.skip(1)[i]);
    } else {
        assert(is_block(causes[0]));
    }
}

/// A block that was recognised where it happened counts as one wherever it stands in the chain,
/// and where it is the outermost cause the span it carries is the one that is used.
pub proof fn law_typed_block_is_kept(report: ErrorReport, i: int)
    requires
        0 <= i < report.causes@.len(),
        report.causes@[i] is RateLimit,
    ensures
        counts_as_block(report),
        i == 0 ==> requested_wait(report.causes@) == report.causes@[0]->RateLimit_0@.retry_after,
{
    assert(is_block(report.causes@[i]));
}

proof fn lemma_occurs_inside(s: Seq<char>, t: Seq<char>, p: Seq<char>)
    requires
        text::occurs(s, t),
        text::occurs(text::lowered(t), p),
    ensures
        text::occurs(text::lowered(s), p),
{
    let i = choose|i: int| text::occurs_at(s, t, i);
    let j = choose|j: int| text::occurs_at(text::lowered(t), p, j);
    let lower = text::lowered(s);
    assert forall|k: int| 0 <= k < p.len() implies lower[i + j + k] == #[trigger] p[k] by {
        assert(text::lowered(t).subrange(j, j + p.len())[k] == text::lowered(t)[j + k]);
        assert(s.subrange(i, i + t.len())[j + k] == s[i + j + k]);
    }
    assert(lower.subrange(i + j, i + j + p.len()) =~= p);
    assert(text::occurs_at(lower, p, i + j));
}

proof fn lemma_speaks_inside(s: Seq<char>, t: Seq<char>)
    requires
        text::occurs(s, t),
        speaks_of_block(t),
    ensures
        speaks_of_block(s),
{
    let lower = text::lowered(t);
    if text::occurs(lower, "cf-chl-bypass"@) {
        lemma_occurs_inside(s, t, "cf-chl-bypass"@);
    } else if text::occurs(lower, "challenge-platform"@) {
        lemma_occurs_inside(s, t, "challenge-platform"@);
    } else if text::occurs(lower, "just a moment..."@) {
        lemma_occurs_inside(s, t, "just a moment..."@);
    } else if text::occurs(lower, "rate limited"@) {
        lemma_occurs_inside(s, t, "rate limited"@);
    } else if text::occurs(lower, "429 too many requests"@) {
        lemma_occurs_inside(s, t, "429 too many requests"@);
    } else {
        lemma_occurs_inside(s, t, "turnstile"@);
        lemma_occurs_inside(s, t, "challenge"@);
    }
}

/// An error whose description shows the message of a block counts as a block, even where the block
/// itself is lost from the chain of causes.
pub proof fn law_block_message_counts(
    status: Option<u16>,
    reason: Seq<char>,
    report: ErrorReport,
)
    requires
        text::occurs(report.description@, block_message(status, reason)),
    ensures
        speaks_of_block(block_message(status, reason)),
        counts_as_block(report),
{
    reveal_strlit("rate limited");
    reveal_strlit("Rate limited by Cloudflare/MangaKatana (status ");
    reveal_strlit("Rate limited by Cloudflare/MangaKatana: ");
    let message = block_message(status, reason);
    let lower = text::lowered(message);
    assert(lower.subrange(0, 12) =~= "rate limited"@);
    assert(text::occurs_at(lower, "rate limited"@, 0));
    lemma_speaks_inside(report.description@, message);
}

/// An error that counts as a block still does so when a cause is added around it: by the causes
/// that it had, whatever becomes of the description, and by a text that the description still shows.
/// The span that the server asked to wait for stays the same unless the added cause is a block.
pub proof fn law_context_keeps_a_block(
    inner: ErrorReport,
    added: Cause,
    outer: ErrorReport,
    shown: Seq<char>,
)
    requires
        outer.causes@ == seq![added] + inner.causes@,
        text::occurs(outer.description@, shown),
    ensures
        forall|i: int|
            0 <= i < inner.causes@.len() && is_block(#[trigger] inner.causes@[i])
                ==> counts_as_block(outer),
        speaks_of_block(shown) ==> counts_as_block(outer),
        counts_as_block(inner) && shown == inner.description@ ==> counts_as_block(outer),
        !(added is RateLimit) ==> requested_wait(outer.causes@) == requested_wait(inner.causes@),
{
    assert forall|i: int|
        0 <= i < inner.causes@.len() && is_block(#[trigger] inner.causes@[i]) implies
        counts_as_block(outer) by {
        assert(outer.causes@[i + 1] == inner.causes@[i]);
    }
    if speaks_of_block(shown) {
        lemma_speaks_inside(outer.description@, shown);
    }
    assert(outer.causes@.skip(1) =~= inner.causes@);
    assert(outer.causes@[0] == added);
}

/// Which replies are blocks: one with the status code 429, and one that is no success and whose body
/// mentions one of the marks of a browser challenge, in whatever letter case. A success is never a
/// block, whatever its body says.
pub proof fn law_which_replies_are_blocks(status: u16, body: Seq<char>)
    ensures
        status == 429 ==> is_blocked_reply(status, body),
        200 <= status <= 299 ==> !is_blocked_reply(status, body),
        status != 429 && !(200 <= status <= 299) ==> (is_blocked_reply(status, body) <==> {
            let lower = text::lowered(body);
            ||| text::occurs(lower, "cf-chl-bypass"@)
            ||| text::occurs(lower, "challenge-platform"@)
            ||| text::occurs(lower, "just a moment..."@)
            ||| text::occurs(lower, "turnstile"@) && text::occurs(lower, "challenge"@)
        }),
        is_success_status(status) <==> 200 <= status <= 299,
        is_status(status) <==> 100 <= status <= 999,
{
}

/// Which errors are blocks: those with a block among their causes, or a reply with the status code
/// 429, and those whose description mentions a browser challenge, or that requests were limited, in
/// whatever letter case. Nothing else is.
pub proof fn law_which_errors_are_blocks(report: ErrorReport)
    ensures
        counts_as_block(report) <==> {
            let lower = text::lowered(report.description@);
            ||| exists|i: int|
                0 <= i < report.causes@.len() && match #[trigger] report.causes@[i] {
                    Cause::RateLimit(_) => true,
                    Cause::Http { status } => status == Some(429u16),
                    Cause::Other => false,
                }
            ||| text::occurs(lower, "cf-chl-bypass"@)
            ||| text::occurs(lower, "challenge-platform"@)
            ||| text::occurs(lower, "just a moment..."@)
            ||| text::occurs(lower, "turnstile"@) && text::occurs(lower, "challenge"@)
            ||| text::occurs(lower, "rate limited"@)
            ||| text::occurs(lower, "429 too many requests"@)
        },
{
    if exists|i: int|
        0 <= i < report.causes@.len() && match #[trigger] report.causes@[i] {
            Cause::RateLimit(_) => true,
            Cause::Http { status } => status == Some(429u16),
            Cause::Other => false,
        } {
        let i = choose|i: int|
            0 <= i < report.causes@.len() && match #[trigger] report.causes@[i] {
                Cause::RateLimit(_) => true,
                Cause::Http { status } => status == Some(429u16),
                Cause::Other => false,
            };
        assert(is_block(report.causes@[i]));
    }
}

/// The span to wait for is the one of the first block among the causes, where that has one; causes
/// of other kinds have none.
pub proof fn law_first_block_says_how_long(causes: Seq<Cause>, k: int)
    requires
        0 <= k <= causes.len(),
        forall|i: int| 0 <= i < k ==> !((#[trigger] causes[i]) is RateLimit),
    ensures
        k == causes.len() ==> requested_wait(causes) is None,
        k < causes.len() && causes[k] is RateLimit ==> requested_wait(causes)
            == causes[k]->RateLimit_0.retry_after,
    decreases k,
{
    if k > 0 {
        let rest = causes.skip(1);
        assert forall|i: int| 0 <= i < k - 1 implies !((#[trigger] rest[i]) is RateLimit) by {
            assert(rest[i] == causes[i + 1]);
        }
        assert(!(causes[0] is RateLimit));
        law_first_block_says_how_long(rest, k - 1);
        if k < causes.len() {
            assert(rest[k - 1] == causes[k]);
        }
    }
}

/// A block is of the kind that its status code says, else of the kind that its reason says; it keeps
/// the status code and the reason that it was made with, and its message ends with the reason.
pub proof fn law_kind_of_a_block(status: Option<u16>, reason: Seq<char>)
    ensures
        status == Some(429u16) <==> kind_of(status, reason) == RateLimitKind::Http429,
        kind_of(status, reason) == RateLimitKind::CloudflareChallenge <==> status != Some(429u16)
            && text::occurs(text::lowered(reason), "cloudflare"@),
        reason.is_suffix_of(block_message(status, reason)),
        status is None ==> block_message(status, reason)
            == "Rate limited by Cloudflare/MangaKatana: "@ + reason,
        status matches Some(code) ==> block_message(status, reason)
            == "Rate limited by Cloudflare/MangaKatana (status "@ + status_text(code) + "): "@
            + reason,
{
    let m = block_message(status, reason);
    assert(m.subrange(m.len() - reason.len(), m.len() as int) =~= reason);
}

/// A header with a number of seconds, with white space around it or not, asks for that many seconds;
/// a number that is too large, and anything else, asks for nothing.
pub proof fn law_retry_after_counts_seconds(before: Seq<char>, n: nat, after: Seq<char>)
    requires
        forall|i: int| 0 <= i < before.len() ==> text::is_white_space(#[trigger] before[i]),
        forall|i: int| 0 <= i < after.len() ==> text::is_white_space(#[trigger] after[i]),
    ensures
        ({
            let header = before + text::digits(n) + after;
            &&& n <= u64::MAX ==> retry_span(Some(header)) == Some(n * 1_000_000_000int)
            &&& n > u64::MAX ==> retry_span(Some(header)) is None
        }),
        retry_span(None) is None,
{
    config::law_decimal_notation(n);
    let d = text::digits(n);
    assert('0' <= d[0] <= '9' && '0' <= d[d.len() - 1] <= '9');
    text::law_trimming_leaves(before, d, after, CharClass::WhiteSpace);
}

/// A header that is not a run of digits, once the white space around it is gone, asks for nothing.
pub proof fn law_other_headers_ask_for_nothing(header: Seq<char>, i: int)
    requires
        0 <= i < text::trimmed(header).len(),
        !(48 <= text::trimmed(header)[i] as int <= 57),
    ensures
        retry_span(Some(header)) is None,
        text::trimmed(Seq::empty()).len() == 0 ==> retry_span(Some(Seq::empty())) is None,
{
}

/// What a block and a failure hold is what their parts hold. The message of a block ends in its
/// reason and gives the status code where there is one.
pub proof fn law_contents_of_errors(e: RateLimitError, f: FetchError, code: u16)
    ensures
        e@.kind == e.kind && e@.status == e.status && e@.retry_after == e.retry_after && e@.reason
            == e.reason@,
        f matches FetchError::RateLimit(b) ==> f@ == FetchErrorView::RateLimit(b@),
        f matches FetchError::Failure(s) ==> f@ == FetchErrorView::Failure(s@),
        block_message(None, e.reason@) == "Rate limited by Cloudflare/MangaKatana: "@ + e.reason@,
        block_message(Some(code), e.reason@) == "Rate limited by Cloudflare/MangaKatana (status "@
            + status_text(code) + "): "@ + e.reason@,
        is_status(code) <==> 100 <= code <= 999,
        is_success_status(code) <==> 200 <= code <= 299,
{
}

} // verus!
