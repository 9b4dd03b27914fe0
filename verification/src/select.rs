//! Picking chapters: the selection language, and the order of a chapter list.
use crate::decimal::{self, ChapterNumber};
use crate::models::{self, Chapter, ChapterView};
use crate::text::{self, CharClass};
use vstd::prelude::*;

verus! {

// ---------------------------------------------------------------------------------------------
// The selection language
// ---------------------------------------------------------------------------------------------

/// One part of a selection.
#[derive(Clone, Copy)]
pub enum Term {
    /// All chapters from the first to the second number.
    Range(ChapterNumber, ChapterNumber),
    /// The chapter with that number.
    One(ChapterNumber),
}

impl Term {
    /// Whether a chapter with that number value is selected.
    pub open spec fn covers(self, value: int) -> bool {
        match self {
            Term::Range(from, to) => from.value() <= value <= to.value(),
            Term::One(n) => n.value() == value,
        }
    }

    /// Whether the numbers are decimals.
    pub open spec fn wf(self) -> bool {
        match self {
            Term::Range(from, to) => from.wf() && to.wf(),
            Term::One(n) => n.wf(),
        }
    }
}

/// Why a selection was refused.
#[derive(Debug)]
pub enum SelectError {
    /// The start of a range is not a number.
    InvalidStart(String),
    /// The end of a range is not a number.
    InvalidEnd(String),
    /// A range that runs downwards.
    Descending(String),
    /// A part that is neither a range nor a number.
    InvalidSelection(String),
    /// Nothing was selected.
    NoMatch,
}

/// The contents of a [`SelectError`].
pub enum SelectErrorView {
    InvalidStart(Seq<char>),
    InvalidEnd(Seq<char>),
    Descending(Seq<char>),
    InvalidSelection(Seq<char>),
    NoMatch,
}

impl View for SelectError {
    type V = SelectErrorView;

    open spec fn view(&self) -> SelectErrorView {
        match self {
            SelectError::InvalidStart(t) => SelectErrorView::InvalidStart(t@),
            SelectError::InvalidEnd(t) => SelectErrorView::InvalidEnd(t@),
            SelectError::Descending(t) => SelectErrorView::Descending(t@),
            SelectError::InvalidSelection(t) => SelectErrorView::InvalidSelection(t@),
            SelectError::NoMatch => SelectErrorView::NoMatch,
        }
    }
}

impl SelectError {
    /// The message for the user.
    pub fn message(&self) -> (m: String)
        ensures
            m@ == match self@ {
                SelectErrorView::InvalidStart(t) => "Invalid start range: "@ + t,
                SelectErrorView::InvalidEnd(t) => "Invalid end range: "@ + t,
                SelectErrorView::Descending(t) => "Invalid descending range: "@ + t,
                SelectErrorView::InvalidSelection(t) => "Invalid chapter selection: "@ + t,
                SelectErrorView::NoMatch => "Selection matches no chapters"@,
            },
    {
        match self {
            SelectError::InvalidStart(t) => text::concat("Invalid start range: ", t.as_str()),
            SelectError::InvalidEnd(t) => text::concat("Invalid end range: ", t.as_str()),
            SelectError::Descending(t) => text::concat("Invalid descending range: ", t.as_str()),
            SelectError::InvalidSelection(t) => text::concat(
                "Invalid chapter selection: ",
                t.as_str(),
            ),
            SelectError::NoMatch => text::copy_str("Selection matches no chapters"),
        }
    }
}

/// What one comma-separated part means; a blank part means nothing.
pub open spec fn term_of(part: Seq<char>) -> Result<Option<Term>, SelectErrorView> {
    let p = text::trimmed(part);
    if p.len() == 0 {
        Ok(None)
    } else {
        match text::split_once_of(p, "-"@) {
            Some((a, b)) => match (
                ChapterNumber::parsed(text::trimmed(a)),
                ChapterNumber::parsed(text::trimmed(b)),
            ) {
                (None, _) => Err(SelectErrorView::InvalidStart(a)),
                (Some(_), None) => Err(SelectErrorView::InvalidEnd(b)),
                (Some(from), Some(to)) => if from.value() > to.value() {
                    Err(SelectErrorView::Descending(p))
                } else {
                    Ok(Some(Term::Range(from, to)))
                },
            },
            None => match ChapterNumber::parsed(p) {
                None => Err(SelectErrorView::InvalidSelection(p)),
                Some(n) => Ok(Some(Term::One(n))),
            },
        }
    }
}

/// What the parts mean together; the first part that is refused decides the error.
pub open spec fn terms_of(parts: Seq<Seq<char>>) -> Result<Seq<Term>, SelectErrorView>
    decreases parts.len(),
{
    if parts.len() == 0 {
        Ok(Seq::empty())
    } else {
        match terms_of(parts.drop_last()) {
            Err(e) => Err(e),
            Ok(before) => match term_of(parts.last()) {
                Err(e) => Err(e),
                Ok(None) => Ok(before),
                Ok(Some(t)) => Ok(before.push(t)),
            },
        }
    }
}

/// Whether some term selects a chapter with that number value.
pub open spec fn covered(terms: Seq<Term>, value: int) -> bool {
    exists|i: int| 0 <= i < terms.len() && (#[trigger] terms[i]).covers(value)
}

/// The chapters that the terms select, in their order.
pub open spec fn picked(chapters: Seq<ChapterView>, terms: Seq<Term>) -> Seq<ChapterView> {
    chapters.filter(|c: ChapterView| covered(terms, c.number.value()))
}

/// What a selection in lower case, without white space at its ends, selects.
pub open spec fn selection_of(chapters: Seq<ChapterView>, spec_text: Seq<char>) -> Result<
    Seq<ChapterView>,
    SelectErrorView,
> {
    if spec_text == "all"@ || spec_text.len() == 0 {
        Ok(chapters)
    } else {
        match terms_of(text::pieces(spec_text, ',')) {
            Err(e) => Err(e),
            Ok(terms) => if picked(chapters, terms).len() == 0 {
                Err(SelectErrorView::NoMatch)
            } else {
                Ok(picked(chapters, terms))
            },
        }
    }
}

/// The outcome of a selection by its contents.
pub open spec fn outcome(r: Result<Vec<Chapter>, SelectError>) -> Result<
    Seq<ChapterView>,
    SelectErrorView,
> {
    match r {
        Ok(v) => Ok(models::chapter_views(v@)),
        Err(e) => Err(e@),
    }
}

/// The outcome of reading one part by its contents.
pub open spec fn term_outcome(r: Result<Option<Term>, SelectError>) -> Result<
    Option<Term>,
    SelectErrorView,
> {
    match r {
        Ok(t) => Ok(t),
        Err(e) => Err(e@),
    }
}

/// The outcome of reading a selection by its contents.
pub open spec fn terms_outcome(r: Result<Vec<Term>, SelectError>) -> Result<
    Seq<Term>,
    SelectErrorView,
> {
    match r {
        Ok(t) => Ok(t@),
        Err(e) => Err(e@),
    }
}

/// Whether a comma-separated part is blank or written as a number or as two numbers with a dash
/// between them.
pub open spec fn is_readable_part(part: Seq<char>) -> bool {
    let p = text::trimmed(part);
    p.len() == 0 || match text::split_once_of(p, "-"@) {
        Some((a, b)) => decimal::is_readable(text::trimmed(a)) && decimal::is_readable(
            text::trimmed(b),
        ),
        None => decimal::is_readable(p),
    }
}

/// Whether every part of a selection is blank or written as a number or a range.
pub open spec fn is_readable_selection(spec_text: Seq<char>) -> bool {
    let parts = text::pieces(spec_text, ',');
    forall|i: int| 0 <= i < parts.len() ==> is_readable_part(#[trigger] parts[i])
}

/// Reads one comma-separated part. What is written neither as a number nor as a range is refused.
pub fn parse_term(part: &str) -> (r: Result<Option<Term>, SelectError>)
    ensures
        term_outcome(r) == term_of(part@),
        r matches Ok(Some(t)) ==> t.wf(),
        r is Ok ==> is_readable_part(part@),
        forall|n: ChapterNumber|
            n.wf() && n.mantissa >= 0 && text::trimmed(part@) == #[trigger] n.text()
                ==> term_outcome(r) == Ok::<Option<Term>, SelectErrorView>(Some(Term::One(n))),
{
    let p = text::trim(part, CharClass::WhiteSpace);
    let ghost pv = p@;
    if p.as_str().is_empty() {
        assert forall|n: ChapterNumber|
            n.wf() && n.mantissa >= 0 && text::trimmed(part@) == #[trigger] n.text() implies false by {
            lemma_number_text(n);
        }
        return Ok(None);
    }
    if let Some((a, b)) = text::split_once(p.as_str(), "-") {
        assert forall|n: ChapterNumber|
            n.wf() && n.mantissa >= 0 && text::trimmed(part@) == #[trigger] n.text() implies false by {
            lemma_number_text(n);
            lemma_no_dash(n);
        }
        let start = text::trim(a.as_str(), CharClass::WhiteSpace);
        let from = match ChapterNumber::parse(start.as_str()) {
            Some(n) => n,
            None => {
                return Err(SelectError::InvalidStart(a));
            },
        };
        let end = text::trim(b.as_str(), CharClass::WhiteSpace);
        let to = match ChapterNumber::parse(end.as_str()) {
            Some(n) => n,
            None => {
                return Err(SelectError::InvalidEnd(b));
            },
        };
        if !from.at_most(to) {
            return Err(SelectError::Descending(p));
        }
        return Ok(Some(Term::Range(from, to)));
    }
    match ChapterNumber::parse(p.as_str()) {
        Some(n) => Ok(Some(Term::One(n))),
        None => Err(SelectError::InvalidSelection(p)),
    }
}

/// The printed form of a number consists of digits and points, and of a dash where the number is
/// negative. It is not empty.
pub proof fn lemma_number_text(n: ChapterNumber)
    requires
        n.wf(),
    ensures
        n.text().len() > 0,
        forall|i: int|
            0 <= i < n.text().len() ==> ('0' <= #[trigger] n.text()[i] <= '9' || n.text()[i] == '.'
                || (n.mantissa < 0 && n.text()[i] == '-')),
{
    let unit = decimal::pow10(n.scale as nat) as nat;
    let whole = text::digits(decimal::magnitude(n.mantissa as int) / unit);
    lemma_digits_text(decimal::magnitude(n.mantissa as int) / unit);
    lemma_padded_text(decimal::magnitude(n.mantissa as int) % unit, n.scale as nat);
}

proof fn lemma_digit_char(d: nat)
    requires
        d < 10,
    ensures
        '0' <= text::digit_char(d) <= '9',
{
}

proof fn lemma_digits_text(n: nat)
    ensures
        text::digits(n).len() > 0,
        forall|i: int|
            0 <= i < text::digits(n).len() ==> '0' <= #[trigger] text::digits(n)[i] <= '9',
    decreases n,
{
    if n >= 10 {
        lemma_digits_text(n / 10);
        lemma_digit_char(n % 10);
    } else {
        lemma_digit_char(n);
    }
}

proof fn lemma_padded_text(n: nat, width: nat)
    ensures
        decimal::padded_digits(n, width).len() == width,
        forall|i: int|
            0 <= i < width ==> '0' <= #[trigger] decimal::padded_digits(n, width)[i] <= '9',
    decreases width,
{
    if width > 0 {
        lemma_padded_text(n / 10, (width - 1) as nat);
        lemma_digit_char(n % 10);
    }
}

proof fn lemma_no_dash(n: ChapterNumber)
    requires
        n.wf(),
        n.mantissa >= 0,
    ensures
        text::split_once_of(n.text(), "-"@) is None,
{
    lemma_number_text(n);
    reveal_strlit("-");
    text::lemma_find_from(n.text(), "-"@, 0);
    if let Some(i) = text::find(n.text(), "-"@) {
        assert(n.text().subrange(i, i + 1)[0] == n.text()[i]);
        assert("-"@[0] == '-');
    }
}

proof fn lemma_one_piece(s: Seq<char>, sep: char)
    requires
        forall|i: int| 0 <= i < s.len() ==> #[trigger] s[i] != sep,
    ensures
        text::pieces(s, sep) == seq![s],
    decreases s.len(),
{
    if s.len() > 0 {
        lemma_one_piece(s.drop_last(), sep);
        assert(s.drop_last().push(s.last()) =~= s);
        assert(seq![s.drop_last()].drop_last().push(s) =~= seq![s]);
    } else {
        assert(s =~= Seq::<char>::empty());
    }
}

proof fn lemma_trim_number(n: ChapterNumber)
    requires
        n.wf(),
        n.mantissa >= 0,
    ensures
        text::trimmed(n.text()) == n.text(),
        text::pieces(n.text(), ',') == seq![n.text()],
        n.text() != "all"@,
        n.text().len() > 0,
{
    lemma_number_text(n);
    lemma_one_piece(n.text(), ',');
    reveal_strlit("all");
    assert("all"@[0] == 'a');
}

/// Reads a selection: comma-separated numbers and ranges. A printed number is read as that number.
pub fn parse_terms(spec_text: &str) -> (r: Result<Vec<Term>, SelectError>)
    ensures
        terms_outcome(r) == terms_of(text::pieces(spec_text@, ',')),
        r matches Ok(ts) ==> forall|i: int| 0 <= i < ts@.len() ==> (#[trigger] ts@[i]).wf(),
        r is Ok ==> is_readable_selection(spec_text@),
        forall|n: ChapterNumber|
            n.wf() && n.mantissa >= 0 && spec_text@ == #[trigger] n.text() ==> terms_outcome(r)
                == Ok::<Seq<Term>, SelectErrorView>(seq![Term::One(n)]),
{
    let parts = text::split(spec_text, ',');
    let ghost all = text::pieces(spec_text@, ',');
    let mut terms: Vec<Term> = Vec::new();
    let mut i: usize = 0;
    proof {
        assert(all.take(0) =~= Seq::empty());
    }
    while i < parts.len()
        invariant
            i <= parts@.len(),
            all == text::pieces(spec_text@, ','),
            text::texts(parts@) == all,
            terms_of(all.take(i as int)) == Ok::<Seq<Term>, SelectErrorView>(terms@),
            forall|k: int| 0 <= k < terms@.len() ==> (#[trigger] terms@[k]).wf(),
            forall|k: int| 0 <= k < i ==> is_readable_part(#[trigger] all[k]),
            forall|n: ChapterNumber|
                n.wf() && n.mantissa >= 0 && spec_text@ == #[trigger] n.text() ==> (i == 0
                    && terms@.len() == 0) || terms@ == seq![Term::One(n)],
        decreases parts@.len() - i,
    {
        proof {
            assert(all.take(i + 1).drop_last() =~= all.take(i as int));
            assert(parts@[i as int]@ == all[i as int]);
            lemma_terms_prefix(all, i + 1);
            assert forall|n: ChapterNumber|
                n.wf() && n.mantissa >= 0 && spec_text@ == #[trigger] n.text() implies i == 0
                && text::trimmed(all[0]) == n.text() && all.len() == 1 by {
                lemma_trim_number(n);
            }
        }
        match parse_term(parts[i].as_str()) {
            Err(e) => {
                return Err(e);
            },
            Ok(None) => {},
            Ok(Some(t)) => {
                terms.push(t);
                assert(i == 0 && terms@.len() == 1 ==> terms@ =~= seq![t]);
            },
        }
        i += 1;
    }
    proof {
        assert(all.take(parts@.len() as int) =~= all);
        assert forall|n: ChapterNumber|
            n.wf() && n.mantissa >= 0 && spec_text@ == #[trigger] n.text() implies i != 0 by {
            lemma_trim_number(n);
        }
    }
    Ok(terms)
}

/// A refused prefix decides the whole.
proof fn lemma_terms_prefix(parts: Seq<Seq<char>>, k: int)
    requires
        0 <= k <= parts.len(),
    ensures
        terms_of(parts.take(k)) is Err ==> terms_of(parts) == terms_of(parts.take(k)),
    decreases parts.len() - k,
{
    if k == parts.len() {
        assert(parts.take(k) =~= parts);
    } else {
        assert(parts.take(k + 1).drop_last() =~= parts.take(k));
        lemma_terms_prefix(parts, k + 1);
    }
}

/// The chapters that the terms select, in their order.
pub fn pick(chapters: &Vec<Chapter>, terms: &Vec<Term>) -> (r: Vec<Chapter>)
    requires
        models::numbered(models::chapter_views(chapters@)),
        forall|i: int| 0 <= i < terms@.len() ==> (#[trigger] terms@[i]).wf(),
    ensures
        models::chapter_views(r@) == picked(models::chapter_views(chapters@), terms@),
{
    let ghost views = models::chapter_views(chapters@);
    let ghost keep = |c: ChapterView| covered(terms@, c.number.value());
    let mut r: Vec<Chapter> = Vec::new();
    let mut i: usize = 0;
    reveal(Seq::filter);
    while i < chapters.len()
        invariant
            i <= chapters@.len(),
            views == models::chapter_views(chapters@),
            keep == (|c: ChapterView| covered(terms@, c.number.value())),
            models::numbered(views),
            forall|k: int| 0 <= k < terms@.len() ==> (#[trigger] terms@[k]).wf(),
            models::chapter_views(r@) == views.take(i as int).filter(keep),
        decreases chapters@.len() - i,
    {
        reveal(Seq::filter);
        proof {
            assert(views.take(i + 1).drop_last() =~= views.take(i as int));
            assert(views[i as int].number.wf());
        }
        let ghost before = models::chapter_views(r@);
        if is_covered(terms, chapters[i].number) {
            let c = chapters[i].clone();
            r.push(c);
            assert(models::chapter_views(r@) =~= before.push(views[i as int]));
        }
        i += 1;
    }
    assert(views.take(chapters@.len() as int) =~= views);
    r
}

fn is_covered(terms: &Vec<Term>, n: ChapterNumber) -> (b: bool)
    requires
        n.wf(),
        forall|i: int| 0 <= i < terms@.len() ==> (#[trigger] terms@[i]).wf(),
    ensures
        b == covered(terms@, n.value()),
{
    let mut i: usize = 0;
    while i < terms.len()
        invariant
            i <= terms@.len(),
            n.wf(),
            forall|k: int| 0 <= k < terms@.len() ==> (#[trigger] terms@[k]).wf(),
            forall|k: int| 0 <= k < i ==> !(#[trigger] terms@[k]).covers(n.value()),
        decreases terms@.len() - i,
    {
        assert(terms@[i as int].wf());
        let hit = match terms[i] {
            Term::Range(from, to) => from.at_most(n) && n.at_most(to),
            Term::One(m) => m.same_as(n),
        };
        if hit {
            assert(terms@[i as int].covers(n.value()));
            return true;
        }
        i += 1;
    }
    false
}

/// Applies a selection that is in lower case and has no white space at its ends. Where it is the
/// printed number of a chapter, that chapter is selected.
pub fn select_from(chapters: &Vec<Chapter>, spec_text: &str) -> (r: Result<
    Vec<Chapter>,
    SelectError,
>)
    requires
        models::numbered(models::chapter_views(chapters@)),
    ensures
        outcome(r) == selection_of(models::chapter_views(chapters@), spec_text@),
        r is Ok ==> spec_text@ == "all"@ || spec_text@.len() == 0 || is_readable_selection(
            spec_text@,
        ),
        forall|k: int|
            0 <= k < chapters@.len() && (#[trigger] chapters@[k]).number.mantissa >= 0
                && spec_text@ == chapters@[k].number.text() ==> outcome(r) == Ok::<
                Seq<ChapterView>,
                SelectErrorView,
            >(picked(models::chapter_views(chapters@), seq![Term::One(chapters@[k].number)])),
{
    let ghost views = models::chapter_views(chapters@);
    if text::str_eq(spec_text, "all") || spec_text.is_empty() {
        proof {
            assert forall|k: int|
                0 <= k < chapters@.len() && (#[trigger] chapters@[k]).number.mantissa >= 0
                    && spec_text@ == chapters@[k].number.text() implies false by {
                assert(views[k].number.wf());
                lemma_trim_number(chapters@[k].number);
            }
        }
        return Ok(models::copy_chapters(chapters));
    }
    let terms = match parse_terms(spec_text) {
        Ok(t) => t,
        Err(e) => {
            proof {
                assert forall|k: int|
                    0 <= k < chapters@.len() && (#[trigger] chapters@[k]).number.mantissa >= 0
                        && spec_text@ == chapters@[k].number.text() implies false by {
                    assert(views[k].number.wf());
                }
            }
            return Err(e);
        },
    };
    let r = pick(chapters, &terms);
    proof {
        assert forall|k: int|
            0 <= k < chapters@.len() && (#[trigger] chapters@[k]).number.mantissa >= 0
                && spec_text@ == chapters@[k].number.text() implies terms@ == seq![
            Term::One(chapters@[k].number),
        ] && r@.len() > 0 by {
            assert(views[k].number.wf());
            assert(terms@[0].covers(views[k].number.value()));
            lemma_filter_keeps(
                views,
                |c: ChapterView| covered(terms@, c.number.value()),
                k,
            );
        }
    }
    if r.len() == 0 {
        Err(SelectError::NoMatch)
    } else {
        Ok(r)
    }
}

/// What satisfies the predicate is not filtered out.
proof fn lemma_filter_keeps<A>(s: Seq<A>, keep: spec_fn(A) -> bool, k: int)
    requires
        0 <= k < s.len(),
        keep(s[k]),
    ensures
        s.filter(keep).len() > 0,
    decreases s.len(),
{
    reveal(Seq::filter);
    if k < s.len() - 1 {
        lemma_filter_keeps(s.drop_last(), keep, k);
    }
}

/// Filters chapters by a selection such as "all", "1-10" or "1,3,5.5". Letter case and white
/// space around the selection do not matter. A selection with a part that is written neither as a
/// number nor as a range is refused.
pub fn select_chapters(chapters: &Vec<Chapter>, spec_text: &str) -> (r: Result<
    Vec<Chapter>,
    SelectError,
>)
    requires
        models::numbered(models::chapter_views(chapters@)),
    ensures
        outcome(r) == selection_of(
            models::chapter_views(chapters@),
            text::unicode_lowercase(text::trimmed(spec_text@)),
        ),
        text::is_ascii(text::trimmed(spec_text@)) ==> outcome(r) == selection_of(
            models::chapter_views(chapters@),
            text::lowered(text::trimmed(spec_text@)),
        ),
        text::is_ascii(text::trimmed(spec_text@)) && r is Ok ==> ({
            let t = text::lowered(text::trimmed(spec_text@));
            t == "all"@ || t.len() == 0 || is_readable_selection(t)
        }),
{
    let t = text::trim(spec_text, CharClass::WhiteSpace);
    let l = text::to_lowercase(t.as_str());
    select_from(chapters, l.as_str())
}

/// A selection keeps exactly the chapters that some term covers; "all" and a blank selection keep
/// every chapter.
pub proof fn law_selection_is_exact(chapters: Seq<ChapterView>, terms: Seq<Term>, k: int)
    requires
        0 <= k < chapters.len(),
    ensures
        picked(chapters, terms).contains(chapters[k]) <==> covered(
            terms,
            chapters[k].number.value(),
        ),
        forall|i: int|
            0 <= i < picked(chapters, terms).len() ==> chapters.contains(
                #[trigger] picked(chapters, terms)[i],
            ),
        selection_of(chapters, "all"@) == Ok::<Seq<ChapterView>, SelectErrorView>(chapters),
        selection_of(chapters, Seq::empty()) == Ok::<Seq<ChapterView>, SelectErrorView>(chapters),
{
    let keep = |c: ChapterView| covered(terms, c.number.value());
    let r = picked(chapters, terms);
    assert(r == chapters.filter(keep));
    if r.contains(chapters[k]) {
        let i = choose|i: int| 0 <= i < r.len() && r[i] == chapters[k];
        chapters.lemma_filter_pred(keep, i);
    }
    if keep(chapters[k]) {
        chapters.lemma_filter_contains(keep, k);
    }
    assert forall|i: int| 0 <= i < r.len() implies chapters.contains(#[trigger] r[i]) by {
        assert(r.contains(r[i]));
        chapters.lemma_filter_contains_rev(keep, r[i]);
    }
}

// ---------------------------------------------------------------------------------------------
// The order of a chapter list
// ---------------------------------------------------------------------------------------------

/// How many chapters of an ascending list have a smaller number value.
pub open spec fn rank(list: Seq<ChapterView>, value: int) -> int
    decreases list.len(),
{
    if list.len() == 0 {
        0
    } else if list.last().number.value() < value {
        list.len() as int
    } else {
        rank(list.drop_last(), value)
    }
}

/// An ascending list with one chapter more, unless its number is there already.
pub open spec fn entered(list: Seq<ChapterView>, c: ChapterView) -> Seq<ChapterView> {
    let at = rank(list, c.number.value());
    if at < list.len() && list[at].number.value() == c.number.value() {
        list
    } else {
        list.insert(at, c)
    }
}

/// The chapters found on a page, in ascending order; of those with one number the first stays.
pub open spec fn ordered(found: Seq<ChapterView>) -> Seq<ChapterView>
    decreases found.len(),
{
    if found.len() == 0 {
        found
    } else {
        entered(ordered(found.drop_last()), found.last())
    }
}

/// Whether the number values ascend strictly.
pub open spec fn ascending(list: Seq<ChapterView>) -> bool {
    forall|i: int, j: int|
        0 <= i < j < list.len() ==> (#[trigger] list[i]).number.value() < (
        #[trigger] list[j]).number.value()
}

proof fn lemma_rank(list: Seq<ChapterView>, value: int)
    requires
        ascending(list),
    ensures
        0 <= rank(list, value) <= list.len(),
        forall|i: int| 0 <= i < rank(list, value) ==> (#[trigger] list[i]).number.value() < value,
        forall|i: int|
            rank(list, value) <= i < list.len() ==> (#[trigger] list[i]).number.value() >= value,
    decreases list.len(),
{
    if list.len() > 0 && list.last().number.value() >= value {
        let shorter = list.drop_last();
        assert(ascending(shorter));
        lemma_rank(shorter, value);
        assert forall|i: int| rank(list, value) <= i < list.len() implies (
        #[trigger] list[i]).number.value() >= value by {
            if i < list.len() - 1 {
                assert(shorter[i] == list[i]);
            }
        }
        assert forall|i: int| 0 <= i < rank(list, value) implies (
        #[trigger] list[i]).number.value() < value by {
            assert(shorter[i] == list[i]);
        }
    }
}

proof fn lemma_entered(list: Seq<ChapterView>, c: ChapterView)
    requires
        ascending(list),
    ensures
        ascending(entered(list, c)),
        models::numbered(list) && c.number.wf() ==> models::numbered(entered(list, c)),
        list.len() <= entered(list, c).len() <= list.len() + 1,
        forall|i: int|
            0 <= i < list.len() ==> entered(list, c).contains(#[trigger] list[i]),
        exists|i: int|
            0 <= i < entered(list, c).len() && (#[trigger] entered(list, c)[i]).number.value()
                == c.number.value(),
        forall|i: int|
            0 <= i < entered(list, c).len() ==> list.contains(#[trigger] entered(list, c)[i]) || (
            entered(list, c)[i] == c && forall|j: int|
                0 <= j < list.len() ==> (#[trigger] list[j]).number.value()
                    != c.number.value()),
{
    let v = c.number.value();
    let at = rank(list, v);
    lemma_rank(list, v);
    let r = entered(list, c);
    if at < list.len() && list[at].number.value() == v {
        assert(r[at].number.value() == v);
    } else {
        assert(r == list.insert(at, c));
        assert(r[at] == c);
        assert forall|i: int, j: int| 0 <= i < j < r.len() implies (#[trigger] r[i]).number.value()
            < (#[trigger] r[j]).number.value() by {
            let a = if i < at {
                i
            } else {
                i - 1
            };
            let b = if j < at {
                j
            } else {
                j - 1
            };
            if i != at && j != at {
                assert(r[i] == list[a] && r[j] == list[b]);
            } else if i == at {
                assert(r[j] == list[b]);
            } else {
                assert(r[i] == list[a]);
            }
        }
        assert forall|i: int| 0 <= i < list.len() implies r.contains(#[trigger] list[i]) by {
            if i < at {
                assert(r[i] == list[i]);
            } else {
                assert(r[i + 1] == list[i]);
            }
        }
        assert forall|j: int| 0 <= j < list.len() implies (#[trigger] list[j]).number.value()
            != v by {
            if j > at {
                assert(list[at].number.value() < list[j].number.value());
            }
        }
        assert forall|i: int| 0 <= i < r.len() implies list.contains(#[trigger] r[i]) || (r[i]
            == c) by {
            if i < at {
                assert(r[i] == list[i]);
            } else if i > at {
                assert(r[i] == list[i - 1]);
            }
        }
        if models::numbered(list) && c.number.wf() {
            assert forall|i: int| 0 <= i < r.len() implies (#[trigger] r[i]).number.wf() by {
                if i < at {
                    assert(r[i] == list[i]);
                } else if i > at {
                    assert(r[i] == list[i - 1]);
                }
            }
        }
    }
}

/// How many chapters of an ascending list have a smaller number.
fn rank_of(list: &Vec<Chapter>, n: ChapterNumber) -> (at: usize)
    requires
        n.wf(),
        models::numbered(models::chapter_views(list@)),
    ensures
        at <= list@.len(),
        at == rank(models::chapter_views(list@), n.value()),
{
    let ghost views = models::chapter_views(list@);
    let mut at: usize = list.len();
    assert(views.take(views.len() as int) =~= views);
    while at > 0
        invariant
            at <= list@.len(),
            n.wf(),
            views == models::chapter_views(list@),
            models::numbered(views),
            rank(views, n.value()) == rank(views.take(at as int), n.value()),
        decreases at,
    {
        assert(views[at - 1].number.wf());
        assert(views.take(at as int).last() == views[at - 1]);
        assert(views.take(at as int).drop_last() =~= views.take(at - 1));
        if !n.at_most(list[at - 1].number) {
            return at;
        }
        at -= 1;
    }
    at
}

/// Sorts the chapters found on a page by number and drops later ones with a number that occurred.
pub fn order_chapters(found: Vec<Chapter>) -> (r: Vec<Chapter>)
    requires
        models::numbered(models::chapter_views(found@)),
    ensures
        models::chapter_views(r@) == ordered(models::chapter_views(found@)),
        models::numbered(models::chapter_views(r@)),
{
    let ghost views = models::chapter_views(found@);
    let mut r: Vec<Chapter> = Vec::new();
    let mut i: usize = 0;
    assert(views.take(0) =~= Seq::empty());
    while i < found.len()
        invariant
            i <= found@.len(),
            views == models::chapter_views(found@),
            models::numbered(views),
            models::chapter_views(r@) == ordered(views.take(i as int)),
            ascending(models::chapter_views(r@)),
            models::numbered(models::chapter_views(r@)),
        decreases found@.len() - i,
    {
        let ghost list = models::chapter_views(r@);
        let ghost c = views[i as int];
        proof {
            assert(views.take(i + 1).drop_last() =~= views.take(i as int));
            assert(c.number.wf());
            lemma_entered(list, c);
        }
        let n = found[i].number;
        let at = rank_of(&r, n);
        proof {
            if at < list.len() {
                assert(list[at as int].number.wf());
            }
        }
        if !(at < r.len() && n.same_as(r[at].number)) {
            let next = found[i].clone();
            r.insert(at, next);
            assert(models::chapter_views(r@) =~= list.insert(at as int, c));
        }
        i += 1;
    }
    assert(views.take(found@.len() as int) =~= views);
    r
}

/// Whether some chapter of the list has that number value.
pub open spec fn has_number(list: Seq<ChapterView>, value: int) -> bool {
    exists|i: int| 0 <= i < list.len() && (#[trigger] list[i]).number.value() == value
}

/// Whether `c` is the first chapter found with its number.
pub open spec fn is_first_found(found: Seq<ChapterView>, c: ChapterView) -> bool {
    exists|k: int|
        0 <= k < found.len() && #[trigger] found[k] == c && !has_number(
            found.take(k),
            c.number.value(),
        )
}

proof fn lemma_first_found_push(found: Seq<ChapterView>, next: ChapterView, c: ChapterView)
    requires
        is_first_found(found, c),
    ensures
        is_first_found(found.push(next), c),
{
    let k = choose|k: int|
        0 <= k < found.len() && #[trigger] found[k] == c && !has_number(
            found.take(k),
            c.number.value(),
        );
    assert(found.push(next)[k] == c);
    assert(found.push(next).take(k) =~= found.take(k));
}

/// An ordered list ascends strictly, so no number occurs twice; it has exactly the numbers found;
/// and each of its chapters is the first one found with its number.
pub proof fn law_ordered_list(found: Seq<ChapterView>)
    ensures
        ascending(ordered(found)),
        forall|v: int| #[trigger] has_number(ordered(found), v) <==> has_number(found, v),
        forall|i: int|
            0 <= i < ordered(found).len() ==> is_first_found(found, #[trigger] ordered(found)[i]),
    decreases found.len(),
{
    if found.len() > 0 {
        let before = found.drop_last();
        let last = found.last();
        let list = ordered(before);
        let r = ordered(found);
        law_ordered_list(before);
        lemma_entered(list, last);
        assert(before.push(last) =~= found);
        assert forall|i: int| 0 <= i < r.len() implies is_first_found(
            found,
            #[trigger] r[i],
        ) by {
            if list.contains(r[i]) {
                let m = choose|m: int| 0 <= m < list.len() && list[m] == r[i];
                lemma_first_found_push(before, last, list[m]);
            } else {
                let v = last.number.value();
                assert(!has_number(list, v));
                assert(!has_number(before, v));
                assert(found.take(found.len() - 1) =~= before);
                assert(found[found.len() - 1] == r[i]);
            }
        }
        assert forall|v: int| #[trigger] has_number(r, v) implies has_number(found, v) by {
            let i = choose|i: int| 0 <= i < r.len() && (#[trigger] r[i]).number.value() == v;
            assert(is_first_found(found, r[i]));
        }
        assert forall|v: int| has_number(found, v) implies #[trigger] has_number(r, v) by {
            let k = choose|k: int|
                0 <= k < found.len() && (#[trigger] found[k]).number.value() == v;
            if k < before.len() {
                assert(before[k].number.value() == v);
                assert(has_number(list, v));
                let m = choose|m: int|
                    0 <= m < list.len() && (#[trigger] list[m]).number.value() == v;
                assert(r.contains(list[m]));
            }
        }
    }
}

// ---------------------------------------------------------------------------------------------
// Laws
// ---------------------------------------------------------------------------------------------

/// What one part of a selection means: nothing where it is blank; two numbers where a dash stands
/// between them, the first not above the second; one number otherwise. Whatever is written otherwise
/// is refused, with the text that is wrong.
pub proof fn law_part_of_a_selection(part: Seq<char>)
    ensures
        ({
            let p = text::trimmed(part);
            let whole = decimal::parsed_decimal(p);
            match text::split_once_of(p, "-"@) {
                _ if p.len() == 0 => term_of(part) == Ok::<Option<Term>, SelectErrorView>(None),
                None => match (whole, term_of(part)) {
                    (Some((m, e)), Ok(Some(Term::One(n)))) => n.mantissa == m as i128 && n.scale
                        == e as u32,
                    (None, Err(SelectErrorView::InvalidSelection(t))) => t == p,
                    _ => false,
                },
                Some((a, b)) => match (
                    decimal::parsed_decimal(text::trimmed(a)),
                    decimal::parsed_decimal(text::trimmed(b)),
                    term_of(part),
                ) {
                    (None, _, Err(SelectErrorView::InvalidStart(t))) => t == a,
                    (Some(_), None, Err(SelectErrorView::InvalidEnd(t))) => t == b,
                    (Some((m1, e1)), Some((m2, e2)), Ok(Some(Term::Range(from, to)))) => {
                        &&& from.mantissa == m1 as i128 && from.scale == e1 as u32
                        &&& to.mantissa == m2 as i128 && to.scale == e2 as u32
                        &&& from.value() <= to.value()
                    },
                    (Some((m1, e1)), Some((m2, e2)), Err(SelectErrorView::Descending(t))) => {
                        &&& t == p
                        &&& decimal::scaled((m1 as i128) as int, (e1 as u32) as int)
                            > decimal::scaled((m2 as i128) as int, (e2 as u32) as int)
                    },
                    _ => false,
                },
            }
        }),
{
}

proof fn lemma_terms_come_from_parts(parts: Seq<Seq<char>>)
    ensures
        match terms_of(parts) {
            Ok(terms) => {
                &&& forall|i: int| 0 <= i < parts.len() ==> term_of(#[trigger] parts[i]) is Ok
                &&& forall|i: int|
                    0 <= i < parts.len() && term_of(#[trigger] parts[i])->Ok_0 is Some
                        ==> terms.contains(term_of(parts[i])->Ok_0->0)
                &&& forall|j: int|
                    0 <= j < terms.len() ==> exists|i: int|
                        0 <= i < parts.len() && term_of(#[trigger] parts[i]) == Ok::<
                            Option<Term>,
                            SelectErrorView,
                        >(Some(#[trigger] terms[j]))
            },
            Err(e) => exists|i: int|
                0 <= i < parts.len() && term_of(#[trigger] parts[i]) == Err::<
                    Option<Term>,
                    SelectErrorView,
                >(e) && forall|k: int| 0 <= k < i ==> term_of(#[trigger] parts[k]) is Ok,
        },
    decreases parts.len(),
{
    if parts.len() > 0 {
        let before = parts.drop_last();
        let n = before.len() as int;
        lemma_terms_come_from_parts(before);
        assert(parts.last() == parts[n]);
        match terms_of(before) {
            Err(e) => {
                let i = choose|i: int|
                    0 <= i < before.len() && term_of(#[trigger] before[i]) == Err::<
                        Option<Term>,
                        SelectErrorView,
                    >(e) && forall|k: int| 0 <= k < i ==> term_of(#[trigger] before[k]) is Ok;
                assert(parts[i] == before[i]);
                assert forall|k: int| 0 <= k < i implies term_of(#[trigger] parts[k]) is Ok by {
                    assert(before[k] == parts[k]);
                }
            },
            Ok(terms) => {
                assert forall|k: int| 0 <= k < n implies term_of(#[trigger] parts[k]) is Ok by {
                    assert(before[k] == parts[k]);
                }
                if let Ok(all) = terms_of(parts) {
                    assert forall|i: int|
                        0 <= i < parts.len() && term_of(#[trigger] parts[i])->Ok_0 is Some implies all.contains(
                    term_of(parts[i])->Ok_0->0) by {
                        if i < n {
                            assert(before[i] == parts[i]);
                            let t = term_of(parts[i])->Ok_0->0;
                            let j = choose|j: int| 0 <= j < terms.len() && terms[j] == t;
                            assert(all[j] == t);
                        } else {
                            assert(all[all.len() - 1] == term_of(parts[i])->Ok_0->0);
                        }
                    }
                    assert forall|j: int| 0 <= j < all.len() implies exists|i: int|
                        0 <= i < parts.len() && term_of(#[trigger] parts[i]) == Ok::<
                            Option<Term>,
                            SelectErrorView,
                        >(Some(#[trigger] all[j])) by {
                        if j < terms.len() {
                            assert(all[j] == terms[j]);
                            let i = choose|i: int|
                                0 <= i < before.len() && term_of(#[trigger] before[i]) == Ok::<
                                    Option<Term>,
                                    SelectErrorView,
                                >(Some(terms[j]));
                            assert(parts[i] == before[i]);
                        } else {
                            assert(term_of(parts[n]) == Ok::<Option<Term>, SelectErrorView>(
                                Some(all[j]),
                            ));
                        }
                    }
                }
            },
        }
    }
}

/// Where the elements that a filter keeps stand: in order, each once, and none is missed.
pub proof fn lemma_filter_positions<A>(s: Seq<A>, keep: spec_fn(A) -> bool) -> (at: Seq<int>)
    ensures
        at.len() == s.filter(keep).len(),
        forall|j: int|
            0 <= j < at.len() ==> 0 <= #[trigger] at[j] < s.len() && s.filter(keep)[j] == s[at[j]]
                && keep(s[at[j]]),
        forall|i: int, j: int| 0 <= i < j < at.len() ==> #[trigger] at[i] < #[trigger] at[j],
        forall|k: int| 0 <= k < s.len() && keep(s[k]) ==> #[trigger] at.contains(k),
    decreases s.len(),
{
    reveal(Seq::filter);
    if s.len() == 0 {
        Seq::empty()
    } else {
        let head = s.drop_last();
        let before = lemma_filter_positions(head, keep);
        let n = head.len() as int;
        assert(forall|j: int| 0 <= j < before.len() ==> s[#[trigger] before[j]] == head[before[j]]);
        let at = if keep(s.last()) {
            before.push(n)
        } else {
            before
        };
        assert forall|k: int| 0 <= k < s.len() && keep(s[k]) implies #[trigger] at.contains(k) by {
            if k < n {
                assert(head[k] == s[k]);
                assert(before.contains(k));
                let j = choose|j: int| 0 <= j < before.len() && before[j] == k;
                assert(at[j] == k);
            } else {
                assert(at[before.len() as int] == k);
            }
        }
        at
    }
}

/// What an accepted selection selects: for each of its parts, wherever it stands, the chapters whose
/// number lies between the two numbers of the part where it is a range, and those that have its
/// number where it is one; and no others. They keep their order, and each is taken once. The
/// positions of the selected chapters are given back.
pub proof fn law_every_part_selects(chapters: Seq<ChapterView>, selection: Seq<char>) -> (at: Seq<
    int,
>)
    requires
        selection_of(chapters, selection) is Ok,
        selection.len() > 0,
        selection != "all"@,
    ensures
        ({
            let chosen = selection_of(chapters, selection)->Ok_0;
            let parts = text::pieces(selection, ',');
            &&& chosen.len() > 0
            &&& at.len() == chosen.len()
            &&& forall|j: int|
                0 <= j < at.len() ==> 0 <= #[trigger] at[j] < chapters.len() && chosen[j]
                    == chapters[at[j]]
            &&& forall|i: int, j: int| 0 <= i < j < at.len() ==> #[trigger] at[i] < #[trigger] at[j]
            &&& forall|k: int|
                0 <= k < chapters.len() ==> (#[trigger] at.contains(k) <==> exists|i: int|
                    0 <= i < parts.len() && ({
                        let p = text::trimmed(#[trigger] parts[i]);
                        let n = chapters[k].number.value();
                        p.len() > 0 && match text::split_once_of(p, "-"@) {
                            Some((a, b)) => ChapterNumber::parsed(text::trimmed(a))->0.value() <= n
                                && n <= ChapterNumber::parsed(text::trimmed(b))->0.value(),
                            None => n == ChapterNumber::parsed(p)->0.value(),
                        }
                    }))
        }),
{
    let parts = text::pieces(selection, ',');
    let terms = terms_of(parts)->Ok_0;
    let keep = |c: ChapterView| covered(terms, c.number.value());
    lemma_terms_come_from_parts(parts);
    let at = lemma_filter_positions(chapters, keep);
    assert forall|k: int| 0 <= k < chapters.len() implies (#[trigger] at.contains(k) <==> exists|
        i: int,
    |
        0 <= i < parts.len() && ({
            let p = text::trimmed(#[trigger] parts[i]);
            let n = chapters[k].number.value();
            p.len() > 0 && match text::split_once_of(p, "-"@) {
                Some((a, b)) => ChapterNumber::parsed(text::trimmed(a))->0.value() <= n && n
                    <= ChapterNumber::parsed(text::trimmed(b))->0.value(),
                None => n == ChapterNumber::parsed(p)->0.value(),
            }
        })) by {
        let n = chapters[k].number.value();
        if at.contains(k) {
            let j = choose|j: int| 0 <= j < at.len() && at[j] == k;
            assert(keep(chapters[at[j]]));
            let m = choose|m: int| 0 <= m < terms.len() && (#[trigger] terms[m]).covers(n);
            let i = choose|i: int|
                0 <= i < parts.len() && term_of(#[trigger] parts[i]) == Ok::<
                    Option<Term>,
                    SelectErrorView,
                >(Some(terms[m]));
            assert(text::trimmed(parts[i]).len() > 0);
        }
        if exists|i: int|
            0 <= i < parts.len() && ({
                let p = text::trimmed(#[trigger] parts[i]);
                p.len() > 0 && match text::split_once_of(p, "-"@) {
                    Some((a, b)) => ChapterNumber::parsed(text::trimmed(a))->0.value() <= n && n
                        <= ChapterNumber::parsed(text::trimmed(b))->0.value(),
                    None => n == ChapterNumber::parsed(p)->0.value(),
                }
            }) {
            let i = choose|i: int|
                0 <= i < parts.len() && ({
                    let p = text::trimmed(#[trigger] parts[i]);
                    p.len() > 0 && match text::split_once_of(p, "-"@) {
                        Some((a, b)) => ChapterNumber::parsed(text::trimmed(a))->0.value() <= n && n
                            <= ChapterNumber::parsed(text::trimmed(b))->0.value(),
                        None => n == ChapterNumber::parsed(p)->0.value(),
                    }
                });
            assert(term_of(parts[i]) is Ok);
            let t = term_of(parts[i])->Ok_0->0;
            assert(terms.contains(t));
            let m = choose|m: int| 0 <= m < terms.len() && terms[m] == t;
            assert(terms[m].covers(n));
            assert(keep(chapters[k]));
        }
    }
    at
}

/// Why a selection is refused: the first of its parts that is refused says so; where none is, no
/// part selects a chapter. Where neither holds the selection is accepted.
pub proof fn law_refused_selection(chapters: Seq<ChapterView>, selection: Seq<char>)
    requires
        selection.len() > 0,
        selection != "all"@,
    ensures
        ({
            let parts = text::pieces(selection, ',');
            match selection_of(chapters, selection) {
                Ok(chosen) => chosen.len() > 0 && forall|i: int|
                    0 <= i < parts.len() ==> term_of(#[trigger] parts[i]) is Ok,
                Err(SelectErrorView::NoMatch) => {
                    &&& forall|i: int| 0 <= i < parts.len() ==> term_of(#[trigger] parts[i]) is Ok
                    &&& forall|i: int, k: int|
                        #![trigger parts[i], chapters[k]]
                        0 <= i < parts.len() && 0 <= k < chapters.len() ==> {
                            let n = chapters[k].number.value();
                            match term_of(parts[i])->Ok_0 {
                                None => true,
                                Some(Term::One(m)) => m.value() != n,
                                Some(Term::Range(from, to)) => n < from.value() || to.value() < n,
                            }
                        }
                },
                Err(e) => exists|i: int|
                    0 <= i < parts.len() && term_of(#[trigger] parts[i]) == Err::<
                        Option<Term>,
                        SelectErrorView,
                    >(e) && forall|k: int| 0 <= k < i ==> term_of(#[trigger] parts[k]) is Ok,
            }
        }),
        selection_of(chapters, "all"@) == Ok::<Seq<ChapterView>, SelectErrorView>(chapters),
        selection_of(chapters, Seq::empty()) == Ok::<Seq<ChapterView>, SelectErrorView>(chapters),
{
    let parts = text::pieces(selection, ',');
    lemma_terms_come_from_parts(parts);
    if let Ok(terms) = terms_of(parts) {
        let keep = |c: ChapterView| covered(terms, c.number.value());
        let at = lemma_filter_positions(chapters, keep);
        if picked(chapters, terms).len() == 0 {
            assert forall|i: int, k: int|
                #![trigger parts[i], chapters[k]]
                0 <= i < parts.len() && 0 <= k < chapters.len() implies {
                let n = chapters[k].number.value();
                match term_of(parts[i])->Ok_0 {
                    None => true,
                    Some(Term::One(m)) => m.value() != n,
                    Some(Term::Range(from, to)) => n < from.value() || to.value() < n,
                }
            } by {
                if let Ok(Some(t)) = term_of(parts[i]) {
                    assert(terms.contains(t));
                    let m = choose|m: int| 0 <= m < terms.len() && terms[m] == t;
                    if terms[m].covers(chapters[k].number.value()) {
                        assert(keep(chapters[k]));
                        assert(at.contains(k));
                    }
                }
            }
        }
    }
}

/// A chapter list is in ascending order, each number once.
pub proof fn law_chapter_list_ascends(found: Seq<ChapterView>, i: int, j: int)
    requires
        0 <= i < j < ordered(found).len(),
    ensures
        ordered(found)[i].number.value() < ordered(found)[j].number.value(),
{
    law_ordered_list(found);
}

/// Each chapter of a list is the first one that was found with its number, as it was found. Its
/// position among those found is given back.
pub proof fn law_listed_chapter_was_found(found: Seq<ChapterView>, i: int) -> (k: int)
    requires
        0 <= i < ordered(found).len(),
    ensures
        0 <= k < found.len(),
        found[k] == ordered(found)[i],
        forall|j: int|
            0 <= j < k ==> (#[trigger] found[j]).number.value() != found[k].number.value(),
{
    let list = ordered(found);
    law_ordered_list(found);
    assert(is_first_found(found, list[i]));
    let k = choose|k: int|
        0 <= k < found.len() && #[trigger] found[k] == list[i] && !has_number(
            found.take(k),
            list[i].number.value(),
        );
    assert forall|j: int| 0 <= j < k implies (#[trigger] found[j]).number.value()
        != found[k].number.value() by {
        assert(found.take(k)[j] == found[j]);
    }
    k
}

/// No number that was found is missing from the list. Its position there is given back.
pub proof fn law_found_chapter_is_listed(found: Seq<ChapterView>, k: int) -> (i: int)
    requires
        0 <= k < found.len(),
    ensures
        0 <= i < ordered(found).len(),
        ordered(found)[i].number.value() == found[k].number.value(),
{
    law_ordered_list(found);
    let v = found[k].number.value();
    assert(has_number(found, v));
    assert(has_number(ordered(found), v));
    choose|i: int|
        0 <= i < ordered(found).len() && (#[trigger] ordered(found)[i]).number.value() == v
}

/// What the outcome of a selection holds is what was selected, or the error.
pub proof fn law_contents_of_outcomes(
    v: Vec<Chapter>,
    e: SelectError,
    t: Option<Term>,
    terms: Vec<Term>,
)
    ensures
        outcome(Ok(v)) == Ok::<Seq<ChapterView>, SelectErrorView>(models::chapter_views(v@)),
        outcome(Err(e)) == Err::<Seq<ChapterView>, SelectErrorView>(e@),
        term_outcome(Ok(t)) == Ok::<Option<Term>, SelectErrorView>(t),
        term_outcome(Err(e)) == Err::<Option<Term>, SelectErrorView>(e@),
        terms_outcome(Ok(terms)) == Ok::<Seq<Term>, SelectErrorView>(terms@),
        terms_outcome(Err(e)) == Err::<Seq<Term>, SelectErrorView>(e@),
        match e {
            SelectError::InvalidStart(s) => e@ == SelectErrorView::InvalidStart(s@),
            SelectError::InvalidEnd(s) => e@ == SelectErrorView::InvalidEnd(s@),
            SelectError::Descending(s) => e@ == SelectErrorView::Descending(s@),
            SelectError::InvalidSelection(s) => e@ == SelectErrorView::InvalidSelection(s@),
            SelectError::NoMatch => e@ is NoMatch,
        },
{
}

} // verus!
