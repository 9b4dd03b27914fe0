//! Character sequences: the string vocabulary that the rest of the crate is specified in.
//!
//! A string is modelled by the sequence of its characters. The specification functions below
//! say what trimming, splitting, searching and joining mean on such sequences, and the
//! executable functions beside them compute exactly that.
use vstd::prelude::*;

verus! {

/// `String::push` appends one character and leaves the rest of the string as it was.
pub assume_specification[ String::push ](s: &mut String, c: char)
    ensures
        final(s)@ == old(s)@.push(c),
;

/// The character classes that trimming and filtering work with.
#[derive(Clone, Copy)]
pub enum CharClass {
    /// Every character with the Unicode property `White_Space`.
    WhiteSpace,
    /// The path separator `/`.
    Slash,
    /// A space or a full stop.
    SpaceOrDot,
    /// A double quotation mark.
    DoubleQuote,
    /// An apostrophe.
    SingleQuote,
    /// What a file name may not hold: `< > : " / \ | ? *` and the control characters below U+0020.
    FileNameIllegal,
    /// What a folder name may not hold: `< > : " / \ | ? *`.
    FolderIllegal,
}

/// The Unicode property `White_Space`.
pub open spec fn is_white_space(c: char) -> bool {
    let n = c as u32;
    ||| 0x9 <= n <= 0xd
    ||| n == 0x20
    ||| n == 0x85
    ||| n == 0xa0
    ||| n == 0x1680
    ||| 0x2000 <= n <= 0x200a
    ||| n == 0x2028
    ||| n == 0x2029
    ||| n == 0x202f
    ||| n == 0x205f
    ||| n == 0x3000
}

/// The nine characters that neither file nor folder names may hold.
pub open spec fn is_reserved_in_names(c: char) -> bool {
    c == '<' || c == '>' || c == ':' || c == '"' || c == '/' || c == '\\' || c == '|' || c == '?'
        || c == '*'
}

impl CharClass {
    /// Whether `c` belongs to the class.
    pub open spec fn has(self, c: char) -> bool {
        match self {
            CharClass::WhiteSpace => is_white_space(c),
            CharClass::Slash => c == '/',
            CharClass::SpaceOrDot => c == ' ' || c == '.',
            CharClass::DoubleQuote => c == '"',
            CharClass::SingleQuote => c == '\'',
            CharClass::FileNameIllegal => is_reserved_in_names(c) || (c as u32) < 0x20,
            CharClass::FolderIllegal => is_reserved_in_names(c),
        }
    }

    /// Decides membership in the class.
    pub fn contains(self, c: char) -> (b: bool)
        ensures
            b == self.has(c),
    {
        let n: u32 = c as u32;
        let reserved = c == '<' || c == '>' || c == ':' || c == '"' || c == '/' || c == '\\'
            || c == '|' || c == '?' || c == '*';
        match self {
            CharClass::WhiteSpace => {
                (0x9 <= n && n <= 0xd) || n == 0x20 || n == 0x85 || n == 0xa0 || n == 0x1680
                    || (0x2000 <= n && n <= 0x200a) || n == 0x2028 || n == 0x2029 || n == 0x202f
                    || n == 0x205f || n == 0x3000
            },
            CharClass::Slash => c == '/',
            CharClass::SpaceOrDot => c == ' ' || c == '.',
            CharClass::DoubleQuote => c == '"',
            CharClass::SingleQuote => c == '\'',
            CharClass::FileNameIllegal => reserved || n < 0x20,
            CharClass::FolderIllegal => reserved,
        }
    }
}

// ---------------------------------------------------------------------------------------------
// Conversion between strings and character vectors
// ---------------------------------------------------------------------------------------------

/// The characters of a string.
pub fn chars_of(s: &str) -> (v: Vec<char>)
    ensures
        v@ == s@,
{
    let mut v: Vec<char> = Vec::new();
    for c in it: s.chars()
        invariant
            v@ == s@.take(it.index() as int),
            it.seq() == s@,
    {
        v.push(c);
        assert(s@.take(it.index() as int).push(c) =~= s@.take(it.index() + 1));
    }
    assert(s@.take(s@.len() as int) =~= s@);
    v
}

/// The string made of the characters `v[from..to]`.
pub fn string_of_range(v: &Vec<char>, from: usize, to: usize) -> (s: String)
    requires
        from <= to <= v@.len(),
    ensures
        s@ == v@.subrange(from as int, to as int),
{
    let mut s = String::new();
    let mut i: usize = from;
    while i < to
        invariant
            from <= i <= to <= v@.len(),
            s@ == v@.subrange(from as int, i as int),
        decreases to - i,
    {
        s.push(v[i]);
        assert(v@.subrange(from as int, i as int).push(v@[i as int]) =~= v@.subrange(
            from as int,
            i + 1,
        ));
        i += 1;
    }
    s
}

/// Appends the characters of `tail` to `s`.
pub fn push_str(s: &mut String, tail: &str)
    ensures
        final(s)@ == old(s)@ + tail@,
{
    let ghost start = s@;
    for c in it: tail.chars()
        invariant
            s@ == start + tail@.take(it.index() as int),
            it.seq() == tail@,
    {
        s.push(c);
        assert((start + tail@.take(it.index() as int)).push(c) =~= start + tail@.take(
            it.index() + 1,
        ));
    }
    assert(tail@.take(tail@.len() as int) =~= tail@);
}

/// A copy of a string slice.
pub fn copy_str(s: &str) -> (r: String)
    ensures
        r@ == s@,
{
    let mut r = String::new();
    push_str(&mut r, s);
    assert(Seq::<char>::empty() + s@ =~= s@);
    r
}

/// The concatenation of two strings.
pub fn concat(a: &str, b: &str) -> (r: String)
    ensures
        r@ == a@ + b@,
{
    let mut r = copy_str(a);
    push_str(&mut r, b);
    r
}

/// Whether two strings hold the same characters.
pub fn str_eq(a: &str, b: &str) -> (r: bool)
    ensures
        r == (a@ == b@),
{
    let x = chars_of(a);
    let y = chars_of(b);
    if x.len() != y.len() {
        return false;
    }
    assert(x@.subrange(0, x@.len() as int) =~= x@);
    chars_match_at(&x, &y, 0)
}

// ---------------------------------------------------------------------------------------------
// Searching
// ---------------------------------------------------------------------------------------------

/// Whether `p` stands in `s` at position `i`.
pub open spec fn occurs_at(s: Seq<char>, p: Seq<char>, i: int) -> bool {
    &&& 0 <= i
    &&& i + p.len() <= s.len()
    &&& s.subrange(i, i + p.len()) == p
}

/// Whether `p` stands anywhere in `s`.
pub open spec fn occurs(s: Seq<char>, p: Seq<char>) -> bool {
    exists|i: int| occurs_at(s, p, i)
}

/// The first position at or after `from` where `p` stands in `s`.
pub open spec fn find_from(s: Seq<char>, p: Seq<char>, from: int) -> Option<int>
    decreases s.len() - from + 1,
{
    if from < 0 || from + p.len() > s.len() {
        None
    } else if occurs_at(s, p, from) {
        Some(from)
    } else {
        find_from(s, p, from + 1)
    }
}

/// The first position where `p` stands in `s`.
pub open spec fn find(s: Seq<char>, p: Seq<char>) -> Option<int> {
    find_from(s, p, 0)
}

/// A found position is an occurrence, none lies before it, and nothing is found only where
/// nothing occurs.
pub proof fn lemma_find_from(s: Seq<char>, p: Seq<char>, from: int)
    requires
        0 <= from,
    ensures
        match find_from(s, p, from) {
            Some(i) => from <= i && occurs_at(s, p, i) && forall|j: int|
                from <= j < i ==> !occurs_at(s, p, j),
            None => forall|j: int| from <= j ==> !occurs_at(s, p, j),
        },
    decreases s.len() - from + 1,
{
    if from + p.len() <= s.len() && !occurs_at(s, p, from) {
        lemma_find_from(s, p, from + 1);
    }
}

/// Whether `p` stands in `s` at position `i`, on character vectors.
pub fn chars_match_at(s: &Vec<char>, p: &Vec<char>, i: usize) -> (b: bool)
    ensures
        b == occurs_at(s@, p@, i as int),
{
    if p.len() > s.len() || i > s.len() - p.len() {
        return false;
    }
    let end: usize = s.len();
    let mut k: usize = 0;
    while k < p.len()
        invariant
            k <= p@.len(),
            end == s@.len(),
            i + p@.len() <= end,
            forall|j: int| 0 <= j < k ==> s@[i + j] == p@[j],
        decreases p@.len() - k,
    {
        if s[i + k] != p[k] {
            assert(s@.subrange(i as int, i + p@.len())[k as int] != p@[k as int]);
            return false;
        }
        k += 1;
    }
    assert(s@.subrange(i as int, i + p@.len()) =~= p@);
    true
}

/// The first position of `p` in `s` at or after `from`, on character vectors.
pub fn find_chars_from(s: &Vec<char>, p: &Vec<char>, from: usize) -> (r: Option<usize>)
    ensures
        match r {
            Some(i) => find_from(s@, p@, from as int) == Some(i as int),
            None => find_from(s@, p@, from as int) is None,
        },
        r matches Some(i) ==> i + p@.len() <= s@.len(),
{
    if p.len() > s.len() {
        return None;
    }
    let last = s.len() - p.len();
    let mut i: usize = from;
    while i <= last
        invariant
            from <= i,
            last == s@.len() - p@.len(),
            find_from(s@, p@, from as int) == find_from(s@, p@, i as int),
        decreases last + 1 - i,
    {
        if chars_match_at(s, p, i) {
            return Some(i);
        }
        if i == last {
            assert(find_from(s@, p@, i + 1) is None);
            return None;
        }
        i += 1;
    }
    None
}

/// Whether `p` stands anywhere in `s`.
pub fn contains(s: &str, p: &str) -> (b: bool)
    ensures
        b == occurs(s@, p@),
{
    let sv = chars_of(s);
    let pv = chars_of(p);
    proof {
        lemma_find_from(s@, p@, 0);
    }
    find_chars_from(&sv, &pv, 0).is_some()
}

/// Whether `s` begins with `p`.
pub fn starts_with(s: &str, p: &str) -> (b: bool)
    ensures
        b == p@.is_prefix_of(s@),
{
    let sv = chars_of(s);
    let pv = chars_of(p);
    chars_match_at(&sv, &pv, 0)
}

/// Whether `s` ends with `p`.
pub fn ends_with(s: &str, p: &str) -> (b: bool)
    ensures
        b == p@.is_suffix_of(s@),
{
    let sv = chars_of(s);
    let pv = chars_of(p);
    if pv.len() > sv.len() {
        return false;
    }
    chars_match_at(&sv, &pv, sv.len() - pv.len())
}

/// What is left of `s` when `p` is taken from its front.
pub fn strip_prefix(s: &str, p: &str) -> (r: Option<String>)
    ensures
        match r {
            Some(t) => p@.is_prefix_of(s@) && t@ == s@.skip(p@.len() as int),
            None => !p@.is_prefix_of(s@),
        },
{
    if !starts_with(s, p) {
        return None;
    }
    let sv = chars_of(s);
    let n = chars_of(p).len();
    let t = string_of_range(&sv, n, sv.len());
    assert(t@ =~= s@.skip(p@.len() as int));
    Some(t)
}

/// What is left of `s` when `p` is taken from its end.
pub fn strip_suffix(s: &str, p: &str) -> (r: Option<String>)
    ensures
        match r {
            Some(t) => p@.is_suffix_of(s@) && t@ == s@.take(s@.len() - p@.len()),
            None => !p@.is_suffix_of(s@),
        },
{
    if !ends_with(s, p) {
        return None;
    }
    let sv = chars_of(s);
    let n = chars_of(p).len();
    let t = string_of_range(&sv, 0, sv.len() - n);
    assert(t@ =~= s@.take(s@.len() - p@.len()));
    Some(t)
}

// ---------------------------------------------------------------------------------------------
// Trimming and filtering
// ---------------------------------------------------------------------------------------------

/// `s` without the longest prefix of characters of the class.
pub open spec fn trim_start_of(s: Seq<char>, class: CharClass) -> Seq<char>
    decreases s.len(),
{
    if s.len() > 0 && class.has(s[0]) {
        trim_start_of(s.drop_first(), class)
    } else {
        s
    }
}

/// `s` without the longest suffix of characters of the class.
pub open spec fn trim_end_of(s: Seq<char>, class: CharClass) -> Seq<char>
    decreases s.len(),
{
    if s.len() > 0 && class.has(s.last()) {
        trim_end_of(s.drop_last(), class)
    } else {
        s
    }
}

/// `s` without the characters of the class at either end.
pub open spec fn trim_of(s: Seq<char>, class: CharClass) -> Seq<char> {
    trim_end_of(trim_start_of(s, class), class)
}

/// Leading and trailing white space removed.
pub open spec fn trimmed(s: Seq<char>) -> Seq<char> {
    trim_of(s, CharClass::WhiteSpace)
}

proof fn lemma_trim_start_step(s: Seq<char>, class: CharClass, i: int)
    requires
        0 <= i < s.len(),
    ensures
        class.has(s[i]) ==> trim_start_of(s.skip(i), class) == trim_start_of(s.skip(i + 1), class),
        !class.has(s[i]) ==> trim_start_of(s.skip(i), class) == s.skip(i),
{
    assert(s.skip(i)[0] == s[i]);
    assert(s.skip(i).drop_first() =~= s.skip(i + 1));
}

proof fn lemma_trim_end_step(s: Seq<char>, class: CharClass, i: int)
    requires
        0 < i <= s.len(),
    ensures
        class.has(s[i - 1]) ==> trim_end_of(s.take(i), class) == trim_end_of(s.take(i - 1), class),
        !class.has(s[i - 1]) ==> trim_end_of(s.take(i), class) == s.take(i),
{
    assert(s.take(i).last() == s[i - 1]);
    assert(s.take(i).drop_last() =~= s.take(i - 1));
}

/// Removes the longest prefix of characters of the class.
pub fn trim_start(s: &str, class: CharClass) -> (r: String)
    ensures
        r@ == trim_start_of(s@, class),
{
    let v = chars_of(s);
    let n: usize = v.len();
    let mut i: usize = 0;
    assert(s@.skip(0) =~= s@);
    while i < n && class.contains(v[i])
        invariant
            v@ == s@,
            n == s@.len(),
            i <= n,
            trim_start_of(s@, class) == trim_start_of(s@.skip(i as int), class),
        decreases n - i,
    {
        proof {
            lemma_trim_start_step(s@, class, i as int);
        }
        i += 1;
    }
    proof {
        if i < n {
            lemma_trim_start_step(s@, class, i as int);
        } else {
            assert(s@.skip(i as int) =~= Seq::<char>::empty());
        }
    }
    let r = string_of_range(&v, i, n);
    assert(r@ =~= s@.skip(i as int));
    r
}

/// Removes the longest suffix of characters of the class.
pub fn trim_end(s: &str, class: CharClass) -> (r: String)
    ensures
        r@ == trim_end_of(s@, class),
{
    let v = chars_of(s);
    let mut i: usize = v.len();
    assert(s@.take(s@.len() as int) =~= s@);
    while i > 0 && class.contains(v[i - 1])
        invariant
            v@ == s@,
            i <= s@.len(),
            trim_end_of(s@, class) == trim_end_of(s@.take(i as int), class),
        decreases i,
    {
        proof {
            lemma_trim_end_step(s@, class, i as int);
        }
        i -= 1;
    }
    proof {
        if i > 0 {
            lemma_trim_end_step(s@, class, i as int);
        } else {
            assert(s@.take(0) =~= Seq::<char>::empty());
        }
    }
    let r = string_of_range(&v, 0, i);
    assert(r@ =~= s@.take(i as int));
    r
}

/// Removes the characters of the class at either end.
pub fn trim(s: &str, class: CharClass) -> (r: String)
    ensures
        r@ == trim_of(s@, class),
{
    let t = trim_start(s, class);
    trim_end(t.as_str(), class)
}

/// `s` with the characters of the class taken out.
pub open spec fn without(s: Seq<char>, class: CharClass) -> Seq<char> {
    s.filter(|c: char| !class.has(c))
}

/// Takes every character of the class out of the string.
pub fn remove_class(s: &str, class: CharClass) -> (r: String)
    ensures
        r@ == without(s@, class),
{
    let mut r = String::new();
    let ghost keep = |c: char| !class.has(c);
    reveal(Seq::filter);
    for c in it: s.chars()
        invariant
            keep == (|c: char| !class.has(c)),
            r@ == s@.take(it.index() as int).filter(keep),
            it.seq() == s@,
    {
        proof {
            reveal(Seq::filter);
            assert(s@.take(it.index() + 1).drop_last() =~= s@.take(it.index() as int));
        }
        if !class.contains(c) {
            r.push(c);
        }
    }
    assert(s@.take(s@.len() as int) =~= s@);
    r
}

/// `s` with every maximal run of white space replaced by one space.
pub open spec fn spaces_collapsed(s: Seq<char>) -> Seq<char>
    decreases s.len(),
{
    if s.len() == 0 {
        s
    } else {
        let before = spaces_collapsed(s.drop_last());
        if !is_white_space(s.last()) {
            before.push(s.last())
        } else if s.len() > 1 && is_white_space(s[s.len() - 2]) {
            before
        } else {
            before.push(' ')
        }
    }
}

/// Replaces every maximal run of white space by one space.
pub fn collapse_spaces(s: &str) -> (r: String)
    ensures
        r@ == spaces_collapsed(s@),
{
    let mut r = String::new();
    let mut after_space: bool = false;
    for c in it: s.chars()
        invariant
            r@ == spaces_collapsed(s@.take(it.index() as int)),
            after_space == (it.index() > 0 && is_white_space(s@[it.index() - 1])),
            it.seq() == s@,
    {
        proof {
            assert(s@.take(it.index() + 1).drop_last() =~= s@.take(it.index() as int));
        }
        let white = CharClass::WhiteSpace.contains(c);
        if !white {
            r.push(c);
        } else if !after_space {
            r.push(' ');
        }
        after_space = white;
    }
    assert(s@.take(s@.len() as int) =~= s@);
    r
}

// ---------------------------------------------------------------------------------------------
// Letter case
// ---------------------------------------------------------------------------------------------

/// The ASCII lower-case form of a character.
pub open spec fn lower(c: char) -> char {
    if 'A' <= c <= 'Z' {
        ((c as u8) + 32) as char
    } else {
        c
    }
}

/// `s` with its ASCII letters in lower case.
pub open spec fn lowered(s: Seq<char>) -> Seq<char> {
    Seq::new(s.len(), |i: int| lower(s[i]))
}

/// Brings the ASCII letters of a string to lower case.
pub fn to_ascii_lower(s: &str) -> (r: String)
    ensures
        r@ == lowered(s@),
{
    let mut r = String::new();
    for c in it: s.chars()
        invariant
            r@ == lowered(s@).take(it.index() as int),
            it.seq() == s@,
    {
        let l: char = if 'A' <= c && c <= 'Z' {
            ((c as u8) + 32) as char
        } else {
            c
        };
        r.push(l);
        assert(lowered(s@).take(it.index() as int).push(l) =~= lowered(s@).take(it.index() + 1));
    }
    assert(lowered(s@).take(s@.len() as int) =~= lowered(s@));
    r
}

/// Whether every character is an ASCII character.
pub open spec fn is_ascii(s: Seq<char>) -> bool {
    forall|i: int| 0 <= i < s.len() ==> (#[trigger] s[i]) as u32 <= 0x7f
}

/// The lower-case form of a string under Unicode's rules.
pub uninterp spec fn unicode_lowercase(s: Seq<char>) -> Seq<char>;

/// `str::to_lowercase` maps a string to lower case under Unicode's rules; on ASCII strings those
/// change the letters `A` to `Z` only.
#[verifier::external_body]
pub(crate) fn to_lowercase(s: &str) -> (r: String)
    ensures
        r@ == unicode_lowercase(s@),
        is_ascii(s@) ==> r@ == lowered(s@),
{
    s.to_lowercase()
}

// ---------------------------------------------------------------------------------------------
// Splitting and joining
// ---------------------------------------------------------------------------------------------

/// The character sequences of a sequence of strings.
pub open spec fn texts(v: Seq<String>) -> Seq<Seq<char>> {
    Seq::new(v.len(), |i: int| v[i]@)
}

/// The pieces of `s` between the occurrences of `sep`; there is always at least one.
pub open spec fn pieces(s: Seq<char>, sep: char) -> Seq<Seq<char>>
    decreases s.len(),
{
    if s.len() == 0 {
        seq![Seq::<char>::empty()]
    } else {
        let before = pieces(s.drop_last(), sep);
        if s.last() == sep {
            before.push(Seq::empty())
        } else {
            before.drop_last().push(before.last().push(s.last()))
        }
    }
}

/// There is always a piece.
pub proof fn lemma_pieces_nonempty(s: Seq<char>, sep: char)
    ensures
        pieces(s, sep).len() > 0,
    decreases s.len(),
{
    if s.len() > 0 {
        lemma_pieces_nonempty(s.drop_last(), sep);
    }
}

/// No piece holds the separator.
pub proof fn lemma_pieces_hold_no_separator(s: Seq<char>, sep: char, i: int)
    requires
        0 <= i < pieces(s, sep).len(),
    ensures
        !pieces(s, sep)[i].contains(sep),
    decreases s.len(),
{
    if s.len() > 0 {
        lemma_pieces_nonempty(s.drop_last(), sep);
        let before = pieces(s.drop_last(), sep);
        if i < before.len() {
            lemma_pieces_hold_no_separator(s.drop_last(), sep, i);
        }
        if s.last() != sep && i == before.len() - 1 {
            let longer = before.last().push(s.last());
            assert forall|k: int| 0 <= k < longer.len() implies longer[k] != sep by {
                if k < before.last().len() {
                    assert(before.last().contains(before.last()[k]));
                }
            }
        }
    }
}

/// Every character of a piece is one of the string.
pub proof fn lemma_piece_chars(s: Seq<char>, sep: char, i: int, k: int)
    requires
        0 <= i < pieces(s, sep).len(),
        0 <= k < pieces(s, sep)[i].len(),
    ensures
        s.contains(pieces(s, sep)[i][k]),
    decreases s.len(),
{
    if s.len() > 0 {
        lemma_pieces_nonempty(s.drop_last(), sep);
        let before = pieces(s.drop_last(), sep);
        let c = pieces(s, sep)[i][k];
        if i < before.len() && k < before[i].len() {
            lemma_piece_chars(s.drop_last(), sep, i, k);
            let j = choose|j: int| 0 <= j < s.drop_last().len() && s.drop_last()[j] == c;
            assert(s[j] == c);
        } else {
            assert(s[s.len() - 1] == c);
        }
    }
}

/// The last piece is the end of the string.
pub proof fn lemma_last_piece_is_suffix(s: Seq<char>, sep: char)
    ensures
        pieces(s, sep).last().is_suffix_of(s),
    decreases s.len(),
{
    if s.len() > 0 {
        lemma_pieces_nonempty(s.drop_last(), sep);
        lemma_last_piece_is_suffix(s.drop_last(), sep);
        let before = pieces(s.drop_last(), sep);
        let last = pieces(s, sep).last();
        if s.last() != sep {
            let n = before.last().len();
            let head = s.drop_last();
            assert(head.subrange(head.len() - n, head.len() as int) =~= before.last());
            assert forall|k: int| 0 <= k < last.len() implies last[k] == s[s.len() - last.len()
                + k] by {
                if k < n {
                    assert(before.last()[k] == head.subrange(
                        head.len() - n,
                        head.len() as int,
                    )[k]);
                }
            }
        }
        assert(s.subrange(s.len() - last.len(), s.len() as int) =~= last);
    } else {
        assert(s.subrange(0, 0) =~= Seq::<char>::empty());
    }
}

/// Text without the separator lengthens the last piece.
pub proof fn lemma_pieces_extend(s: Seq<char>, t: Seq<char>, sep: char)
    requires
        !t.contains(sep),
    ensures
        pieces(s + t, sep) == pieces(s, sep).drop_last().push(pieces(s, sep).last() + t),
    decreases t.len(),
{
    lemma_pieces_nonempty(s, sep);
    let parts = pieces(s, sep);
    if t.len() == 0 {
        assert(s + t =~= s);
        assert(parts.last() + t =~= parts.last());
        assert(parts.drop_last().push(parts.last()) =~= parts);
    } else {
        assert(t.contains(t[t.len() - 1]));
        assert(!t.drop_last().contains(sep)) by {
            assert forall|k: int| 0 <= k < t.len() - 1 implies t.drop_last()[k] != sep by {
                assert(t.contains(t[k]));
            }
        }
        lemma_pieces_extend(s, t.drop_last(), sep);
        assert((s + t).drop_last() =~= s + t.drop_last());
        let shorter = parts.last() + t.drop_last();
        assert(parts.drop_last().push(shorter).drop_last() =~= parts.drop_last());
        assert(shorter.push(t.last()) =~= parts.last() + t);
    }
}

/// A separator at the end begins an empty piece.
pub proof fn lemma_pieces_separator(s: Seq<char>, sep: char)
    ensures
        pieces(s.push(sep), sep) == pieces(s, sep).push(Seq::empty()),
{
    assert(s.push(sep).drop_last() =~= s);
}

/// Splits a string at every occurrence of `sep`.
pub fn split(s: &str, sep: char) -> (r: Vec<String>)
    ensures
        texts(r@) == pieces(s@, sep),
        r@.len() > 0,
{
    let mut r: Vec<String> = Vec::new();
    let mut cur = String::new();
    assert(s@.take(0) =~= Seq::<char>::empty());
    assert(texts(r@).push(cur@) =~= seq![Seq::<char>::empty()]);
    for c in it: s.chars()
        invariant
            texts(r@).push(cur@) == pieces(s@.take(it.index() as int), sep),
            it.seq() == s@,
    {
        let ghost done = texts(r@);
        proof {
            assert(s@.take(it.index() + 1).drop_last() =~= s@.take(it.index() as int));
            assert(done.push(cur@).drop_last() =~= done);
        }
        if c == sep {
            let ghost piece = cur@;
            r.push(cur);
            assert(texts(r@) =~= done.push(piece));
            cur = String::new();
        } else {
            cur.push(c);
        }
    }
    assert(s@.take(s@.len() as int) =~= s@);
    let ghost done = texts(r@);
    let ghost piece = cur@;
    r.push(cur);
    assert(texts(r@) =~= done.push(piece));
    r
}

/// The halves of `s` before and after the first occurrence of `p`.
pub open spec fn split_once_of(s: Seq<char>, p: Seq<char>) -> Option<(Seq<char>, Seq<char>)> {
    match find(s, p) {
        Some(i) => Some((s.take(i), s.skip(i + p.len()))),
        None => None,
    }
}

/// Splits a string at the first occurrence of `p`.
pub fn split_once(s: &str, p: &str) -> (r: Option<(String, String)>)
    ensures
        match r {
            Some((a, b)) => split_once_of(s@, p@) == Some((a@, b@)),
            None => split_once_of(s@, p@) is None,
        },
{
    let sv = chars_of(s);
    let pv = chars_of(p);
    match find_chars_from(&sv, &pv, 0) {
        Some(i) => {
            let a = string_of_range(&sv, 0, i);
            let n: usize = sv.len();
            let b = string_of_range(&sv, i + pv.len(), n);
            assert(a@ =~= s@.take(i as int));
            assert(b@ =~= s@.skip(i + p@.len()));
            Some((a, b))
        },
        None => None,
    }
}

/// The parts in order, with `sep` between neighbours.
pub open spec fn joined(parts: Seq<Seq<char>>, sep: Seq<char>) -> Seq<char>
    decreases parts.len(),
{
    if parts.len() == 0 {
        Seq::empty()
    } else if parts.len() == 1 {
        parts[0]
    } else {
        joined(parts.drop_last(), sep) + sep + parts.last()
    }
}

/// Joins strings with `sep` between neighbours.
pub fn join(parts: &Vec<String>, sep: &str) -> (r: String)
    ensures
        r@ == joined(texts(parts@), sep@),
{
    let mut r = String::new();
    let mut i: usize = 0;
    while i < parts.len()
        invariant
            i <= parts@.len(),
            r@ == joined(texts(parts@).take(i as int), sep@),
        decreases parts@.len() - i,
    {
        proof {
            assert(texts(parts@).take(i + 1).drop_last() =~= texts(parts@).take(i as int));
        }
        if i > 0 {
            push_str(&mut r, sep);
        }
        push_str(&mut r, parts[i].as_str());
        assert(i == 0 ==> r@ =~= parts@[0]@);
        i += 1;
    }
    assert(texts(parts@).take(parts@.len() as int) =~= texts(parts@));
    r
}

// ---------------------------------------------------------------------------------------------
// Decimal notation
// ---------------------------------------------------------------------------------------------

/// The character of a decimal digit.
pub open spec fn digit_char(d: nat) -> char {
    (('0' as nat) + d) as char
}

/// The decimal notation of a natural number.
pub open spec fn digits(n: nat) -> Seq<char>
    decreases n,
{
    if n < 10 {
        seq![digit_char(n)]
    } else {
        digits(n / 10).push(digit_char(n % 10))
    }
}

/// Writes a number in decimal notation.
pub fn decimal(n: u128) -> (r: String)
    ensures
        r@ == digits(n as nat),
    decreases n,
{
    let d: char = (48u8 + (n % 10) as u8) as char;
    if n < 10 {
        let mut r = String::new();
        r.push(d);
        assert(r@ =~= digits(n as nat));
        r
    } else {
        let mut r = decimal(n / 10);
        r.push(d);
        r
    }
}

// ---------------------------------------------------------------------------------------------
// Laws
// ---------------------------------------------------------------------------------------------

/// White space is the tab, the line breaks, the space, and the spaces that Unicode adds to them.
pub proof fn law_white_space(c: char)
    ensures
        is_white_space(c) <==> seq![
            9int,
            10,
            11,
            12,
            13,
            32,
            133,
            160,
            5760,
            8192,
            8193,
            8194,
            8195,
            8196,
            8197,
            8198,
            8199,
            8200,
            8201,
            8202,
            8232,
            8233,
            8239,
            8287,
            12288,
        ].contains(c as int),
        CharClass::WhiteSpace.has(c) <==> is_white_space(c),
{
    let all = seq![
        9int,
        10,
        11,
        12,
        13,
        32,
        133,
        160,
        5760,
        8192,
        8193,
        8194,
        8195,
        8196,
        8197,
        8198,
        8199,
        8200,
        8201,
        8202,
        8232,
        8233,
        8239,
        8287,
        12288,
    ];
    let n = c as int;
    if is_white_space(c) {
        let i: int = if n <= 13 {
            n - 9
        } else if n == 32 {
            5
        } else if n == 133 {
            6
        } else if n == 160 {
            7
        } else if n == 5760 {
            8
        } else if n <= 8202 {
            n - 8192 + 9
        } else if n == 8232 {
            20
        } else if n == 8233 {
            21
        } else if n == 8239 {
            22
        } else if n == 8287 {
            23
        } else {
            24
        };
        assert(all[i] == n);
    }
}

/// A file name may not hold any of nine characters nor a control character, a folder name none of
/// the nine; the other classes hold what they are named after.
pub proof fn law_character_classes(c: char)
    ensures
        CharClass::FolderIllegal.has(c) <==> seq!['<', '>', ':', '"', '/', '\\', '|', '?', '*'].contains(
            c,
        ),
        CharClass::FileNameIllegal.has(c) <==> CharClass::FolderIllegal.has(c) || c as int <= 31,
        CharClass::Slash.has(c) <==> c == '/',
        CharClass::SpaceOrDot.has(c) <==> c == ' ' || c == '.',
        CharClass::DoubleQuote.has(c) <==> c == '"',
        CharClass::SingleQuote.has(c) <==> c == '\'',
{
    let all = seq!['<', '>', ':', '"', '/', '\\', '|', '?', '*'];
    assert(all[0] == '<' && all[1] == '>' && all[2] == ':' && all[3] == '"' && all[4] == '/'
        && all[5] == '\\' && all[6] == '|' && all[7] == '?' && all[8] == '*');
}

/// A text occurs in another exactly where the other is made of something, the text, and something.
pub proof fn law_occurrence(s: Seq<char>, p: Seq<char>)
    ensures
        occurs(s, p) <==> exists|a: Seq<char>, b: Seq<char>| s == #[trigger] (a + p + b),
{
    if occurs(s, p) {
        let i = choose|i: int| occurs_at(s, p, i);
        let a = s.take(i);
        let b = s.skip(i + p.len());
        assert forall|k: int| 0 <= k < p.len() implies s[i + k] == #[trigger] p[k] by {
            assert(s.subrange(i, i + p.len())[k] == s[i + k]);
        }
        assert(s =~= a + p + b);
    }
    if exists|a: Seq<char>, b: Seq<char>| s == #[trigger] (a + p + b) {
        let (a, b) = choose|a: Seq<char>, b: Seq<char>| s == #[trigger] (a + p + b);
        let i = a.len() as int;
        assert(s.subrange(i, i + p.len()) =~= p);
        assert(occurs_at(s, p, i));
    }
}

/// Splitting at a text gives what stands before its first occurrence and what stands after it, and
/// fails exactly where the text does not occur.
pub proof fn law_split_once(s: Seq<char>, p: Seq<char>)
    ensures
        match split_once_of(s, p) {
            Some((a, b)) => s == a + p + b && forall|c: Seq<char>, d: Seq<char>|
                s == #[trigger] (c + p + d) ==> a.len() <= c.len(),
            None => forall|c: Seq<char>, d: Seq<char>| s != #[trigger] (c + p + d),
        },
{
    lemma_find_from(s, p, 0);
    assert forall|c: Seq<char>, d: Seq<char>| s == #[trigger] (c + p + d) implies occurs_at(
        s,
        p,
        c.len() as int,
    ) by {
        assert(s.subrange(c.len() as int, (c.len() + p.len()) as int) =~= p);
    }
    if let Some((a, b)) = split_once_of(s, p) {
        let i = find(s, p)->0;
        assert forall|k: int| 0 <= k < p.len() implies s[i + k] == #[trigger] p[k] by {
            assert(s.subrange(i, i + p.len())[k] == s[i + k]);
        }
        assert(s =~= a + p + b);
    }
}

proof fn lemma_trim_start_parts(s: Seq<char>, class: CharClass) -> (i: int)
    ensures
        0 <= i <= s.len(),
        trim_start_of(s, class) == s.skip(i),
        forall|k: int| 0 <= k < i ==> class.has(#[trigger] s[k]),
        i < s.len() ==> !class.has(s[i]),
    decreases s.len(),
{
    if s.len() > 0 && class.has(s[0]) {
        let j = lemma_trim_start_parts(s.drop_first(), class);
        assert(s.drop_first().skip(j) =~= s.skip(j + 1));
        assert forall|k: int| 0 <= k < j + 1 implies class.has(#[trigger] s[k]) by {
            if k > 0 {
                assert(s.drop_first()[k - 1] == s[k]);
            }
        }
        j + 1
    } else {
        assert(s.skip(0) =~= s);
        0
    }
}

proof fn lemma_trim_end_parts(s: Seq<char>, class: CharClass) -> (j: int)
    ensures
        0 <= j <= s.len(),
        trim_end_of(s, class) == s.take(j),
        forall|k: int| j <= k < s.len() ==> class.has(#[trigger] s[k]),
        0 < j ==> !class.has(s[j - 1]),
    decreases s.len(),
{
    if s.len() > 0 && class.has(s.last()) {
        let j = lemma_trim_end_parts(s.drop_last(), class);
        assert(s.drop_last().take(j) =~= s.take(j));
        assert forall|k: int| j <= k < s.len() implies class.has(#[trigger] s[k]) by {
            if k < s.len() - 1 {
                assert(s.drop_last()[k] == s[k]);
            }
        }
        j
    } else {
        assert(s.take(s.len() as int) =~= s);
        s.len() as int
    }
}

/// Trimming takes characters of the class off both ends, all of them and no others; what stands
/// between is left as it is.
pub proof fn law_trimming(s: Seq<char>, class: CharClass)
    ensures
        ({
            let t = trim_of(s, class);
            &&& exists|i: int, j: int|
                0 <= i <= j <= s.len() && t == #[trigger] s.subrange(i, j) && (forall|k: int|
                    0 <= k < i || j <= k < s.len() ==> class.has(#[trigger] s[k]))
            &&& t.len() > 0 ==> !class.has(t[0]) && !class.has(t[t.len() - 1])
        }),
        ({
            let t = trim_start_of(s, class);
            &&& exists|i: int|
                0 <= i <= s.len() && t == #[trigger] s.skip(i) && (forall|k: int|
                    0 <= k < i ==> class.has(#[trigger] s[k]))
            &&& t.len() > 0 ==> !class.has(t[0])
        }),
        ({
            let t = trim_end_of(s, class);
            &&& exists|j: int|
                0 <= j <= s.len() && t == #[trigger] s.take(j) && (forall|k: int|
                    j <= k < s.len() ==> class.has(#[trigger] s[k]))
            &&& t.len() > 0 ==> !class.has(t[t.len() - 1])
        }),
        trimmed(s) == trim_of(s, CharClass::WhiteSpace),
{
    let i = lemma_trim_start_parts(s, class);
    let rest = s.skip(i);
    let j = lemma_trim_end_parts(rest, class);
    let _e = lemma_trim_end_parts(s, class);
    assert(trim_of(s, class) =~= s.subrange(i, i + j));
    assert forall|k: int| 0 <= k < i || i + j <= k < s.len() implies class.has(
        #[trigger] s[k],
    ) by {
        if k >= i {
            assert(rest[k - i] == s[k]);
        }
    }
}

proof fn lemma_without_push(s: Seq<char>, c: char, class: CharClass)
    ensures
        without(s.push(c), class) == if class.has(c) {
            without(s, class)
        } else {
            without(s, class).push(c)
        },
{
    reveal(Seq::filter);
    assert(s.push(c).drop_last() =~= s);
}

/// Taking a class out of a text drops each character of the class and keeps each other one, in its
/// place among the others.
pub proof fn law_taking_out(s: Seq<char>, t: Seq<char>, c: char, class: CharClass)
    ensures
        without(s + t, class) == without(s, class) + without(t, class),
        class.has(c) ==> without(seq![c], class) == Seq::<char>::empty(),
        !class.has(c) ==> without(seq![c], class) == seq![c],
    decreases t.len(),
{
    reveal(Seq::filter);
    assert(Seq::<char>::empty().push(c) =~= seq![c]);
    assert(without(Seq::<char>::empty(), class) =~= Seq::empty());
    lemma_without_push(Seq::empty(), c, class);
    if t.len() == 0 {
        assert(s + t =~= s);
        assert(without(t, class) =~= Seq::empty());
        assert(without(s, class) + without(t, class) =~= without(s, class));
    } else {
        let head = t.drop_last();
        law_taking_out(s, head, c, class);
        lemma_without_push(s + head, t.last(), class);
        lemma_without_push(head, t.last(), class);
        assert((s + head).push(t.last()) =~= s + t);
        assert(head.push(t.last()) =~= t);
        assert(without(s + t, class) =~= without(s, class) + without(t, class));
    }
}

/// A run of white space becomes one space, wherever it stands, and text without white space is left
/// as it is.
pub proof fn law_collapsing(a: Seq<char>, gap: Seq<char>, b: Seq<char>)
    requires
        gap.len() > 0,
        forall|i: int| 0 <= i < gap.len() ==> is_white_space(#[trigger] gap[i]),
        a.len() > 0 ==> !is_white_space(a[a.len() - 1]),
        b.len() > 0 ==> !is_white_space(b[0]),
    ensures
        spaces_collapsed(a + gap + b) == spaces_collapsed(a) + seq![' '] + spaces_collapsed(b),
        (forall|i: int| 0 <= i < b.len() ==> !is_white_space(#[trigger] b[i]))
            ==> spaces_collapsed(b) == b,
    decreases gap.len() + b.len(),
{
    if b.len() > 0 {
        let head = b.drop_last();
        law_collapsing(a, gap, head);
        let all = a + gap + b;
        assert(all.drop_last() =~= a + gap + head);
        assert(all.last() == b.last());
        if b.len() > 1 {
            assert(all[all.len() - 2] == b[b.len() - 2]);
        }
        if forall|i: int| 0 <= i < b.len() ==> !is_white_space(#[trigger] b[i]) {
            assert forall|i: int| 0 <= i < head.len() implies !is_white_space(
                #[trigger] head[i],
            ) by {
                assert(head[i] == b[i]);
            }
            assert(head.push(b.last()) =~= b);
        }
        assert(spaces_collapsed(all) =~= spaces_collapsed(a) + seq![' '] + spaces_collapsed(b));
    } else {
        let all = a + gap + b;
        let shorter = gap.drop_last();
        assert(all =~= a + gap);
        assert(all.drop_last() =~= a + shorter);
        assert(is_white_space(gap[gap.len() - 1]));
        assert(all.last() == gap[gap.len() - 1]);
        if shorter.len() > 0 {
            assert(all[all.len() - 2] == gap[gap.len() - 2]);
            law_collapsing(a, shorter, b);
            assert(a + shorter + b =~= a + shorter);
        } else {
            assert(a + shorter =~= a);
            if all.len() > 1 {
                assert(all[all.len() - 2] == a[a.len() - 1]);
            }
        }
        assert(spaces_collapsed(b) =~= Seq::empty());
        assert(spaces_collapsed(all) =~= spaces_collapsed(a) + seq![' '] + spaces_collapsed(b));
    }
}

/// Lower case changes the letters A to Z and nothing else, each in its place.
pub proof fn law_lower_case(s: Seq<char>)
    ensures
        lowered(s).len() == s.len(),
        forall|i: int|
            #![trigger lowered(s)[i]]
            0 <= i < s.len() ==> lowered(s)[i] as int == s[i] as int + if 65 <= s[i] as int <= 90 {
                32int
            } else {
                0int
            },
        lowered(lowered(s)) == lowered(s),
{
    assert(lowered(lowered(s)) =~= lowered(s));
}

/// Joining puts the separator between neighbours, and nowhere else.
pub proof fn law_joining(a: Seq<Seq<char>>, one: Seq<char>, b: Seq<Seq<char>>, sep: Seq<char>)
    ensures
        joined(Seq::empty(), sep) == Seq::<char>::empty(),
        joined(seq![one], sep) == one,
        a.len() > 0 && b.len() > 0 ==> joined(a + b, sep) == joined(a, sep) + sep + joined(b, sep),
    decreases b.len(),
{
    if a.len() > 0 && b.len() > 0 {
        let all = a + b;
        assert(all.drop_last() =~= a + b.drop_last());
        assert(all.last() == b.last());
        if b.len() == 1 {
            assert(all.drop_last() =~= a);
            assert(joined(b, sep) == b[0]);
        } else {
            law_joining(a, one, b.drop_last(), sep);
            assert(joined(all, sep) =~= joined(a, sep) + sep + joined(b, sep));
        }
    }
}

/// Splitting at a character loses nothing: the pieces, joined by it, are the text, and it stands in
/// none of them.
pub proof fn law_splitting(s: Seq<char>, sep: char)
    ensures
        pieces(s, sep).len() > 0,
        joined(pieces(s, sep), seq![sep]) == s,
        forall|i: int, k: int|
            0 <= i < pieces(s, sep).len() && 0 <= k < pieces(s, sep)[i].len() ==> #[trigger] pieces(
                s,
                sep,
            )[i][k] != sep,
    decreases s.len(),
{
    lemma_pieces_nonempty(s, sep);
    assert forall|i: int, k: int|
        0 <= i < pieces(s, sep).len() && 0 <= k < pieces(s, sep)[i].len() implies #[trigger] pieces(
        s,
        sep,
    )[i][k] != sep by {
        lemma_pieces_hold_no_separator(s, sep, i);
        assert(pieces(s, sep)[i].contains(pieces(s, sep)[i][k]));
    }
    if s.len() > 0 {
        let head = s.drop_last();
        law_splitting(head, sep);
        let before = pieces(head, sep);
        let all = pieces(s, sep);
        let m = seq![sep];
        if s.last() == sep {
            assert(all.drop_last() =~= before);
            assert(all.last() =~= Seq::empty());
            assert(joined(all, m) =~= joined(before, m) + m);
            assert(head.push(sep) =~= s);
        } else {
            assert(all.drop_last() =~= before.drop_last());
            if before.len() == 1 {
                assert(joined(all, m) =~= before[0].push(s.last()));
            } else {
                assert(joined(all, m) =~= joined(before, m).push(s.last()));
            }
            assert(head.push(s.last()) =~= s);
        }
    } else {
        assert(pieces(s, sep)[0] =~= s);
    }
}

/// The list of the contents of strings has an entry for each, in its place.
pub proof fn law_texts(v: Seq<String>)
    ensures
        texts(v).len() == v.len(),
        forall|i: int| 0 <= i < v.len() ==> #[trigger] texts(v)[i] == v[i]@,
{
}

/// What stands between two runs of a class, and neither begins nor ends with a character of it, is
/// what trimming leaves.
pub proof fn law_trimming_leaves(before: Seq<char>, kept: Seq<char>, after: Seq<char>, class: CharClass)
    requires
        forall|i: int| 0 <= i < before.len() ==> class.has(#[trigger] before[i]),
        forall|i: int| 0 <= i < after.len() ==> class.has(#[trigger] after[i]),
        kept.len() > 0 ==> !class.has(kept[0]) && !class.has(kept[kept.len() - 1]),
    ensures
        trim_of(before + kept + after, class) == kept,
{
    let s = before + kept + after;
    let i = lemma_trim_start_parts(s, class);
    let rest = s.skip(i);
    let j = lemma_trim_end_parts(rest, class);
    let n = before.len() as int;
    if kept.len() > 0 {
        assert(s[n] == kept[0]);
        if i < n {
            assert(s[i] == before[i]);
        }
        assert(i == n);
        assert(rest =~= kept + after);
        let m = kept.len() as int;
        assert(rest[m - 1] == kept[m - 1]);
        if j > m {
            assert(rest[j - 1] == after[j - 1 - m]);
        }
        assert(j == m);
        assert(rest.take(j) =~= kept);
    } else {
        assert(s =~= before + after);
        if i < s.len() {
            if i < n {
                assert(s[i] == before[i]);
            } else {
                assert(s[i] == after[i - n]);
            }
        }
        assert(rest =~= Seq::empty());
        assert(rest.take(j) =~= kept);
    }
}

} // verus!
