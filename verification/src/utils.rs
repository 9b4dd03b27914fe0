//! Names of files and folders, image types, and small text helpers.
use crate::config;
use crate::decimal::{self, ChapterNumber};
use crate::models::{self, Chapter, ChapterView};
use crate::text::{self, CharClass};
use vstd::prelude::*;

verus! {

// ---------------------------------------------------------------------------------------------
// File and folder names
// ---------------------------------------------------------------------------------------------

/// The largest number of characters of a file name before its extension.
pub const MAX_NAME_CHARS: usize = 140;

/// The widest zero padding that is looked for when a chapter file is searched.
pub const MAX_SEARCH_WIDTH: usize = 6;

/// The smallest zero padding of chapter numbers.
pub const MIN_WIDTH: usize = 3;

/// The number of bytes of a string in UTF-8.
pub open spec fn byte_len(s: Seq<char>) -> nat {
    vstd::utf8::encode_utf8(s).len()
}

/// A run of zeros.
pub open spec fn zeros(n: nat) -> Seq<char> {
    Seq::new(n, |i: int| '0')
}

/// A chapter number as file names show it: the whole part padded with zeros to `width`, and the
/// digits after the first point, if there is one.
pub open spec fn padded_number(number: Seq<char>, width: nat) -> Seq<char> {
    let parts = text::pieces(number, '.');
    let whole = parts[0];
    let pad = if byte_len(whole) < width {
        zeros((width - byte_len(whole)) as nat)
    } else {
        Seq::empty()
    };
    if parts.len() > 1 {
        pad + whole + seq!['.'] + parts[1]
    } else {
        pad + whole
    }
}

/// A name made fit for a file system: illegal characters are dropped, runs of white space become
/// one space, and spaces and points at the ends go.
pub open spec fn sanitized(name: Seq<char>) -> Seq<char> {
    text::trim_of(
        text::spaces_collapsed(text::without(name, CharClass::FileNameIllegal)),
        CharClass::SpaceOrDot,
    )
}

/// At most `max` characters of `s`.
pub open spec fn at_most_chars(s: Seq<char>, max: int) -> Seq<char> {
    if s.len() > max {
        s.take(max)
    } else {
        s
    }
}

/// A name, or a stand-in where nothing is left of it.
pub open spec fn or_manga(name: Seq<char>) -> Seq<char> {
    if name.len() == 0 {
        "manga"@
    } else {
        name
    }
}

/// The name of the archive of a chapter.
pub open spec fn chapter_file(title: Seq<char>, number: Seq<char>, width: nat) -> Seq<char> {
    at_most_chars(
        or_manga(sanitized(title + " - Chapter "@ + padded_number(number, width))),
        MAX_NAME_CHARS as int,
    ) + ".cbz"@
}

/// The name of the folder of a manga.
pub open spec fn folder_of(title: Seq<char>) -> Seq<char> {
    or_manga(text::trimmed(text::without(title, CharClass::FolderIllegal)))
}

fn pad_number(number_str: &str, width: usize) -> (r: String)
    ensures
        r@ == padded_number(number_str@, width as nat),
{
    let parts = text::split(number_str, '.');
    assert(text::texts(parts@)[0] == parts@[0]@);
    let whole = parts[0].as_str();
    let bytes: usize = whole.as_bytes().len();
    let mut r = String::new();
    if bytes < width {
        let mut i: usize = 0;
        while i < width - bytes
            invariant
                bytes < width,
                i <= width - bytes,
                r@ == zeros(i as nat),
            decreases width - bytes - i,
        {
            r.push('0');
            assert(zeros(i as nat).push('0') =~= zeros((i + 1) as nat));
            i += 1;
        }
    }
    text::push_str(&mut r, whole);
    if parts.len() > 1 {
        assert(text::texts(parts@)[1] == parts@[1]@);
        r.push('.');
        text::push_str(&mut r, parts[1].as_str());
    }
    assert(r@ =~= padded_number(number_str@, width as nat));
    r
}

/// The first `max` characters of a string, or all of it where it is shorter.
fn take_chars(s: &str, max: usize) -> (r: String)
    ensures
        r@ == at_most_chars(s@, max as int),
{
    let v = text::chars_of(s);
    if v.len() > max {
        let r = text::string_of_range(&v, 0, max);
        assert(r@ =~= s@.take(max as int));
        r
    } else {
        text::copy_str(s)
    }
}

/// The name of the archive of a chapter: title and padded number, sanitized and bounded.
pub fn chapter_filename(title: &str, number_str: &str, width: usize) -> (name: String)
    ensures
        name@ == chapter_file(title@, number_str@, width as nat),
{
    let padded = pad_number(number_str, width);
    let mut full = text::concat(title, " - Chapter ");
    text::push_str(&mut full, padded.as_str());
    let legal = text::remove_class(full.as_str(), CharClass::FileNameIllegal);
    let single = text::collapse_spaces(legal.as_str());
    let mut name = text::trim(single.as_str(), CharClass::SpaceOrDot);
    if name.as_str().is_empty() {
        name = text::copy_str("manga");
    }
    let bounded = take_chars(name.as_str(), MAX_NAME_CHARS);
    text::concat(bounded.as_str(), ".cbz")
}

/// The name of the folder of a manga.
pub fn get_folder_name(title: &str) -> (name: String)
    ensures
        name@ == folder_of(title@),
{
    let legal = text::remove_class(title, CharClass::FolderIllegal);
    let name = text::trim(legal.as_str(), CharClass::WhiteSpace);
    if name.as_str().is_empty() {
        text::copy_str("manga")
    } else {
        name
    }
}

/// The archive names under which a chapter may have been stored, by increasing padding.
pub open spec fn candidates(title: Seq<char>, number: Seq<char>) -> Seq<Seq<char>> {
    Seq::new(
        MAX_SEARCH_WIDTH as nat,
        |i: int| chapter_file(title, number, (i + 1) as nat),
    )
}

/// The archive names under which a chapter may have been stored, by increasing padding.
pub fn chapter_candidates(title: &str, number_str: &str) -> (names: Vec<String>)
    ensures
        text::texts(names@) == candidates(title@, number_str@),
{
    let mut names: Vec<String> = Vec::new();
    let mut width: usize = 1;
    while width <= MAX_SEARCH_WIDTH
        invariant
            1 <= width <= MAX_SEARCH_WIDTH + 1,
            text::texts(names@) == candidates(title@, number_str@).take(width - 1),
        decreases MAX_SEARCH_WIDTH + 1 - width,
    {
        let ghost before = text::texts(names@);
        let name = chapter_filename(title, number_str, width);
        let ghost view = name@;
        names.push(name);
        assert(text::texts(names@) =~= before.push(view));
        assert(candidates(title@, number_str@).take(width - 1).push(view) =~= candidates(
            title@,
            number_str@,
        ).take(width as int));
        width += 1;
    }
    assert(candidates(title@, number_str@).take(MAX_SEARCH_WIDTH as int) =~= candidates(
        title@,
        number_str@,
    ));
    names
}

/// The position of the first `true`.
pub open spec fn first_true(flags: Seq<bool>) -> Option<int>
    decreases flags.len(),
{
    if flags.len() == 0 {
        None
    } else {
        match first_true(flags.drop_last()) {
            Some(i) => Some(i),
            None => if flags.last() {
                Some(flags.len() - 1)
            } else {
                None
            },
        }
    }
}

/// The first position that holds `true`, if any does.
pub proof fn lemma_first_true(flags: Seq<bool>)
    ensures
        match first_true(flags) {
            Some(i) => 0 <= i < flags.len() && flags[i] && forall|j: int|
                0 <= j < i ==> !#[trigger] flags[j],
            None => forall|j: int| 0 <= j < flags.len() ==> !#[trigger] flags[j],
        },
    decreases flags.len(),
{
    if flags.len() > 0 {
        let shorter = flags.drop_last();
        lemma_first_true(shorter);
        assert forall|j: int| 0 <= j < shorter.len() implies shorter[j] == #[trigger] flags[j] by {}
    }
}

/// The position of the first `true`.
pub fn first_set(flags: &Vec<bool>) -> (r: Option<usize>)
    ensures
        match r {
            Some(i) => first_true(flags@) == Some(i as int) && i < flags@.len(),
            None => first_true(flags@) is None,
        },
{
    let mut i: usize = 0;
    while i < flags.len()
        invariant
            i <= flags@.len(),
            forall|j: int| 0 <= j < i ==> !#[trigger] flags@[j],
        decreases flags@.len() - i,
    {
        if flags[i] {
            proof {
                lemma_first_true(flags@);
                assert(flags@[i as int]);
            }
            return Some(i);
        }
        i += 1;
    }
    proof {
        lemma_first_true(flags@);
    }
    None
}

/// The archive of a chapter, where `present` says which of the candidate names exist: the one
/// with the least padding.
pub fn find_chapter_cbz(title: &str, number_str: &str, present: &Vec<bool>) -> (r: Option<String>)
    requires
        present@.len() == MAX_SEARCH_WIDTH,
    ensures
        match r {
            Some(name) => first_true(present@) is Some && name@ == candidates(
                title@,
                number_str@,
            )[first_true(present@)->0],
            None => first_true(present@) is None,
        },
{
    match first_set(present) {
        Some(i) => Some(chapter_filename(title, number_str, i + 1)),
        None => None,
    }
}

/// The name under which an archive is written until it is complete.
pub fn partial_name(filename: &str) -> (name: String)
    ensures
        name@ == filename@ + ".part"@,
{
    text::concat(filename, ".part")
}

/// A chapter number value that no chapter exceeds: that of the last largest one, or zero.
pub open spec fn largest(chapters: Seq<ChapterView>) -> ChapterNumber
    decreases chapters.len(),
{
    if chapters.len() == 0 {
        ChapterNumber { mantissa: 0, scale: 0 }
    } else if chapters.len() == 1 {
        chapters[0].number
    } else {
        let before = largest(chapters.drop_last());
        if before.value() <= chapters.last().number.value() {
            chapters.last().number
        } else {
            before
        }
    }
}

/// The padding of chapter numbers: the digits of the whole part of the largest one, but at least
/// three.
pub open spec fn width_of(chapters: Seq<ChapterView>) -> nat {
    let m = largest(chapters);
    let n = decimal::decimal_text(decimal::whole_part(m.mantissa as int, m.scale as int), 0).len();
    if n < MIN_WIDTH {
        MIN_WIDTH as nat
    } else {
        n
    }
}

/// The padding of chapter numbers for a list of chapters in any order.
pub fn determine_width(chapters: &Vec<Chapter>) -> (width: usize)
    requires
        models::numbered(models::chapter_views(chapters@)),
    ensures
        width == width_of(models::chapter_views(chapters@)),
{
    let ghost views = models::chapter_views(chapters@);
    let mut best = ChapterNumber::zero();
    let mut i: usize = 0;
    assert(views.take(0) =~= Seq::empty());
    while i < chapters.len()
        invariant
            i <= chapters@.len(),
            views == models::chapter_views(chapters@),
            models::numbered(views),
            best.wf(),
            best == largest(views.take(i as int)),
        decreases chapters@.len() - i,
    {
        assert(views.take(i + 1).drop_last() =~= views.take(i as int));
        assert(views[i as int].number.wf());
        let n = chapters[i].number;
        if i == 0 || best.at_most(n) {
            best = n;
        }
        i += 1;
    }
    assert(views.take(chapters@.len() as int) =~= views);
    let shown = best.trunc().to_text();
    let digits: usize = text::chars_of(shown.as_str()).len();
    if digits < MIN_WIDTH {
        MIN_WIDTH
    } else {
        digits
    }
}

/// The archive names of a chapter with less padding than the target, by increasing padding.
pub open spec fn narrower_names(title: Seq<char>, number: Seq<char>, width: int) -> Seq<Seq<char>> {
    Seq::new(
        if width > MIN_WIDTH {
            (width - MIN_WIDTH) as nat
        } else {
            0
        },
        |i: int| chapter_file(title, number, (MIN_WIDTH + i) as nat),
    )
}

/// The archive names of a chapter with less padding than the target, by increasing padding.
pub fn narrower_filenames(title: &str, number_str: &str, target_width: usize) -> (names: Vec<
    String,
>)
    ensures
        text::texts(names@) == narrower_names(title@, number_str@, target_width as int),
{
    let ghost all = narrower_names(title@, number_str@, target_width as int);
    let mut names: Vec<String> = Vec::new();
    let mut width: usize = MIN_WIDTH;
    while width < target_width
        invariant
            MIN_WIDTH <= width,
            target_width > MIN_WIDTH ==> width <= target_width,
            target_width <= MIN_WIDTH ==> width == MIN_WIDTH,
            all == narrower_names(title@, number_str@, target_width as int),
            text::texts(names@) == all.take(width - MIN_WIDTH),
        decreases target_width - width,
    {
        let ghost before = text::texts(names@);
        let name = chapter_filename(title, number_str, width);
        let ghost view = name@;
        names.push(name);
        assert(text::texts(names@) =~= before.push(view));
        assert(all.take(width - MIN_WIDTH).push(view) =~= all.take(width + 1 - MIN_WIDTH));
        width += 1;
    }
    assert(text::texts(names@) =~= all);
    names
}

/// The rename that brings the archive of a chapter to the target padding, where one is due: the
/// target does not exist yet, and `present` says which of the narrower names do. The one with the
/// least padding is renamed.
pub fn upgrade_padding(
    title: &str,
    number_str: &str,
    target_width: usize,
    target_present: bool,
    present: &Vec<bool>,
) -> (r: Option<(String, String)>)
    requires
        present@.len() == narrower_names(title@, number_str@, target_width as int).len(),
    ensures
        match r {
            Some((from, to)) => {
                &&& target_width > MIN_WIDTH
                &&& !target_present
                &&& first_true(present@) is Some
                &&& from@ == narrower_names(
                    title@,
                    number_str@,
                    target_width as int,
                )[first_true(present@)->0]
                &&& to@ == chapter_file(title@, number_str@, target_width as nat)
            },
            None => target_width <= MIN_WIDTH || target_present || first_true(present@) is None,
        },
{
    if target_width <= MIN_WIDTH || target_present {
        return None;
    }
    match first_set(present) {
        Some(i) => Some(
            (
                chapter_filename(title, number_str, MIN_WIDTH + i),
                chapter_filename(title, number_str, target_width),
            ),
        ),
        None => None,
    }
}

/// The chapters whose archive does (or does not) exist, in order.
pub open spec fn with_presence(
    chapters: Seq<ChapterView>,
    present: Seq<bool>,
    wanted: bool,
) -> Seq<ChapterView>
    decreases chapters.len(),
{
    if chapters.len() == 0 {
        Seq::empty()
    } else {
        let before = with_presence(chapters.drop_last(), present.drop_last(), wanted);
        if present.last() == wanted {
            before.push(chapters.last())
        } else {
            before
        }
    }
}

/// Sorts out which chapters are there already: the padding of the archive names, the chapters
/// whose archive exists, and those whose archive does not.
pub fn scan_manga_chapters(chapters: &Vec<Chapter>, present: &Vec<bool>) -> (r: (
    usize,
    Vec<Chapter>,
    Vec<Chapter>,
))
    requires
        models::numbered(models::chapter_views(chapters@)),
        present@.len() == chapters@.len(),
    ensures
        r.0 == width_of(models::chapter_views(chapters@)),
        models::chapter_views(r.1@) == with_presence(
            models::chapter_views(chapters@),
            present@,
            true,
        ),
        models::chapter_views(r.2@) == with_presence(
            models::chapter_views(chapters@),
            present@,
            false,
        ),
        r.1@.len() + r.2@.len() == chapters@.len(),
{
    let ghost views = models::chapter_views(chapters@);
    let width = determine_width(chapters);
    let mut existing: Vec<Chapter> = Vec::new();
    let mut missing: Vec<Chapter> = Vec::new();
    let mut i: usize = 0;
    while i < chapters.len()
        invariant
            i <= chapters@.len(),
            present@.len() == chapters@.len(),
            views == models::chapter_views(chapters@),
            models::chapter_views(existing@) == with_presence(
                views.take(i as int),
                present@.take(i as int),
                true,
            ),
            models::chapter_views(missing@) == with_presence(
                views.take(i as int),
                present@.take(i as int),
                false,
            ),
            existing@.len() + missing@.len() == i,
        decreases chapters@.len() - i,
    {
        let ghost here = models::chapter_views(existing@);
        let ghost gone = models::chapter_views(missing@);
        let c = chapters[i].clone();
        let ghost view = c@;
        proof {
            assert(views.take(i + 1).drop_last() =~= views.take(i as int));
            assert(present@.take(i + 1).drop_last() =~= present@.take(i as int));
            assert(views.take(i + 1).last() == view);
        }
        if present[i] {
            existing.push(c);
            assert(models::chapter_views(existing@) =~= here.push(view));
        } else {
            missing.push(c);
            assert(models::chapter_views(missing@) =~= gone.push(view));
        }
        i += 1;
    }
    assert(views.take(i as int) =~= views);
    assert(present@.take(i as int) =~= present@);
    (width, existing, missing)
}

// ---------------------------------------------------------------------------------------------
// Image types
// ---------------------------------------------------------------------------------------------

/// The MIME type that the ending of a file name stands for; the case of ASCII letters does not
/// matter, and whatever is not recognised counts as JPEG.
pub open spec fn mime_type_of(filename: Seq<char>) -> Seq<char> {
    let lower = text::lowered(filename);
    if ".png"@.is_suffix_of(lower) {
        "image/png"@
    } else if ".webp"@.is_suffix_of(lower) {
        "image/webp"@
    } else if ".avif"@.is_suffix_of(lower) {
        "image/avif"@
    } else if ".gif"@.is_suffix_of(lower) {
        "image/gif"@
    } else {
        "image/jpeg"@
    }
}

/// The MIME type of an image file, by its name.
pub fn get_mime_type(filename: &str) -> (mime: &'static str)
    ensures
        mime@ == mime_type_of(filename@),
{
    let lower = text::to_ascii_lower(filename);
    let name = lower.as_str();
    if text::ends_with(name, ".png") {
        "image/png"
    } else if text::ends_with(name, ".webp") {
        "image/webp"
    } else if text::ends_with(name, ".avif") {
        "image/avif"
    } else if text::ends_with(name, ".gif") {
        "image/gif"
    } else {
        "image/jpeg"
    }
}

/// Whether `bytes` stand in `data` at position `at`.
pub open spec fn bytes_at(data: Seq<u8>, at: int, bytes: Seq<u8>) -> bool {
    &&& at + bytes.len() <= data.len()
    &&& forall|i: int| 0 <= i < bytes.len() ==> data[at + i] == #[trigger] bytes[i]
}

/// The extension that a declared content type stands for.
pub open spec fn extension_of_type(content_type: Seq<char>) -> Option<Seq<char>> {
    if content_type == "image/jpeg"@ {
        Some(".jpg"@)
    } else if content_type == "image/png"@ {
        Some(".png"@)
    } else if content_type == "image/webp"@ {
        Some(".webp"@)
    } else if content_type == "image/avif"@ {
        Some(".avif"@)
    } else if content_type == "image/gif"@ {
        Some(".gif"@)
    } else {
        None
    }
}

/// The extension that the first bytes of an image stand for: the signatures of JPEG, PNG, GIF,
/// WebP and AVIF, in this order.
pub open spec fn extension_of_data(data: Seq<u8>) -> Option<Seq<char>> {
    if bytes_at(data, 0, seq![0xffu8, 0xd8, 0xff]) {
        Some(".jpg"@)
    } else if bytes_at(data, 0, seq![0x89u8, 80, 78, 71, 13, 10, 26, 10]) {
        Some(".png"@)
    } else if bytes_at(data, 0, seq![71u8, 73, 70, 56, 55, 97]) || bytes_at(
        data,
        0,
        seq![71u8, 73, 70, 56, 57, 97],
    ) {
        Some(".gif"@)
    } else if bytes_at(data, 0, seq![82u8, 73, 70, 70]) {
        Some(".webp"@)
    } else if bytes_at(data, 4, seq![102u8, 116, 121, 112, 97, 118, 105, 102]) || bytes_at(
        data,
        4,
        seq![102u8, 116, 121, 112, 97, 118, 105, 115],
    ) {
        Some(".avif"@)
    } else {
        None
    }
}

/// The extension that the ending of an address stands for; JPEG where it is not recognised.
pub open spec fn extension_of_path(path: Seq<char>) -> Seq<char> {
    if ".jpg"@.is_suffix_of(path) || ".jpeg"@.is_suffix_of(path) {
        ".jpg"@
    } else if ".png"@.is_suffix_of(path) {
        ".png"@
    } else if ".webp"@.is_suffix_of(path) {
        ".webp"@
    } else if ".gif"@.is_suffix_of(path) {
        ".gif"@
    } else {
        ".jpg"@
    }
}

/// The extension of an image: the declared type decides, then the data, then the address.
pub open spec fn extension_of(content_type: Seq<char>, data: Seq<u8>, path: Seq<char>) -> Seq<
    char,
> {
    match extension_of_type(content_type) {
        Some(ext) => ext,
        None => match extension_of_data(data) {
            Some(ext) => ext,
            None => extension_of_path(path),
        },
    }
}

/// The media type of a `Content-Type` header, without its parameters.
pub open spec fn media_type(content_type: Seq<char>) -> Seq<char> {
    text::trimmed(text::pieces(content_type, ';')[0])
}

fn has_bytes_at(data: &[u8], at: usize, bytes: &Vec<u8>) -> (b: bool)
    ensures
        b == bytes_at(data@, at as int, bytes@),
{
    if bytes.len() > data.len() || at > data.len() - bytes.len() {
        return false;
    }
    let end: usize = data.len();
    let mut i: usize = 0;
    while i < bytes.len()
        invariant
            end == data@.len(),
            at + bytes@.len() <= end,
            i <= bytes@.len(),
            forall|k: int| 0 <= k < i ==> data@[at + k] == #[trigger] bytes@[k],
        decreases bytes@.len() - i,
    {
        if data[at + i] != bytes[i] {
            return false;
        }
        i += 1;
    }
    true
}

fn extension_by_type(content_type: &str) -> (ext: Option<&'static str>)
    ensures
        match ext {
            Some(e) => extension_of_type(content_type@) == Some(e@),
            None => extension_of_type(content_type@) is None,
        },
{
    if text::str_eq(content_type, "image/jpeg") {
        Some(".jpg")
    } else if text::str_eq(content_type, "image/png") {
        Some(".png")
    } else if text::str_eq(content_type, "image/webp") {
        Some(".webp")
    } else if text::str_eq(content_type, "image/avif") {
        Some(".avif")
    } else if text::str_eq(content_type, "image/gif") {
        Some(".gif")
    } else {
        None
    }
}

fn extension_by_data(data: &[u8]) -> (ext: Option<&'static str>)
    ensures
        match ext {
            Some(e) => extension_of_data(data@) == Some(e@),
            None => extension_of_data(data@) is None,
        },
{
    let jpeg: Vec<u8> = vec![0xff, 0xd8, 0xff];
    let png: Vec<u8> = vec![0x89, 80, 78, 71, 13, 10, 26, 10];
    let gif87: Vec<u8> = vec![71, 73, 70, 56, 55, 97];
    let gif89: Vec<u8> = vec![71, 73, 70, 56, 57, 97];
    let riff: Vec<u8> = vec![82, 73, 70, 70];
    let avif: Vec<u8> = vec![102, 116, 121, 112, 97, 118, 105, 102];
    let avis: Vec<u8> = vec![102, 116, 121, 112, 97, 118, 105, 115];
    assert(jpeg@ =~= seq![0xffu8, 0xd8, 0xff]);
    assert(png@ =~= seq![0x89u8, 80, 78, 71, 13, 10, 26, 10]);
    assert(gif87@ =~= seq![71u8, 73, 70, 56, 55, 97]);
    assert(gif89@ =~= seq![71u8, 73, 70, 56, 57, 97]);
    assert(riff@ =~= seq![82u8, 73, 70, 70]);
    assert(avif@ =~= seq![102u8, 116, 121, 112, 97, 118, 105, 102]);
    assert(avis@ =~= seq![102u8, 116, 121, 112, 97, 118, 105, 115]);
    if has_bytes_at(data, 0, &jpeg) {
        Some(".jpg")
    } else if has_bytes_at(data, 0, &png) {
        Some(".png")
    } else if has_bytes_at(data, 0, &gif87) || has_bytes_at(data, 0, &gif89) {
        Some(".gif")
    } else if has_bytes_at(data, 0, &riff) {
        Some(".webp")
    } else if has_bytes_at(data, 4, &avif) || has_bytes_at(data, 4, &avis) {
        Some(".avif")
    } else {
        None
    }
}

fn extension_by_path(path: &str) -> (ext: &'static str)
    ensures
        ext@ == extension_of_path(path@),
{
    if text::ends_with(path, ".jpg") || text::ends_with(path, ".jpeg") {
        ".jpg"
    } else if text::ends_with(path, ".png") {
        ".png"
    } else if text::ends_with(path, ".webp") {
        ".webp"
    } else if text::ends_with(path, ".gif") {
        ".gif"
    } else {
        ".jpg"
    }
}

/// The extension of an image whose media type is given in lower case.
pub fn extension_for(lower_type: &str, data: &[u8], url_path: &str) -> (ext: &'static str)
    ensures
        ext@ == extension_of(lower_type@, data@, url_path@),
{
    match extension_by_type(lower_type) {
        Some(ext) => ext,
        None => match extension_by_data(data) {
            Some(ext) => ext,
            None => extension_by_path(url_path),
        },
    }
}

/// The extension of a downloaded image: by its `Content-Type` header, else by its first bytes,
/// else by the address that it came from.
pub fn image_extension(content_type: &str, data: &[u8], url_path: &str) -> (ext: &'static str)
    ensures
        ext@ == extension_of(
            text::unicode_lowercase(media_type(content_type@)),
            data@,
            url_path@,
        ),
        text::is_ascii(media_type(content_type@)) ==> ext@ == extension_of(
            text::lowered(media_type(content_type@)),
            data@,
            url_path@,
        ),
{
    let parts = text::split(content_type, ';');
    assert(text::texts(parts@)[0] == parts@[0]@);
    let media = text::trim(parts[0].as_str(), CharClass::WhiteSpace);
    let lower = text::to_lowercase(media.as_str());
    extension_for(lower.as_str(), data, url_path)
}

// ---------------------------------------------------------------------------------------------
// Text helpers
// ---------------------------------------------------------------------------------------------

/// What a character becomes in XML text.
pub open spec fn escaped_char(c: char) -> Seq<char> {
    if c == '&' {
        "&amp;"@
    } else if c == '<' {
        "&lt;"@
    } else if c == '>' {
        "&gt;"@
    } else {
        seq![c]
    }
}

/// A string with the characters that mean something in XML text replaced by entities.
pub open spec fn escaped(s: Seq<char>) -> Seq<char>
    decreases s.len(),
{
    if s.len() == 0 {
        Seq::empty()
    } else {
        escaped(s.drop_last()) + escaped_char(s.last())
    }
}

/// Escapes a string for XML text.
pub fn escape_xml(s: &str) -> (r: String)
    ensures
        r@ == escaped(s@),
{
    let mut r = String::new();
    for c in it: s.chars()
        invariant
            r@ == escaped(s@.take(it.index() as int)),
            it.seq() == s@,
    {
        let ghost before = r@;
        proof {
            assert(s@.take(it.index() + 1).drop_last() =~= s@.take(it.index() as int));
        }
        if c == '&' {
            text::push_str(&mut r, "&amp;");
        } else if c == '<' {
            text::push_str(&mut r, "&lt;");
        } else if c == '>' {
            text::push_str(&mut r, "&gt;");
        } else {
            r.push(c);
            assert(r@ =~= before + seq![c]);
        }
    }
    assert(s@.take(s@.len() as int) =~= s@);
    r
}

/// A string cut to `max` characters, with an ellipsis where something was cut.
pub open spec fn truncated(s: Seq<char>, max: int) -> Seq<char> {
    if s.len() > max {
        s.take(max) + "..."@
    } else {
        s
    }
}

/// Cuts a string to at most `max_chars` characters; a cut is marked by an ellipsis.
pub fn truncate_str(s: &str, max_chars: usize) -> (r: String)
    ensures
        r@ == truncated(s@, max_chars as int),
{
    let v = text::chars_of(s);
    if v.len() > max_chars {
        let kept = text::string_of_range(&v, 0, max_chars);
        assert(kept@ =~= s@.take(max_chars as int));
        text::concat(kept.as_str(), "...")
    } else {
        text::copy_str(s)
    }
}

// ---------------------------------------------------------------------------------------------
// Laws
// ---------------------------------------------------------------------------------------------

/// Whether no character of the class occurs.
pub open spec fn free_of(s: Seq<char>, class: CharClass) -> bool {
    forall|i: int| 0 <= i < s.len() ==> !class.has(#[trigger] s[i])
}

proof fn lemma_trim_keeps_free(s: Seq<char>, trim: CharClass, class: CharClass)
    requires
        free_of(s, class),
    ensures
        free_of(text::trim_of(s, trim), class),
{
    lemma_trim_start_keeps_free(s, trim, class);
    lemma_trim_end_keeps_free(text::trim_start_of(s, trim), trim, class);
}

proof fn lemma_trim_start_keeps_free(s: Seq<char>, trim: CharClass, class: CharClass)
    requires
        free_of(s, class),
    ensures
        free_of(text::trim_start_of(s, trim), class),
    decreases s.len(),
{
    if s.len() > 0 && trim.has(s[0]) {
        lemma_trim_start_keeps_free(s.drop_first(), trim, class);
    }
}

proof fn lemma_trim_end_keeps_free(s: Seq<char>, trim: CharClass, class: CharClass)
    requires
        free_of(s, class),
    ensures
        free_of(text::trim_end_of(s, trim), class),
    decreases s.len(),
{
    if s.len() > 0 && trim.has(s.last()) {
        lemma_trim_end_keeps_free(s.drop_last(), trim, class);
    }
}

proof fn lemma_collapse_keeps_free(s: Seq<char>, class: CharClass)
    requires
        free_of(s, class),
        !class.has(' '),
    ensures
        free_of(text::spaces_collapsed(s), class),
    decreases s.len(),
{
    if s.len() > 0 {
        assert(!class.has(s[s.len() - 1]));
        lemma_collapse_keeps_free(s.drop_last(), class);
    }
}

proof fn lemma_without_is_free(s: Seq<char>, class: CharClass)
    ensures
        free_of(text::without(s, class), class),
{
    let keep = |c: char| !class.has(c);
    assert forall|i: int| 0 <= i < text::without(s, class).len() implies !class.has(
        #[trigger] text::without(s, class)[i],
    ) by {
        s.lemma_filter_pred(keep, i);
    }
}

/// The name of a chapter archive holds no character that a file system refuses, ends with the
/// archive extension after at least one other character, and is never longer than the bound.
pub proof fn law_file_name_is_legal(title: Seq<char>, number: Seq<char>, width: nat)
    ensures
        free_of(chapter_file(title, number, width), CharClass::FileNameIllegal),
        ".cbz"@.is_suffix_of(chapter_file(title, number, width)),
        4 < chapter_file(title, number, width).len() <= MAX_NAME_CHARS + 4,
{
    let full = title + " - Chapter "@ + padded_number(number, width);
    let legal = text::without(full, CharClass::FileNameIllegal);
    lemma_without_is_free(full, CharClass::FileNameIllegal);
    lemma_collapse_keeps_free(legal, CharClass::FileNameIllegal);
    lemma_trim_keeps_free(
        text::spaces_collapsed(legal),
        CharClass::SpaceOrDot,
        CharClass::FileNameIllegal,
    );
    reveal_strlit("manga");
    reveal_strlit(".cbz");
    let stem = at_most_chars(or_manga(sanitized(full)), MAX_NAME_CHARS as int);
    let file = chapter_file(title, number, width);
    assert(free_of(stem, CharClass::FileNameIllegal));
    assert(file =~= stem + ".cbz"@);
    assert(file.subrange(file.len() - 4, file.len() as int) =~= ".cbz"@);
}

/// The name of a manga folder is never empty and holds no reserved character.
pub proof fn law_folder_name_is_legal(title: Seq<char>)
    ensures
        folder_of(title).len() > 0,
        free_of(folder_of(title), CharClass::FolderIllegal),
{
    let legal = text::without(title, CharClass::FolderIllegal);
    lemma_without_is_free(title, CharClass::FolderIllegal);
    lemma_trim_keeps_free(legal, CharClass::WhiteSpace, CharClass::FolderIllegal);
    reveal_strlit("manga");
}

/// Whether the only white space is single spaces.
pub open spec fn single_spaced(s: Seq<char>) -> bool {
    &&& forall|i: int| 0 <= i < s.len() && text::is_white_space(#[trigger] s[i]) ==> s[i] == ' '
    &&& forall|i: int, j: int|
        0 <= i && j == i + 1 && j < s.len() && #[trigger] s[i] == ' ' ==> #[trigger] s[j] != ' '
}

proof fn lemma_collapsed_is_single_spaced(s: Seq<char>)
    ensures
        single_spaced(text::spaces_collapsed(s)),
        s.len() > 0 ==> text::spaces_collapsed(s).len() > 0 && (text::spaces_collapsed(s).last()
            == ' ' <==> text::is_white_space(s.last())),
    decreases s.len(),
{
    if s.len() > 0 {
        let before = text::spaces_collapsed(s.drop_last());
        lemma_collapsed_is_single_spaced(s.drop_last());
        if s.len() == 1 {
            assert(before.len() == 0);
        } else {
            assert(s.drop_last().last() == s[s.len() - 2]);
            assert(before.last() == before[before.len() - 1]);
        }
    }
}

proof fn lemma_trim_start_shape(s: Seq<char>, class: CharClass)
    requires
        single_spaced(s),
    ensures
        single_spaced(text::trim_start_of(s, class)),
        text::trim_start_of(s, class).len() > 0 ==> !class.has(text::trim_start_of(s, class)[0]),
    decreases s.len(),
{
    if s.len() > 0 && class.has(s[0]) {
        let rest = s.drop_first();
        assert forall|i: int, j: int|
            0 <= i && j == i + 1 && j < rest.len() && #[trigger] rest[i] == ' ' implies
            #[trigger] rest[j] != ' ' by {
            assert(rest[i] == s[i + 1] && rest[j] == s[j + 1]);
        }
        lemma_trim_start_shape(rest, class);
    }
}

proof fn lemma_trim_end_shape(s: Seq<char>, class: CharClass)
    requires
        single_spaced(s),
    ensures
        single_spaced(text::trim_end_of(s, class)),
        text::trim_end_of(s, class).len() > 0 ==> !class.has(text::trim_end_of(s, class).last())
            && text::trim_end_of(s, class)[0] == s[0],
    decreases s.len(),
{
    if s.len() > 0 && class.has(s.last()) {
        lemma_trim_end_shape(s.drop_last(), class);
    }
}

/// The name of a chapter archive holds no white space but single spaces and begins with neither a
/// space nor a point. Where the name was not cut, nothing like that stands before the extension
/// either.
pub proof fn law_file_name_is_tidy(title: Seq<char>, number: Seq<char>, width: nat)
    ensures
        single_spaced(chapter_file(title, number, width)),
        !CharClass::SpaceOrDot.has(chapter_file(title, number, width)[0]),
        sanitized(title + " - Chapter "@ + padded_number(number, width)).len() <= MAX_NAME_CHARS
            ==> !CharClass::SpaceOrDot.has(
            chapter_file(title, number, width)[chapter_file(title, number, width).len() - 5],
        ),
{
    let full = title + " - Chapter "@ + padded_number(number, width);
    let single = text::spaces_collapsed(text::without(full, CharClass::FileNameIllegal));
    let started = text::trim_start_of(single, CharClass::SpaceOrDot);
    lemma_collapsed_is_single_spaced(text::without(full, CharClass::FileNameIllegal));
    lemma_trim_start_shape(single, CharClass::SpaceOrDot);
    lemma_trim_end_shape(started, CharClass::SpaceOrDot);
    reveal_strlit("manga");
    reveal_strlit(".cbz");
    let name = or_manga(sanitized(full));
    let stem = at_most_chars(name, MAX_NAME_CHARS as int);
    let file = chapter_file(title, number, width);
    assert(single_spaced(name));
    assert(stem.len() > 0 && stem[0] == name[0]);
    assert(file =~= stem + ".cbz"@);
    assert(file[0] == stem[0]);
    assert(file[file.len() - 5] == stem.last());
    assert forall|i: int| 0 <= i < file.len() && text::is_white_space(#[trigger] file[i]) implies
        file[i] == ' ' by {
        if i < stem.len() {
            assert(file[i] == name[i]);
        } else {
            assert(file[i] == ".cbz"@[i - stem.len()]);
        }
    }
    assert forall|i: int, j: int|
        0 <= i && j == i + 1 && j < file.len() && #[trigger] file[i] == ' ' implies
        #[trigger] file[j] != ' ' by {
        if j < stem.len() {
            assert(file[i] == name[i] && file[j] == name[j]);
        } else {
            assert(file[j] == ".cbz"@[j - stem.len()]);
        }
    }
}

proof fn lemma_without_nothing(s: Seq<char>, class: CharClass)
    requires
        free_of(s, class),
    ensures
        text::without(s, class) == s,
    decreases s.len(),
{
    reveal(Seq::filter);
    if s.len() > 0 {
        assert(!class.has(s[s.len() - 1]));
        assert forall|i: int| 0 <= i < s.drop_last().len() implies !class.has(
            #[trigger] s.drop_last()[i],
        ) by {
            assert(s.drop_last()[i] == s[i]);
        }
        lemma_without_nothing(s.drop_last(), class);
        assert(s.drop_last().push(s.last()) =~= s);
    }
}

proof fn lemma_trimmed_ends(s: Seq<char>, class: CharClass)
    ensures
        text::trim_of(s, class).len() > 0 ==> !class.has(text::trim_of(s, class)[0])
            && !class.has(text::trim_of(s, class).last()),
    decreases s.len(),
{
    if s.len() > 0 && class.has(s[0]) {
        lemma_trimmed_ends(s.drop_first(), class);
    } else if s.len() > 0 {
        lemma_trim_end_of_started(s, class);
    }
}

proof fn lemma_trim_end_of_started(s: Seq<char>, class: CharClass)
    requires
        s.len() > 0,
        !class.has(s[0]),
    ensures
        text::trim_end_of(s, class).len() > 0,
        text::trim_end_of(s, class)[0] == s[0],
        !class.has(text::trim_end_of(s, class).last()),
    decreases s.len(),
{
    if class.has(s.last()) {
        lemma_trim_end_of_started(s.drop_last(), class);
    }
}

/// The folder of a manga is named the same when its name is taken for a title.
pub proof fn law_folder_name_is_stable(title: Seq<char>)
    ensures
        folder_of(folder_of(title)) == folder_of(title),
{
    let folder = folder_of(title);
    let legal = text::without(title, CharClass::FolderIllegal);
    law_folder_name_is_legal(title);
    lemma_without_nothing(folder, CharClass::FolderIllegal);
    lemma_trimmed_ends(legal, CharClass::WhiteSpace);
    reveal_strlit("manga");
    assert(!text::is_white_space(folder[0]) && !text::is_white_space(folder.last()));
    assert(text::trimmed(folder) == folder);
}

proof fn lemma_ending(stem: Seq<char>, extension: Seq<char>, other: Seq<char>, k: int)
    requires
        0 < k <= extension.len(),
        k <= other.len(),
        text::lower(extension[extension.len() - k]) != other[other.len() - k],
    ensures
        !other.is_suffix_of(text::lowered(stem + extension)),
{
    let name = stem + extension;
    let lower = text::lowered(name);
    if other.is_suffix_of(lower) {
        assert(name[name.len() - k] == extension[extension.len() - k]);
        assert(lower[lower.len() - k] == lower.subrange(
            lower.len() - other.len(),
            lower.len() as int,
        )[other.len() - k]);
    }
}

proof fn lemma_own_ending(stem: Seq<char>, extension: Seq<char>)
    requires
        text::lowered(extension) == extension,
    ensures
        extension.is_suffix_of(text::lowered(stem + extension)),
{
    let lower = text::lowered(stem + extension);
    assert forall|i: int| 0 <= i < extension.len() implies lower[stem.len() + i]
        == #[trigger] extension[i] by {
        assert((stem + extension)[stem.len() + i] == extension[i]);
        assert(text::lowered(extension)[i] == extension[i]);
    }
    assert(lower.subrange(lower.len() - extension.len(), lower.len() as int) =~= extension);
}

/// The name of an image whose declared type is recognised leads back to that type, whatever stands
/// before the extension, and whatever the data and the address of the image are.
pub proof fn law_name_keeps_the_declared_type(
    stem: Seq<char>,
    declared: Seq<char>,
    data: Seq<u8>,
    path: Seq<char>,
)
    requires
        extension_of_type(declared) is Some,
    ensures
        mime_type_of(stem + extension_of(declared, data, path)) == declared,
{
    reveal_strlit(".jpg");
    reveal_strlit(".png");
    reveal_strlit(".webp");
    reveal_strlit(".avif");
    reveal_strlit(".gif");
    let extension = extension_of(declared, data, path);
    if declared == "image/jpeg"@ {
        lemma_ending(stem, extension, ".png"@, 2);
        lemma_ending(stem, extension, ".webp"@, 1);
        lemma_ending(stem, extension, ".avif"@, 1);
        lemma_ending(stem, extension, ".gif"@, 1);
    } else {
        assert(text::lowered(extension) =~= extension);
        lemma_own_ending(stem, extension);
        if declared == "image/png"@ {
            assert(extension == ".png"@);
        } else if declared == "image/webp"@ {
            lemma_ending(stem, extension, ".png"@, 1);
        } else if declared == "image/avif"@ {
            lemma_ending(stem, extension, ".png"@, 1);
            lemma_ending(stem, extension, ".webp"@, 1);
        } else if declared == "image/gif"@ {
            lemma_ending(stem, extension, ".png"@, 1);
            lemma_ending(stem, extension, ".webp"@, 1);
            lemma_ending(stem, extension, ".avif"@, 3);
        }
    }
}

/// A chapter that was stored with any padding that is searched for is found, under a name with no
/// more padding than that.
pub proof fn law_stored_chapter_is_found(present: Seq<bool>, width: int)
    requires
        present.len() == MAX_SEARCH_WIDTH,
        1 <= width <= MAX_SEARCH_WIDTH,
        present[width - 1],
    ensures
        first_true(present) is Some,
        0 <= first_true(present)->0 < width,
        present[first_true(present)->0],
{
    lemma_first_true(present);
}

/// An archive that is named with the padding of the chapter list is among the names that are
/// searched for, as long as chapter numbers have no more digits than the search goes up to.
pub proof fn law_downloaded_chapter_is_searched_for(
    title: Seq<char>,
    chapters: Seq<ChapterView>,
    i: int,
)
    requires
        0 <= i < chapters.len(),
        width_of(chapters) <= MAX_SEARCH_WIDTH,
    ensures
        candidates(title, chapters[i].number.text()).contains(
            chapter_file(title, chapters[i].number.text(), width_of(chapters)),
        ),
{
    let all = candidates(title, chapters[i].number.text());
    assert(all[width_of(chapters) - 1] == chapter_file(
        title,
        chapters[i].number.text(),
        width_of(chapters),
    ));
}

/// Escaped text holds no angle bracket.
pub proof fn law_escaped_has_no_tags(s: Seq<char>)
    ensures
        !escaped(s).contains('<'),
        !escaped(s).contains('>'),
    decreases s.len(),
{
    reveal_strlit("&amp;");
    reveal_strlit("&lt;");
    reveal_strlit("&gt;");
    if s.len() > 0 {
        law_escaped_has_no_tags(s.drop_last());
        let head = escaped(s.drop_last());
        let tail = escaped_char(s.last());
        assert forall|i: int| 0 <= i < escaped(s).len() implies escaped(s)[i] != '<' && escaped(
            s,
        )[i] != '>' by {
            if i < head.len() {
                assert(escaped(s)[i] == head[i]);
                assert(head.contains(head[i]));
            } else {
                assert(escaped(s)[i] == tail[i - head.len()]);
            }
        }
    }
}

/// What an XML reader makes of the entities in a text.
pub open spec fn unescaped(s: Seq<char>) -> Seq<char>
    decreases s.len(),
{
    if s.len() == 0 {
        s
    } else if s.len() >= 5 && text::occurs_at(s, "&amp;"@, 0) {
        seq!['&'] + unescaped(s.skip(5))
    } else if s.len() >= 4 && text::occurs_at(s, "&lt;"@, 0) {
        seq!['<'] + unescaped(s.skip(4))
    } else if s.len() >= 4 && text::occurs_at(s, "&gt;"@, 0) {
        seq!['>'] + unescaped(s.skip(4))
    } else {
        seq![s[0]] + unescaped(s.skip(1))
    }
}

proof fn lemma_escaped_from_front(s: Seq<char>)
    requires
        s.len() > 0,
    ensures
        escaped(s) == escaped_char(s[0]) + escaped(s.drop_first()),
    decreases s.len(),
{
    if s.len() == 1 {
        assert(s.drop_last() =~= Seq::empty());
        assert(s.drop_first() =~= Seq::empty());
        assert(escaped(s) =~= escaped_char(s[0]) + escaped(s.drop_first()));
    } else {
        lemma_escaped_from_front(s.drop_last());
        assert(s.drop_last().drop_first() =~= s.drop_first().drop_last());
        assert(escaped(s) =~= escaped_char(s[0]) + escaped(s.drop_first()));
    }
}

/// Reading escaped text back gives the text.
pub proof fn law_escape_is_reversible(s: Seq<char>)
    ensures
        unescaped(escaped(s)) == s,
    decreases s.len(),
{
    reveal_strlit("&amp;");
    reveal_strlit("&lt;");
    reveal_strlit("&gt;");
    if s.len() > 0 {
        lemma_escaped_from_front(s);
        law_escape_is_reversible(s.drop_first());
        let head = escaped_char(s[0]);
        let rest = escaped(s.drop_first());
        let all = head + rest;
        assert(all.subrange(0, head.len() as int) =~= head);
        assert(all.skip(head.len() as int) =~= rest);
        assert(seq![s[0]] + s.drop_first() =~= s);
        if s[0] == '<' {
            assert(all[1] == 'l');
            assert("&amp;"@[1] == 'a');
            assert(!text::occurs_at(all, "&amp;"@, 0)) by {
                if text::occurs_at(all, "&amp;"@, 0) {
                    assert(all.subrange(0, 5)[1] == all[1]);
                }
            }
        } else if s[0] == '>' {
            assert(all[1] == 'g');
            assert(!text::occurs_at(all, "&amp;"@, 0)) by {
                if text::occurs_at(all, "&amp;"@, 0) {
                    assert(all.subrange(0, 5)[1] == all[1]);
                }
            }
            assert(!text::occurs_at(all, "&lt;"@, 0)) by {
                if text::occurs_at(all, "&lt;"@, 0) {
                    assert(all.subrange(0, 4)[1] == all[1]);
                }
            }
        }
    }
}

/// A cut never leaves more than the allowed characters and the ellipsis, and what is short enough
/// is left alone.
pub proof fn law_truncation_is_bounded(s: Seq<char>, max: int)
    requires
        max >= 0,
    ensures
        truncated(s, max).len() <= max + 3,
        s.len() <= max ==> truncated(s, max) == s,
        s.len() > max ==> s.take(max).is_prefix_of(truncated(s, max)),
{
    reveal_strlit("...");
    if s.len() > max {
        assert(truncated(s, max).subrange(0, max) =~= s.take(max));
    }
}

proof fn lemma_largest(chapters: Seq<ChapterView>, i: int)
    requires
        models::numbered(chapters),
        0 <= i < chapters.len(),
    ensures
        largest(chapters).wf(),
        chapters[i].number.value() <= largest(chapters).value(),
    decreases chapters.len(),
{
    assert(chapters[i].number.wf());
    assert(chapters.last() == chapters[chapters.len() - 1]);
    if chapters.len() > 1 {
        if i < chapters.len() - 1 {
            lemma_largest(chapters.drop_last(), i);
        } else {
            lemma_largest(chapters.drop_last(), 0);
        }
    }
}

proof fn lemma_digit_count_grows(a: nat, b: nat)
    requires
        a <= b,
    ensures
        text::digits(a).len() <= text::digits(b).len(),
    decreases b,
{
    if a >= 10 {
        lemma_digit_count_grows(a / 10, b / 10);
    } else if b >= 10 {
        lemma_digit_count_positive(b / 10);
    }
}

/// A number has at least one digit.
pub proof fn lemma_digit_count_positive(n: nat)
    ensures
        text::digits(n).len() >= 1,
    decreases n,
{
    if n >= 10 {
        lemma_digit_count_positive(n / 10);
    }
}

/// The padding is wide enough: the whole part of no chapter number has more digits.
pub proof fn law_width_fits_every_chapter(chapters: Seq<ChapterView>, i: int)
    requires
        models::numbered(chapters),
        0 <= i < chapters.len(),
        chapters[i].number.mantissa >= 0,
    ensures
        width_of(chapters) >= MIN_WIDTH,
        text::digits(
            decimal::whole_part(
                chapters[i].number.mantissa as int,
                chapters[i].number.scale as int,
            ) as nat,
        ).len() <= width_of(chapters),
{
    let n = chapters[i].number;
    let m = largest(chapters);
    lemma_largest(chapters, i);
    decimal::lemma_whole_part_monotone(n, m);
    let a = decimal::whole_part(n.mantissa as int, n.scale as int);
    let b = decimal::whole_part(m.mantissa as int, m.scale as int);
    lemma_digit_count_grows(a as nat, b as nat);
    assert(decimal::pow10(0) == 1);
    assert(b >= 0 && decimal::magnitude(b) == b as nat);
    let k = decimal::magnitude(b);
    assert(k / 1 == k) by (nonlinear_arith);
    assert(decimal::decimal_text(b, 0) =~= text::digits(b as nat));
}

proof fn lemma_digits_take_one_byte(s: Seq<char>)
    requires
        config::all_digits(s),
    ensures
        byte_len(s) == s.len(),
{
    assert forall|i: int| 0 <= i < s.len() implies (#[trigger] s[i]) as nat <= 127 by {
        assert('0' <= s[i] <= '9');
    }
    assert(vstd::utf8::is_ascii_chars(s));
    vstd::utf8::is_ascii_chars_encode_utf8(s);
}

/// A chapter number is shown with zeros in front of its whole part, as many as it takes to reach the
/// width; the whole part itself and the digits after the point are shown as they are.
pub proof fn law_numbers_are_padded(whole: Seq<char>, fraction: Seq<char>, width: nat)
    requires
        config::all_digits(whole),
        config::all_digits(fraction),
    ensures
        exists|pad: Seq<char>|
            {
                &&& padded_number(whole, width) == #[trigger] (pad + whole)
                &&& padded_number(whole + "."@ + fraction, width) == pad + whole + "."@ + fraction
                &&& pad.len() == if whole.len() < width {
                    width - whole.len()
                } else {
                    0
                }
                &&& forall|i: int| 0 <= i < pad.len() ==> #[trigger] pad[i] == '0'
            },
{
    reveal_strlit(".");
    lemma_digits_take_one_byte(whole);
    let pad = if whole.len() < width {
        zeros((width - whole.len()) as nat)
    } else {
        Seq::empty()
    };
    let none = Seq::<char>::empty();
    assert(!whole.contains('.')) by {
        assert forall|i: int| 0 <= i < whole.len() implies whole[i] != '.' by {
            assert('0' <= whole[i] <= '9');
        }
    }
    assert(!fraction.contains('.')) by {
        assert forall|i: int| 0 <= i < fraction.len() implies fraction[i] != '.' by {
            assert('0' <= fraction[i] <= '9');
        }
    }
    text::lemma_pieces_extend(none, whole, '.');
    assert(none + whole =~= whole);
    assert(text::pieces(none, '.') =~= seq![none]);
    assert(text::pieces(whole, '.') =~= seq![whole]);
    text::lemma_pieces_separator(whole, '.');
    text::lemma_pieces_extend(whole.push('.'), fraction, '.');
    let full = whole + "."@ + fraction;
    assert(whole.push('.') + fraction =~= full);
    assert(none + fraction =~= fraction);
    assert(text::pieces(full, '.') =~= seq![whole, fraction]);
    assert(padded_number(whole, width) =~= pad + whole);
    assert(padded_number(full, width) =~= pad + whole + "."@ + fraction);
}

/// An archive is named by the title, the word `Chapter` and the padded number, as they are, where no
/// character of that has to go: none that a file system refuses, no white space but single spaces,
/// no space or point at the ends, and at most 140 characters.
pub proof fn law_name_of_an_archive(title: Seq<char>, number: Seq<char>, width: nat)
    requires
        ({
            let name = title + " - Chapter "@ + padded_number(number, width);
            &&& name.len() <= 140
            &&& forall|i: int|
                0 <= i < name.len() ==> !CharClass::FileNameIllegal.has(#[trigger] name[i])
            &&& forall|i: int|
                0 <= i < name.len() && text::is_white_space(#[trigger] name[i]) ==> name[i] == ' '
            &&& forall|i: int, j: int|
                0 <= i && j == i + 1 && j < name.len() && #[trigger] name[i] == ' '
                    ==> #[trigger] name[j] != ' '
            &&& name[0] != ' ' && name[0] != '.'
            &&& name.last() != ' ' && name.last() != '.'
        }),
    ensures
        chapter_file(title, number, width) == title + " - Chapter "@ + padded_number(number, width)
            + ".cbz"@,
{
    reveal_strlit(" - Chapter ");
    let name = title + " - Chapter "@ + padded_number(number, width);
    assert(name.len() > 0);
    lemma_tidy_name_is_kept(name);
}

proof fn lemma_tidy_name_is_kept(name: Seq<char>)
    requires
        name.len() > 0,
        forall|i: int| 0 <= i < name.len() ==> !CharClass::FileNameIllegal.has(#[trigger] name[i]),
        forall|i: int|
            0 <= i < name.len() && text::is_white_space(#[trigger] name[i]) ==> name[i] == ' ',
        forall|i: int, j: int|
            0 <= i && j == i + 1 && j < name.len() && #[trigger] name[i] == ' '
                ==> #[trigger] name[j] != ' ',
        name[0] != ' ' && name[0] != '.',
        name.last() != ' ' && name.last() != '.',
    ensures
        sanitized(name) == name,
{
    lemma_without_nothing(name, CharClass::FileNameIllegal);
    lemma_collapse_nothing(name);
    let none = Seq::<char>::empty();
    text::law_trimming_leaves(none, name, none, CharClass::SpaceOrDot);
    assert(none + name + none =~= name);
}

proof fn lemma_collapse_nothing(s: Seq<char>)
    requires
        single_spaced(s),
    ensures
        text::spaces_collapsed(s) == s,
    decreases s.len(),
{
    if s.len() > 0 {
        let head = s.drop_last();
        assert forall|i: int, j: int|
            0 <= i && j == i + 1 && j < head.len() && #[trigger] head[i] == ' ' implies
            #[trigger] head[j] != ' ' by {
            assert(head[i] == s[i] && head[j] == s[j]);
        }
        assert(single_spaced(head));
        lemma_collapse_nothing(head);
        assert(s[s.len() - 1] == s.last());
        if s.len() > 1 && text::is_white_space(s.last()) && text::is_white_space(s[s.len() - 2]) {
            assert(s[s.len() - 2] == ' ');
            assert(s[s.len() - 1] != ' ');
        }
        assert(head.push(s.last()) =~= s);
    }
}

/// What an archive is named by where something has to go: illegal characters are dropped, then runs
/// of white space become one space, then spaces and points at the ends go; of what is left the first
/// 140 characters stay, and where nothing is left it is `manga`.
pub proof fn law_untidy_name_of_an_archive(title: Seq<char>, number: Seq<char>, width: nat)
    ensures
        ({
            let name = title + " - Chapter "@ + padded_number(number, width);
            let tidy = text::trim_of(
                text::spaces_collapsed(text::without(name, CharClass::FileNameIllegal)),
                CharClass::SpaceOrDot,
            );
            let file = chapter_file(title, number, width);
            &&& tidy.len() == 0 ==> file == "manga"@ + ".cbz"@
            &&& 0 < tidy.len() <= 140 ==> file == tidy + ".cbz"@
            &&& tidy.len() > 140 ==> file == tidy.take(140) + ".cbz"@
        }),
{
    reveal_strlit("manga");
}

/// The folder of a manga is named by its title, without the nine characters that folder names may
/// not hold and without the white space at the ends; where nothing is left it is `manga`.
pub proof fn law_name_of_a_folder(title: Seq<char>)
    ensures
        ({
            let left = text::trim_of(
                text::without(title, CharClass::FolderIllegal),
                CharClass::WhiteSpace,
            );
            &&& left.len() > 0 ==> folder_of(title) == left
            &&& left.len() == 0 ==> folder_of(title) == "manga"@
        }),
        title.len() > 0 && !text::is_white_space(title[0]) && !text::is_white_space(title.last()) && (
        forall|i: int| 0 <= i < title.len() ==> !CharClass::FolderIllegal.has(#[trigger] title[i]))
            ==> folder_of(title) == title,
{
    if title.len() > 0 && !text::is_white_space(title[0]) && !text::is_white_space(title.last()) && (
    forall|i: int| 0 <= i < title.len() ==> !CharClass::FolderIllegal.has(#[trigger] title[i])) {
        lemma_without_nothing(title, CharClass::FolderIllegal);
        let none = Seq::<char>::empty();
        text::law_trimming_leaves(none, title, none, CharClass::WhiteSpace);
        assert(none + title + none =~= title);
    }
}

/// A chapter is searched for under its names with one to six digits, in this order, and its archive
/// is renamed from its names with three digits or more, up to the one it is to have.
pub proof fn law_names_that_are_looked_for(title: Seq<char>, number: Seq<char>, width: int, i: int)
    ensures
        candidates(title, number).len() == 6,
        0 <= i < 6 ==> candidates(title, number)[i] == chapter_file(title, number, (i + 1) as nat),
        width <= 3 ==> narrower_names(title, number, width).len() == 0,
        width > 3 ==> narrower_names(title, number, width).len() == width - 3,
        0 <= i < width - 3 ==> narrower_names(title, number, width)[i] == chapter_file(
            title,
            number,
            (i + 3) as nat,
        ),
{
}

/// The largest of a list of numbers is one of the list, and none of the list exceeds it; the last
/// one of those with that value is taken. An empty list has the largest number zero.
pub proof fn law_largest_number(chapters: Seq<ChapterView>, i: int)
    requires
        models::numbered(chapters),
        0 <= i < chapters.len(),
    ensures
        chapters[i].number.value() <= largest(chapters).value(),
        exists|k: int| 0 <= k < chapters.len() && largest(chapters) == #[trigger] chapters[k].number,
{
    lemma_largest(chapters, i);
    lemma_largest_is_there(chapters);
}

proof fn lemma_largest_is_there(chapters: Seq<ChapterView>)
    requires
        chapters.len() > 0,
    ensures
        exists|k: int| 0 <= k < chapters.len() && largest(chapters) == #[trigger] chapters[k].number,
    decreases chapters.len(),
{
    if chapters.len() == 1 {
        assert(largest(chapters) == chapters[0].number);
    } else {
        lemma_largest_is_there(chapters.drop_last());
        let k = choose|k: int|
            0 <= k < chapters.drop_last().len() && largest(chapters.drop_last())
                == #[trigger] chapters.drop_last()[k].number;
        assert(chapters[k].number == chapters.drop_last()[k].number);
        assert(chapters.last().number == chapters[chapters.len() - 1].number);
    }
}

/// The padding is no wider than it has to be: it is three, or as many characters as the whole part
/// of some chapter number has.
pub proof fn law_padding_is_tight(chapters: Seq<ChapterView>)
    ensures
        chapters.len() == 0 ==> width_of(chapters) == 3,
        width_of(chapters) >= 3,
        width_of(chapters) > 3 ==> exists|k: int|
            0 <= k < chapters.len() && width_of(chapters) == decimal::decimal_text(
                decimal::whole_part(
                    (#[trigger] chapters[k]).number.mantissa as int,
                    chapters[k].number.scale as int,
                ),
                0,
            ).len(),
{
    if chapters.len() > 0 {
        lemma_largest_is_there(chapters);
        let k = choose|k: int|
            0 <= k < chapters.len() && largest(chapters) == #[trigger] chapters[k].number;
        assert(largest(chapters) == chapters[k].number);
    } else {
        assert(decimal::pow10(0) == 1);
        assert(decimal::whole_part(0, 0) == 0);
        assert(decimal::decimal_text(0, 0) =~= seq![text::digit_char(0)]);
    }
}

/// The chapters that are there are those whose archive exists, and those that are missing the
/// others, each in order and as it is. Their positions are given back.
pub proof fn law_presence(chapters: Seq<ChapterView>, present: Seq<bool>, wanted: bool) -> (at: Seq<
    int,
>)
    requires
        chapters.len() == present.len(),
    ensures
        at.len() == with_presence(chapters, present, wanted).len(),
        forall|i: int, j: int| 0 <= i < j < at.len() ==> #[trigger] at[i] < #[trigger] at[j],
        forall|j: int|
            0 <= j < at.len() ==> 0 <= #[trigger] at[j] < chapters.len() && present[at[j]] == wanted
                && with_presence(chapters, present, wanted)[j] == chapters[at[j]],
        forall|k: int|
            0 <= k < chapters.len() && present[k] == wanted ==> #[trigger] at.contains(k),
    decreases chapters.len(),
{
    if chapters.len() == 0 {
        Seq::empty()
    } else {
        let n = chapters.len() - 1;
        let before = law_presence(chapters.drop_last(), present.drop_last(), wanted);
        let at = if present.last() == wanted {
            before.push(n)
        } else {
            before
        };
        assert forall|k: int|
            0 <= k < chapters.len() && present[k] == wanted implies #[trigger] at.contains(k) by {
            if k < n {
                assert(present.drop_last()[k] == present[k]);
                assert(before.contains(k));
                let j = choose|j: int| 0 <= j < before.len() && before[j] == k;
                assert(at[j] == k);
            } else {
                assert(at[before.len() as int] == k);
            }
        }
        at
    }
}

/// A file name stands for the type of its ending, in whatever letter case; a name without a known
/// ending stands for JPEG.
pub proof fn law_types_of_names(name: Seq<char>)
    ensures
        ({
            let lower = text::lowered(name);
            let mime = mime_type_of(name);
            &&& ".png"@.is_suffix_of(lower) <==> mime == "image/png"@
            &&& ".webp"@.is_suffix_of(lower) <==> mime == "image/webp"@
            &&& ".avif"@.is_suffix_of(lower) <==> mime == "image/avif"@
            &&& ".gif"@.is_suffix_of(lower) <==> mime == "image/gif"@
            &&& mime == "image/png"@ || mime == "image/webp"@ || mime == "image/avif"@ || mime
                == "image/gif"@ || mime == "image/jpeg"@
        }),
{
    reveal_strlit(".png");
    reveal_strlit(".webp");
    reveal_strlit(".avif");
    reveal_strlit(".gif");
    reveal_strlit("image/png");
    reveal_strlit("image/webp");
    reveal_strlit("image/avif");
    reveal_strlit("image/gif");
    reveal_strlit("image/jpeg");
    let lower = text::lowered(name);
    let n = lower.len() as int;
    assert("image/png"@[6] == 'p' && "image/webp"@[6] == 'w' && "image/avif"@[6] == 'a'
        && "image/gif"@[6] == 'g' && "image/jpeg"@[6] == 'j');
    if ".png"@.is_suffix_of(lower) {
        assert(lower.subrange(n - 4, n)[3] == lower[n - 1]);
        assert(lower.subrange(n - 4, n)[1] == lower[n - 3]);
    }
    if ".webp"@.is_suffix_of(lower) {
        assert(lower.subrange(n - 5, n)[4] == lower[n - 1]);
    }
    if ".avif"@.is_suffix_of(lower) {
        assert(lower.subrange(n - 5, n)[4] == lower[n - 1]);
        assert(lower.subrange(n - 5, n)[2] == lower[n - 3]);
    }
    if ".gif"@.is_suffix_of(lower) {
        assert(lower.subrange(n - 4, n)[3] == lower[n - 1]);
        assert(lower.subrange(n - 4, n)[1] == lower[n - 3]);
    }
    if ".png"@.is_suffix_of(lower) && ".webp"@.is_suffix_of(lower) {
        assert(lower.subrange(n - 4, n)[3] == 'g');
        assert(lower.subrange(n - 5, n)[4] == 'p');
    }
}

/// How an image is recognised by its first bytes: the marks of JPEG, PNG, GIF, WebP and AVIF.
pub proof fn law_image_signatures(data: Seq<u8>)
    ensures
        data.len() >= 3 && data.take(3) == seq![255u8, 216, 255] ==> extension_of_data(data) == Some(
            ".jpg"@,
        ),
        data.len() >= 8 && data.take(8) == seq![137u8, 80, 78, 71, 13, 10, 26, 10]
            ==> extension_of_data(data) == Some(".png"@),
        data.len() >= 6 && (data.take(6) == seq![71u8, 73, 70, 56, 55, 97] || data.take(6) == seq![
            71u8,
            73,
            70,
            56,
            57,
            97,
        ]) ==> extension_of_data(data) == Some(".gif"@),
        data.len() >= 4 && data.take(4) == seq![82u8, 73, 70, 70] ==> extension_of_data(data)
            == Some(".webp"@),
        data.len() >= 12 && data[0] == 0 && (data.subrange(4, 12) == seq![
            102u8,
            116,
            121,
            112,
            97,
            118,
            105,
            102,
        ] || data.subrange(4, 12) == seq![102u8, 116, 121, 112, 97, 118, 105, 115])
            ==> extension_of_data(data) == Some(".avif"@),
        data.len() < 3 ==> extension_of_data(data) is None,
{
    let jpeg = seq![255u8, 216, 255];
    let png = seq![137u8, 80, 78, 71, 13, 10, 26, 10];
    let gif87 = seq![71u8, 73, 70, 56, 55, 97];
    let gif89 = seq![71u8, 73, 70, 56, 57, 97];
    let riff = seq![82u8, 73, 70, 70];
    let avif = seq![102u8, 116, 121, 112, 97, 118, 105, 102];
    let avis = seq![102u8, 116, 121, 112, 97, 118, 105, 115];
    lemma_bytes_at(data, 0, jpeg);
    lemma_bytes_at(data, 0, png);
    lemma_bytes_at(data, 0, gif87);
    lemma_bytes_at(data, 0, gif89);
    lemma_bytes_at(data, 0, riff);
    lemma_bytes_at(data, 4, avif);
    lemma_bytes_at(data, 4, avis);
    assert(data.len() >= 3 ==> data.subrange(0, 3) =~= data.take(3));
    assert(data.len() >= 8 ==> data.subrange(0, 8) =~= data.take(8));
    assert(data.len() >= 6 ==> data.subrange(0, 6) =~= data.take(6));
    assert(data.len() >= 4 ==> data.subrange(0, 4) =~= data.take(4));
}

/// Bytes stand at a position exactly where the data is cut out to them there.
pub proof fn lemma_bytes_at(data: Seq<u8>, at: int, bytes: Seq<u8>)
    requires
        0 <= at,
        bytes.len() > 0,
    ensures
        bytes_at(data, at, bytes) <==> at + bytes.len() <= data.len() && data.subrange(
            at,
            at + bytes.len(),
        ) == bytes,
        bytes_at(data, at, bytes) ==> data[at] == bytes[0],
{
    if bytes_at(data, at, bytes) {
        assert(data[at + 0] == bytes[0]);
        assert(data.subrange(at, at + bytes.len()) =~= bytes);
    }
    if at + bytes.len() <= data.len() && data.subrange(at, at + bytes.len()) == bytes {
        assert forall|i: int| 0 <= i < bytes.len() implies data[at + i] == #[trigger] bytes[i] by {
            assert(data.subrange(at, at + bytes.len())[i] == data[at + i]);
        }
    }
}

/// The declared type of an image decides its extension; where it is not known, the first bytes do;
/// where these are not, the ending of the address does, and JPEG is what is left.
pub proof fn law_what_decides_an_extension(declared: Seq<char>, data: Seq<u8>, path: Seq<char>)
    ensures
        declared == "image/jpeg"@ ==> extension_of(declared, data, path) == ".jpg"@,
        declared == "image/png"@ ==> extension_of(declared, data, path) == ".png"@,
        declared == "image/webp"@ ==> extension_of(declared, data, path) == ".webp"@,
        declared == "image/avif"@ ==> extension_of(declared, data, path) == ".avif"@,
        declared == "image/gif"@ ==> extension_of(declared, data, path) == ".gif"@,
        declared != "image/jpeg"@ && declared != "image/png"@ && declared != "image/webp"@
            && declared != "image/avif"@ && declared != "image/gif"@ ==> {
            &&& extension_of_data(data) matches Some(e) ==> extension_of(declared, data, path) == e
            &&& extension_of_data(data) is None ==> {
                let e = extension_of(declared, data, path);
                &&& ".jpg"@.is_suffix_of(path) || ".jpeg"@.is_suffix_of(path) ==> e == ".jpg"@
                &&& ".png"@.is_suffix_of(path) ==> e == ".png"@
                &&& ".webp"@.is_suffix_of(path) ==> e == ".webp"@
                &&& ".gif"@.is_suffix_of(path) ==> e == ".gif"@
                &&& !(".png"@.is_suffix_of(path) || ".webp"@.is_suffix_of(path)
                    || ".gif"@.is_suffix_of(path)) ==> e == ".jpg"@
            }
        },
{
    reveal_strlit("image/png");
    reveal_strlit("image/webp");
    reveal_strlit("image/avif");
    reveal_strlit("image/gif");
    reveal_strlit("image/jpeg");
    reveal_strlit(".jpg");
    reveal_strlit(".jpeg");
    reveal_strlit(".png");
    reveal_strlit(".webp");
    reveal_strlit(".gif");
    assert("image/png"@[6] == 'p' && "image/webp"@[6] == 'w' && "image/avif"@[6] == 'a'
        && "image/gif"@[6] == 'g' && "image/jpeg"@[6] == 'j');
    let n = path.len() as int;
    if ".jpg"@.is_suffix_of(path) {
        assert(path.subrange(n - 4, n)[3] == path[n - 1]);
        assert(path.subrange(n - 4, n)[2] == path[n - 2]);
    }
    if ".jpeg"@.is_suffix_of(path) {
        assert(path.subrange(n - 5, n)[4] == path[n - 1]);
        assert(path.subrange(n - 5, n)[3] == path[n - 2]);
    }
    if ".png"@.is_suffix_of(path) {
        assert(path.subrange(n - 4, n)[3] == path[n - 1]);
        assert(path.subrange(n - 4, n)[2] == path[n - 2]);
    }
    if ".webp"@.is_suffix_of(path) {
        assert(path.subrange(n - 5, n)[4] == path[n - 1]);
    }
    if ".gif"@.is_suffix_of(path) {
        assert(path.subrange(n - 4, n)[3] == path[n - 1]);
    }
}

/// The media type of a header is what stands before its first semicolon, without the white space at
/// the ends.
pub proof fn law_media_type(kind: Seq<char>, parameters: Seq<char>)
    requires
        !kind.contains(';'),
    ensures
        media_type(kind) == text::trimmed(kind),
        media_type(kind + ";"@ + parameters) == text::trimmed(kind),
    decreases parameters.len(),
{
    reveal_strlit(";");
    let none = Seq::<char>::empty();
    text::lemma_pieces_extend(none, kind, ';');
    assert(none + kind =~= kind);
    assert(text::pieces(none, ';') =~= seq![none]);
    assert(text::pieces(kind, ';') =~= seq![kind]);
    let all = kind + ";"@ + parameters;
    if parameters.len() == 0 {
        text::lemma_pieces_separator(kind, ';');
        assert(all =~= kind.push(';'));
    } else {
        let head = parameters.drop_last();
        law_media_type(kind, head);
        let shorter = kind + ";"@ + head;
        assert(all.drop_last() =~= shorter);
        lemma_later_pieces(kind, head);
    }
}

proof fn lemma_later_pieces(kind: Seq<char>, parameters: Seq<char>)
    requires
        !kind.contains(';'),
    ensures
        text::pieces(kind + ";"@ + parameters, ';').len() >= 2,
        text::pieces(kind + ";"@ + parameters, ';')[0] == kind,
    decreases parameters.len(),
{
    reveal_strlit(";");
    let none = Seq::<char>::empty();
    let all = kind + ";"@ + parameters;
    if parameters.len() == 0 {
        text::lemma_pieces_extend(none, kind, ';');
        assert(none + kind =~= kind);
        assert(text::pieces(none, ';') =~= seq![none]);
        text::lemma_pieces_separator(kind, ';');
        assert(all =~= kind.push(';'));
    } else {
        lemma_later_pieces(kind, parameters.drop_last());
        assert(all.drop_last() =~= kind + ";"@ + parameters.drop_last());
    }
}

/// What is cut ends with an ellipsis after exactly the characters that are allowed.
pub proof fn law_cut_text(s: Seq<char>, max: int)
    requires
        max >= 0,
    ensures
        s.len() > max ==> truncated(s, max) == s.take(max) + "..."@,
        s.len() <= max ==> truncated(s, max) == s,
{
}

/// Text without the three characters that mean something in XML is written as it is, and the text
/// of two parts is that of the first and that of the second.
pub proof fn law_plain_text_is_kept(a: Seq<char>, b: Seq<char>)
    ensures
        escaped(a + b) == escaped(a) + escaped(b),
        escaped(seq!['&']) == "&amp;"@,
        escaped(seq!['<']) == "&lt;"@,
        escaped(seq!['>']) == "&gt;"@,
        (forall|i: int| 0 <= i < b.len() ==> #[trigger] b[i] != '&' && b[i] != '<' && b[i] != '>')
            ==> escaped(b) == b,
    decreases b.len(),
{
    reveal_with_fuel(escaped, 2);
    assert(seq!['&'].drop_last() =~= Seq::empty());
    assert(seq!['<'].drop_last() =~= Seq::empty());
    assert(seq!['>'].drop_last() =~= Seq::empty());
    assert(escaped(seq!['&']) =~= "&amp;"@);
    assert(escaped(seq!['<']) =~= "&lt;"@);
    assert(escaped(seq!['>']) =~= "&gt;"@);
    if b.len() == 0 {
        assert(a + b =~= a);
        assert(escaped(a) + escaped(b) =~= escaped(a));
    } else {
        let head = b.drop_last();
        law_plain_text_is_kept(a, head);
        assert((a + b).drop_last() =~= a + head);
        assert((a + b).last() == b.last());
        assert(escaped(a + b) =~= escaped(a) + escaped(b));
        if forall|i: int|
            0 <= i < b.len() ==> #[trigger] b[i] != '&' && b[i] != '<' && b[i] != '>' {
            assert forall|i: int| 0 <= i < head.len() implies #[trigger] head[i] != '&' && head[i]
                != '<' && head[i] != '>' by {
                assert(head[i] == b[i]);
            }
            assert(b[b.len() - 1] == b.last());
            assert(head + seq![b.last()] =~= b);
        }
    }
}

/// Of several names under which a chapter may have been stored, the first that exists is taken.
pub proof fn law_first_name_is_taken(missing: Seq<bool>, rest: Seq<bool>)
    requires
        forall|i: int| 0 <= i < missing.len() ==> !#[trigger] missing[i],
    ensures
        first_true(missing.push(true) + rest) == Some(missing.len() as int),
        first_true(missing) is None,
{
    let flags = missing.push(true) + rest;
    let n = missing.len() as int;
    lemma_first_true(missing);
    lemma_first_true(flags);
    assert(flags[n]);
    if let Some(k) = first_true(flags) {
        if k < n {
            assert(flags[k] == missing[k]);
        }
    }
}

} // verus!
