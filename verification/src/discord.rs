//! Notifications about downloads, as messages to a Discord webhook.
use crate::text;
use crate::utils;
use vstd::prelude::*;

verus! {

/// The body of a message.
pub struct WebhookPayload<'a> {
    pub embeds: Vec<Embed<'a>>,
}

/// A card in a message.
pub struct Embed<'a> {
    pub author: Author<'a>,
    pub title: &'a str,
    pub url: Option<&'a str>,
    pub description: Option<String>,
    pub color: u32,
    pub fields: Vec<Field<'a>>,
}

/// Who a card is from.
pub struct Author<'a> {
    pub name: &'a str,
    pub icon_url: &'a str,
}

/// A named value on a card.
pub struct Field<'a> {
    pub name: &'a str,
    pub value: String,
    pub inline: bool,
}

/// What happened.
pub enum NotificationType<'a> {
    /// A download begins.
    Start {
        manga_title: &'a str,
        manga_url: &'a str,
        description: &'a str,
        total_chapters: usize,
        existing_chapters: usize,
        missing_chapters: usize,
    },
    /// A download has come to its end.
    Complete {
        manga_title: &'a str,
        manga_url: &'a str,
        total_chapters: usize,
        downloaded_now: usize,
        failed_now: usize,
        total_available: usize,
        first_error: Option<&'a str>,
    },
    /// A download could not be done.
    Error { manga_title: &'a str, manga_url: &'a str, error_msg: &'a str },
}

/// The contents of a [`Field`].
pub struct FieldView {
    pub name: Seq<char>,
    pub value: Seq<char>,
    pub inline: bool,
}

/// The contents of an [`Embed`].
pub struct EmbedView {
    pub author_name: Seq<char>,
    pub author_icon: Seq<char>,
    pub title: Seq<char>,
    pub url: Option<Seq<char>>,
    pub description: Option<Seq<char>>,
    pub color: u32,
    pub fields: Seq<FieldView>,
}

impl<'a> View for Field<'a> {
    type V = FieldView;

    open spec fn view(&self) -> FieldView {
        FieldView { name: self.name@, value: self.value@, inline: self.inline }
    }
}

/// The contents of a list of fields.
pub open spec fn field_views(v: Seq<Field>) -> Seq<FieldView> {
    Seq::new(v.len(), |i: int| v[i]@)
}

impl<'a> View for Embed<'a> {
    type V = EmbedView;

    open spec fn view(&self) -> EmbedView {
        EmbedView {
            author_name: self.author.name@,
            author_icon: self.author.icon_url@,
            title: self.title@,
            url: match self.url {
                Some(u) => Some(u@),
                None => None,
            },
            description: match self.description {
                Some(d) => Some(d@),
                None => None,
            },
            color: self.color,
            fields: field_views(self.fields@),
        }
    }
}

/// Blue: something begins.
pub const BLUE: u32 = 0x3498db;

/// Green: all went well.
pub const GREEN: u32 = 0x2ecc71;

/// Amber: some of it went well.
pub const AMBER: u32 = 0xf39c12;

/// Red: nothing went well.
pub const RED: u32 = 0xe74c3c;

/// The name that messages are from.
pub const AUTHOR_NAME: &'static str = "iFetch";

/// The picture that messages are from.
pub const AUTHOR_ICON: &'static str = "https://raw.githubusercontent.com/FelixSiegel/ifetch/refs/heads/main/assets/iFetch-logo.png";

/// The largest number of characters of an error message on a card.
pub const MAX_ERROR_CHARS: usize = 250;

/// A field that stands beside its neighbours.
pub open spec fn short_field(name: Seq<char>, value: Seq<char>) -> FieldView {
    FieldView { name, value, inline: true }
}

/// A number of chapters in words.
pub open spec fn chapter_count(n: nat) -> Seq<char> {
    text::digits(n) + " chapters"@
}

/// A card from this program.
pub open spec fn card(
    title: Seq<char>,
    url: Seq<char>,
    description: Option<Seq<char>>,
    color: u32,
    fields: Seq<FieldView>,
) -> EmbedView {
    EmbedView {
        author_name: AUTHOR_NAME@,
        author_icon: AUTHOR_ICON@,
        title,
        url: Some(url),
        description,
        color,
        fields,
    }
}

/// What the outcome of a download is called, and in which colour.
pub open spec fn verdict(downloaded: nat, failed: nat) -> (Seq<char>, u32) {
    if failed == 0 {
        ("Download Completed"@, GREEN)
    } else if downloaded > 0 {
        ("Partially Completed"@, AMBER)
    } else {
        ("Download Failed"@, RED)
    }
}

/// The fields of the card for a finished download.
pub open spec fn completion_fields(
    total: nat,
    downloaded: nat,
    failed: nat,
    available: nat,
    first_error: Option<Seq<char>>,
) -> Seq<FieldView> {
    let head = seq![
        short_field("Status"@, verdict(downloaded, failed).0),
        short_field("Downloaded Now"@, chapter_count(downloaded)),
    ];
    let failures = if failed > 0 {
        seq![short_field("Failed"@, chapter_count(failed))]
    } else {
        Seq::empty()
    };
    let progress = seq![
        short_field(
            "Progress"@,
            text::digits(available) + "/"@ + text::digits(total) + " available"@,
        ),
    ];
    let details = match first_error {
        Some(e) => seq![
            FieldView {
                name: "Error Details"@,
                value: utils::truncated(e, MAX_ERROR_CHARS as int),
                inline: false,
            },
        ],
        None => Seq::empty(),
    };
    head + failures + progress + details
}

/// The characters of an optional string slice.
pub open spec fn chars_in(s: Option<&str>) -> Option<Seq<char>> {
    match s {
        Some(s) => Some(s@),
        None => None,
    }
}

/// The card for a notification.
pub open spec fn card_for(n: NotificationType) -> EmbedView {
    match n {
        NotificationType::Start {
            manga_title,
            manga_url,
            description,
            total_chapters,
            existing_chapters,
            missing_chapters,
        } => card(
            manga_title@,
            manga_url@,
            Some(description@),
            BLUE,
            seq![
                short_field("Status"@, "Download Started"@),
                short_field("To Download"@, chapter_count(missing_chapters as nat)),
                short_field(
                    "Progress"@,
                    text::digits(existing_chapters as nat) + "/"@ + text::digits(
                        total_chapters as nat,
                    ) + " downloaded"@,
                ),
            ],
        ),
        NotificationType::Complete {
            manga_title,
            manga_url,
            total_chapters,
            downloaded_now,
            failed_now,
            total_available,
            first_error,
        } => card(
            manga_title@,
            manga_url@,
            None,
            verdict(downloaded_now as nat, failed_now as nat).1,
            completion_fields(
                total_chapters as nat,
                downloaded_now as nat,
                failed_now as nat,
                total_available as nat,
                chars_in(first_error),
            ),
        ),
        NotificationType::Error { manga_title, manga_url, error_msg } => card(
            manga_title@,
            manga_url@,
            Some(error_msg@),
            RED,
            seq![short_field("Status"@, "Failed to Fetch Manga"@)],
        ),
    }
}

fn field<'a>(name: &'a str, value: String) -> (f: Field<'a>)
    ensures
        f@ == short_field(name@, value@),
{
    Field { name, value, inline: true }
}

fn count_text(n: usize) -> (s: String)
    ensures
        s@ == chapter_count(n as nat),
{
    let d = text::decimal(n as u128);
    text::concat(d.as_str(), " chapters")
}

fn fraction_text(a: usize, b: usize, word: &str) -> (s: String)
    ensures
        s@ == text::digits(a as nat) + "/"@ + text::digits(b as nat) + word@,
{
    let mut s = text::decimal(a as u128);
    text::push_str(&mut s, "/");
    text::push_str(&mut s, text::decimal(b as u128).as_str());
    text::push_str(&mut s, word);
    s
}

fn make_card<'a>(
    title: &'a str,
    url: &'a str,
    description: Option<String>,
    color: u32,
    fields: Vec<Field<'a>>,
) -> (e: Embed<'a>)
    ensures
        e@ == card(
            title@,
            url@,
            match description {
                Some(d) => Some(d@),
                None => None,
            },
            color,
            field_views(fields@),
        ),
{
    Embed {
        author: Author { name: AUTHOR_NAME, icon_url: AUTHOR_ICON },
        title,
        url: Some(url),
        description,
        color,
        fields,
    }
}

fn make_completion_fields<'a>(
    total: usize,
    downloaded: usize,
    failed: usize,
    available: usize,
    first_error: Option<&'a str>,
) -> (fields: Vec<Field<'a>>)
    ensures
        field_views(fields@) == completion_fields(
            total as nat,
            downloaded as nat,
            failed as nat,
            available as nat,
            chars_in(first_error),
        ),
{
    let status = if failed == 0 {
        "Download Completed"
    } else if downloaded > 0 {
        "Partially Completed"
    } else {
        "Download Failed"
    };
    let mut fields: Vec<Field<'a>> = Vec::new();
    fields.push(field("Status", text::copy_str(status)));
    fields.push(field("Downloaded Now", count_text(downloaded)));
    if failed > 0 {
        fields.push(field("Failed", count_text(failed)));
    }
    fields.push(field("Progress", fraction_text(available, total, " available")));
    if let Some(e) = first_error {
        fields.push(
            Field {
                name: "Error Details",
                value: utils::truncate_str(e, MAX_ERROR_CHARS),
                inline: false,
            },
        );
    }
    assert(field_views(fields@) =~= completion_fields(
        total as nat,
        downloaded as nat,
        failed as nat,
        available as nat,
        chars_in(first_error),
    ));
    fields
}

/// The card for a notification.
pub fn make_embed<'a>(n: NotificationType<'a>) -> (e: Embed<'a>)
    ensures
        e@ == card_for(n),
{
    match n {
        NotificationType::Start {
            manga_title,
            manga_url,
            description,
            total_chapters,
            existing_chapters,
            missing_chapters,
        } => {
            let mut fields: Vec<Field<'a>> = Vec::new();
            fields.push(field("Status", text::copy_str("Download Started")));
            fields.push(field("To Download", count_text(missing_chapters)));
            fields.push(
                field(
                    "Progress",
                    fraction_text(existing_chapters, total_chapters, " downloaded"),
                ),
            );
            assert(field_views(fields@) =~= card_for(n).fields);
            make_card(manga_title, manga_url, Some(text::copy_str(description)), BLUE, fields)
        },
        NotificationType::Complete {
            manga_title,
            manga_url,
            total_chapters,
            downloaded_now,
            failed_now,
            total_available,
            first_error,
        } => {
            let color = if failed_now == 0 {
                GREEN
            } else if downloaded_now > 0 {
                AMBER
            } else {
                RED
            };
            let fields = make_completion_fields(
                total_chapters,
                downloaded_now,
                failed_now,
                total_available,
                first_error,
            );
            make_card(manga_title, manga_url, None, color, fields)
        },
        NotificationType::Error { manga_title, manga_url, error_msg } => {
            let mut fields: Vec<Field<'a>> = Vec::new();
            fields.push(field("Status", text::copy_str("Failed to Fetch Manga")));
            assert(field_views(fields@) =~= card_for(n).fields);
            make_card(manga_title, manga_url, Some(text::copy_str(error_msg)), RED, fields)
        },
    }
}

/// What to send where for a notification: one card, to the configured address. Without an address
/// nothing is sent.
pub fn send_webhook<'a>(
    webhook_url: Option<&'a str>,
    notify_type: NotificationType<'a>,
) -> (message: Option<(&'a str, WebhookPayload<'a>)>)
    ensures
        match message {
            Some((url, payload)) => {
                &&& webhook_url is Some
                &&& url@ == webhook_url->0@
                &&& payload.embeds@.len() == 1
                &&& payload.embeds@[0]@ == card_for(notify_type)
            },
            None => webhook_url is None,
        },
{
    match webhook_url {
        Some(url) => {
            let mut embeds: Vec<Embed<'a>> = Vec::new();
            embeds.push(make_embed(notify_type));
            Some((url, WebhookPayload { embeds }))
        },
        None => None,
    }
}

/// A finished download is shown in green exactly where no chapter failed, and in red exactly
/// where some failed and none was downloaded.
pub proof fn law_colour_tells_the_outcome(downloaded: nat, failed: nat)
    ensures
        verdict(downloaded, failed).1 == GREEN <==> failed == 0,
        verdict(downloaded, failed).1 == RED <==> failed > 0 && downloaded == 0,
        verdict(downloaded, failed).1 == AMBER <==> failed > 0 && downloaded > 0,
{
}

/// The card for a download that begins: title and address of the manga, its description, and how
/// many chapters are to be downloaded, and how many are there of how many.
pub proof fn law_start_card(n: NotificationType)
    requires
        n is Start,
    ensures
        n matches NotificationType::Start {
            manga_title,
            manga_url,
            description,
            total_chapters,
            existing_chapters,
            missing_chapters,
        } ==> {
            let c = card_for(n);
            &&& c.title == manga_title@ && c.url == Some(manga_url@) && c.description == Some(
                description@,
            )
            &&& c.color == 0x3498db
            &&& c.author_name == "iFetch"@
            &&& c.fields.len() == 3
            &&& c.fields[0].name == "Status"@ && c.fields[0].value == "Download Started"@
            &&& c.fields[1].name == "To Download"@ && c.fields[1].value == text::digits(
                missing_chapters as nat,
            ) + " chapters"@
            &&& c.fields[2].name == "Progress"@ && c.fields[2].value == text::digits(
                existing_chapters as nat,
            ) + "/"@ + text::digits(total_chapters as nat) + " downloaded"@
            &&& c.fields[0].inline && c.fields[1].inline && c.fields[2].inline
        },
{
}

/// The card for a download that has come to its end: title and address of the manga, how it went,
/// how many chapters were downloaded, how many failed where any did, how many are there of how many,
/// and the first error where there was one, cut to 250 characters.
pub proof fn law_completion_card(n: NotificationType)
    requires
        n is Complete,
    ensures
        n matches NotificationType::Complete {
            manga_title,
            manga_url,
            total_chapters,
            downloaded_now,
            failed_now,
            total_available,
            first_error,
        } ==> {
            let c = card_for(n);
            let f = c.fields;
            let p: int = if failed_now > 0 {
                3
            } else {
                2
            };
            &&& c.title == manga_title@ && c.url == Some(manga_url@) && c.description is None
            &&& c.author_name == "iFetch"@
            &&& failed_now == 0 ==> c.color == 0x2ecc71 && f[0].value == "Download Completed"@
            &&& failed_now > 0 && downloaded_now > 0 ==> c.color == 0xf39c12 && f[0].value
                == "Partially Completed"@
            &&& failed_now > 0 && downloaded_now == 0 ==> c.color == 0xe74c3c && f[0].value
                == "Download Failed"@
            &&& f.len() == p + 1 + if first_error is Some {
                1int
            } else {
                0int
            }
            &&& f[0].name == "Status"@
            &&& f[1].name == "Downloaded Now"@ && f[1].value == text::digits(downloaded_now as nat)
                + " chapters"@
            &&& failed_now > 0 ==> f[2].name == "Failed"@ && f[2].value == text::digits(
                failed_now as nat,
            ) + " chapters"@
            &&& f[p].name == "Progress"@ && f[p].value == text::digits(total_available as nat)
                + "/"@ + text::digits(total_chapters as nat) + " available"@
            &&& first_error matches Some(e) ==> f[p + 1].name == "Error Details"@ && !f[p
                + 1].inline && (e@.len() <= 250 ==> f[p + 1].value == e@) && (e@.len() > 250 ==> f[p
                + 1].value == e@.take(250) + "..."@)
            &&& forall|i: int| 0 <= i <= p ==> (#[trigger] f[i]).inline
        },
{
}

/// The card for a manga that could not be read: its title and address, and the error.
pub proof fn law_error_card(n: NotificationType)
    requires
        n is Error,
    ensures
        n matches NotificationType::Error { manga_title, manga_url, error_msg } ==> {
            let c = card_for(n);
            &&& c.title == manga_title@ && c.url == Some(manga_url@) && c.description == Some(
                error_msg@,
            )
            &&& c.color == 0xe74c3c
            &&& c.author_name == "iFetch"@
            &&& c.fields.len() == 1
            &&& c.fields[0].name == "Status"@ && c.fields[0].value == "Failed to Fetch Manga"@
            &&& c.fields[0].inline
        },
{
}

/// What a card holds is what its parts hold, and every card is from this program.
pub proof fn law_contents_of_cards(
    c: Embed,
    fields: Seq<Field>,
    s: &str,
    i: int,
    n: NotificationType,
)
    ensures
        c@.author_name == c.author.name@ && c@.author_icon == c.author.icon_url@,
        c@.title == c.title@ && c@.color == c.color,
        c@.url == chars_in(c.url),
        c.description matches Some(d) ==> c@.description == Some(d@),
        c.description is None ==> c@.description is None,
        c@.fields == field_views(c.fields@),
        chars_in(Some(s)) == Some(s@),
        chars_in(None) is None,
        field_views(fields).len() == fields.len(),
        0 <= i < fields.len() ==> field_views(fields)[i].name == fields[i].name@ && field_views(
            fields,
        )[i].value == fields[i].value@ && field_views(fields)[i].inline == fields[i].inline,
        card_for(n).author_name == "iFetch"@,
        card_for(n).author_icon
            == "https://raw.githubusercontent.com/FelixSiegel/ifetch/refs/heads/main/assets/iFetch-logo.png"@,
{
}

} // verus!
