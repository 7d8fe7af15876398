//! The facts about a file that every surface shows, and what a file's media cell
//! draws: a thumbnail, a still, an audio glyph, a text head, a page, the bytes, or
//! a typed placeholder.

use vstd::prelude::*;
use vstd::string::*;

use crate::text::{begins, dec, decimal, lowercase, push_decimal, starts_with, to_lowercase, zero_pad};
use crate::theme::Ink;

verus! {

/// Evenly spaced stills sampled per video: the filmstrip's cells, and the grid
/// that the preview samples from, so that the still is reused.
pub const VIDEO_STRIP: usize = 10;

/// A number below 100 with two digits.
pub open spec fn two_digits(n: nat) -> Seq<char> {
    zero_pad(dec(n), 2)
}

/// A duration in milliseconds as `h:mm:ss`, or `m:ss` under an hour.
pub open spec fn clock_text(ms: nat) -> Seq<char> {
    let secs = ms / 1000;
    let h = secs / 3600;
    let m = (secs % 3600) / 60;
    let s = secs % 60;
    if h > 0 {
        dec(h) + ":"@ + two_digits(m) + ":"@ + two_digits(s)
    } else {
        dec(m) + ":"@ + two_digits(s)
    }
}

fn push_two(s: &mut String, n: u64)
    requires
        n < 100,
    ensures
        final(s)@ == old(s)@ + two_digits(n as nat),
{
    let ghost start = s@;
    if n < 10 {
        s.append("0");
        push_decimal(s, n as u128);
        proof {
            reveal_strlit("0");
            assert(dec(n as nat).len() == 1);
            assert(s@ =~= start + two_digits(n as nat));
        }
    } else {
        push_decimal(s, n as u128);
        assert(dec((n / 10) as nat).len() == 1);
        assert(s@ =~= start + two_digits(n as nat));
    }
}

/// Formats a duration in milliseconds as `h:mm:ss`, or `m:ss` under an hour.
pub fn fmt_ms(ms: u64) -> (r: String)
    ensures
        r@ == clock_text(ms as nat),
{
    let secs: u64 = ms / 1000;
    let h: u64 = secs / 3600;
    let m: u64 = (secs % 3600) / 60;
    let s: u64 = secs % 60;
    let mut out = String::new();
    if h > 0 {
        push_decimal(&mut out, h as u128);
        out.append(":");
        push_two(&mut out, m);
    } else {
        push_decimal(&mut out, m as u128);
    }
    out.append(":");
    push_two(&mut out, s);
    assert(out@ =~= clock_text(ms as nat));
    out
}

/// Capture metadata of an image.
#[derive(Debug, PartialEq, Eq)]
pub struct ExifInfo {
    /// Capture time, naive-local milliseconds since the epoch.
    pub taken_ms: Option<i64>,
    pub camera: Option<String>,
}

/// The audio fingerprint of an index entry.
#[derive(Debug, PartialEq, Eq)]
pub struct AudioPrint {
    pub duration_ms: u32,
    pub chunk_hashes: Vec<[u8; 32]>,
}

/// What the deduplication core says of a file's kind.
#[derive(Clone, Copy, Debug, PartialEq, Eq)]
pub struct Kinds {
    /// Its MIME type is an audio type.
    pub audio: bool,
    /// Its words can be extracted (PDF, office, mail).
    pub document: bool,
    /// LibreOffice can turn it into pages.
    pub office: bool,
    /// It is a browsable container.
    pub archive: bool,
    /// It carries tags that can be written.
    pub tagged: bool,
}

/// What the index knows of one file.
#[derive(Debug, PartialEq, Eq)]
pub struct FileEntry {
    pub size: u64,
    pub modified_ms: i64,
    pub missing: bool,
    pub mime: Option<String>,
    pub img_size: Option<(u32, u32)>,
    pub audio: Option<AudioPrint>,
    pub hash_hex: String,
    pub origin: Option<String>,
    pub exif: Option<ExifInfo>,
}

/// Where a file is: its path, and the last part of it with that part's extension.
#[derive(Debug, PartialEq, Eq)]
pub struct FilePlace {
    pub abs_path: String,
    pub file_name: String,
    pub extension: Option<String>,
}

/// The display facts about one file.
#[derive(Debug, PartialEq, Eq)]
pub struct FileFacts {
    pub size: u64,
    pub modified_ms: i64,
    /// The index says this file's path no longer holds it.
    pub missing: bool,
    pub mime: Option<String>,
    pub img_size: Option<(u32, u32)>,
    pub audio_ms: Option<u32>,
    /// First audio chunk hash, the seed of the glyph.
    pub audio_seed: Option<[u8; 32]>,
    /// Content hash as hex, the thumbnail cache key.
    pub hash_hex: String,
    pub place: FilePlace,
    pub origin: Option<String>,
    pub exif: Option<ExifInfo>,
    pub kinds: Kinds,
}

/// The MIME type begins with this.
pub open spec fn mime_begins(mime: Option<String>, word: Seq<char>) -> bool {
    mime matches Some(m) && begins(m@, word)
}

fn mime_starts(mime: &Option<String>, word: &str) -> (r: bool)
    ensures
        r == mime_begins(*mime, word@),
{
    match mime {
        Some(m) => starts_with(m.as_str(), word),
        None => false,
    }
}

impl FileFacts {
    /// The display facts of an index entry whose file is at `place`.
    pub fn from_entry(entry: FileEntry, place: FilePlace, kinds: Kinds) -> (r: Self)
        ensures
            r.size == entry.size,
            r.modified_ms == entry.modified_ms,
            r.missing == entry.missing,
            r.mime == entry.mime,
            r.img_size == entry.img_size,
            r.audio_ms == (match entry.audio {
                Some(a) => Some(a.duration_ms),
                None => None,
            }),
            r.audio_seed == (match entry.audio {
                Some(a) => if a.chunk_hashes@.len() > 0 {
                    Some(a.chunk_hashes@[0])
                } else {
                    None
                },
                None => None,
            }),
            r.hash_hex == entry.hash_hex,
            r.place == place,
            r.origin == entry.origin,
            r.exif == entry.exif,
            r.kinds == kinds,
    {
        let audio_ms = match &entry.audio {
            Some(a) => Some(a.duration_ms),
            None => None,
        };
        let audio_seed = match &entry.audio {
            Some(a) => if a.chunk_hashes.len() > 0 {
                Some(a.chunk_hashes[0])
            } else {
                None
            },
            None => None,
        };
        FileFacts {
            size: entry.size,
            modified_ms: entry.modified_ms,
            missing: entry.missing,
            mime: entry.mime,
            img_size: entry.img_size,
            audio_ms,
            audio_seed,
            hash_hex: entry.hash_hex,
            place,
            origin: entry.origin,
            exif: entry.exif,
            kinds,
        }
    }

    /// Whether the file is an image.
    pub fn is_image(&self) -> (r: bool)
        ensures
            r == mime_begins(self.mime, "image/"@),
    {
        mime_starts(&self.mime, "image/")
    }

    /// Whether the file is a video.
    pub fn is_video(&self) -> (r: bool)
        ensures
            r == mime_begins(self.mime, "video/"@),
    {
        mime_starts(&self.mime, "video/")
    }

    /// Whether the file is audio.
    pub fn is_audio(&self) -> (r: bool)
        ensures
            r == (self.mime is Some && self.kinds.audio),
    {
        self.mime.is_some() && self.kinds.audio
    }

    /// Whether the file is plain readable text.
    pub fn is_textual(&self) -> (r: bool)
        ensures
            r == mime_begins(self.mime, "text/"@),
    {
        mime_starts(&self.mime, "text/")
    }

    /// Whether the file is a browsable container.
    pub fn is_archive(&self) -> (r: bool)
        ensures
            r == self.kinds.archive,
    {
        self.kinds.archive
    }

    /// Whether the file is a PDF document.
    pub fn is_pdf(&self) -> (r: bool)
        ensures
            r == (self.mime matches Some(m) && m@ == "application/pdf"@),
    {
        match &self.mime {
            Some(m) => crate::text::same_text(m.as_str(), "application/pdf"),
            None => false,
        }
    }

    /// Pixel dimensions for images, a duration for audio, else a dash.
    pub fn dims_or_duration(&self) -> (r: String)
        ensures
            r@ == self.extent_text(),
    {
        match self.img_size {
            Some((w, h)) => {
                let mut s = decimal(w as u128);
                s.append("×");
                push_decimal(&mut s, h as u128);
                s
            },
            None => match self.audio_ms {
                Some(ms) => fmt_ms(ms as u64),
                None => "—".to_string(),
            },
        }
    }

    /// Pixel dimensions for images, a duration for audio, else a dash.
    pub open spec fn extent_text(&self) -> Seq<char> {
        match self.img_size {
            Some((w, h)) => dec(w as nat) + "×"@ + dec(h as nat),
            None => match self.audio_ms {
                Some(ms) => clock_text(ms as nat),
                None => "—"@,
            },
        }
    }
}

/// A status veil painted over a cell's preview.
#[derive(Clone, Copy, Debug, PartialEq, Eq, Structural)]
pub enum CellOverlay {
    /// A plan will delete this file.
    WillDelete,
    /// The file is gone from disk.
    Missing,
    /// The receiving repository once held exactly this content and deleted it.
    WasDeleted,
    /// Content only on this side, or about to be added.
    New,
}

impl CellOverlay {
    /// The word across the cell.
    pub fn label(self) -> (r: &'static str)
        ensures
            r@ == match self {
                CellOverlay::WillDelete => "WILL DELETE"@,
                CellOverlay::Missing => "MISSING"@,
                CellOverlay::WasDeleted => "WAS DELETED"@,
                CellOverlay::New => "NEW"@,
            },
    {
        match self {
            CellOverlay::WillDelete => "WILL DELETE",
            CellOverlay::Missing => "MISSING",
            CellOverlay::WasDeleted => "WAS DELETED",
            CellOverlay::New => "NEW",
        }
    }

    /// The veil's colour.
    pub fn color(self) -> (r: Ink)
        ensures
            r == match self {
                CellOverlay::WillDelete => Ink::Red,
                CellOverlay::Missing => Ink::Amber,
                CellOverlay::WasDeleted => Ink::Blue,
                CellOverlay::New => Ink::Green,
            },
    {
        match self {
            CellOverlay::WillDelete => Ink::Red,
            CellOverlay::Missing => Ink::Amber,
            CellOverlay::WasDeleted => Ink::Blue,
            CellOverlay::New => Ink::Green,
        }
    }
}

/// Where a media cell gets its picture from.
#[derive(Clone, Copy, Debug, PartialEq, Eq, Structural)]
pub enum CellSource {
    /// The thumbnail of an image.
    Thumbnail,
    /// The still of a video in the middle of its strip.
    VideoStill,
    /// The glyph of an audio file; always there.
    AudioGlyph,
    /// The first lines of a text file.
    TextHead,
    /// The first page of a PDF document.
    PdfPage,
    /// The file's head bytes as a bitmap, with its extension across it.
    ByteView,
    /// A typed placeholder; always there.
    Placeholder,
}

/// The sources of a cell in the order in which they are asked; the first that has
/// a picture is drawn. Nothing that has to be fetched is asked for a cell that is
/// off screen.
pub open spec fn sources(f: FileFacts, on_screen: bool) -> Seq<CellSource> {
    let image = mime_begins(f.mime, "image/"@);
    let video = mime_begins(f.mime, "video/"@);
    let audio = f.mime is Some && f.kinds.audio;
    let textual = mime_begins(f.mime, "text/"@);
    let pdf = f.mime matches Some(m) && m@ == "application/pdf"@;
    let first = if (image || video) && on_screen {
        seq![
            if video {
                CellSource::VideoStill
            } else {
                CellSource::Thumbnail
            },
        ]
    } else {
        Seq::empty()
    };
    if audio && f.audio_ms is Some {
        first + seq![CellSource::AudioGlyph]
    } else {
        first + (if textual && on_screen {
            seq![CellSource::TextHead]
        } else {
            Seq::empty()
        }) + (if pdf && on_screen {
            seq![CellSource::PdfPage]
        } else {
            Seq::empty()
        }) + (if !image && !video && !audio && !textual && on_screen {
            seq![CellSource::ByteView]
        } else {
            Seq::empty()
        }) + seq![CellSource::Placeholder]
    }
}

/// The sources of a cell in the order in which they are asked.
pub fn media_cell(facts: &FileFacts, on_screen: bool) -> (r: Vec<CellSource>)
    ensures
        r@ == sources(*facts, on_screen),
{
    let mut out: Vec<CellSource> = Vec::new();
    let image = facts.is_image();
    let video = facts.is_video();
    let audio = facts.is_audio();
    let textual = facts.is_textual();
    if (image || video) && on_screen {
        out.push(
            if video {
                CellSource::VideoStill
            } else {
                CellSource::Thumbnail
            },
        );
    }
    if audio && facts.audio_ms.is_some() {
        out.push(CellSource::AudioGlyph);
        assert(out@ =~= sources(*facts, on_screen));
        return out;
    }
    if textual && on_screen {
        out.push(CellSource::TextHead);
    }
    if facts.is_pdf() && on_screen {
        out.push(CellSource::PdfPage);
    }
    if !image && !video && !audio && !textual && on_screen {
        out.push(CellSource::ByteView);
    }
    out.push(CellSource::Placeholder);
    assert(out@ =~= sources(*facts, on_screen));
    out
}

/// A cell is never left blank: its last source is one that is always there.
pub proof fn law_a_cell_always_shows_something(f: FileFacts, on_screen: bool)
    ensures
        sources(f, on_screen).len() > 0,
        sources(f, on_screen).last() == CellSource::AudioGlyph || sources(f, on_screen).last()
            == CellSource::Placeholder,
{
}

/// The veil over a cell: a missing file veils itself, otherwise the caller's
/// status wins.
pub fn cell_overlay(missing: bool, style: Option<CellOverlay>) -> (r: Option<CellOverlay>)
    ensures
        r == if missing {
            Some(CellOverlay::Missing)
        } else {
            style
        },
{
    if missing {
        Some(CellOverlay::Missing)
    } else {
        style
    }
}

/// The text on a placeholder: the MIME type, or "file".
pub fn placeholder_label(mime: &Option<String>) -> (r: String)
    ensures
        r@ == match *mime {
            Some(m) => m@,
            None => "file"@,
        },
{
    match mime {
        Some(m) => m.clone(),
        None => "file".to_string(),
    }
}

/// The extension shown over a byte view.
pub open spec fn badge(extension: Option<String>) -> Seq<char> {
    match extension {
        Some(e) => "."@ + lowercase(e@),
        None => "?"@,
    }
}

/// The extension shown over a byte view, and the hue it is drawn in: the same
/// extension has the same hue everywhere.
pub fn extension_badge(extension: &Option<String>) -> (r: (String, u32))
    ensures
        r.0@ == badge(*extension),
        r.1 == crate::theme::hue_of(badge(*extension)),
        r.1 < 360,
{
    let text = match extension {
        Some(e) => {
            let mut s = ".".to_string();
            s.append(to_lowercase(e.as_str()).as_str());
            s
        },
        None => "?".to_string(),
    };
    let hue = crate::theme::name_hash(text.as_str()) % 360;
    (text, hue)
}

/// The bars of an audio glyph: how many, and which hash byte each takes.
pub const GLYPH_BARS: usize = 15;

/// The accent of an audio glyph, one of five by the first hash byte.
pub fn glyph_accent(seed: &[u8; 32]) -> (r: Ink)
    ensures
        r == match seed@[0] % 5 {
            0 => Ink::Amber,
            1 => Ink::Tan,
            2 => Ink::Lilac,
            3 => Ink::Blue,
            _ => Ink::Orange,
        },
{
    let first: u8 = seed[0] % 5;
    match first {
        0 => Ink::Amber,
        1 => Ink::Tan,
        2 => Ink::Lilac,
        3 => Ink::Blue,
        _ => Ink::Orange,
    }
}

/// A duration is written in hours, minutes and seconds: the hours only where there are
/// any, and what follows the first number in two digits.
pub proof fn law_a_duration_is_written_out(h: nat, m: nat, s: nat, rest: nat)
    requires
        m < 60,
        s < 60,
        rest < 1000,
    ensures
        ({
            let ms = 1000 * (3600 * h + 60 * m + s) + rest;
            &&& h > 0 ==> clock_text(ms) == dec(h) + ":"@ + two_digits(m) + ":"@ + two_digits(s)
            &&& h == 0 ==> clock_text(ms) == dec(m) + ":"@ + two_digits(s)
        }),
        two_digits(s).len() == 2,
        s < 10 ==> two_digits(s) == seq!['0', crate::text::digit(s as int)],
        s >= 10 ==> two_digits(s) == seq![
            crate::text::digit(s as int / 10),
            crate::text::digit(s as int % 10),
        ],
{
    lemma_parts_of_a_duration(h, m, s, rest);
    if s < 10 {
        assert(dec(s) == seq![crate::text::digit(s as int)]);
        assert(two_digits(s) =~= seq!['0', crate::text::digit(s as int)]);
    } else {
        assert(dec(s / 10) == seq![crate::text::digit(s as int / 10)]);
        assert(two_digits(s) =~= seq![
            crate::text::digit(s as int / 10),
            crate::text::digit(s as int % 10),
        ]);
    }
}

/// The extent of a file is its picture's size, else its duration, else a dash.
pub proof fn law_an_extent_is_a_size_or_a_duration(f: FileFacts)
    ensures
        f.img_size matches Some((w, h)) ==> f.extent_text() == dec(w as nat) + "×"@ + dec(h as nat),
        f.img_size is None ==> (f.audio_ms matches Some(ms) ==> f.extent_text() == clock_text(
            ms as nat,
        )),
        f.img_size is None && f.audio_ms is None ==> f.extent_text() == "—"@,
{
}

/// What is drawn of each sort of file: an image its thumbnail, a video a still, a text
/// its head, a PDF its page, anything else its bytes, all with a placeholder behind;
/// a sound of known length its glyph. Off screen nothing is fetched.
pub proof fn law_each_sort_of_file_has_its_picture(f: FileFacts)
    ensures
        ({
            let image = mime_begins(f.mime, "image/"@);
            let video = mime_begins(f.mime, "video/"@);
            let text = mime_begins(f.mime, "text/"@);
            let sound = f.mime is Some && f.kinds.audio;
            let pdf = f.mime matches Some(m) && m@ == "application/pdf"@;
            let here = sources(f, true);
            &&& image && !video && !sound && !text && !pdf ==> here == seq![
                CellSource::Thumbnail,
                CellSource::Placeholder,
            ]
            &&& video && !sound && !text && !pdf ==> here == seq![
                CellSource::VideoStill,
                CellSource::Placeholder,
            ]
            &&& sound && f.audio_ms is Some && !image && !video ==> here == seq![
                CellSource::AudioGlyph,
            ]
            &&& sound && f.audio_ms is None && !image && !video && !text && !pdf ==> here == seq![
                CellSource::Placeholder,
            ]
            &&& text && !image && !video && !sound && !pdf ==> here == seq![
                CellSource::TextHead,
                CellSource::Placeholder,
            ]
            &&& pdf && !image && !video && !sound && !text ==> here == seq![
                CellSource::PdfPage,
                CellSource::ByteView,
                CellSource::Placeholder,
            ]
            &&& !pdf && !image && !video && !sound && !text ==> here == seq![
                CellSource::ByteView,
                CellSource::Placeholder,
            ]
            &&& sound && f.audio_ms is Some ==> sources(f, false) == seq![CellSource::AudioGlyph]
            &&& !(sound && f.audio_ms is Some) ==> sources(f, false) == seq![
                CellSource::Placeholder,
            ]
        }),
{
    let here = sources(f, true);
    let away = sources(f, false);
    let image = mime_begins(f.mime, "image/"@);
    let video = mime_begins(f.mime, "video/"@);
    let text = mime_begins(f.mime, "text/"@);
    let sound = f.mime is Some && f.kinds.audio;
    let pdf = f.mime matches Some(m) && m@ == "application/pdf"@;
    if sound && f.audio_ms is Some {
        assert(away =~= seq![CellSource::AudioGlyph]);
        if !image && !video {
            assert(here =~= seq![CellSource::AudioGlyph]);
        }
    } else {
        assert(away =~= seq![CellSource::Placeholder]);
    }
}

/// The badge is a dot and the extension in lower case, and a question mark where there
/// is no extension.
pub proof fn law_a_badge_is_the_extension(ext: String)
    ensures
        badge(Some(ext)) == "."@ + lowercase(ext@),
        badge(None) == "?"@,
{
}

proof fn lemma_parts_of_a_duration(h: nat, m: nat, s: nat, rest: nat)
    requires
        m < 60,
        s < 60,
        rest < 1000,
    ensures
        ({
            let secs = 3600 * h + 60 * m + s;
            &&& (1000 * secs + rest) / 1000 == secs
            &&& secs / 3600 == h
            &&& (secs % 3600) / 60 == m
            &&& secs % 60 == s
        }),
{
    let secs = 3600 * h + 60 * m + s;
    assert(secs / 3600 == h && secs % 3600 == 60 * m + s);
    assert(secs % 60 == s) by {
        assert(secs == 60 * (60 * h + m) + s);
    }
}

} // verus!
