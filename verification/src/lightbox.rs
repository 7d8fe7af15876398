//! The building blocks of the full-window viewer: which representations a file
//! offers, the tab list, what the metadata and text columns say, the mark pill,
//! and the previews of a file's head.

use vstd::prelude::*;
use vstd::string::*;
use vstd::utf8::*;

use crate::icon;
use crate::id3tags::Tags;
use crate::lists::{lemma_picks_last, lemma_picks_nothing, picks};
use crate::media_cell::{mime_begins, FileFacts};
use crate::recent::Texts;
use crate::text::{copy, copy_opt, dec, push_char, push_decimal, push_hex2, push_hex_padded, views};
use crate::theme::Ink;

verus! {

/// The representation tabs of the viewer, in tab order.
#[derive(Clone, Copy, Debug, PartialEq, Eq, Hash, PartialOrd, Ord, Structural)]
pub enum RepresentationKind {
    Overview,
    Archive,
    Metadata,
    Image,
    Audio,
    Spectrum,
    Video,
    Text,
    Render,
    Strings,
    Hex,
}

impl RepresentationKind {
    /// The tab's name.
    pub open spec fn title(&self) -> Seq<char> {
        match *self {
            RepresentationKind::Overview => "Overview"@,
            RepresentationKind::Archive => "Archive"@,
            RepresentationKind::Metadata => "Metadata"@,
            RepresentationKind::Image => "Image"@,
            RepresentationKind::Audio => "Audio"@,
            RepresentationKind::Spectrum => "Spectrum"@,
            RepresentationKind::Video => "Video"@,
            RepresentationKind::Text => "Text"@,
            RepresentationKind::Render => "Render"@,
            RepresentationKind::Strings => "Strings"@,
            RepresentationKind::Hex => "Hex"@,
        }
    }

    /// The tab's glyph.
    pub open spec fn glyph(&self) -> Seq<char> {
        match *self {
            RepresentationKind::Overview => icon::STAR@,
            RepresentationKind::Archive => icon::FOLDER_OPEN@,
            RepresentationKind::Metadata => icon::PENCIL@,
            RepresentationKind::Image => icon::IMAGE@,
            RepresentationKind::Audio => icon::LIGHTNING@,
            RepresentationKind::Spectrum => icon::IMAGE@,
            RepresentationKind::Video => icon::IMAGE@,
            RepresentationKind::Text => icon::SEARCH@,
            RepresentationKind::Render => icon::IMAGE@,
            RepresentationKind::Strings => icon::SEARCH@,
            RepresentationKind::Hex => icon::SEARCH@,
        }
    }

    /// The tab's name.
    pub fn name(&self) -> (r: &'static str)
        ensures
            r@ == self.title(),
    {
        match self {
            RepresentationKind::Overview => "Overview",
            RepresentationKind::Archive => "Archive",
            RepresentationKind::Metadata => "Metadata",
            RepresentationKind::Image => "Image",
            RepresentationKind::Audio => "Audio",
            RepresentationKind::Spectrum => "Spectrum",
            RepresentationKind::Video => "Video",
            RepresentationKind::Text => "Text",
            RepresentationKind::Render => "Render",
            RepresentationKind::Strings => "Strings",
            RepresentationKind::Hex => "Hex",
        }
    }

    /// The tab's glyph.
    pub fn icon(&self) -> (r: &'static str)
        ensures
            r@ == self.glyph(),
    {
        match self {
            RepresentationKind::Overview => icon::STAR,
            RepresentationKind::Archive => icon::FOLDER_OPEN,
            RepresentationKind::Metadata => icon::PENCIL,
            RepresentationKind::Image => icon::IMAGE,
            RepresentationKind::Audio => icon::LIGHTNING,
            RepresentationKind::Spectrum => icon::IMAGE,
            RepresentationKind::Video => icon::IMAGE,
            RepresentationKind::Text => icon::SEARCH,
            RepresentationKind::Render => icon::IMAGE,
            RepresentationKind::Strings => icon::SEARCH,
            RepresentationKind::Hex => icon::SEARCH,
        }
    }
}

/// The deduplication metadata of a file.
#[derive(Debug, PartialEq, Eq)]
pub struct DedupDataRepresentation {
    pub rel_path: String,
    pub repo_name: String,
    pub size: u64,
    pub modified_ms: i64,
    pub mime: Option<String>,
    pub read_only: bool,
    pub hash_hex: String,
    pub abs_path: String,
}

/// Facts and capabilities of an image.
#[derive(Clone, Copy, Debug, PartialEq, Eq)]
pub struct ImageRepresentation {
    pub dimensions: Option<(u32, u32)>,
    pub supports_flicker: bool,
    pub can_rotate: bool,
    pub can_crop: bool,
    pub can_save: bool,
}

/// Facts and capabilities of an audio file.
#[derive(Clone, Copy, Debug, PartialEq, Eq)]
pub struct AudioRepresentation {
    pub duration_ms: Option<u32>,
    pub is_playing: bool,
    pub seek_position_ms: u32,
    pub can_play: bool,
}

/// Tag or capture metadata, and whether it can be saved. The tag fields stay
/// `None` here: reading them is left until the tab is opened.
#[derive(Debug, PartialEq, Eq)]
pub struct MetadataRepresentation {
    pub title: Option<String>,
    pub artist: Option<String>,
    pub album: Option<String>,
    pub year: Option<u32>,
    pub track: Option<u32>,
    pub comment: Option<String>,
    /// The camera's make and model (images).
    pub camera: Option<String>,
    /// Capture time, naive-local milliseconds since the epoch (images).
    pub taken_ms: Option<i64>,
    pub can_save: bool,
}

/// Facts of a video.
#[derive(Clone, Copy, Debug, PartialEq, Eq)]
pub struct VideoRepresentation {
    pub duration_ms: Option<u32>,
    pub dimensions: Option<(u32, u32)>,
    pub selected_frame: Option<usize>,
    pub is_playing: bool,
}

/// Facts of a text.
#[derive(Debug, PartialEq, Eq)]
pub struct TextBinaryRepresentation {
    pub text_preview: Option<String>,
    pub hex_dump: Option<String>,
    pub is_text: bool,
}

/// Deletion mark of a file in a duplicate group or comparison.
#[derive(Clone, Copy, Debug, PartialEq, Eq, Structural)]
pub enum MarkState {
    Unmarked,
    Delete,
    DeleteA,
    DeleteB,
    Protected,
}

impl MarkState {
    /// Whether the file is protected.
    pub fn is_protected(&self) -> (r: bool)
        ensures
            r == (*self is Protected),
    {
        match self {
            MarkState::Protected => true,
            _ => false,
        }
    }

    /// The mark's label.
    pub fn label(&self) -> (r: &'static str)
        ensures
            r@ == match *self {
                MarkState::Unmarked => "UNMARKED"@,
                MarkState::Delete => "DELETE"@,
                MarkState::DeleteA => "DELETE A"@,
                MarkState::DeleteB => "DELETE B"@,
                MarkState::Protected => "DELETE (Protected)"@,
            },
    {
        match self {
            MarkState::Unmarked => "UNMARKED",
            MarkState::Delete => "DELETE",
            MarkState::DeleteA => "DELETE A",
            MarkState::DeleteB => "DELETE B",
            MarkState::Protected => "DELETE (Protected)",
        }
    }
}

/// The file can be looked inside.
#[derive(Clone, Copy, Debug, PartialEq, Eq)]
pub struct ArchiveRepresentation {}

/// The document can be looked at as pages.
#[derive(Clone, Copy, Debug, PartialEq, Eq)]
pub struct RenderRepresentation {}

/// The representations of a single file.
#[derive(Debug, PartialEq, Eq)]
pub struct FileRepresentations {
    pub dedup: DedupDataRepresentation,
    pub image: Option<ImageRepresentation>,
    pub audio: Option<AudioRepresentation>,
    pub metadata: Option<MetadataRepresentation>,
    pub video: Option<VideoRepresentation>,
    pub text: Option<TextBinaryRepresentation>,
    pub archive: Option<ArchiveRepresentation>,
    pub render: Option<RenderRepresentation>,
    pub mark: MarkState,
}

/// Whether a file offers its bytes: every file does.
pub fn has_text_representation(facts: &FileFacts) -> (r: bool)
    ensures
        r,
{
    true
}

/// The file has readable text: an extractable document or a plain-text file.
pub open spec fn readable(f: FileFacts) -> bool {
    f.mime is Some && (f.kinds.document || mime_begins(f.mime, "text/"@))
}

/// Whether a file has readable text.
pub fn has_readable_text(facts: &FileFacts) -> (r: bool)
    ensures
        r == readable(*facts),
{
    facts.mime.is_some() && (facts.kinds.document || facts.is_textual())
}

/// What is known of LibreOffice: nothing until the probe answers.
#[derive(Clone, Copy, Debug, PartialEq, Eq, Structural)]
pub enum Soffice {
    Unknown,
    Present,
    Absent,
}

/// Records the probe's verdict.
pub fn set_soffice_available(state: &mut Soffice, ok: bool)
    ensures
        *final(state) == if ok {
            Soffice::Present
        } else {
            Soffice::Absent
        },
{
    *state = if ok {
        Soffice::Present
    } else {
        Soffice::Absent
    };
}

/// Whether office documents can offer rendering: LibreOffice was found, or the
/// probe has not answered yet.
pub fn soffice_available(state: Soffice) -> (r: bool)
    ensures
        r == !(state is Absent),
{
    match state {
        Soffice::Absent => false,
        _ => true,
    }
}

/// A file is an image by its MIME type.
pub open spec fn image_file(f: FileFacts) -> bool {
    mime_begins(f.mime, "image/"@)
}

/// A file is a video by its MIME type.
pub open spec fn video_file(f: FileFacts) -> bool {
    mime_begins(f.mime, "video/"@)
}

/// A file is audio, as the core says of its MIME type.
pub open spec fn audio_file(f: FileFacts) -> bool {
    f.mime is Some && f.kinds.audio
}

/// A document can be turned into pages: a PDF directly, an office document where
/// LibreOffice may be there.
pub open spec fn renderable(f: FileFacts, soffice: Soffice) -> bool {
    f.mime matches Some(m) && (m@ == "application/pdf"@ || (f.kinds.office && !(soffice is Absent)))
}

impl FileRepresentations {
    /// The representations of a file, from its facts alone.
    pub fn from_facts(
        facts: &FileFacts,
        repo_name: String,
        read_only: bool,
        mark: MarkState,
        soffice: Soffice,
    ) -> (r: Self)
        ensures
            r.mark == mark,
            r.dedup.rel_path@ == facts.place.file_name@,
            r.dedup.repo_name == repo_name,
            r.dedup.size == facts.size,
            r.dedup.modified_ms == facts.modified_ms,
            r.dedup.mime == facts.mime,
            r.dedup.read_only == read_only,
            r.dedup.hash_hex@ == facts.hash_hex@,
            r.dedup.abs_path@ == facts.place.abs_path@,
            r.image == (if image_file(*facts) {
                Some(
                    ImageRepresentation {
                        dimensions: facts.img_size,
                        supports_flicker: true,
                        can_rotate: !read_only,
                        can_crop: !read_only,
                        can_save: !read_only,
                    },
                )
            } else {
                None
            }),
            r.audio == (if audio_file(*facts) {
                Some(
                    AudioRepresentation {
                        duration_ms: facts.audio_ms,
                        is_playing: false,
                        seek_position_ms: 0,
                        can_play: true,
                    },
                )
            } else {
                None
            }),
            r.video == (if video_file(*facts) {
                Some(
                    VideoRepresentation {
                        duration_ms: facts.audio_ms,
                        dimensions: facts.img_size,
                        selected_frame: None,
                        is_playing: false,
                    },
                )
            } else {
                None
            }),
            ({
                let tags = audio_file(*facts) && facts.kinds.tagged;
                let exif = image_file(*facts) && facts.exif is Some;
                &&& (r.metadata is Some) == (tags || exif)
                &&& r.metadata matches Some(m) ==> {
                    &&& m.title is None && m.artist is None && m.album is None
                    &&& m.year is None && m.track is None && m.comment is None
                    &&& m.can_save == (tags && !read_only)
                    &&& tags ==> m.camera is None && m.taken_ms is None
                    &&& !tags ==> m.camera == facts.exif->0.camera && m.taken_ms
                        == facts.exif->0.taken_ms
                }
            }),
            (r.text is Some) == readable(*facts),
            r.text matches Some(t) ==> {
                &&& t.text_preview is None
                &&& t.hex_dump is None
                &&& t.is_text == mime_begins(facts.mime, "text/"@)
            },
            (r.archive is Some) == facts.kinds.archive,
            (r.render is Some) == renderable(*facts, soffice),
    {
        let can_write = !read_only;
        let is_img = facts.is_image();
        let is_aud = facts.is_audio();
        let image = if is_img {
            Some(
                ImageRepresentation {
                    dimensions: facts.img_size,
                    supports_flicker: true,
                    can_rotate: can_write,
                    can_crop: can_write,
                    can_save: can_write,
                },
            )
        } else {
            None
        };
        let audio = if is_aud {
            Some(
                AudioRepresentation {
                    duration_ms: facts.audio_ms,
                    is_playing: false,
                    seek_position_ms: 0,
                    can_play: true,
                },
            )
        } else {
            None
        };
        let video = if facts.is_video() {
            Some(
                VideoRepresentation {
                    duration_ms: facts.audio_ms,
                    dimensions: facts.img_size,
                    selected_frame: None,
                    is_playing: false,
                },
            )
        } else {
            None
        };
        let metadata = if is_aud && facts.kinds.tagged {
            Some(metadata_of(None, None, can_write))
        } else if is_img {
            match &facts.exif {
                Some(exif) => Some(metadata_of(copy_opt(&exif.camera), exif.taken_ms, false)),
                None => None,
            }
        } else {
            None
        };
        let text = if has_readable_text(facts) {
            Some(
                TextBinaryRepresentation {
                    text_preview: None,
                    hex_dump: None,
                    is_text: facts.is_textual(),
                },
            )
        } else {
            None
        };
        let archive = if facts.is_archive() {
            Some(ArchiveRepresentation {  })
        } else {
            None
        };
        let render = if facts.is_pdf() || (facts.mime.is_some() && facts.kinds.office
            && soffice_available(soffice)) {
            Some(RenderRepresentation {  })
        } else {
            None
        };
        FileRepresentations {
            dedup: DedupDataRepresentation {
                rel_path: facts.place.file_name.clone(),
                repo_name,
                size: facts.size,
                modified_ms: facts.modified_ms,
                mime: copy_opt(&facts.mime),
                read_only,
                hash_hex: facts.hash_hex.clone(),
                abs_path: facts.place.abs_path.clone(),
            },
            image,
            audio,
            metadata,
            video,
            text,
            archive,
            render,
            mark,
        }
    }

    /// The file offers a representation.
    pub open spec fn offers(&self, kind: RepresentationKind) -> bool {
        match kind {
            RepresentationKind::Overview => true,
            RepresentationKind::Archive => self.archive is Some,
            RepresentationKind::Metadata => self.metadata is Some,
            RepresentationKind::Image => self.image is Some,
            RepresentationKind::Audio => self.audio is Some,
            RepresentationKind::Spectrum => self.audio is Some,
            RepresentationKind::Video => self.video is Some,
            RepresentationKind::Text => self.text is Some,
            RepresentationKind::Render => self.render is Some,
            RepresentationKind::Strings => true,
            RepresentationKind::Hex => true,
        }
    }

    fn has_kind(&self, kind: RepresentationKind) -> (r: bool)
        ensures
            r == self.offers(kind),
    {
        match kind {
            RepresentationKind::Overview => true,
            RepresentationKind::Archive => self.archive.is_some(),
            RepresentationKind::Metadata => self.metadata.is_some(),
            RepresentationKind::Image => self.image.is_some(),
            RepresentationKind::Audio => self.audio.is_some(),
            RepresentationKind::Spectrum => self.audio.is_some(),
            RepresentationKind::Video => self.video.is_some(),
            RepresentationKind::Text => self.text.is_some(),
            RepresentationKind::Render => self.render.is_some(),
            RepresentationKind::Strings => true,
            RepresentationKind::Hex => true,
        }
    }

    /// The representations that the file offers, in tab order.
    pub fn available_kinds(&self) -> (r: Vec<RepresentationKind>)
        ensures
            r@ == chosen(|kind: RepresentationKind| self.offers(kind)),
    {
        let ghost wanted = |kind: RepresentationKind| self.offers(kind);
        let order = tab_order();
        let mut out: Vec<RepresentationKind> = Vec::new();
        let mut i: usize = 0;
        while i < order.len()
            invariant
                i <= order@.len(),
                order@ == kind_order(),
                wanted == (|kind: RepresentationKind| self.offers(kind)),
                out@ == chosen_among(kind_order().take(i as int), wanted),
            decreases order@.len() - i,
        {
            proof {
                assert(kind_order().take(i + 1).drop_last() =~= kind_order().take(i as int));
            }
            if self.has_kind(order[i]) {
                out.push(order[i]);
            }
            i += 1;
        }
        assert(kind_order().take(i as int) =~= kind_order());
        out
    }

    /// The file's deletion mark.
    pub fn mark_state(&self) -> (r: MarkState)
        ensures
            r == self.mark,
    {
        self.mark
    }

    /// The file's deduplication metadata.
    pub fn dedup_data(&self) -> (r: &DedupDataRepresentation)
        ensures
            *r == self.dedup,
    {
        &self.dedup
    }
}

fn metadata_of(camera: Option<String>, taken_ms: Option<i64>, can_save: bool) -> (r:
    MetadataRepresentation)
    ensures
        r == (MetadataRepresentation {
            title: None,
            artist: None,
            album: None,
            year: None,
            track: None,
            comment: None,
            camera,
            taken_ms,
            can_save,
        }),
{
    MetadataRepresentation {
        title: None,
        artist: None,
        album: None,
        year: None,
        track: None,
        comment: None,
        camera,
        taken_ms,
        can_save,
    }
}

/// Every representation, in tab order.
pub open spec fn kind_order() -> Seq<RepresentationKind> {
    seq![
        RepresentationKind::Overview,
        RepresentationKind::Archive,
        RepresentationKind::Metadata,
        RepresentationKind::Image,
        RepresentationKind::Audio,
        RepresentationKind::Spectrum,
        RepresentationKind::Video,
        RepresentationKind::Text,
        RepresentationKind::Render,
        RepresentationKind::Strings,
        RepresentationKind::Hex,
    ]
}

fn tab_order() -> (r: Vec<RepresentationKind>)
    ensures
        r@ == kind_order(),
{
    let mut v: Vec<RepresentationKind> = Vec::new();
    v.push(RepresentationKind::Overview);
    v.push(RepresentationKind::Archive);
    v.push(RepresentationKind::Metadata);
    v.push(RepresentationKind::Image);
    v.push(RepresentationKind::Audio);
    v.push(RepresentationKind::Spectrum);
    v.push(RepresentationKind::Video);
    v.push(RepresentationKind::Text);
    v.push(RepresentationKind::Render);
    v.push(RepresentationKind::Strings);
    v.push(RepresentationKind::Hex);
    assert(v@ =~= kind_order());
    v
}

/// Those kinds of a list that are wanted, in order.
pub open spec fn chosen_among(
    kinds: Seq<RepresentationKind>,
    wanted: spec_fn(RepresentationKind) -> bool,
) -> Seq<RepresentationKind>
    decreases kinds.len(),
{
    if kinds.len() == 0 {
        Seq::empty()
    } else if wanted(kinds.last()) {
        chosen_among(kinds.drop_last(), wanted).push(kinds.last())
    } else {
        chosen_among(kinds.drop_last(), wanted)
    }
}

/// The kinds that are wanted, in tab order.
pub open spec fn chosen(wanted: spec_fn(RepresentationKind) -> bool) -> Seq<RepresentationKind> {
    chosen_among(kind_order(), wanted)
}

/// A kind that either side of a pair offers.
pub open spec fn either_offers(
    left: FileRepresentations,
    right: Option<&FileRepresentations>,
    kind: RepresentationKind,
) -> bool {
    left.offers(kind) || (right matches Some(r) && r.offers(kind))
}

/// The kinds that either side of a pair offers, in tab order.
pub open spec fn pair_kinds(
    left: FileRepresentations,
    right: Option<&FileRepresentations>,
) -> Seq<RepresentationKind> {
    chosen(|kind: RepresentationKind| either_offers(left, right, kind))
}

/// The representations offered for a pair: every kind that at least one side
/// supports, in tab order.
pub fn tab_kinds(left: &FileRepresentations, right: Option<&FileRepresentations>) -> (r: Vec<
    RepresentationKind,
>)
    ensures
        r@ == pair_kinds(*left, right),
{
    let ghost wanted = |kind: RepresentationKind| either_offers(*left, right, kind);
    let order = tab_order();
    let mut out: Vec<RepresentationKind> = Vec::new();
    let mut i: usize = 0;
    while i < order.len()
        invariant
            i <= order@.len(),
            order@ == kind_order(),
            wanted == (|kind: RepresentationKind| either_offers(*left, right, kind)),
            out@ == chosen_among(kind_order().take(i as int), wanted),
        decreases order@.len() - i,
    {
        proof {
            assert(kind_order().take(i + 1).drop_last() =~= kind_order().take(i as int));
        }
        let other = match right {
            Some(r) => r.has_kind(order[i]),
            None => false,
        };
        if left.has_kind(order[i]) || other {
            out.push(order[i]);
        }
        i += 1;
    }
    assert(kind_order().take(i as int) =~= kind_order());
    out
}

/// A button of the tab bar.
pub struct TabButton {
    pub kind: RepresentationKind,
    pub label: String,
    pub selected: bool,
    pub fill: Ink,
}

/// A tab button of a kind, while `active` is the open tab.
pub open spec fn is_tab(b: TabButton, kind: RepresentationKind, active: RepresentationKind) -> bool {
    &&& b.kind == kind
    &&& b.label@ == kind.glyph() + " "@ + kind.title()
    &&& b.selected == (kind == active)
    &&& b.fill == if kind == active {
        Ink::Amber
    } else {
        Ink::Panel
    }
}

/// The kinds of the tab bar: all that are offered but the overview, whose content
/// stands in the titles.
pub open spec fn bar_kinds(kinds: Seq<RepresentationKind>) -> Seq<RepresentationKind>
{
    chosen_among(kinds, |k: RepresentationKind| k != RepresentationKind::Overview)
}

/// The buttons of the tab bar for a pair of files.
pub fn draw_tab_bar(
    active: RepresentationKind,
    left: &FileRepresentations,
    right: &FileRepresentations,
) -> (r: Vec<TabButton>)
    ensures
        ({
            let kinds = bar_kinds(pair_kinds(*left, Some(right)));
            &&& r@.len() == kinds.len()
            &&& forall|i: int| 0 <= i < r@.len() ==> is_tab(#[trigger] r@[i], kinds[i], active)
        }),
{
    let kinds = tab_kinds(left, Some(right));
    let ghost wanted = |k: RepresentationKind| k != RepresentationKind::Overview;
    let mut out: Vec<TabButton> = Vec::new();
    let mut i: usize = 0;
    while i < kinds.len()
        invariant
            i <= kinds@.len(),
            wanted == (|k: RepresentationKind| k != RepresentationKind::Overview),
            out@.len() == chosen_among(kinds@.take(i as int), wanted).len(),
            forall|j: int|
                0 <= j < out@.len() ==> is_tab(
                    #[trigger] out@[j],
                    chosen_among(kinds@.take(i as int), wanted)[j],
                    active,
                ),
        decreases kinds@.len() - i,
    {
        let kind = kinds[i];
        proof {
            assert(kinds@.take(i + 1).drop_last() =~= kinds@.take(i as int));
        }
        if kind != RepresentationKind::Overview {
            let mut label = kind.icon().to_string();
            label.append(" ");
            label.append(kind.name());
            let selected = kind == active;
            let fill = if selected {
                Ink::Amber
            } else {
                Ink::Panel
            };
            out.push(TabButton { kind, label, selected, fill });
        }
        i += 1;
    }
    assert(kinds@.take(i as int) =~= kinds@);
    out
}

proof fn lemma_chosen(
    kinds: Seq<RepresentationKind>,
    wanted: spec_fn(RepresentationKind) -> bool,
    k: RepresentationKind,
)
    ensures
        chosen_among(kinds, wanted).contains(k) <==> kinds.contains(k) && wanted(k),
    decreases kinds.len(),
{
    if kinds.len() > 0 {
        let rest = kinds.drop_last();
        lemma_chosen(rest, wanted, k);
        let all = chosen_among(kinds, wanted);
        let part = chosen_among(rest, wanted);
        if kinds.contains(k) {
            let i = kinds.index_of(k);
            if i < rest.len() {
                assert(rest[i] == k);
            }
        }
        if rest.contains(k) {
            assert(kinds[rest.index_of(k)] == k);
        }
        if part.contains(k) {
            assert(all[part.index_of(k)] == k);
        }
        if kinds.last() == k {
            assert(kinds[kinds.len() - 1] == k);
            if wanted(k) {
                assert(all[all.len() - 1] == k);
            }
        }
        if all.contains(k) {
            let i = all.index_of(k);
            if i < part.len() {
                assert(part[i] == k);
            }
        }
    }
}

/// A tab is offered exactly where one side of the pair supports it, so a tab never
/// stands without a column behind it.
pub proof fn law_tabs_are_what_a_side_offers(
    left: FileRepresentations,
    right: Option<&FileRepresentations>,
    kind: RepresentationKind,
)
    ensures
        pair_kinds(left, right).contains(kind) == either_offers(left, right, kind),
{
    let order = kind_order();
    assert(order.contains(kind)) by {
        assert(order[0] == RepresentationKind::Overview);
        assert(order[1] == RepresentationKind::Archive);
        assert(order[2] == RepresentationKind::Metadata);
        assert(order[3] == RepresentationKind::Image);
        assert(order[4] == RepresentationKind::Audio);
        assert(order[5] == RepresentationKind::Spectrum);
        assert(order[6] == RepresentationKind::Video);
        assert(order[7] == RepresentationKind::Text);
        assert(order[8] == RepresentationKind::Render);
        assert(order[9] == RepresentationKind::Strings);
        assert(order[10] == RepresentationKind::Hex);
    }
    lemma_chosen(order, |k: RepresentationKind| either_offers(left, right, k), kind);
}

/// Whatever a file is, its overview, its strings and its raw bytes can be seen.
pub proof fn law_every_file_shows_its_bytes(
    left: FileRepresentations,
    right: Option<&FileRepresentations>,
)
    ensures
        pair_kinds(left, right).contains(RepresentationKind::Overview),
        pair_kinds(left, right).contains(RepresentationKind::Strings),
        pair_kinds(left, right).contains(RepresentationKind::Hex),
{
    law_tabs_are_what_a_side_offers(left, right, RepresentationKind::Overview);
    law_tabs_are_what_a_side_offers(left, right, RepresentationKind::Strings);
    law_tabs_are_what_a_side_offers(left, right, RepresentationKind::Hex);
}

/// The members of a group other than the left one.
pub open spec fn other_indices(total: int, left: int) -> Seq<usize>
    decreases total,
{
    if total <= 0 {
        Seq::empty()
    } else if total - 1 == left {
        other_indices(total - 1, left)
    } else {
        other_indices(total - 1, left).push((total - 1) as usize)
    }
}

/// Every member but the left one can be compared with it, and no other index is
/// offered.
pub proof fn law_every_other_member_is_offered(total: usize, left: usize, i: usize)
    ensures
        other_indices(total as int, left as int).contains(i) == (i < total && i != left),
    decreases total,
{
    if total > 0 {
        let less: usize = (total - 1) as usize;
        law_every_other_member_is_offered(less, left, i);
        let rest = other_indices(less as int, left as int);
        let all = other_indices(total as int, left as int);
        if rest.contains(i) {
            assert(all[rest.index_of(i)] == i);
        }
        if i == less && i != left {
            assert(all[all.len() - 1] == i);
        }
        if all.contains(i) {
            let k = all.index_of(i);
            if k < rest.len() {
                assert(rest[k] == i);
            }
        }
    }
}

/// The indices of the members of a group other than the left one.
pub fn other_member_indices(total_group_len: usize, left_idx: usize) -> (r: Vec<usize>)
    ensures
        r@ == other_indices(total_group_len as int, left_idx as int),
{
    let mut out: Vec<usize> = Vec::new();
    let mut i: usize = 0;
    while i < total_group_len
        invariant
            i <= total_group_len,
            out@ == other_indices(i as int, left_idx as int),
        decreases total_group_len - i,
    {
        if i != left_idx {
            out.push(i);
        }
        i += 1;
    }
    out
}

/// The switcher's label: which of the other members is shown, and of how many.
pub open spec fn switcher_text(sel: int, total: int) -> Seq<char> {
    if total == 0 {
        "0/0"@
    } else {
        "<"@ + dec((sel % total + 1) as nat) + " / "@ + dec(total as nat) + ">"@
    }
}

/// The label of the right side's switcher.
pub fn format_other_switcher_label(other_sel: usize, total_others: usize) -> (r: String)
    ensures
        r@ == switcher_text(other_sel as int, total_others as int),
{
    if total_others == 0 {
        "0/0".to_string()
    } else {
        let current: usize = other_sel % total_others;
        let mut s = "<".to_string();
        push_decimal(&mut s, current as u128 + 1);
        s.append(" / ");
        push_decimal(&mut s, total_others as u128);
        s.append(">");
        s
    }
}

/// How much of a file's head the Text tab reads.
pub const TEXT_PREVIEW_BYTES: usize = 65536;

/// How many bytes a hex dump shows.
pub const HEX_DUMP_BYTES: usize = 2048;

/// What a metadata column's controls ask for.
#[derive(Clone, Copy, Debug, PartialEq, Eq, Structural)]
pub enum MetaAction {
    Nothing,
    Edit,
    Save,
    Cancel,
    /// Write this side's metadata to a readable file.
    ExportMetadata,
}

impl MetaAction {
    /// The label of the button that asks for it.
    pub fn label(&self) -> (r: String)
        ensures
            r@ == match *self {
                MetaAction::Nothing => ""@,
                MetaAction::Edit => icon::PENCIL@ + " EDIT TAGS"@,
                MetaAction::Save => "SAVE TAGS"@,
                MetaAction::Cancel => "CANCEL"@,
                MetaAction::ExportMetadata => "SAVE METADATA"@,
            },
    {
        match self {
            MetaAction::Nothing => "".to_string(),
            MetaAction::Edit => {
                let mut s = icon::PENCIL.to_string();
                s.append(" EDIT TAGS");
                s
            },
            MetaAction::Save => "SAVE TAGS".to_string(),
            MetaAction::Cancel => "CANCEL".to_string(),
            MetaAction::ExportMetadata => "SAVE METADATA".to_string(),
        }
    }
}

/// The tag fields of an editor.
#[derive(Clone, Copy, Debug, PartialEq, Eq, Structural)]
pub enum TagField {
    Title,
    Artist,
    Album,
    Year,
    Track,
    Genre,
}

/// Puts a value that another copy offers into one field of the tags being edited;
/// the other fields keep theirs.
pub fn adopt_value(tags: &mut Tags, field: TagField, value: &String)
    ensures
        final(tags).title@ == (if field is Title {
            value@
        } else {
            old(tags).title@
        }),
        final(tags).artist@ == (if field is Artist {
            value@
        } else {
            old(tags).artist@
        }),
        final(tags).album@ == (if field is Album {
            value@
        } else {
            old(tags).album@
        }),
        final(tags).year@ == (if field is Year {
            value@
        } else {
            old(tags).year@
        }),
        final(tags).track@ == (if field is Track {
            value@
        } else {
            old(tags).track@
        }),
        final(tags).genre@ == (if field is Genre {
            value@
        } else {
            old(tags).genre@
        }),
{
    match field {
        TagField::Title => {
            tags.title = value.clone();
        },
        TagField::Artist => {
            tags.artist = value.clone();
        },
        TagField::Album => {
            tags.album = value.clone();
        },
        TagField::Year => {
            tags.year = value.clone();
        },
        TagField::Track => {
            tags.track = value.clone();
        },
        TagField::Genre => {
            tags.genre = value.clone();
        },
    }
}

/// The body of one metadata column: an open tag editor, a file's stored tags, or
/// an image's capture facts.
pub enum MetaBody<'a> {
    /// The working copy of the tags being edited, and for each of the six fields
    /// the values that other copies offer.
    Editing { edited: &'a Tags, options: &'a Vec<Vec<String>> },
    /// The file's tags as stored; `can_edit` is false for a protected repository.
    Stored { tags: Option<&'a Tags>, can_edit: bool },
    /// Every field of the capture metadata, and the names of those that differ
    /// from the other side.
    Exif { fields: &'a Vec<(String, String)>, differing: &'a Vec<String> },
}

/// One line of a metadata column.
#[derive(Debug, PartialEq, Eq)]
pub struct MetaLine {
    pub label: String,
    pub value: String,
    /// The colour of the label.
    pub label_ink: Ink,
    /// The colour of the value.
    pub ink: Ink,
    /// Values from other copies can be picked for this field.
    pub picks: bool,
}

/// A line's contents.
pub struct MetaLineModel {
    pub label: Seq<char>,
    pub value: Seq<char>,
    pub label_ink: Ink,
    pub ink: Ink,
    pub picks: bool,
}

/// The contents of each line of a list.
pub open spec fn meta_lines(lines: Seq<MetaLine>) -> Seq<MetaLineModel> {
    Seq::new(
        lines.len(),
        |i: int|
            MetaLineModel {
                label: lines[i].label@,
                value: lines[i].value@,
                label_ink: lines[i].label_ink,
                ink: lines[i].ink,
                picks: lines[i].picks,
            },
    )
}

/// A metadata column: its lines, its buttons and the remark beneath.
pub struct MetaColumn {
    pub lines: Vec<MetaLine>,
    /// What is said in place of lines.
    pub empty: Option<&'static str>,
    pub buttons: Vec<MetaAction>,
    pub remark: Option<&'static str>,
}

/// The six tag fields in display order.
pub open spec fn tag_fields(t: Tags) -> Seq<(Seq<char>, Seq<char>)> {
    seq![
        ("Title"@, t.title@),
        ("Artist"@, t.artist@),
        ("Album"@, t.album@),
        ("Year"@, t.year@),
        ("Track"@, t.track@),
        ("Genre"@, t.genre@),
    ]
}

/// The lines of an editor: each field as it is, with a picker where other copies
/// offer values.
pub open spec fn editor_lines(t: Tags, options: Seq<Vec<String>>) -> Seq<MetaLineModel> {
    Seq::new(
        6,
        |i: int|
            MetaLineModel {
                label: tag_fields(t)[i].0,
                value: tag_fields(t)[i].1,
                label_ink: Ink::Tan,
                ink: Ink::Text,
                picks: options[i]@.len() > 0,
            },
    )
}

/// The lines of stored tags: a dash stands for an empty field.
pub open spec fn stored_lines(t: Tags) -> Seq<MetaLineModel> {
    Seq::new(
        6,
        |i: int|
            MetaLineModel {
                label: tag_fields(t)[i].0,
                value: if tag_fields(t)[i].1.len() == 0 {
                    "—"@
                } else {
                    tag_fields(t)[i].1
                },
                label_ink: Ink::Tan,
                ink: Ink::Text,
                picks: false,
            },
    )
}

/// The lines of capture metadata: a field that differs from the other side is
/// amber.
pub open spec fn exif_lines(fields: Seq<(String, String)>, differing: Texts) -> Seq<MetaLineModel> {
    Seq::new(
        fields.len(),
        |i: int|
            MetaLineModel {
                label: fields[i].0@,
                value: fields[i].1@,
                label_ink: if differing.contains(fields[i].0@) {
                    Ink::Amber
                } else {
                    Ink::Tan
                },
                ink: if differing.contains(fields[i].0@) {
                    Ink::Amber
                } else {
                    Ink::Text
                },
                picks: false,
            },
    )
}

fn push_line(lines: &mut Vec<MetaLine>, label: &str, value: &str, differs: bool, picks: bool)
    ensures
        meta_lines(final(lines)@) == meta_lines(old(lines)@).push(
            MetaLineModel {
                label: label@,
                value: value@,
                label_ink: if differs {
                    Ink::Amber
                } else {
                    Ink::Tan
                },
                ink: if differs {
                    Ink::Amber
                } else {
                    Ink::Text
                },
                picks,
            },
        ),
{
    let ghost before = lines@;
    let label_ink = if differs {
        Ink::Amber
    } else {
        Ink::Tan
    };
    let ink = if differs {
        Ink::Amber
    } else {
        Ink::Text
    };
    lines.push(MetaLine { label: copy(label), value: copy(value), label_ink, ink, picks });
    assert(meta_lines(lines@) =~= meta_lines(before).push(
        MetaLineModel { label: label@, value: value@, label_ink, ink, picks },
    ));
}

fn or_dash(s: &String) -> (r: &str)
    ensures
        r@ == if s@.len() == 0 {
            "—"@
        } else {
            s@
        },
{
    if s.as_str().is_empty() {
        "—"
    } else {
        s.as_str()
    }
}

/// What one metadata column shows, and what its buttons ask for.
pub fn draw_metadata_column(body: &MetaBody) -> (r: MetaColumn)
    requires
        body matches MetaBody::Editing { options, .. } ==> options@.len() == 6,
    ensures
        match body {
            MetaBody::Editing { edited, options } => {
                &&& meta_lines(r.lines@) == editor_lines(**edited, options@)
                &&& r.empty is None
                &&& r.buttons@ == seq![MetaAction::Save, MetaAction::Cancel]
                &&& r.remark matches Some(s) && s@
                    == "Saving writes the tags to the file on disk; the audio is unchanged."@
            },
            MetaBody::Stored { tags, can_edit } => {
                &&& meta_lines(r.lines@) == match tags {
                    Some(t) => stored_lines(**t),
                    None => Seq::empty(),
                }
                &&& (r.empty is Some) == (tags is None)
                &&& r.empty matches Some(s) ==> s@ == "No ID3 tags in this file"@
                &&& r.buttons@ == if *can_edit {
                    seq![MetaAction::Edit]
                } else {
                    Seq::empty()
                }
                &&& (r.remark is Some) == !*can_edit
                &&& r.remark matches Some(s) ==> s@
                    == "Read-only repository — tags cannot be changed"@
            },
            MetaBody::Exif { fields, differing } => {
                &&& meta_lines(r.lines@) == exif_lines(fields@, views(differing@))
                &&& (r.empty is Some) == (fields@.len() == 0)
                &&& r.empty matches Some(s) ==> s@ == "No EXIF metadata in this file"@
                &&& r.buttons@ == seq![MetaAction::ExportMetadata]
                &&& r.remark matches Some(s) && s@
                    == "Capture metadata is shown as recorded and is not edited here."@
            },
        },
{
    let mut lines: Vec<MetaLine> = Vec::new();
    let mut buttons: Vec<MetaAction> = Vec::new();
    match body {
        MetaBody::Editing { edited, options } => {
            push_line(&mut lines, "Title", edited.title.as_str(), false, options[0].len() > 0);
            push_line(&mut lines, "Artist", edited.artist.as_str(), false, options[1].len() > 0);
            push_line(&mut lines, "Album", edited.album.as_str(), false, options[2].len() > 0);
            push_line(&mut lines, "Year", edited.year.as_str(), false, options[3].len() > 0);
            push_line(&mut lines, "Track", edited.track.as_str(), false, options[4].len() > 0);
            push_line(&mut lines, "Genre", edited.genre.as_str(), false, options[5].len() > 0);
            assert(meta_lines(lines@) =~= editor_lines(**edited, options@));
            buttons.push(MetaAction::Save);
            buttons.push(MetaAction::Cancel);
            assert(buttons@ =~= seq![MetaAction::Save, MetaAction::Cancel]);
            MetaColumn {
                lines,
                empty: None,
                buttons,
                remark: Some(
                    "Saving writes the tags to the file on disk; the audio is unchanged.",
                ),
            }
        },
        MetaBody::Stored { tags, can_edit } => {
            let empty = match tags {
                Some(t) => {
                    push_line(&mut lines, "Title", or_dash(&t.title), false, false);
                    push_line(&mut lines, "Artist", or_dash(&t.artist), false, false);
                    push_line(&mut lines, "Album", or_dash(&t.album), false, false);
                    push_line(&mut lines, "Year", or_dash(&t.year), false, false);
                    push_line(&mut lines, "Track", or_dash(&t.track), false, false);
                    push_line(&mut lines, "Genre", or_dash(&t.genre), false, false);
                    assert(meta_lines(lines@) =~= stored_lines(**t));
                    None
                },
                None => {
                    assert(meta_lines(lines@) =~= Seq::empty());
                    Some("No ID3 tags in this file")
                },
            };
            let mut remark: Option<&'static str> = None;
            if *can_edit {
                buttons.push(MetaAction::Edit);
            } else {
                remark = Some("Read-only repository — tags cannot be changed");
            }
            assert(buttons@ =~= if *can_edit {
                seq![MetaAction::Edit]
            } else {
                Seq::empty()
            });
            MetaColumn { lines, empty, buttons, remark }
        },
        MetaBody::Exif { fields, differing } => {
            let ghost names = views(differing@);
            let mut i: usize = 0;
            while i < fields.len()
                invariant
                    i <= fields@.len(),
                    names == views(differing@),
                    meta_lines(lines@) =~= exif_lines(fields@, names).take(i as int),
                decreases fields@.len() - i,
            {
                let differs = crate::naming::is_taken(differing, &fields[i].0);
                push_line(&mut lines, fields[i].0.as_str(), fields[i].1.as_str(), differs, false);
                i += 1;
            }
            assert(meta_lines(lines@) =~= exif_lines(fields@, names));
            let empty = if fields.len() == 0 {
                Some("No EXIF metadata in this file")
            } else {
                None
            };
            buttons.push(MetaAction::ExportMetadata);
            assert(buttons@ =~= seq![MetaAction::ExportMetadata]);
            MetaColumn {
                lines,
                empty,
                buttons,
                remark: Some("Capture metadata is shown as recorded and is not edited here."),
            }
        },
    }
}

/// A deletion pill.
pub struct MarkPill {
    pub label: String,
    pub fill: Ink,
    pub ink: Ink,
    /// A pill that can be clicked; one that cannot is struck through.
    pub enabled: bool,
}

/// A deletion pill: red and ticked where the file is marked, disabled and said to
/// be protected where it cannot be.
pub fn mark_pill(base: &str, marked: bool, markable: bool) -> (r: MarkPill)
    ensures
        r.label@ == if marked {
            base@ + " "@ + icon::CHECK@
        } else if !markable {
            base@ + " (Protected)"@
        } else {
            base@
        },
        r.fill == if marked {
            Ink::Red
        } else {
            Ink::Panel
        },
        r.ink == if marked {
            Ink::Black
        } else if !markable {
            Ink::Hairline
        } else {
            Ink::Text
        },
        r.enabled == markable,
{
    let mut label = copy(base);
    if marked {
        label.append(" ");
        label.append(icon::CHECK);
    } else if !markable {
        label.append(" (Protected)");
    }
    let fill = if marked {
        Ink::Red
    } else {
        Ink::Panel
    };
    let ink = if marked {
        Ink::Black
    } else if !markable {
        Ink::Hairline
    } else {
        Ink::Text
    };
    MarkPill { label, fill, ink, enabled: markable }
}

/// A side of a comparison.
#[derive(Clone, Copy, Debug, PartialEq, Eq, Structural)]
pub enum Side {
    A,
    B,
}

/// The sides that a picture comparison shows, from left to right: both, or in
/// flicker mode the one that is up.
pub fn compare_panes(flicker: bool, show_b: bool) -> (r: Vec<Side>)
    ensures
        r@ == if !flicker {
            seq![Side::A, Side::B]
        } else if show_b {
            seq![Side::B]
        } else {
            seq![Side::A]
        },
{
    let mut panes: Vec<Side> = Vec::new();
    if !flicker || !show_b {
        panes.push(Side::A);
    }
    if !flicker || show_b {
        panes.push(Side::B);
    }
    panes
}

/// A file's head, as text where it decodes and as a hex dump where it does not.
#[derive(Debug, PartialEq, Eq)]
pub struct TextPreview {
    pub body: String,
    /// Whether `body` is the file's text rather than a hex dump.
    pub is_text: bool,
    /// The file is longer than what `body` shows.
    pub truncated: bool,
    /// Why nothing could be read, when that is the case.
    pub error: Option<String>,
}

/// `std::str::from_utf8` of the standard library. Trusted, as its documentation
/// says, to accept exactly well-formed UTF-8 and to give the text it encodes.
#[verifier::external_body]
fn utf8_text(bytes: &[u8]) -> (r: Option<String>)
    ensures
        (r is Some) == valid_utf8(bytes@),
        r matches Some(s) ==> s@ == decode_utf8(bytes@),
{
    std::str::from_utf8(bytes).ok().map(|s| s.to_string())
}

/// The first `n` bytes of a sequence, or all of it.
pub open spec fn head_of(bytes: Seq<u8>, n: int) -> Seq<u8> {
    if bytes.len() <= n {
        bytes
    } else {
        bytes.take(n)
    }
}

/// The head of a file is shown as text: it is well-formed and holds no zero byte.
pub open spec fn reads_as_text(head: Seq<u8>) -> bool {
    valid_utf8(head) && !head.contains(0)
}

fn failed_preview(reason: String) -> (r: TextPreview)
    ensures
        r.body@.len() == 0,
        !r.is_text,
        !r.truncated,
        r.error == Some(reason),
{
    TextPreview { body: String::new(), is_text: false, truncated: false, error: Some(reason) }
}

fn has_zero(bytes: &Vec<u8>) -> (r: bool)
    ensures
        r == bytes@.contains(0),
{
    let mut i: usize = 0;
    while i < bytes.len()
        invariant
            i <= bytes@.len(),
            forall|k: int| 0 <= k < i ==> bytes@[k] != 0,
        decreases bytes@.len() - i,
    {
        if bytes[i] == 0 {
            assert(bytes@[i as int] == 0);
            return true;
        }
        i += 1;
    }
    false
}

/// The preview of a file from what was read of it: at least its first
/// [`TEXT_PREVIEW_BYTES`] and one more byte, if it has them. Text where it decodes
/// and holds no zero byte, otherwise a hex dump of the first [`HEX_DUMP_BYTES`].
pub fn load_text_preview(read: Result<Vec<u8>, String>) -> (r: TextPreview)
    ensures
        match read {
            Err(e) => {
                &&& r.body@.len() == 0
                &&& !r.is_text
                &&& !r.truncated
                &&& r.error == Some(e)
            },
            Ok(bytes) => {
                let cut = bytes@.len() > TEXT_PREVIEW_BYTES;
                let head = head_of(bytes@, TEXT_PREVIEW_BYTES as int);
                &&& r.error is None
                &&& r.is_text == reads_as_text(head)
                &&& r.is_text ==> r.body@ == decode_utf8(head) && r.truncated == cut
                &&& !r.is_text ==> r.body@ == dump_text(head_of(head, HEX_DUMP_BYTES as int))
                    && r.truncated == (cut || head.len() > HEX_DUMP_BYTES)
            },
        },
{
    match read {
        Err(e) => failed_preview(e),
        Ok(bytes) => {
            let mut head = bytes;
            let cut = head.len() > TEXT_PREVIEW_BYTES;
            if cut {
                head.truncate(TEXT_PREVIEW_BYTES);
            }
            let zero = has_zero(&head);
            match utf8_text(head.as_slice()) {
                Some(body) if !zero => TextPreview {
                    body,
                    is_text: true,
                    truncated: cut,
                    error: None,
                },
                _ => {
                    let more = head.len() > HEX_DUMP_BYTES;
                    if more {
                        head.truncate(HEX_DUMP_BYTES);
                    }
                    TextPreview {
                        body: hex_dump(head.as_slice()),
                        is_text: false,
                        truncated: cut || more,
                        error: None,
                    }
                },
            }
        },
    }
}

/// The Hex tab's view of a file from what was read of it: always bytes.
pub fn hex_head_preview(read: Result<Vec<u8>, String>) -> (r: TextPreview)
    ensures
        match read {
            Err(e) => {
                &&& r.body@.len() == 0
                &&& !r.is_text
                &&& !r.truncated
                &&& r.error == Some(e)
            },
            Ok(bytes) => {
                &&& r.error is None
                &&& !r.is_text
                &&& r.body@ == dump_text(head_of(bytes@, HEX_DUMP_BYTES as int))
                &&& r.truncated == (bytes@.len() > HEX_DUMP_BYTES)
            },
        },
{
    match read {
        Err(e) => failed_preview(e),
        Ok(bytes) => {
            let mut head = bytes;
            let truncated = head.len() > HEX_DUMP_BYTES;
            if truncated {
                head.truncate(HEX_DUMP_BYTES);
            }
            TextPreview { body: hex_dump(head.as_slice()), is_text: false, truncated, error: None }
        },
    }
}

/// The hex bytes of a dump row, with a gap after the eighth: the first `n` of the
/// sixteen places, blank past the row's end.
pub open spec fn dump_hex(row: Seq<u8>, n: int) -> Seq<char>
    decreases n,
{
    if n <= 0 {
        Seq::empty()
    } else {
        dump_hex(row, n - 1) + (if n - 1 < row.len() {
            crate::text::hex2(row[n - 1]) + " "@
        } else {
            "   "@
        }) + (if n == 8 {
            " "@
        } else {
            ""@
        })
    }
}

/// The printable form of a byte: itself from the blank to the tilde, else a dot.
pub open spec fn printable(b: u8) -> char {
    if 0x20 <= b <= 0x7e {
        b as char
    } else {
        '.'
    }
}

/// One row of a dump: offset, sixteen hex bytes, and the printable forms.
pub open spec fn dump_row(bytes: Seq<u8>, k: int) -> Seq<char> {
    let end = if 16 * k + 16 <= bytes.len() {
        16 * k + 16
    } else {
        bytes.len() as int
    };
    let row = bytes.subrange(16 * k, end);
    zero_padded(16 * k) + "  "@ + dump_hex(row, 16) + " |"@ + Seq::new(
        row.len(),
        |i: int| printable(row[i]),
    ) + "|\n"@
}

/// An offset in eight hexadecimal digits.
pub open spec fn zero_padded(offset: int) -> Seq<char> {
    crate::text::zero_pad(crate::text::hex(offset as nat), 8)
}

/// The first `n` rows of a dump.
pub open spec fn dump_rows(bytes: Seq<u8>, n: int) -> Seq<char>
    decreases n,
{
    if n <= 0 {
        Seq::empty()
    } else {
        dump_rows(bytes, n - 1) + dump_row(bytes, n - 1)
    }
}

/// A hex dump: a row for every sixteen bytes.
pub open spec fn dump_text(bytes: Seq<u8>) -> Seq<char> {
    dump_rows(bytes, ((bytes.len() + 15) / 16) as int)
}

fn push_dump_row(out: &mut String, bytes: &[u8], at: usize)
    requires
        at < bytes@.len(),
        at % 16 == 0,
    ensures
        final(out)@ == old(out)@ + dump_row(bytes@, at as int / 16),
{
    let ghost start = out@;
    let ghost k = at as int / 16;
    let n = bytes.len();
    let end: usize = if n - at >= 16 {
        at + 16
    } else {
        n
    };
    let ghost row = bytes@.subrange(at as int, end as int);
    push_hex_padded(out, at, 8);
    out.append("  ");
    let ghost lead = out@;
    assert(lead =~= start + (zero_padded(16 * k) + "  "@));
    let mut j: usize = 0;
    assert(lead + dump_hex(row, 0) =~= lead);
    while j < 16
        invariant
            j <= 16,
            at < end <= n,
            n == bytes@.len(),
            end - at <= 16,
            row == bytes@.subrange(at as int, end as int),
            out@ == lead + dump_hex(row, j as int),
        decreases 16 - j,
    {
        let ghost before = out@;
        if j < end - at {
            push_hex2(out, bytes[at + j]);
            out.append(" ");
            assert(bytes@[at + j] == row[j as int]);
        } else {
            out.append("   ");
        }
        if j == 7 {
            out.append(" ");
        } else {
            out.append("");
        }
        j += 1;
        assert(out@ =~= lead + dump_hex(row, j as int));
    }
    out.append(" |");
    let ghost mid = out@;
    let mut i: usize = at;
    while i < end
        invariant
            at <= i <= end <= n,
            n == bytes@.len(),
            row == bytes@.subrange(at as int, end as int),
            out@ == mid + Seq::new((i - at) as nat, |t: int| printable(row[t])),
        decreases end - i,
    {
        let b = bytes[i];
        let c = if 0x20 <= b && b <= 0x7e {
            b as char
        } else {
            '.'
        };
        assert(row[i - at] == b);
        push_char(out, c);
        i += 1;
        assert(out@ =~= mid + Seq::new((i - at) as nat, |t: int| printable(row[t])));
    }
    out.append("|\n");
    assert(out@ =~= start + dump_row(bytes@, k));
}

/// The classic dump: offset, sixteen hex bytes, printable characters.
pub fn hex_dump(bytes: &[u8]) -> (r: String)
    ensures
        r@ == dump_text(bytes@),
{
    let mut out = String::new();
    let n = bytes.len();
    let mut at: usize = 0;
    let ghost mut k: int = 0;
    while at < n
        invariant
            n == bytes@.len(),
            at == 16 * k || (at == n && 16 * (k - 1) < n <= 16 * k),
            k >= 0,
            at <= n,
            at < n ==> at == 16 * k,
            out@ == dump_rows(bytes@, k),
        decreases n - at,
    {
        push_dump_row(&mut out, bytes, at);
        proof {
            assert(at as int / 16 == k);
            k = k + 1;
        }
        if n - at > 16 {
            at += 16;
        } else {
            at = n;
        }
    }
    assert(k == (n + 15) / 16);
    out
}

/// What a text column says about what it shows: a sampled view says that it is
/// sampled.
pub open spec fn note_text(p: TextPreview) -> Seq<char> {
    match p.error {
        Some(e) => "Could not read this file: "@ + e@,
        None => if p.is_text && p.truncated {
            "As text — only the first 64 KB, not the whole file"@
        } else if p.is_text {
            "Full contents, as text"@
        } else if p.truncated {
            "Not text — hex of only the first bytes, not the whole file"@
        } else {
            "Not text — full contents as hex"@
        },
    }
}

/// What a text column says about what it shows.
pub fn preview_note(preview: &TextPreview) -> (r: String)
    ensures
        r@ == note_text(*preview),
{
    match &preview.error {
        Some(e) => {
            let mut s = "Could not read this file: ".to_string();
            s.append(e.as_str());
            s
        },
        None => if preview.is_text && preview.truncated {
            "As text — only the first 64 KB, not the whole file".to_string()
        } else if preview.is_text {
            "Full contents, as text".to_string()
        } else if preview.truncated {
            "Not text — hex of only the first bytes, not the whole file".to_string()
        } else {
            "Not text — full contents as hex".to_string()
        },
    }
}

/// The wanted kinds are all there, once each and in their order, and no other is.
pub proof fn law_wanted_kinds_keep_their_order(
    kinds: Seq<RepresentationKind>,
    wanted: spec_fn(RepresentationKind) -> bool,
)
    ensures
        picks(kinds, chosen_among(kinds, wanted), wanted, |k: RepresentationKind| k),
    decreases kinds.len(),
{
    let give = |k: RepresentationKind| k;
    if kinds.len() == 0 {
        lemma_picks_nothing(kinds, chosen_among(kinds, wanted), wanted, give);
    } else {
        let part = kinds.drop_last();
        law_wanted_kinds_keep_their_order(part, wanted);
        lemma_picks_last(kinds, chosen_among(part, wanted), chosen_among(kinds, wanted), wanted, give);
    }
}

/// Every kind has its place in the order of the tabs, each once.
pub proof fn law_the_order_of_the_tabs(i: int, j: int)
    ensures
        kind_order().len() == 11,
        0 <= i < j < 11 ==> kind_order()[i] != kind_order()[j],
        kind_order()[0] == RepresentationKind::Overview,
        kind_order()[1] == RepresentationKind::Archive,
        kind_order()[2] == RepresentationKind::Metadata,
        kind_order()[3] == RepresentationKind::Image,
        kind_order()[4] == RepresentationKind::Audio,
        kind_order()[5] == RepresentationKind::Spectrum,
        kind_order()[6] == RepresentationKind::Video,
        kind_order()[7] == RepresentationKind::Text,
        kind_order()[8] == RepresentationKind::Render,
        kind_order()[9] == RepresentationKind::Strings,
        kind_order()[10] == RepresentationKind::Hex,
{
}

/// A tab is offered where the left side has it and where the right side has it, and
/// nowhere else. The overview, the strings and the bytes every file has; the spectrum
/// goes with the sound.
pub proof fn law_a_tab_needs_a_side(
    left: FileRepresentations,
    right: FileRepresentations,
    kind: RepresentationKind,
)
    ensures
        left.offers(kind) ==> pair_kinds(left, Some(&right)).contains(kind),
        right.offers(kind) ==> pair_kinds(left, Some(&right)).contains(kind),
        !left.offers(kind) && !right.offers(kind) ==> !pair_kinds(left, Some(&right)).contains(
            kind,
        ),
        pair_kinds(left, None).contains(kind) == left.offers(kind),
        left.offers(RepresentationKind::Overview),
        left.offers(RepresentationKind::Strings),
        left.offers(RepresentationKind::Hex),
        left.offers(RepresentationKind::Archive) == (left.archive is Some),
        left.offers(RepresentationKind::Metadata) == (left.metadata is Some),
        left.offers(RepresentationKind::Image) == (left.image is Some),
        left.offers(RepresentationKind::Audio) == (left.audio is Some),
        left.offers(RepresentationKind::Spectrum) == (left.audio is Some),
        left.offers(RepresentationKind::Video) == (left.video is Some),
        left.offers(RepresentationKind::Text) == (left.text is Some),
        left.offers(RepresentationKind::Render) == (left.render is Some),
{
    law_tabs_are_what_a_side_offers(left, Some(&right), kind);
    law_tabs_are_what_a_side_offers(left, None, kind);
}

/// The tab bar has every kind that is offered but the overview.
pub proof fn law_the_bar_leaves_out_the_overview(
    kinds: Seq<RepresentationKind>,
    kind: RepresentationKind,
)
    ensures
        bar_kinds(kinds).contains(kind) <==> kinds.contains(kind) && kind
            != RepresentationKind::Overview,
    decreases kinds.len(),
{
    lemma_chosen(kinds, |k: RepresentationKind| k != RepresentationKind::Overview, kind);
}

/// The button of the open tab is selected and amber, the others are neither.
pub proof fn law_the_open_tab_stands_out(
    b: TabButton,
    kind: RepresentationKind,
    active: RepresentationKind,
)
    requires
        is_tab(b, kind, active),
    ensures
        b.kind == kind,
        b.selected <==> kind == active,
        kind == active ==> b.fill == Ink::Amber,
        kind != active ==> b.fill == Ink::Panel,
        b.label@ == kind.glyph() + " "@ + kind.title(),
{
}

/// The tabs are named after what they show.
pub proof fn law_tabs_are_named_after_what_they_show()
    ensures
        RepresentationKind::Overview.title() == "Overview"@,
        RepresentationKind::Archive.title() == "Archive"@,
        RepresentationKind::Metadata.title() == "Metadata"@,
        RepresentationKind::Image.title() == "Image"@,
        RepresentationKind::Audio.title() == "Audio"@,
        RepresentationKind::Spectrum.title() == "Spectrum"@,
        RepresentationKind::Video.title() == "Video"@,
        RepresentationKind::Text.title() == "Text"@,
        RepresentationKind::Render.title() == "Render"@,
        RepresentationKind::Strings.title() == "Strings"@,
        RepresentationKind::Hex.title() == "Hex"@,
{
}

/// What a file is follows from its MIME type and what the core says of it: an image and
/// a video by the first part of the type, readable text by the type or as a document,
/// sound as the core says, and nothing without a type.
pub proof fn law_a_file_is_what_its_type_says(f: FileFacts, soffice: Soffice)
    ensures
        f.mime is None ==> !image_file(f) && !video_file(f) && !audio_file(f) && !readable(f)
            && !renderable(f, soffice),
        f.mime matches Some(m) ==> {
            &&& image_file(f) <==> exists|rest: Seq<char>| m@ == #[trigger] ("image/"@ + rest)
            &&& video_file(f) <==> exists|rest: Seq<char>| m@ == #[trigger] ("video/"@ + rest)
            &&& audio_file(f) <==> f.kinds.audio
            &&& readable(f) <==> f.kinds.document || exists|rest: Seq<char>|
                m@ == #[trigger] ("text/"@ + rest)
            &&& m@ == "application/pdf"@ ==> renderable(f, soffice)
            &&& m@ != "application/pdf"@ && f.kinds.office ==> renderable(f, soffice) == !(
            soffice is Absent)
            &&& m@ != "application/pdf"@ && !f.kinds.office ==> !renderable(f, soffice)
        },
{
    if let Some(m) = f.mime {
        lemma_type_begins(m@, "image/"@);
        lemma_type_begins(m@, "video/"@);
        lemma_type_begins(m@, "text/"@);
    }
}

proof fn lemma_type_begins(mime: Seq<char>, word: Seq<char>)
    ensures
        crate::text::begins(mime, word) <==> exists|rest: Seq<char>|
            mime == #[trigger] (word + rest),
{
    if crate::text::begins(mime, word) {
        crate::text::law_beginning_is_a_prefix(mime, word, Seq::empty());
        assert(mime == word + mime.skip(word.len() as int));
    }
    if exists|rest: Seq<char>| mime == #[trigger] (word + rest) {
        let rest = choose|rest: Seq<char>| mime == #[trigger] (word + rest);
        crate::text::law_beginning_is_a_prefix(mime, word, rest);
    }
}

/// The switcher tells which of the others is shown, counted from one, and goes round.
pub proof fn law_the_switcher_counts_from_one(sel: nat, total: nat)
    requires
        sel < total,
    ensures
        switcher_text(sel as int, total as int) == "<"@ + dec(sel + 1) + " / "@ + dec(total)
            + ">"@,
        switcher_text((sel + total) as int, total as int) == switcher_text(
            sel as int,
            total as int,
        ),
        switcher_text(sel as int, 0) == "0/0"@,
{
    assert((sel as int) % (total as int) == sel) by (nonlinear_arith)
        requires
            sel < total,
    ;
    assert(((sel + total) as int) % (total as int) == sel) by (nonlinear_arith)
        requires
            sel < total,
    ;
}

/// The other members are offered in ascending order.
pub proof fn law_other_members_ascend(total: int, left: int, i: int, j: int)
    requires
        total <= usize::MAX,
        0 <= i < j < other_indices(total, left).len(),
    ensures
        other_indices(total, left)[i] < other_indices(total, left)[j] < total,
    decreases total,
{
    if total > 0 {
        let rest = other_indices(total - 1, left);
        if j < rest.len() {
            law_other_members_ascend(total - 1, left, i, j);
        } else {
            lemma_others_below(total - 1, left, i);
        }
    }
}

proof fn lemma_others_below(total: int, left: int, i: int)
    requires
        total <= usize::MAX,
        0 <= i < other_indices(total, left).len(),
    ensures
        other_indices(total, left)[i] < total,
    decreases total,
{
    if total > 0 && i < other_indices(total - 1, left).len() {
        lemma_others_below(total - 1, left, i);
    }
}

/// The columns show each field under its own name, in the same order. Stored tags show
/// a dash for an empty field; an editor shows the field as it is, and offers a picker
/// where other copies have values.
pub proof fn law_tags_stand_under_their_names(t: Tags, options: Seq<Vec<String>>, i: int)
    requires
        0 <= i < 6,
    ensures
        ({
            let names = seq!["Title"@, "Artist"@, "Album"@, "Year"@, "Track"@, "Genre"@];
            let values = seq![t.title@, t.artist@, t.album@, t.year@, t.track@, t.genre@];
            &&& editor_lines(t, options).len() == 6
            &&& stored_lines(t).len() == 6
            &&& editor_lines(t, options)[i].label == names[i]
            &&& editor_lines(t, options)[i].value == values[i]
            &&& editor_lines(t, options)[i].picks == (options[i]@.len() > 0)
            &&& stored_lines(t)[i].label == names[i]
            &&& values[i].len() > 0 ==> stored_lines(t)[i].value == values[i]
            &&& values[i].len() == 0 ==> stored_lines(t)[i].value == "—"@
            &&& !stored_lines(t)[i].picks
        }),
{
}

/// Capture metadata is shown field by field, amber exactly where it differs.
pub proof fn law_differing_fields_are_amber(
    fields: Seq<(String, String)>,
    differing: Texts,
    i: int,
)
    requires
        0 <= i < fields.len(),
    ensures
        exif_lines(fields, differing).len() == fields.len(),
        exif_lines(fields, differing)[i].label == fields[i].0@,
        exif_lines(fields, differing)[i].value == fields[i].1@,
        differing.contains(fields[i].0@) ==> exif_lines(fields, differing)[i].ink == Ink::Amber
            && exif_lines(fields, differing)[i].label_ink == Ink::Amber,
        !differing.contains(fields[i].0@) ==> exif_lines(fields, differing)[i].ink == Ink::Text
            && exif_lines(fields, differing)[i].label_ink == Ink::Tan,
{
}

/// The head of a file is its first bytes, all of them where there are no more.
pub proof fn law_a_head_is_the_first_bytes(bytes: Seq<u8>, n: int, k: int)
    requires
        0 <= n,
    ensures
        head_of(bytes, n).len() == if bytes.len() < n {
            bytes.len() as int
        } else {
            n
        },
        0 <= k < head_of(bytes, n).len() ==> head_of(bytes, n)[k] == bytes[k],
        reads_as_text(bytes) <==> valid_utf8(bytes) && forall|i: int|
            0 <= i < bytes.len() ==> #[trigger] bytes[i] != 0,
{
}

proof fn lemma_dump_hex_len(row: Seq<u8>, n: int)
    requires
        0 <= n <= 16,
    ensures
        dump_hex(row, n).len() == 3 * n + if n >= 8 {
            1int
        } else {
            0
        },
    decreases n,
{
    reveal_strlit(" ");
    reveal_strlit("   ");
    reveal_strlit("");
    if n > 0 {
        lemma_dump_hex_len(row, n - 1);
    }
}

proof fn lemma_dump_hex(row: Seq<u8>, n: int, i: int)
    requires
        0 <= i < n <= 16,
    ensures
        ({
            let at = 3 * i + if i >= 8 {
                1int
            } else {
                0
            };
            &&& i < row.len() ==> dump_hex(row, n)[at] == crate::text::digit(row[i] as int / 16)
            &&& i < row.len() ==> dump_hex(row, n)[at + 1] == crate::text::digit(
                row[i] as int % 16,
            )
            &&& i >= row.len() ==> dump_hex(row, n)[at] == ' '
            &&& i >= row.len() ==> dump_hex(row, n)[at + 1] == ' '
            &&& dump_hex(row, n)[at + 2] == ' '
        }),
    decreases n,
{
    reveal_strlit(" ");
    reveal_strlit("   ");
    let at = 3 * i + if i >= 8 {
        1int
    } else {
        0
    };
    let was = dump_hex(row, n - 1);
    let now = dump_hex(row, n);
    lemma_dump_hex_len(row, n - 1);
    if i < n - 1 {
        lemma_dump_hex(row, n - 1, i);
        assert(now[at] == was[at]);
        assert(now[at + 1] == was[at + 1]);
        assert(now[at + 2] == was[at + 2]);
    } else {
        let cell = if i < row.len() {
            crate::text::hex2(row[i]) + " "@
        } else {
            "   "@
        };
        assert(now[at] == cell[0]);
        assert(now[at + 1] == cell[1]);
        assert(now[at + 2] == cell[2]);
    }
}

/// A row of a dump starts with its offset, shows each of its bytes in two hexadecimal
/// digits at its own place, blanks where the file has ended, and then the same bytes
/// as characters between bars.
pub proof fn law_a_dump_row_shows_its_bytes(bytes: Seq<u8>, k: int, i: int)
    requires
        0 <= k,
        16 * k < bytes.len(),
        0 <= i < 16,
    ensures
        ({
            let offset = crate::text::zero_pad(crate::text::hex((16 * k) as nat), 8) + "  "@;
            let row = dump_row(bytes, k);
            let at = offset.len() + 3 * i + if i >= 8 {
                1int
            } else {
                0
            };
            let n = if bytes.len() - 16 * k < 16 {
                bytes.len() - 16 * k
            } else {
                16
            };
            let bar = offset.len() as int + 49;
            &&& row.len() == bar + 2 + n + 2
            &&& row.take(offset.len() as int) == offset
            &&& i < n ==> row[at] == crate::text::digit(bytes[16 * k + i] as int / 16) && row[at
                + 1] == crate::text::digit(bytes[16 * k + i] as int % 16)
            &&& i >= n ==> row[at] == ' ' && row[at + 1] == ' '
            &&& row[bar + 1] == '|'
            &&& i < n ==> row[bar + 2 + i] == if 0x20 <= bytes[16 * k + i] <= 0x7e {
                bytes[16 * k + i] as char
            } else {
                '.'
            }
            &&& row[bar + 2 + n] == '|'
            &&& row.last() == '\n'
        }),
{
    reveal_strlit(" |");
    reveal_strlit("|\n");
    let end = if 16 * k + 16 <= bytes.len() {
        16 * k + 16
    } else {
        bytes.len() as int
    };
    let part = bytes.subrange(16 * k, end);
    lemma_dump_hex_len(part, 16);
    lemma_dump_hex(part, 16, i);
    let offset = zero_padded(16 * k) + "  "@;
    let hex = dump_hex(part, 16);
    let row = dump_row(bytes, k);
    let at = 3 * i + if i >= 8 {
        1int
    } else {
        0
    };
    assert(row.take(offset.len() as int) =~= offset);
    let n = part.len();
    let marks = Seq::new(n, |j: int| printable(part[j]));
    let o = offset.len() as int;
    assert(row[o + at] == hex[at]);
    assert(row[o + at + 1] == hex[at + 1]);
    assert(row == offset + hex + " |"@ + marks + "|\n"@);
    assert(row[o + 50] == " |"@[1]);
    if i < n {
        assert(part[i] == bytes[16 * k + i]);
        assert(row[o + 51 + i] == marks[i]);
    }
    assert(row[o + 51 + n] == "|\n"@[0]);
    assert(row.last() == "|\n"@[1]);
}

/// A dump has a row for every sixteen bytes, one after the other, and the last row
/// holds what is left.
pub proof fn law_a_dump_is_its_rows(bytes: Seq<u8>, n: int)
    requires
        0 <= n,
    ensures
        dump_rows(bytes, 0).len() == 0,
        dump_rows(bytes, n + 1) == dump_rows(bytes, n) + dump_row(bytes, n),
        16 * n < bytes.len() <= 16 * n + 16 ==> dump_text(bytes) == dump_rows(bytes, n + 1),
        bytes.len() == 0 ==> dump_text(bytes).len() == 0,
{
}

/// What is said of a preview: the reason where it failed, and else whether it is text
/// and whether it is all of the file.
pub proof fn law_a_preview_says_what_it_shows(p: TextPreview)
    ensures
        p.error matches Some(e) ==> note_text(p) == "Could not read this file: "@ + e@,
        p.error is None && p.is_text && p.truncated ==> note_text(p)
            == "As text — only the first 64 KB, not the whole file"@,
        p.error is None && p.is_text && !p.truncated ==> note_text(p) == "Full contents, as text"@,
        p.error is None && !p.is_text && p.truncated ==> note_text(p)
            == "Not text — hex of only the first bytes, not the whole file"@,
        p.error is None && !p.is_text && !p.truncated ==> note_text(p)
            == "Not text — full contents as hex"@,
{
}

} // verus!
