//! The common ID3 tags of an audio file: read into editable text fields and
//! written back. Numeric fields are parsed when written, and an empty field
//! clears its frame.

use id3::TagLike;
use vstd::prelude::*;
use vstd::string::*;

use crate::lists::{lemma_picks_last, lemma_picks_nothing, picks};
use crate::text::{
    copy, dec, decimal, i32_in, lemma_dec_reads_back, parse_i32, parse_u32, trim, trimmed, u32_in,
    zero_pad,
};

verus! {

/// A tag: an ordered list of frames.
#[verifier::external_type_specification]
#[verifier::external_body]
pub struct ExTag(id3::Tag);

/// A frame's identifier, and its text where it is a text frame.
pub type FrameModel = (Seq<char>, Option<Seq<char>>);

/// The frames of a tag, in order.
pub uninterp spec fn tag_frames(tag: id3::Tag) -> Seq<(Seq<char>, Option<Seq<char>>)>;

/// The frames without those of an identifier.
pub open spec fn others(frames: Seq<FrameModel>, id: Seq<char>) -> Seq<FrameModel>
    decreases frames.len(),
{
    if frames.len() == 0 {
        Seq::empty()
    } else if frames.last().0 == id {
        others(frames.drop_last(), id)
    } else {
        others(frames.drop_last(), id).push(frames.last())
    }
}

/// The text of the first frame with an identifier, where that is a text frame.
pub open spec fn text_of(frames: Seq<FrameModel>, id: Seq<char>) -> Option<Seq<char>>
    decreases frames.len(),
{
    if frames.len() == 0 {
        None
    } else if frames[0].0 == id {
        frames[0].1
    } else {
        text_of(frames.drop_first(), id)
    }
}

/// At most one frame has the identifier, and that one is a text frame.
pub open spec fn single_text(frames: Seq<FrameModel>, id: Seq<char>) -> bool {
    &&& forall|i: int, j: int|
        0 <= i < frames.len() && 0 <= j < frames.len() && #[trigger] frames[i].0 == id
            && #[trigger] frames[j].0 == id ==> i == j
    &&& forall|i: int| 0 <= i < frames.len() && (#[trigger] frames[i]).0 == id ==> frames[i].1 is Some
}

/// A frame of this text was set: the other frames stay in order, and where the
/// identifier had at most one text frame the new one replaces it, at the end.
pub open spec fn text_set(
    before: Seq<FrameModel>,
    after: Seq<FrameModel>,
    id: Seq<char>,
    text: Seq<char>,
) -> bool {
    &&& others(after, id) == others(before, id)
    &&& single_text(before, id) ==> after == others(before, id).push((id, Some(text)))
}

/// A year as it is stored: at least four characters, zeros behind the sign.
pub open spec fn year_text(year: i32) -> Seq<char> {
    if year < 0 {
        seq!['-'] + zero_pad(dec((-year) as nat), 3)
    } else {
        zero_pad(dec(year as nat), 4)
    }
}

/// `s` without the zeros at its start.
pub open spec fn without_zeros(s: Seq<char>) -> Seq<char>
    decreases s.len(),
{
    if s.len() > 0 && s[0] == '0' {
        without_zeros(s.drop_first())
    } else {
        s
    }
}

/// Where the first of the two separators of a number pair stands.
pub open spec fn pair_split(s: Seq<char>, i: int) -> int
    decreases s.len() - i,
{
    if i < 0 || i >= s.len() {
        s.len() as int
    } else if s[i] == '/' || s[i] as u32 == 0 {
        i
    } else {
        pair_split(s, i + 1)
    }
}

/// A number and, behind a separator, perhaps another.
pub open spec fn number_pair(s: Seq<char>) -> Option<(u32, Option<u32>)> {
    let k = pair_split(s, 0);
    match u32_in(s.take(k)) {
        None => None,
        Some(a) => Some(
            (
                a,
                if k < s.len() {
                    u32_in(s.skip(k + 1))
                } else {
                    None
                },
            ),
        ),
    }
}

/// The number pair of the track frame.
pub open spec fn track_pair(frames: Seq<FrameModel>) -> Option<(u32, Option<u32>)> {
    match text_of(frames, "TRCK"@) {
        None => None,
        Some(text) => number_pair(text),
    }
}

/// A track number as it is stored: the count of tracks that was there stays.
pub open spec fn track_text(frames: Seq<FrameModel>, track: u32) -> Seq<char> {
    match track_pair(frames) {
        Some((_, Some(total))) => dec(track as nat) + "/"@ + dec(total as nat),
        _ => dec(track as nat),
    }
}

/// `TagLike::title` of the `id3` crate: the text of the `TIT2` frame.
#[verifier::external_body]
fn title(tag: &id3::Tag) -> (r: Option<&str>)
    ensures
        match r {
            Some(s) => text_of(tag_frames(*tag), "TIT2"@) == Some(s@),
            None => text_of(tag_frames(*tag), "TIT2"@) is None,
        },
{
    tag.title()
}

/// `TagLike::artist` of the `id3` crate: the text of the `TPE1` frame.
#[verifier::external_body]
fn artist(tag: &id3::Tag) -> (r: Option<&str>)
    ensures
        match r {
            Some(s) => text_of(tag_frames(*tag), "TPE1"@) == Some(s@),
            None => text_of(tag_frames(*tag), "TPE1"@) is None,
        },
{
    tag.artist()
}

/// `TagLike::album` of the `id3` crate: the text of the `TALB` frame.
#[verifier::external_body]
fn album(tag: &id3::Tag) -> (r: Option<&str>)
    ensures
        match r {
            Some(s) => text_of(tag_frames(*tag), "TALB"@) == Some(s@),
            None => text_of(tag_frames(*tag), "TALB"@) is None,
        },
{
    tag.album()
}

/// `TagLike::genre` of the `id3` crate: the text of the `TCON` frame.
#[verifier::external_body]
fn genre(tag: &id3::Tag) -> (r: Option<&str>)
    ensures
        match r {
            Some(s) => text_of(tag_frames(*tag), "TCON"@) == Some(s@),
            None => text_of(tag_frames(*tag), "TCON"@) is None,
        },
{
    tag.genre()
}

/// The year that a tag's frames give: the `TYER` text, its leading zeros skipped,
/// read as a number.
pub open spec fn year_of(frames: Seq<FrameModel>) -> Option<i32> {
    match text_of(frames, "TYER"@) {
        None => None,
        Some(text) => i32_in(without_zeros(text)),
    }
}

/// `TagLike::year` of the `id3` crate: the number in the `TYER` frame.
#[verifier::external_body]
fn year(tag: &id3::Tag) -> (r: Option<i32>)
    ensures
        r == year_of(tag_frames(*tag)),
{
    tag.year()
}

/// `TagLike::track` of the `id3` crate: the first number in the `TRCK` frame.
#[verifier::external_body]
fn track(tag: &id3::Tag) -> (r: Option<u32>)
    ensures
        r == (match track_pair(tag_frames(*tag)) {
            Some(pair) => Some(pair.0),
            None => None,
        }),
{
    tag.track()
}

/// `TagLike::remove` of the `id3` crate: takes out every frame of an identifier.
#[verifier::external_body]
fn remove_frames(tag: &mut id3::Tag, id: &str)
    ensures
        tag_frames(*final(tag)) == others(tag_frames(*old(tag)), id@),
{
    tag.remove(id);
}

/// `TagLike::set_text` of the `id3` crate: replaces the text frame of an
/// identifier, or adds one. The crate refuses identifiers of other lengths. Where
/// the tag holds more than one frame of the identifier, or one that is no text
/// frame, only the other frames are spoken of.
#[verifier::external_body]
fn set_text(tag: &mut id3::Tag, id: &str, text: &str)
    requires
        id.is_ascii(),
        id@.len() == 4,
    ensures
        text_set(tag_frames(*old(tag)), tag_frames(*final(tag)), id@, text@),
{
    tag.set_text(id, text);
}

/// `TagLike::set_year` of the `id3` crate: sets the `TYER` text frame.
#[verifier::external_body]
fn set_year(tag: &mut id3::Tag, year: i32)
    ensures
        text_set(tag_frames(*old(tag)), tag_frames(*final(tag)), "TYER"@, year_text(year)),
{
    tag.set_year(year);
}

/// `TagLike::remove_year` of the `id3` crate: takes out the `TYER` frames.
#[verifier::external_body]
fn remove_year(tag: &mut id3::Tag)
    ensures
        tag_frames(*final(tag)) == others(tag_frames(*old(tag)), "TYER"@),
{
    tag.remove_year();
}

/// `TagLike::set_track` of the `id3` crate: sets the `TRCK` text frame, keeping
/// the count of tracks it named.
#[verifier::external_body]
fn set_track(tag: &mut id3::Tag, track: u32)
    ensures
        text_set(
            tag_frames(*old(tag)),
            tag_frames(*final(tag)),
            "TRCK"@,
            track_text(tag_frames(*old(tag)), track),
        ),
{
    tag.set_track(track);
}

/// `TagLike::remove_track` of the `id3` crate: takes out the `TRCK` frames.
#[verifier::external_body]
fn remove_track(tag: &mut id3::Tag)
    ensures
        tag_frames(*final(tag)) == others(tag_frames(*old(tag)), "TRCK"@),
{
    tag.remove_track();
}

/// The common, editable text fields, as strings so that an editor can bind text
/// boxes to them.
#[derive(PartialEq, Eq, Debug)]
pub struct Tags {
    pub title: String,
    pub artist: String,
    pub album: String,
    pub year: String,
    pub track: String,
    pub genre: String,
}

/// The contents of the fields.
#[verifier::ext_equal]
pub struct TagsModel {
    pub title: Seq<char>,
    pub artist: Seq<char>,
    pub album: Seq<char>,
    pub year: Seq<char>,
    pub track: Seq<char>,
    pub genre: Seq<char>,
}

impl View for Tags {
    type V = TagsModel;

    open spec fn view(&self) -> TagsModel {
        TagsModel {
            title: self.title@,
            artist: self.artist@,
            album: self.album@,
            year: self.year@,
            track: self.track@,
            genre: self.genre@,
        }
    }
}

impl Default for Tags {
    fn default() -> (r: Self)
        ensures
            r@ == (TagsModel {
                title: Seq::empty(),
                artist: Seq::empty(),
                album: Seq::empty(),
                year: Seq::empty(),
                track: Seq::empty(),
                genre: Seq::empty(),
            }),
    {
        Tags {
            title: String::new(),
            artist: String::new(),
            album: String::new(),
            year: String::new(),
            track: String::new(),
            genre: String::new(),
        }
    }
}

/// A text, or none as an empty one.
pub open spec fn or_empty(s: Option<Seq<char>>) -> Seq<char> {
    match s {
        Some(t) => t,
        None => Seq::empty(),
    }
}

/// A number as text, with its sign.
pub open spec fn signed_text(n: int) -> Seq<char> {
    if n < 0 {
        seq!['-'] + dec((-n) as nat)
    } else {
        dec(n as nat)
    }
}

/// The fields that a tag's frames give.
pub open spec fn fields_of(frames: Seq<FrameModel>) -> TagsModel {
    TagsModel {
        title: or_empty(text_of(frames, "TIT2"@)),
        artist: or_empty(text_of(frames, "TPE1"@)),
        album: or_empty(text_of(frames, "TALB"@)),
        year: match year_of(frames) {
            Some(y) => signed_text(y as int),
            None => Seq::empty(),
        },
        track: match track_pair(frames) {
            Some(pair) => dec(pair.0 as nat),
            None => Seq::empty(),
        },
        genre: or_empty(text_of(frames, "TCON"@)),
    }
}

fn text_or_empty(s: Option<&str>) -> (r: String)
    ensures
        r@ == or_empty(
            match s {
                Some(t) => Some(t@),
                None => None,
            },
        ),
{
    match s {
        Some(t) => copy(t),
        None => String::new(),
    }
}

/// Reads the fields of a tag; one that is not there is empty.
pub fn read(tag: &id3::Tag) -> (r: Tags)
    ensures
        r@ == fields_of(tag_frames(*tag)),
{
    let year = match year(tag) {
        Some(y) => if y < 0 {
            let mut s = String::new();
            crate::text::push_char(&mut s, '-');
            s.append(decimal((-(y as i128)) as u128).as_str());
            assert(s@ =~= signed_text(y as int));
            s
        } else {
            decimal(y as u128)
        },
        None => String::new(),
    };
    let track = match track(tag) {
        Some(t) => decimal(t as u128),
        None => String::new(),
    };
    Tags {
        title: text_or_empty(title(tag)),
        artist: text_or_empty(artist(tag)),
        album: text_or_empty(album(tag)),
        year,
        track,
        genre: text_or_empty(genre(tag)),
    }
}

/// A text field was written: a blank one clears its frame, any other sets its
/// text without the blanks around it.
pub open spec fn field_written(
    before: Seq<FrameModel>,
    after: Seq<FrameModel>,
    id: Seq<char>,
    value: Seq<char>,
) -> bool {
    if trimmed(value).len() == 0 {
        after == others(before, id)
    } else {
        text_set(before, after, id, trimmed(value))
    }
}

/// The year field was written: one that is no number clears the frame.
pub open spec fn year_written(
    before: Seq<FrameModel>,
    after: Seq<FrameModel>,
    value: Seq<char>,
) -> bool {
    match i32_in(trimmed(value)) {
        Some(y) => text_set(before, after, "TYER"@, year_text(y)),
        None => after == others(before, "TYER"@),
    }
}

/// The track field was written: one that is no number clears the frame.
pub open spec fn track_written(
    before: Seq<FrameModel>,
    after: Seq<FrameModel>,
    value: Seq<char>,
) -> bool {
    match u32_in(trimmed(value)) {
        Some(t) => text_set(before, after, "TRCK"@, track_text(before, t)),
        None => after == others(before, "TRCK"@),
    }
}

/// The frames after the fields were written, one field after the other.
pub open spec fn fields_written(
    before: Seq<FrameModel>,
    after: Seq<FrameModel>,
    tags: TagsModel,
) -> bool {
    exists|a: Seq<FrameModel>, b: Seq<FrameModel>, c: Seq<FrameModel>, d: Seq<FrameModel>, e: Seq<
        FrameModel,
    >| #[trigger] steps_written(before, a, b, c, d, e, after, tags)
}

/// The frames after each of the six fields.
pub open spec fn steps_written(
    before: Seq<FrameModel>,
    a: Seq<FrameModel>,
    b: Seq<FrameModel>,
    c: Seq<FrameModel>,
    d: Seq<FrameModel>,
    e: Seq<FrameModel>,
    after: Seq<FrameModel>,
    tags: TagsModel,
) -> bool {
    &&& field_written(before, a, "TIT2"@, tags.title)
    &&& field_written(a, b, "TPE1"@, tags.artist)
    &&& field_written(b, c, "TALB"@, tags.album)
    &&& field_written(c, d, "TCON"@, tags.genre)
    &&& year_written(d, e, tags.year)
    &&& track_written(e, after, tags.track)
}

fn write_field(tag: &mut id3::Tag, id: &str, value: &str)
    requires
        id.is_ascii(),
        id@.len() == 4,
    ensures
        field_written(tag_frames(*old(tag)), tag_frames(*final(tag)), id@, value@),
{
    let text = trim(value);
    if text.as_str().is_empty() {
        remove_frames(tag, id);
    } else {
        set_text(tag, id, text.as_str());
    }
}

/// Writes the fields into a tag. Frames of other kinds stay; an empty field
/// clears its frame.
pub fn write(tag: &mut id3::Tag, tags: &Tags)
    ensures
        fields_written(tag_frames(*old(tag)), tag_frames(*final(tag)), tags@),
{
    proof {
        reveal_strlit("TIT2");
        reveal_strlit("TPE1");
        reveal_strlit("TALB");
        reveal_strlit("TCON");
    }
    let ghost before = tag_frames(*tag);
    write_field(tag, "TIT2", tags.title.as_str());
    let ghost a = tag_frames(*tag);
    write_field(tag, "TPE1", tags.artist.as_str());
    let ghost b = tag_frames(*tag);
    write_field(tag, "TALB", tags.album.as_str());
    let ghost c = tag_frames(*tag);
    write_field(tag, "TCON", tags.genre.as_str());
    let ghost d = tag_frames(*tag);
    match parse_i32(trim(tags.year.as_str()).as_str()) {
        Some(y) => {
            set_year(tag, y);
        },
        None => {
            remove_year(tag);
        },
    }
    let ghost e = tag_frames(*tag);
    match parse_u32(trim(tags.track.as_str()).as_str()) {
        Some(t) => {
            set_track(tag, t);
        },
        None => {
            remove_track(tag);
        },
    }
    assert(steps_written(before, a, b, c, d, e, tag_frames(*tag), tags@));
}

/// A frame has the identifier.
spec fn has_frame(frames: Seq<FrameModel>, id: Seq<char>) -> bool {
    exists|i: int| 0 <= i < frames.len() && (#[trigger] frames[i]).0 == id
}

proof fn lemma_text_of_push(frames: Seq<FrameModel>, x: FrameModel, id: Seq<char>)
    ensures
        text_of(frames.push(x), id) == if has_frame(frames, id) {
            text_of(frames, id)
        } else if x.0 == id {
            x.1
        } else {
            None
        },
        has_frame(frames.push(x), id) == (has_frame(frames, id) || x.0 == id),
    decreases frames.len(),
{
    let all = frames.push(x);
    if has_frame(frames, id) {
        let i = choose|i: int| 0 <= i < frames.len() && (#[trigger] frames[i]).0 == id;
        assert(all[i].0 == id);
    }
    assert(all[frames.len() as int] == x);
    if has_frame(all, id) {
        let i = choose|i: int| 0 <= i < all.len() && (#[trigger] all[i]).0 == id;
        if i < frames.len() {
            assert(frames[i].0 == id);
        }
    }
    if frames.len() == 0 {
        assert(all.drop_first() =~= Seq::<FrameModel>::empty());
        assert(text_of(all.drop_first(), id) is None);
    } else {
        let rest = frames.drop_first();
        lemma_text_of_push(rest, x, id);
        assert(all.drop_first() =~= rest.push(x));
        if frames[0].0 != id {
            if has_frame(frames, id) {
                let i = choose|i: int| 0 <= i < frames.len() && (#[trigger] frames[i]).0 == id;
                assert(rest[i - 1].0 == id);
            }
            if has_frame(rest, id) {
                let i = choose|i: int| 0 <= i < rest.len() && (#[trigger] rest[i]).0 == id;
                assert(frames[i + 1].0 == id);
            }
        }
    }
}

proof fn lemma_no_frame_no_text(frames: Seq<FrameModel>, id: Seq<char>)
    requires
        !has_frame(frames, id),
    ensures
        text_of(frames, id) is None,
    decreases frames.len(),
{
    if frames.len() > 0 {
        assert(frames[0].0 != id);
        let rest = frames.drop_first();
        assert forall|i: int| 0 <= i < rest.len() implies (#[trigger] rest[i]).0 != id by {
            assert(rest[i] == frames[i + 1]);
        }
        lemma_no_frame_no_text(rest, id);
    }
}

proof fn lemma_others(frames: Seq<FrameModel>, id: Seq<char>, other: Seq<char>)
    ensures
        !has_frame(others(frames, id), id),
        other != id ==> has_frame(others(frames, id), other) == has_frame(frames, other),
        other != id ==> text_of(others(frames, id), other) == text_of(frames, other),
        single_text(frames, other) ==> single_text(others(frames, id), other),
    decreases frames.len(),
{
    if frames.len() > 0 {
        let rest = frames.drop_last();
        let x = frames.last();
        lemma_others(rest, id, other);
        assert(frames =~= rest.push(x));
        lemma_text_of_push(rest, x, other);
        lemma_text_of_push(others(rest, id), x, other);
        lemma_text_of_push(others(rest, id), x, id);
        if other != id && !has_frame(rest, other) {
            lemma_no_frame_no_text(rest, other);
            lemma_no_frame_no_text(others(rest, id), other);
        }
        if single_text(frames, other) {
            lemma_single_prefix(rest, x, other);
            let o = others(rest, id);
            if x.0 != id {
                if x.0 == other {
                    assert(!has_frame(rest, other)) by {
                        if has_frame(rest, other) {
                            let i = choose|i: int|
                                0 <= i < rest.len() && (#[trigger] rest[i]).0 == other;
                            assert(frames[i].0 == other);
                            assert(frames[rest.len() as int].0 == other);
                        }
                    }
                    assert(!has_frame(o, other));
                    assert(frames[rest.len() as int].1 is Some);
                }
                lemma_single_push(o, x, other);
            }
        }
    }
}

proof fn lemma_single_prefix(frames: Seq<FrameModel>, x: FrameModel, id: Seq<char>)
    requires
        single_text(frames.push(x), id),
    ensures
        single_text(frames, id),
{
    let all = frames.push(x);
    assert forall|i: int, j: int|
        0 <= i < frames.len() && 0 <= j < frames.len() && #[trigger] frames[i].0 == id
            && #[trigger] frames[j].0 == id implies i == j by {
        assert(all[i].0 == id && all[j].0 == id);
    }
    assert forall|i: int| 0 <= i < frames.len() && (#[trigger] frames[i]).0 == id implies
        frames[i].1 is Some by {
        assert(all[i].0 == id);
    }
}

proof fn lemma_single_push(frames: Seq<FrameModel>, x: FrameModel, id: Seq<char>)
    requires
        single_text(frames, id),
        x.0 == id ==> x.1 is Some && !has_frame(frames, id),
    ensures
        single_text(frames.push(x), id),
{
    let all = frames.push(x);
    assert forall|i: int, j: int|
        0 <= i < all.len() && 0 <= j < all.len() && #[trigger] all[i].0 == id
            && #[trigger] all[j].0 == id implies i == j by {
        if i < frames.len() {
            assert(frames[i].0 == id);
        }
        if j < frames.len() {
            assert(frames[j].0 == id);
        }
    }
    assert forall|i: int| 0 <= i < all.len() && (#[trigger] all[i]).0 == id implies
        all[i].1 is Some by {
        if i < frames.len() {
            assert(frames[i].0 == id);
        }
    }
}

/// The frames after one field was cleared or set.
spec fn stepped(frames: Seq<FrameModel>, id: Seq<char>, text: Option<Seq<char>>) -> Seq<
    FrameModel,
> {
    match text {
        None => others(frames, id),
        Some(_) => others(frames, id).push((id, text)),
    }
}

proof fn lemma_step(
    frames: Seq<FrameModel>,
    id: Seq<char>,
    text: Option<Seq<char>>,
    other: Seq<char>,
)
    requires
        single_text(frames, other),
    ensures
        single_text(stepped(frames, id, text), other),
        text_of(stepped(frames, id, text), other) == if other == id {
            text
        } else {
            text_of(frames, other)
        },
{
    lemma_others(frames, id, other);
    let o = others(frames, id);
    match text {
        None => {
            if other == id {
                lemma_no_frame_no_text(o, id);
            }
        },
        Some(_) => {
            lemma_text_of_push(o, (id, text), other);
            lemma_single_push(o, (id, text), other);
            if other != id && !has_frame(o, other) {
                lemma_no_frame_no_text(o, other);
            }
        },
    }
}

/// The six identifiers of the fields have at most one text frame each.
pub open spec fn ordinary(frames: Seq<FrameModel>) -> bool {
    &&& single_text(frames, "TIT2"@)
    &&& single_text(frames, "TPE1"@)
    &&& single_text(frames, "TALB"@)
    &&& single_text(frames, "TCON"@)
    &&& single_text(frames, "TYER"@)
    &&& single_text(frames, "TRCK"@)
}

/// The fields as they read back once written: text without the blanks around it,
/// and numbers in their plain form. A field that is no number reads back empty,
/// and so does the year nought.
pub open spec fn read_back(tags: TagsModel) -> TagsModel {
    TagsModel {
        title: trimmed(tags.title),
        artist: trimmed(tags.artist),
        album: trimmed(tags.album),
        year: match i32_in(trimmed(tags.year)) {
            Some(y) if y != 0 => signed_text(y as int),
            _ => Seq::empty(),
        },
        track: match u32_in(trimmed(tags.track)) {
            Some(t) => dec(t as nat),
            None => Seq::empty(),
        },
        genre: trimmed(tags.genre),
    }
}

proof fn lemma_ids()
    ensures
        "TIT2"@ != "TPE1"@,
        "TIT2"@ != "TALB"@,
        "TIT2"@ != "TCON"@,
        "TIT2"@ != "TYER"@,
        "TIT2"@ != "TRCK"@,
        "TPE1"@ != "TALB"@,
        "TPE1"@ != "TCON"@,
        "TPE1"@ != "TYER"@,
        "TPE1"@ != "TRCK"@,
        "TALB"@ != "TCON"@,
        "TALB"@ != "TYER"@,
        "TALB"@ != "TRCK"@,
        "TCON"@ != "TYER"@,
        "TCON"@ != "TRCK"@,
        "TYER"@ != "TRCK"@,
{
    reveal_strlit("TIT2");
    reveal_strlit("TPE1");
    reveal_strlit("TALB");
    reveal_strlit("TCON");
    reveal_strlit("TYER");
    reveal_strlit("TRCK");
    assert("TIT2"@[1] == 'I');
    assert("TPE1"@[1] == 'P');
    assert("TALB"@[1] == 'A');
    assert("TCON"@[1] == 'C');
    assert("TYER"@[1] == 'Y');
    assert("TRCK"@[1] == 'R');
}

proof fn lemma_all_step(frames: Seq<FrameModel>, id: Seq<char>, text: Option<Seq<char>>)
    requires
        ordinary(frames),
    ensures
        ordinary(stepped(frames, id, text)),
{
    lemma_step(frames, id, text, "TIT2"@);
    lemma_step(frames, id, text, "TPE1"@);
    lemma_step(frames, id, text, "TALB"@);
    lemma_step(frames, id, text, "TCON"@);
    lemma_step(frames, id, text, "TYER"@);
    lemma_step(frames, id, text, "TRCK"@);
}

proof fn lemma_leading_zeros(k: nat, s: Seq<char>)
    ensures
        ({
            let zeros = Seq::new(k, |i: int| '0');
            &&& crate::text::digits_value(zeros + s) == crate::text::digits_value(s)
            &&& crate::text::all_digits(s) ==> crate::text::all_digits(zeros + s)
        }),
    decreases s.len(),
{
    let zeros = Seq::new(k, |i: int| '0');
    let all = zeros + s;
    if s.len() == 0 {
        assert(all =~= zeros);
        lemma_zeros_value(k);
    } else {
        lemma_leading_zeros(k, s.drop_last());
        assert(all.drop_last() =~= zeros + s.drop_last());
        assert(all.last() == s.last());
    }
    if crate::text::all_digits(s) {
        assert forall|i: int| 0 <= i < all.len() implies crate::text::is_digit(
            #[trigger] all[i],
        ) by {
            if i >= k {
                assert(all[i] == s[i - k]);
            }
        }
    }
}

proof fn lemma_zeros_value(k: nat)
    ensures
        crate::text::digits_value(Seq::new(k, |i: int| '0')) == 0,
    decreases k,
{
    let zeros = Seq::new(k, |i: int| '0');
    if k > 0 {
        lemma_zeros_value((k - 1) as nat);
        assert(zeros.drop_last() =~= Seq::new((k - 1) as nat, |i: int| '0'));
    }
}

proof fn lemma_skip_zeros(k: nat, s: Seq<char>)
    requires
        s.len() == 0 || s[0] != '0',
    ensures
        without_zeros(Seq::new(k, |i: int| '0') + s) == s,
    decreases k,
{
    let zeros = Seq::new(k, |i: int| '0');
    if k > 0 {
        lemma_skip_zeros((k - 1) as nat, s);
        assert((zeros + s).drop_first() =~= Seq::new((k - 1) as nat, |i: int| '0') + s);
    } else {
        assert(zeros + s =~= s);
    }
}

proof fn lemma_leading_digit(n: nat)
    requires
        n > 0,
    ensures
        dec(n).len() > 0,
        dec(n)[0] != '0',
    decreases n,
{
    crate::text::lemma_dec_digits(n);
    if n >= 10 {
        lemma_leading_digit(n / 10);
        assert(dec(n)[0] == dec(n / 10)[0]);
    }
}

proof fn lemma_year_reads_back(y: i32)
    ensures
        i32_in(without_zeros(year_text(y))) == if y == 0 {
            None
        } else {
            Some(y)
        },
{
    if y > 0 {
        let d = dec(y as nat);
        lemma_leading_digit(y as nat);
        lemma_dec_reads_back(y as nat);
        let k = if d.len() < 4 {
            (4 - d.len()) as nat
        } else {
            0nat
        };
        let zeros = Seq::new(k, |i: int| '0');
        assert(year_text(y) =~= zeros + d);
        lemma_skip_zeros(k, d);
        assert(crate::text::is_digit(d[0]));
    } else if y < 0 {
        let n = (-y) as nat;
        let d = dec(n);
        lemma_dec_reads_back(n);
        let k = if d.len() < 3 {
            (3 - d.len()) as nat
        } else {
            0nat
        };
        let zeros = Seq::new(k, |i: int| '0');
        lemma_leading_zeros(k, d);
        let t = year_text(y);
        assert(t.drop_first() =~= zeros + d);
        assert(t[0] == '-');
        assert(without_zeros(t) == t);
    } else {
        let none = Seq::<char>::empty();
        assert(dec(0) == seq!['0']);
        assert(year_text(0) =~= Seq::new(4, |i: int| '0') + none);
        lemma_skip_zeros(4, none);
    }
}

proof fn lemma_pair_split(s: Seq<char>, i: int, k: int)
    requires
        0 <= i <= k <= s.len(),
        forall|j: int| i <= j < k ==> (#[trigger] s[j]) != '/' && s[j] as u32 != 0,
        k < s.len() ==> s[k] == '/',
    ensures
        pair_split(s, i) == k,
    decreases k - i,
{
    if i < k {
        assert(s[i] != '/');
        lemma_pair_split(s, i + 1, k);
    }
}

proof fn lemma_track_reads_back(track: u32, total: Option<u32>)
    ensures
        ({
            let text = match total {
                Some(n) => dec(track as nat) + "/"@ + dec(n as nat),
                None => dec(track as nat),
            };
            number_pair(text) == Some((track, total))
        }),
{
    let d = dec(track as nat);
    lemma_dec_reads_back(track as nat);
    assert(crate::text::is_digit(d[0]));
    let text = match total {
        Some(n) => d + "/"@ + dec(n as nat),
        None => d,
    };
    reveal_strlit("/");
    let k = d.len() as int;
    assert forall|j: int| 0 <= j < k implies (#[trigger] text[j]) != '/' && text[j] as u32 != 0 by {
        assert(text[j] == d[j]);
        assert(crate::text::is_digit(d[j]));
    }
    lemma_pair_split(text, 0, k);
    assert(text.take(k) =~= d);
    if let Some(n) = total {
        let t = dec(n as nat);
        lemma_dec_reads_back(n as nat);
        assert(crate::text::is_digit(t[0]));
        assert(text.skip(k + 1) =~= t);
    }
}

/// What is written reads back: on a tag that has at most one text frame for each
/// field, the fields read after a write are those that were written.
pub proof fn law_written_tags_read_back(
    before: Seq<FrameModel>,
    after: Seq<FrameModel>,
    tags: TagsModel,
)
    requires
        ordinary(before),
        fields_written(before, after, tags),
    ensures
        fields_of(after) == read_back(tags),
        ordinary(after),
{
    lemma_ids();
    let (a, b, c, d, e) = choose|
        a: Seq<FrameModel>,
        b: Seq<FrameModel>,
        c: Seq<FrameModel>,
        d: Seq<FrameModel>,
        e: Seq<FrameModel>,
    | #[trigger] steps_written(before, a, b, c, d, e, after, tags);
    let title = some_text(tags.title);
    let artist = some_text(tags.artist);
    let album = some_text(tags.album);
    let genre = some_text(tags.genre);
    let year = match i32_in(trimmed(tags.year)) {
        Some(y) => Some(year_text(y)),
        None => None,
    };
    let track = match u32_in(trimmed(tags.track)) {
        Some(t) => Some(track_text(e, t)),
        None => None,
    };
    assert(a == stepped(before, "TIT2"@, title));
    lemma_all_step(before, "TIT2"@, title);
    assert(b == stepped(a, "TPE1"@, artist));
    lemma_all_step(a, "TPE1"@, artist);
    assert(c == stepped(b, "TALB"@, album));
    lemma_all_step(b, "TALB"@, album);
    assert(d == stepped(c, "TCON"@, genre));
    lemma_all_step(c, "TCON"@, genre);
    assert(e == stepped(d, "TYER"@, year));
    lemma_all_step(d, "TYER"@, year);
    assert(after == stepped(e, "TRCK"@, track));
    lemma_all_step(e, "TRCK"@, track);
    lemma_step(before, "TIT2"@, title, "TIT2"@);
    lemma_step(a, "TPE1"@, artist, "TIT2"@);
    lemma_step(b, "TALB"@, album, "TIT2"@);
    lemma_step(c, "TCON"@, genre, "TIT2"@);
    lemma_step(d, "TYER"@, year, "TIT2"@);
    lemma_step(e, "TRCK"@, track, "TIT2"@);
    lemma_step(a, "TPE1"@, artist, "TPE1"@);
    lemma_step(b, "TALB"@, album, "TPE1"@);
    lemma_step(c, "TCON"@, genre, "TPE1"@);
    lemma_step(d, "TYER"@, year, "TPE1"@);
    lemma_step(e, "TRCK"@, track, "TPE1"@);
    lemma_step(b, "TALB"@, album, "TALB"@);
    lemma_step(c, "TCON"@, genre, "TALB"@);
    lemma_step(d, "TYER"@, year, "TALB"@);
    lemma_step(e, "TRCK"@, track, "TALB"@);
    lemma_step(c, "TCON"@, genre, "TCON"@);
    lemma_step(d, "TYER"@, year, "TCON"@);
    lemma_step(e, "TRCK"@, track, "TCON"@);
    lemma_step(d, "TYER"@, year, "TYER"@);
    lemma_step(e, "TRCK"@, track, "TYER"@);
    lemma_step(e, "TRCK"@, track, "TRCK"@);
    if let Some(y) = i32_in(trimmed(tags.year)) {
        lemma_year_reads_back(y);
    }
    if let Some(t) = u32_in(trimmed(tags.track)) {
        lemma_track_reads_back(
            t,
            match track_pair(e) {
                Some((_, total)) => total,
                None => None,
            },
        );
    }
    assert(fields_of(after) =~= read_back(tags));
}

/// A field's text, unless it is blank.
spec fn some_text(value: Seq<char>) -> Option<Seq<char>> {
    if trimmed(value).len() == 0 {
        None
    } else {
        Some(trimmed(value))
    }
}

/// The text that is read for an identifier is that of the first frame with it.
pub proof fn law_the_first_frame_is_read(frames: Seq<FrameModel>, id: Seq<char>, i: int)
    requires
        0 <= i < frames.len(),
        frames[i].0 == id,
        forall|k: int| 0 <= k < i ==> (#[trigger] frames[k]).0 != id,
    ensures
        text_of(frames, id) == frames[i].1,
    decreases i,
{
    if i > 0 {
        assert(frames[0].0 != id);
        let rest = frames.drop_first();
        assert forall|k: int| 0 <= k < i - 1 implies (#[trigger] rest[k]).0 != id by {
            assert(rest[k] == frames[k + 1]);
        }
        law_the_first_frame_is_read(rest, id, i - 1);
    }
}

/// Each field is read from its own frame: the title from `TIT2`, the artist from
/// `TPE1`, the album from `TALB`, the genre from `TCON`, the year from `TYER` and the
/// track from `TRCK`; a frame that is not there is an empty field.
pub proof fn law_fields_are_read_from_their_frames(frames: Seq<FrameModel>)
    ensures
        text_of(frames, "TIT2"@) matches Some(t) ==> fields_of(frames).title == t,
        text_of(frames, "TPE1"@) matches Some(t) ==> fields_of(frames).artist == t,
        text_of(frames, "TALB"@) matches Some(t) ==> fields_of(frames).album == t,
        text_of(frames, "TCON"@) matches Some(t) ==> fields_of(frames).genre == t,
        text_of(frames, "TIT2"@) is None ==> fields_of(frames).title.len() == 0,
        text_of(frames, "TPE1"@) is None ==> fields_of(frames).artist.len() == 0,
        text_of(frames, "TALB"@) is None ==> fields_of(frames).album.len() == 0,
        text_of(frames, "TCON"@) is None ==> fields_of(frames).genre.len() == 0,
        text_of(frames, "TYER"@) is None ==> fields_of(frames).year.len() == 0,
        text_of(frames, "TRCK"@) is None ==> fields_of(frames).track.len() == 0,
{
}

/// Written fields stand in their own frames, trimmed; a blank one has no frame.
pub proof fn law_fields_are_written_to_their_frames(
    before: Seq<FrameModel>,
    after: Seq<FrameModel>,
    tags: TagsModel,
)
    requires
        ordinary(before),
        fields_written(before, after, tags),
    ensures
        or_empty(text_of(after, "TIT2"@)) == trimmed(tags.title),
        or_empty(text_of(after, "TPE1"@)) == trimmed(tags.artist),
        or_empty(text_of(after, "TALB"@)) == trimmed(tags.album),
        or_empty(text_of(after, "TCON"@)) == trimmed(tags.genre),
{
    law_written_tags_read_back(before, after, tags);
}

/// A track may be followed by a slash and the number of tracks: both are read, and
/// writing another track keeps the number of tracks.
pub proof fn law_a_track_keeps_its_total(
    frames: Seq<FrameModel>,
    track: u32,
    total: u32,
    next: u32,
)
    requires
        text_of(frames, "TRCK"@) == Some(dec(track as nat) + "/"@ + dec(total as nat)),
    ensures
        track_pair(frames) == Some((track, Some(total))),
        track_text(frames, next) == dec(next as nat) + "/"@ + dec(total as nat),
        fields_of(frames).track == dec(track as nat),
{
    lemma_track_reads_back(track, Some(total));
}

/// A year is written in four characters at least, with a minus sign in front where it
/// is before the first.
pub proof fn law_years_have_four_characters(y: i32)
    ensures
        year_text(y).len() >= 4,
        y < 0 ==> year_text(y)[0] == '-',
        y >= 1000 ==> year_text(y) == dec(y as nat),
        0 <= y < 1000 ==> year_text(y).len() == 4 && year_text(y)[0] == '0',
{
    if y >= 0 {
        let n = y as nat;
        lemma_digit_count(n);
        crate::text::law_padding_puts_zeros_in_front(dec(n), 4);
    } else {
        crate::text::law_padding_puts_zeros_in_front(dec((-y) as nat), 3);
    }
}

proof fn lemma_digit_count(n: nat)
    ensures
        n < 10 ==> dec(n).len() == 1,
        10 <= n < 100 ==> dec(n).len() == 2,
        100 <= n < 1000 ==> dec(n).len() == 3,
        n >= 1000 ==> dec(n).len() >= 4,
    decreases n,
{
    if n >= 10 {
        lemma_digit_count(n / 10);
    }
}

/// The frames of other identifiers stay, in order, and all of the identifier go.
pub proof fn law_other_frames_stay(frames: Seq<FrameModel>, id: Seq<char>)
    ensures
        picks(frames, others(frames, id), |f: FrameModel| f.0 != id, |f: FrameModel| f),
    decreases frames.len(),
{
    let keep = |f: FrameModel| f.0 != id;
    let give = |f: FrameModel| f;
    if frames.len() == 0 {
        lemma_picks_nothing(frames, others(frames, id), keep, give);
    } else {
        let part = frames.drop_last();
        law_other_frames_stay(part, id);
        lemma_picks_last(frames, others(part, id), others(frames, id), keep, give);
    }
}

} // verus!
