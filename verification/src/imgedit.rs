//! 90-degree rotation and mirroring of images, the name of the copy that a
//! turned image is saved under, and the plan of a save.

use image::DynamicImage;
use vstd::prelude::*;
use vstd::string::*;

use crate::naming::{free_number, is_taken, law_a_free_name_is_found, no_repeats};
use crate::text::{
    copy, dec, decimal, lemma_dec_digits, lemma_dec_injective, same_text, views,
};

verus! {

/// A decoded image.
#[verifier::external_type_specification]
#[verifier::external_body]
pub struct ExDynamicImage(image::DynamicImage);

/// An image's width and height.
pub uninterp spec fn image_size(img: image::DynamicImage) -> (nat, nat);

/// The pixels of an image by column and row, each as a number that stands for its
/// channels.
pub uninterp spec fn image_pixels(img: image::DynamicImage) -> Map<(int, int), int>;

/// A single 90-degree rotation or mirror of an image.
#[derive(Clone, Copy, PartialEq, Eq, Debug, Structural)]
pub enum Orient {
    RotateCw,
    FlipH,
}

/// Which modified time a saved file carries.
#[derive(Clone, Copy, PartialEq, Eq, Debug, Structural)]
pub enum SavedTime {
    /// Keep the original file's modified time.
    Original,
    /// Stamp an explicit time, in milliseconds since the epoch.
    At(i64),
}

/// JPEG re-encode quality for edited saves.
pub const JPEG_QUALITY: u8 = 95;

/// What `ImageFormat::from_path` of the `image` crate makes of a file name: the MIME
/// type of the format, or the text of the error.
pub uninterp spec fn named_format(file_name: Seq<char>) -> Result<Seq<char>, Seq<char>>;

/// A name that is one part of a path: not blank, and without what separates parts.
pub open spec fn is_bare_name(name: Seq<char>) -> bool {
    &&& name.len() > 0
    &&& forall|i: int|
        0 <= i < name.len() ==> #[trigger] name[i] != '/' && name[i] != '\\' && name[i] != ':'
}

/// What stands behind the last dot at or before `i`, the first character aside.
pub open spec fn behind_dot(name: Seq<char>, i: int) -> Option<Seq<char>>
    decreases i,
{
    if i <= 0 {
        None
    } else if name[i] == '.' {
        Some(name.skip(i + 1))
    } else {
        behind_dot(name, i - 1)
    }
}

/// The extension of a bare name.
pub open spec fn extension(name: Seq<char>) -> Option<Seq<char>> {
    if name == ".."@ {
        None
    } else {
        behind_dot(name, name.len() - 1)
    }
}

/// A text with its ASCII letters in lower case.
pub open spec fn ascii_lower(s: Seq<char>) -> Seq<char> {
    Seq::new(
        s.len(),
        |i: int|
            if 'A' <= s[i] <= 'Z' {
                (s[i] as int + 32) as char
            } else {
                s[i]
            },
    )
}

/// The extensions of JPEG files.
pub open spec fn is_jpeg_extension(ext: Seq<char>) -> bool {
    ext == "jpg"@ || ext == "jpeg"@ || ext == "jfif"@
}

/// The extensions of the other image formats.
pub open spec fn is_other_extension(ext: Seq<char>) -> bool {
    ||| ext == "avif"@ || ext == "png"@ || ext == "apng"@ || ext == "gif"@ || ext == "webp"@
    ||| ext == "tif"@ || ext == "tiff"@ || ext == "tga"@ || ext == "dds"@ || ext == "bmp"@
    ||| ext == "ico"@ || ext == "hdr"@ || ext == "exr"@ || ext == "pbm"@ || ext == "pam"@
    ||| ext == "ppm"@ || ext == "pgm"@ || ext == "pnm"@ || ext == "ff"@ || ext == "qoi"@
}

/// What the extension of a bare name says of the format: JPEG, another one, or
/// none that is known.
pub open spec fn jpeg_by_extension(name: Seq<char>) -> Option<bool> {
    match extension(name) {
        None => None,
        Some(ext) => if is_jpeg_extension(ascii_lower(ext)) {
            Some(true)
        } else if is_other_extension(ascii_lower(ext)) {
            Some(false)
        } else {
            None
        },
    }
}

/// The texts of a result.
pub open spec fn text_result(r: Result<String, String>) -> Result<Seq<char>, Seq<char>> {
    match r {
        Ok(s) => Ok(s@),
        Err(e) => Err(e@),
    }
}

/// The format is the one that the name's extension says.
pub open spec fn format_by_extension(
    name: Seq<char>,
    format: Result<Seq<char>, Seq<char>>,
) -> bool {
    match jpeg_by_extension(name) {
        Some(jpeg) => format matches Ok(mime) && (mime == "image/jpeg"@) == jpeg,
        None => {
            &&& format is Err
            &&& extension(name) is None ==> format == Err::<Seq<char>, Seq<char>>(
                "The image format could not be determined"@,
            )
        },
    }
}

/// `ImageFormat::from_path` of the `image` crate, which looks at the name alone; a
/// format is handed on by its MIME type, `ImageFormat::to_mime_type`, and an error
/// by its text. Trusted to depend on nothing else and, of a bare name, to know the
/// formats by the extension in lower case, JPEG as `image/jpeg`. The text of the
/// error is stated where there is no extension.
#[verifier::external_body]
fn format_from_name(file_name: &str) -> (r: Result<String, String>)
    ensures
        text_result(r) == named_format(file_name@),
        is_bare_name(file_name@) ==> format_by_extension(file_name@, text_result(r)),
{
    match image::ImageFormat::from_path(file_name) {
        Ok(format) => Ok(format.to_mime_type().to_string()),
        Err(e) => Err(e.to_string()),
    }
}

/// How the pixels of an edited image are written.
#[derive(Clone, Copy, PartialEq, Eq, Debug, Structural)]
pub enum Encoding {
    /// As JPEG, at this quality.
    Jpeg(u8),
    /// In the format that the name says.
    AsNamed,
}

/// How an image of this format is written; an error is handed on.
pub open spec fn encoding_for(format: Result<Seq<char>, Seq<char>>) -> Result<
    Encoding,
    Seq<char>,
> {
    match format {
        Err(e) => Err(e),
        Ok(mime) => if mime == "image/jpeg"@ {
            Ok(Encoding::Jpeg(JPEG_QUALITY))
        } else {
            Ok(Encoding::AsNamed)
        },
    }
}

/// An encoding, or the text of why there is none.
pub open spec fn encoding_result(r: Result<Encoding, String>) -> Result<Encoding, Seq<char>> {
    match r {
        Ok(encoding) => Ok(encoding),
        Err(e) => Err(e@),
    }
}

/// How an image is written, given its format by its MIME type; an error is handed
/// on.
pub fn choose_encoding(format: Result<String, String>) -> (r: Result<Encoding, String>)
    ensures
        encoding_result(r) == encoding_for(text_result(format)),
{
    match format {
        Err(e) => Err(e),
        Ok(mime) => if same_text(mime.as_str(), "image/jpeg") {
            Ok(Encoding::Jpeg(JPEG_QUALITY))
        } else {
            Ok(Encoding::AsNamed)
        },
    }
}

/// Of a bare name, the extension decides: JPEG is written at the library's quality,
/// another known format as it is, and everything else is refused.
pub open spec fn encoding_by_extension(
    name: Seq<char>,
    encoding: Result<Encoding, Seq<char>>,
) -> bool {
    is_bare_name(name) ==> match jpeg_by_extension(name) {
        Some(true) => encoding == Ok::<Encoding, Seq<char>>(Encoding::Jpeg(JPEG_QUALITY)),
        Some(false) => encoding == Ok::<Encoding, Seq<char>>(Encoding::AsNamed),
        None => {
            &&& encoding is Err
            &&& extension(name) is None ==> encoding == Err::<Encoding, Seq<char>>(
                "The image format could not be determined"@,
            )
        },
    }
}

/// How an image of this file name is written, or why it cannot be.
pub fn encoding_of(file_name: &str) -> (r: Result<Encoding, String>)
    ensures
        encoding_result(r) == encoding_for(named_format(file_name@)),
        encoding_by_extension(file_name@, encoding_result(r)),
{
    choose_encoding(format_from_name(file_name))
}

/// `DynamicImage::rotate90` of the `image` crate: a clockwise quarter turn.
/// Trusted to swap width and height and to put at column `x` and row `y` the pixel
/// from column `y` and row `height - 1 - x`.
#[verifier::external_body]
fn rotate90(img: &DynamicImage) -> (r: DynamicImage)
    ensures
        image_size(r) == (image_size(*img).1, image_size(*img).0),
        forall|x: int, y: int|
            0 <= x < image_size(*img).1 && 0 <= y < image_size(*img).0
                ==> #[trigger] image_pixels(r)[(x, y)] == image_pixels(*img)[(
                y,
                image_size(*img).1 - 1 - x,
            )],
{
    img.rotate90()
}

/// `DynamicImage::fliph` of the `image` crate: a mirror image, left for right.
/// Trusted to keep the size and to put at column `x` the pixel from column
/// `width - 1 - x` of the same row.
#[verifier::external_body]
fn fliph(img: &DynamicImage) -> (r: DynamicImage)
    ensures
        image_size(r) == image_size(*img),
        forall|x: int, y: int|
            0 <= x < image_size(*img).0 && 0 <= y < image_size(*img).1
                ==> #[trigger] image_pixels(r)[(x, y)] == image_pixels(*img)[(
                image_size(*img).0 - 1 - x,
                y,
            )],
{
    img.fliph()
}

/// The size of an image after some operations.
pub open spec fn turned_size(size: (nat, nat), ops: Seq<Orient>) -> (nat, nat)
    decreases ops.len(),
{
    if ops.len() == 0 {
        size
    } else {
        let (w, h) = turned_size(size, ops.drop_last());
        match ops.last() {
            Orient::RotateCw => (h, w),
            Orient::FlipH => (w, h),
        }
    }
}

/// Where in the original the pixel at column `x` and row `y` comes from after
/// some operations.
pub open spec fn turned_from(size: (nat, nat), ops: Seq<Orient>, x: int, y: int) -> (int, int)
    decreases ops.len(),
{
    if ops.len() == 0 {
        (x, y)
    } else {
        let rest = ops.drop_last();
        let (w, h) = turned_size(size, rest);
        match ops.last() {
            Orient::RotateCw => turned_from(size, rest, y, h - 1 - x),
            Orient::FlipH => turned_from(size, rest, w - 1 - x, y),
        }
    }
}

/// Applies operations to an image, in order.
pub fn apply_ops(img: DynamicImage, ops: &[Orient]) -> (r: DynamicImage)
    ensures
        image_size(r) == turned_size(image_size(img), ops@),
        forall|x: int, y: int|
            0 <= x < image_size(r).0 && 0 <= y < image_size(r).1 ==> #[trigger] image_pixels(r)[(
                x,
                y,
            )] == image_pixels(img)[turned_from(image_size(img), ops@, x, y)],
{
    let ghost size = image_size(img);
    let ghost pixels = image_pixels(img);
    let mut out = img;
    let mut i: usize = 0;
    while i < ops.len()
        invariant
            i <= ops@.len(),
            image_size(out) == turned_size(size, ops@.take(i as int)),
            forall|x: int, y: int|
                0 <= x < image_size(out).0 && 0 <= y < image_size(out).1
                    ==> #[trigger] image_pixels(out)[(x, y)] == pixels[turned_from(
                    size,
                    ops@.take(i as int),
                    x,
                    y,
                )],
        decreases ops@.len() - i,
    {
        proof {
            assert(ops@.take(i + 1).drop_last() =~= ops@.take(i as int));
            assert(ops@.take(i + 1).last() == ops@[i as int]);
        }
        out = match ops[i] {
            Orient::RotateCw => rotate90(&out),
            Orient::FlipH => fliph(&out),
        };
        i += 1;
    }
    assert(ops@.take(i as int) =~= ops@);
    out
}

/// Two mirrors cancel: the size is the same and every pixel is where it was.
pub proof fn law_two_mirrors_cancel(size: (nat, nat), x: int, y: int)
    requires
        0 <= x < size.0,
        0 <= y < size.1,
    ensures
        turned_size(size, seq![Orient::FlipH, Orient::FlipH]) == size,
        turned_from(size, seq![Orient::FlipH, Orient::FlipH], x, y) == (x, y),
{
    let two = seq![Orient::FlipH, Orient::FlipH];
    let one = two.drop_last();
    assert(one =~= seq![Orient::FlipH]);
    assert(one.drop_last() =~= Seq::<Orient>::empty());
    reveal_with_fuel(turned_size, 3);
    reveal_with_fuel(turned_from, 3);
}

/// Four quarter turns come back to the start.
pub proof fn law_four_quarter_turns_cancel(size: (nat, nat), x: int, y: int)
    requires
        0 <= x < size.0,
        0 <= y < size.1,
    ensures
        ({
            let r = Orient::RotateCw;
            &&& turned_size(size, seq![r, r, r, r]) == size
            &&& turned_from(size, seq![r, r, r, r], x, y) == (x, y)
        }),
{
    let r = Orient::RotateCw;
    let four = seq![r, r, r, r];
    let three = four.drop_last();
    let two = three.drop_last();
    let one = two.drop_last();
    assert(one.drop_last() =~= Seq::<Orient>::empty());
    reveal_with_fuel(turned_size, 5);
    reveal_with_fuel(turned_from, 5);
}

/// Operations only move pixels: the pixel shown at a place inside the result
/// comes from a place inside the original.
pub proof fn law_pixels_come_from_the_image(size: (nat, nat), ops: Seq<Orient>, x: int, y: int)
    requires
        0 <= x < turned_size(size, ops).0,
        0 <= y < turned_size(size, ops).1,
    ensures
        0 <= turned_from(size, ops, x, y).0 < size.0,
        0 <= turned_from(size, ops, x, y).1 < size.1,
    decreases ops.len(),
{
    if ops.len() > 0 {
        let rest = ops.drop_last();
        let (w, h) = turned_size(size, rest);
        match ops.last() {
            Orient::RotateCw => {
                law_pixels_come_from_the_image(size, rest, y, h - 1 - x);
            },
            Orient::FlipH => {
                law_pixels_come_from_the_image(size, rest, w - 1 - x, y);
            },
        }
    }
}

/// The part of a copy's name between the stem and the extension.
pub open spec fn copy_suffix(n: nat) -> Seq<char> {
    if n == 0 {
        "_rot"@
    } else {
        "_rot_"@ + dec(n)
    }
}

/// The `n`-th name tried for a copy of a file with this stem and extension.
pub open spec fn copy_name(stem: Seq<char>, ext: Option<Seq<char>>, n: nat) -> Seq<char> {
    stem + copy_suffix(n) + match ext {
        Some(e) => "."@ + e,
        None => ""@,
    }
}

/// The names tried for a copy.
pub open spec fn copy_series(stem: Seq<char>, ext: Option<Seq<char>>) -> spec_fn(nat) -> Seq<char> {
    |n: nat| copy_name(stem, ext, n)
}

proof fn lemma_copy_series(stem: Seq<char>, ext: Option<Seq<char>>)
    ensures
        no_repeats(copy_series(stem, ext), 0),
{
    let series = copy_series(stem, ext);
    let tail = match ext {
        Some(e) => "."@ + e,
        None => ""@,
    };
    assert forall|a: nat, b: nat| #[trigger] series(a) == #[trigger] series(b) implies a == b by {
        let n = stem.len() as int;
        let x = copy_name(stem, ext, a);
        let y = copy_name(stem, ext, b);
        assert(copy_suffix(a) =~= x.subrange(n, x.len() - tail.len()));
        assert(copy_suffix(b) =~= y.subrange(n, y.len() - tail.len()));
        reveal_strlit("_rot");
        reveal_strlit("_rot_");
        lemma_dec_digits(a);
        lemma_dec_digits(b);
        if a > 0 && b > 0 {
            assert(dec(a) =~= copy_suffix(a).skip(5));
            assert(dec(b) =~= copy_suffix(b).skip(5));
            lemma_dec_injective(a, b);
        }
    }
}

fn copy_name_text(stem: &str, ext: Option<&str>, n: u128) -> (r: String)
    ensures
        r@ == copy_name(
            stem@,
            match ext {
                Some(e) => Some(e@),
                None => None,
            },
            n as nat,
        ),
{
    let mut s = copy(stem);
    if n == 0 {
        s.append("_rot");
    } else {
        s.append("_rot_");
        s.append(decimal(n).as_str());
    }
    match ext {
        Some(e) => {
            s.append(".");
            s.append(e);
        },
        None => {
            s.append("");
        },
    }
    assert(s@ =~= copy_name(
        stem@,
        match ext {
            Some(e) => Some(e@),
            None => None,
        },
        n as nat,
    ));
    s
}

/// The name of a copy of a file, given its stem and extension and the names that
/// exist in its directory: the stem with `_rot`, or else with `_rot_1`, `_rot_2`
/// and so on, the first that does not exist. A saved copy never overwrites a file.
pub fn copy_path(stem: Option<&str>, ext: Option<&str>, taken: &Vec<String>) -> (r: String)
    ensures
        ({
            let s = match stem {
                Some(t) => t@,
                None => "image"@,
            };
            let e = match ext {
                Some(t) => Some(t@),
                None => None,
            };
            let names = views(taken@);
            r@ == copy_name(s, e, free_number(names, copy_series(s, e), 0, names.len()))
        }),
        !views(taken@).contains(r@),
{
    let stem_text = match stem {
        Some(t) => t,
        None => "image",
    };
    let ghost e = match ext {
        Some(t) => Some(t@),
        None => None,
    };
    let ghost names = views(taken@);
    let ghost series = copy_series(stem_text@, e);
    let mut n: u128 = 0;
    let mut tries: usize = taken.len();
    let mut name = copy_name_text(stem_text, ext, n);
    while tries > 0 && is_taken(taken, &name)
        invariant
            names == views(taken@),
            series == copy_series(stem_text@, e),
            e == match ext {
                Some(t) => Some(t@),
                None => None,
            },
            n + tries == names.len(),
            names.len() <= usize::MAX,
            name@ == copy_name(stem_text@, e, n as nat),
            free_number(names, series, n as nat, tries as nat) == free_number(
                names,
                series,
                0,
                names.len(),
            ),
        decreases tries,
    {
        n += 1;
        tries -= 1;
        name = copy_name_text(stem_text, ext, n);
    }
    proof {
        lemma_copy_series(stem_text@, e);
        law_a_free_name_is_found(names, series, 0);
    }
    name
}

/// How an edited image is to be saved.
pub enum SaveTarget {
    /// Write a temporary file of this name beside the original, then rename it
    /// over the original.
    Overwrite(String),
    /// Write a copy under a free name.
    Copy,
}

/// The plan of a save: where to, how the pixels are written, and the modified time
/// to stamp afterwards.
pub struct SavePlan {
    pub target: SaveTarget,
    pub encoding: Encoding,
    pub stamp: Option<i64>,
}

/// Why an edited image cannot be saved, if it cannot: nothing was edited, or its
/// name says no format.
pub open spec fn save_refusal(encoding: Result<Encoding, Seq<char>>, edits: nat) -> Option<
    Seq<char>,
> {
    if edits == 0 {
        Some("no edits to save"@)
    } else {
        match encoding {
            Err(e) => Some(e),
            Ok(_) => None,
        }
    }
}

/// The plan is the one for these wishes.
pub open spec fn plans_save(
    plan: SavePlan,
    encoding: Result<Encoding, Seq<char>>,
    file_name: Seq<char>,
    overwrite: bool,
    time: SavedTime,
    modified_ms: Option<i64>,
) -> bool {
    &&& encoding == Ok::<Encoding, Seq<char>>(plan.encoding)
    &&& overwrite == (plan.target is Overwrite)
    &&& plan.target matches SaveTarget::Overwrite(tmp) ==> tmp@ == file_name + ".rot.tmp"@
    &&& plan.stamp == match time {
        SavedTime::At(ms) => Some(ms),
        SavedTime::Original => modified_ms,
    }
}

/// Plans the save of an image whose name says this encoding.
pub fn plan_save(
    encoding: Result<Encoding, String>,
    file_name: &str,
    ops: &[Orient],
    overwrite: bool,
    time: SavedTime,
    modified_ms: Option<i64>,
) -> (r: Result<SavePlan, String>)
    ensures
        ({
            let known = encoding_result(encoding);
            match r {
                Err(e) => save_refusal(known, ops@.len()) == Some(e@),
                Ok(plan) => {
                    &&& save_refusal(known, ops@.len()) is None
                    &&& plans_save(plan, known, file_name@, overwrite, time, modified_ms)
                },
            }
        }),
{
    if ops.len() == 0 {
        return Err("no edits to save".to_string());
    }
    let encoding = match encoding {
        Err(e) => return Err(e),
        Ok(e) => e,
    };
    let stamp = match time {
        SavedTime::At(ms) => Some(ms),
        SavedTime::Original => modified_ms,
    };
    let target = if overwrite {
        let mut tmp = copy(file_name);
        tmp.append(".rot.tmp");
        SaveTarget::Overwrite(tmp)
    } else {
        SaveTarget::Copy
    };
    Ok(SavePlan { target, encoding, stamp })
}

/// Plans the save of an edited image. `modified_ms` is the original's modified
/// time, where it can be read; it is read before the original is replaced.
pub fn save_edited(
    file_name: &str,
    ops: &[Orient],
    overwrite: bool,
    time: SavedTime,
    modified_ms: Option<i64>,
) -> (r: Result<SavePlan, String>)
    ensures
        ({
            let encoding = encoding_for(named_format(file_name@));
            match r {
                Err(e) => save_refusal(encoding, ops@.len()) == Some(e@),
                Ok(plan) => {
                    &&& save_refusal(encoding, ops@.len()) is None
                    &&& plans_save(plan, encoding, file_name@, overwrite, time, modified_ms)
                },
            }
        }),
        encoding_by_extension(file_name@, encoding_for(named_format(file_name@))),
{
    plan_save(encoding_of(file_name), file_name, ops, overwrite, time, modified_ms)
}

/// A moment as a distance from the epoch: how far, and whether before it.
pub fn epoch_distance(ms: i64) -> (r: (u64, bool))
    ensures
        r.1 == (ms < 0),
        r.0 == if ms < 0 {
            -ms
        } else {
            ms as int
        },
{
    if ms >= 0 {
        (ms as u64, false)
    } else {
        ((-(ms as i128)) as u64, true)
    }
}

/// A quarter turn clockwise swaps the sides and brings the left edge to the top; a
/// mirror keeps the size and swaps left and right. Operations are carried out one
/// after the other.
pub proof fn law_one_operation_moves_each_pixel(
    size: (nat, nat),
    ops: Seq<Orient>,
    op: Orient,
    x: int,
    y: int,
)
    ensures
        ({
            let done = turned_size(size, ops);
            let more = ops.push(op);
            &&& op is RotateCw ==> turned_size(size, more) == (done.1, done.0)
            &&& op is RotateCw ==> turned_from(size, more, x, y) == turned_from(
                size,
                ops,
                y,
                done.1 - 1 - x,
            )
            &&& op is FlipH ==> turned_size(size, more) == done
            &&& op is FlipH ==> turned_from(size, more, x, y) == turned_from(
                size,
                ops,
                done.0 - 1 - x,
                y,
            )
        }),
        turned_size(size, Seq::empty()) == size,
        turned_from(size, Seq::empty(), x, y) == (x, y),
{
    assert(ops.push(op).drop_last() =~= ops);
}

proof fn lemma_behind_dot(name: Seq<char>, i: int)
    requires
        i < name.len(),
    ensures
        behind_dot(name, i) matches Some(ext) ==> exists|k: int|
            {
                &&& 0 < k <= i
                &&& #[trigger] name[k] == '.'
                &&& ext == name.skip(k + 1)
                &&& forall|j: int| k < j <= i ==> #[trigger] name[j] != '.'
            },
        behind_dot(name, i) is None ==> forall|j: int| 0 < j <= i ==> #[trigger] name[j] != '.',
    decreases i,
{
    if i > 0 {
        if name[i] == '.' {
            assert(name[i] == '.');
        } else {
            lemma_behind_dot(name, i - 1);
            if behind_dot(name, i) is Some {
                let ext = behind_dot(name, i)->0;
                let k = choose|k: int|
                    {
                        &&& 0 < k <= i - 1
                        &&& #[trigger] name[k] == '.'
                        &&& ext == name.skip(k + 1)
                        &&& forall|j: int| k < j <= i - 1 ==> #[trigger] name[j] != '.'
                    };
                assert(name[k] == '.');
            }
        }
    }
}

/// The extension is what stands behind the last dot, where something stands before
/// it; a name without a dot, or with one at its start alone, has none.
pub proof fn law_the_extension_follows_the_last_dot(stem: Seq<char>, ext: Seq<char>)
    requires
        !ext.contains('.'),
    ensures
        stem.len() > 0 && stem + seq!['.'] + ext != ".."@ ==> extension(stem + seq!['.'] + ext)
            == Some(ext),
        extension(ext) is None,
        extension(seq!['.'] + ext) is None,
{
    let name = stem + seq!['.'] + ext;
    let n = stem.len() as int;
    if stem.len() > 0 {
        lemma_behind_dot(name, name.len() - 1);
        assert(name[n] == '.');
        if behind_dot(name, name.len() - 1) is Some {
            let got = behind_dot(name, name.len() - 1)->0;
            let k = choose|k: int|
                {
                    &&& 0 < k <= name.len() - 1
                    &&& #[trigger] name[k] == '.'
                    &&& got == name.skip(k + 1)
                    &&& forall|j: int| k < j <= name.len() - 1 ==> #[trigger] name[j] != '.'
                };
            if k > n {
                assert(ext[k - n - 1] == '.');
            }
            assert(k == n);
            assert(name.skip(n + 1) =~= ext);
        }
    }
    lemma_behind_dot(ext, ext.len() - 1);
    if behind_dot(ext, ext.len() - 1) is Some {
        let got = behind_dot(ext, ext.len() - 1)->0;
        let k = choose|k: int|
            {
                &&& 0 < k <= ext.len() - 1
                &&& #[trigger] ext[k] == '.'
                &&& got == ext.skip(k + 1)
                &&& forall|j: int| k < j <= ext.len() - 1 ==> #[trigger] ext[j] != '.'
            };
        assert(ext.contains(ext[k]));
    }
    let dotted = seq!['.'] + ext;
    lemma_behind_dot(dotted, dotted.len() - 1);
    if behind_dot(dotted, dotted.len() - 1) is Some {
        let got = behind_dot(dotted, dotted.len() - 1)->0;
        let k = choose|k: int|
            {
                &&& 0 < k <= dotted.len() - 1
                &&& #[trigger] dotted[k] == '.'
                &&& got == dotted.skip(k + 1)
                &&& forall|j: int| k < j <= dotted.len() - 1 ==> #[trigger] dotted[j] != '.'
            };
        assert(ext[k - 1] == '.');
    }
}

/// Lowering the case changes the twenty-six capital letters and nothing else.
pub proof fn law_only_capitals_are_lowered(s: Seq<char>, i: int)
    requires
        0 <= i < s.len(),
    ensures
        ascii_lower(s).len() == s.len(),
        65 <= s[i] as int <= 90 ==> ascii_lower(s)[i] as int == s[i] as int + 32,
        (s[i] as int) < 65 || s[i] as int > 90 ==> ascii_lower(s)[i] == s[i],
{
}

/// A JPEG is written at the library's quality, every other format as it is, and where
/// there is no format the reason is handed on. Nothing is saved without an edit.
pub proof fn law_a_format_decides_how_it_is_written(mime: Seq<char>, e: Seq<char>, edits: nat)
    ensures
        mime == "image/jpeg"@ ==> encoding_for(Ok(mime)) == Ok::<Encoding, Seq<char>>(
            Encoding::Jpeg(JPEG_QUALITY),
        ),
        mime != "image/jpeg"@ ==> encoding_for(Ok(mime)) == Ok::<Encoding, Seq<char>>(
            Encoding::AsNamed,
        ),
        encoding_for(Err(e)) == Err::<Encoding, Seq<char>>(e),
        save_refusal(encoding_for(Ok(mime)), 0) == Some("no edits to save"@),
        save_refusal(encoding_for(Err(e)), 0) == Some("no edits to save"@),
        edits > 0 ==> save_refusal(encoding_for(Err(e)), edits) == Some(e),
        edits > 0 ==> save_refusal(encoding_for(Ok(mime)), edits) is None,
{
}

/// The names tried for a copy: the stem with `_rot`, then with `_rot_1`, `_rot_2` and
/// so on, before the extension where there is one.
pub proof fn law_copies_are_numbered(stem: Seq<char>, ext: Seq<char>, n: nat)
    ensures
        copy_name(stem, Some(ext), 0) == stem + "_rot"@ + ("."@ + ext),
        copy_name(stem, None, 0) == stem + "_rot"@,
        n > 0 ==> copy_name(stem, Some(ext), n) == stem + ("_rot_"@ + dec(n)) + ("."@ + ext),
        n > 0 ==> copy_name(stem, None, n) == stem + ("_rot_"@ + dec(n)),
{
    reveal_strlit("");
    assert(stem + "_rot"@ + ""@ =~= stem + "_rot"@);
    assert(stem + ("_rot_"@ + dec(n)) + ""@ =~= stem + ("_rot_"@ + dec(n)));
}

/// A save goes over the file by way of a temporary file beside it exactly where that
/// was asked for, and stamps the time that was asked for.
pub proof fn law_a_save_does_what_was_asked(
    plan: SavePlan,
    encoding: Result<Encoding, Seq<char>>,
    file_name: Seq<char>,
    overwrite: bool,
    time: SavedTime,
    modified_ms: Option<i64>,
)
    requires
        plans_save(plan, encoding, file_name, overwrite, time, modified_ms),
    ensures
        encoding matches Ok(how) && how == plan.encoding,
        plan.target is Overwrite <==> overwrite,
        plan.target matches SaveTarget::Overwrite(tmp) ==> tmp@ == file_name + ".rot.tmp"@,
        time matches SavedTime::At(ms) ==> plan.stamp == Some(ms),
        time is Original ==> plan.stamp == modified_ms,
{
}

/// The extensions of JPEG files and of the other formats, whatever their case, decide
/// the encoding of a bare name; a name whose extension says nothing is refused.
pub proof fn law_the_extension_decides_the_encoding(
    name: Seq<char>,
    encoding: Result<Encoding, Seq<char>>,
)
    requires
        is_bare_name(name),
        encoding_by_extension(name, encoding),
    ensures
        extension(name) matches Some(ext) ==> {
            let e = ascii_lower(ext);
            let jpeg = seq!["jpg"@, "jpeg"@, "jfif"@];
            let other = seq![
                "avif"@,
                "png"@,
                "apng"@,
                "gif"@,
                "webp"@,
                "tif"@,
                "tiff"@,
                "tga"@,
                "dds"@,
                "bmp"@,
                "ico"@,
                "hdr"@,
                "exr"@,
                "pbm"@,
                "pam"@,
                "ppm"@,
                "pgm"@,
                "pnm"@,
                "ff"@,
                "qoi"@,
            ];
            &&& jpeg.contains(e) ==> encoding == Ok::<Encoding, Seq<char>>(
                Encoding::Jpeg(JPEG_QUALITY),
            )
            &&& !jpeg.contains(e) && other.contains(e) ==> encoding == Ok::<Encoding, Seq<char>>(
                Encoding::AsNamed,
            )
            &&& !jpeg.contains(e) && !other.contains(e) ==> encoding is Err
        },
        extension(name) is None ==> encoding == Err::<Encoding, Seq<char>>(
            "The image format could not be determined"@,
        ),
{
    if let Some(ext) = extension(name) {
        let e = ascii_lower(ext);
        let jpeg = seq!["jpg"@, "jpeg"@, "jfif"@];
        let other = seq![
            "avif"@,
            "png"@,
            "apng"@,
            "gif"@,
            "webp"@,
            "tif"@,
            "tiff"@,
            "tga"@,
            "dds"@,
            "bmp"@,
            "ico"@,
            "hdr"@,
            "exr"@,
            "pbm"@,
            "pam"@,
            "ppm"@,
            "pgm"@,
            "pnm"@,
            "ff"@,
            "qoi"@,
        ];
        if is_jpeg_extension(e) {
            assert(jpeg[0] == e || jpeg[1] == e || jpeg[2] == e);
        }
        if is_other_extension(e) {
            assert(other[0] == e || other[1] == e || other[2] == e || other[3] == e || other[4] == e
                || other[5] == e || other[6] == e || other[7] == e || other[8] == e || other[9]
                == e || other[10] == e || other[11] == e || other[12] == e || other[13] == e
                || other[14] == e || other[15] == e || other[16] == e || other[17] == e
                || other[18] == e || other[19] == e);
        }
    }
}

/// A bare name is one part of a path: something, without a slash, a backslash or a
/// colon.
pub proof fn law_a_bare_name_is_one_part(name: Seq<char>)
    ensures
        is_bare_name(name) <==> name.len() > 0 && !name.contains('/') && !name.contains('\\')
            && !name.contains(':'),
{
    if is_bare_name(name) {
    } else if name.len() > 0 {
        let i = choose|i: int|
            0 <= i < name.len() && !(#[trigger] name[i] != '/' && name[i] != '\\' && name[i]
                != ':');
        assert(name.contains(name[i]));
    }
}

} // verus!
