use dedup_gui::id3tags::{self, Tags};
use dedup_gui::imgedit::{
    apply_ops, choose_encoding, copy_path, encoding_of, epoch_distance, plan_save, save_edited,
    Encoding, Orient, SaveTarget, SavedTime,
};
use dedup_gui::lightbox::{
    adopt_value, compare_panes, draw_metadata_column, draw_tab_bar, format_other_switcher_label,
    has_readable_text, has_text_representation, hex_dump, hex_head_preview, load_text_preview,
    mark_pill, other_member_indices, preview_note, set_soffice_available, soffice_available,
    tab_kinds, FileRepresentations, MarkState, MetaAction, MetaBody, RepresentationKind, Side,
    Soffice, TagField, TextPreview, HEX_DUMP_BYTES, TEXT_PREVIEW_BYTES,
};
use dedup_gui::media_cell::{
    cell_overlay, extension_badge, fmt_ms, glyph_accent, media_cell, placeholder_label,
    AudioPrint, CellOverlay, CellSource, ExifInfo, FileEntry, FileFacts, FilePlace, Kinds,
};
use dedup_gui::player::{Channel, Cmd, Deck, Player, SinkOp};
use dedup_gui::theme::Ink;
use image::{DynamicImage, Rgb, RgbImage};

fn place(path: &str) -> FilePlace {
    let file_name = path.rsplit('/').next().unwrap_or("").to_string();
    let extension = file_name.rsplit_once('.').map(|(_, e)| e.to_string());
    FilePlace { abs_path: path.to_string(), file_name, extension }
}

fn kinds_of(mime: &str) -> Kinds {
    Kinds {
        audio: mime.starts_with("audio/"),
        document: mime == "application/pdf",
        office: false,
        archive: mime == "application/zip",
        tagged: mime == "audio/mpeg",
    }
}

fn facts(mime: &str) -> FileFacts {
    FileFacts {
        size: 4_200_000,
        modified_ms: 0,
        missing: false,
        mime: Some(mime.to_string()),
        img_size: None,
        audio_ms: None,
        audio_seed: None,
        hash_hex: "deadbeef".to_string(),
        place: place("/x"),
        origin: None,
        exif: None,
        kinds: kinds_of(mime),
    }
}

fn tags() -> Tags {
    Tags {
        title: "Chelsea Hotel".into(),
        artist: "Leonard Cohen".into(),
        album: "New Skin".into(),
        year: "1974".into(),
        track: "5".into(),
        genre: "Folk".into(),
    }
}

/// The tag as it comes back from its encoded form.
fn through_bytes(tag: &id3::Tag) -> id3::Tag {
    let mut bytes: Vec<u8> = Vec::new();
    tag.write_to(&mut bytes, id3::Version::Id3v24).unwrap();
    id3::Tag::read_from2(std::io::Cursor::new(bytes)).unwrap()
}

#[test]
fn write_then_read_round_trips() {
    let tags = tags();
    let mut tag = id3::Tag::new();
    id3tags::write(&mut tag, &tags);

    let back = id3tags::read(&through_bytes(&tag));
    assert_eq!(back, tags);
}

#[test]
fn empty_field_clears_that_tag() {
    let mut tag = id3::Tag::new();
    id3tags::write(
        &mut tag,
        &Tags { title: "First".into(), artist: "Someone".into(), ..Default::default() },
    );
    // Now blank the title; artist stays.
    let mut tag = through_bytes(&tag);
    id3tags::write(
        &mut tag,
        &Tags { title: String::new(), artist: "Someone".into(), ..Default::default() },
    );

    let back = id3tags::read(&through_bytes(&tag));
    assert_eq!(back.title, "", "cleared title is gone");
    assert_eq!(back.artist, "Someone", "artist preserved");
}

#[test]
fn a_year_or_track_that_is_no_number_clears_the_field() {
    let mut tag = id3::Tag::new();
    id3tags::write(&mut tag, &tags());
    id3tags::write(
        &mut tag,
        &Tags { year: "last year".into(), track: "five".into(), ..tags() },
    );
    let back = id3tags::read(&tag);
    assert_eq!(back.year, "");
    assert_eq!(back.track, "");
    assert_eq!(back.title, "Chelsea Hotel");
}

#[test]
fn apply_ops_compose_to_identity() {
    let img =
        DynamicImage::ImageRgb8(RgbImage::from_fn(4, 6, |x, y| Rgb([x as u8, y as u8, 7])));
    // Two horizontal flips cancel; four CW rotations return to start.
    assert_eq!(
        apply_ops(img.clone(), &[Orient::FlipH, Orient::FlipH]).to_rgb8(),
        img.to_rgb8()
    );
    assert_eq!(
        apply_ops(
            img.clone(),
            &[Orient::RotateCw, Orient::RotateCw, Orient::RotateCw, Orient::RotateCw]
        )
        .to_rgb8(),
        img.to_rgb8()
    );
}

#[test]
fn a_quarter_turn_swaps_the_sides_and_moves_the_corner() {
    let img =
        DynamicImage::ImageRgb8(RgbImage::from_fn(40, 20, |x, y| Rgb([x as u8, y as u8, 0])));
    let turned = apply_ops(img.clone(), &[Orient::RotateCw]).to_rgb8();
    assert_eq!(turned.dimensions(), (20, 40), "a 90° rotation swaps width/height");
    assert_eq!(turned.get_pixel(19, 0), &Rgb([0, 0, 0]), "top left goes to top right");
    assert_eq!(turned.get_pixel(0, 0), &Rgb([0, 19, 0]), "bottom left goes to top left");
    let mirrored = apply_ops(img, &[Orient::FlipH]).to_rgb8();
    assert_eq!(mirrored.dimensions(), (40, 20));
    assert_eq!(mirrored.get_pixel(0, 3), &Rgb([39, 3, 0]));
}

#[test]
fn a_copy_takes_the_first_free_name() {
    let none = Vec::new();
    assert_eq!(copy_path(Some("photo"), Some("png"), &none), "photo_rot.png");
    let taken = vec!["photo_rot.png".to_string(), "photo_rot_1.png".to_string()];
    assert_eq!(copy_path(Some("photo"), Some("png"), &taken), "photo_rot_2.png");
    assert_eq!(copy_path(Some("photo"), None, &taken), "photo_rot");
    assert_eq!(copy_path(None, Some("png"), &none), "image_rot.png");
}

#[test]
fn a_save_needs_an_edit_and_keeps_or_stamps_the_time() {
    assert!(matches!(
        save_edited("p.png", &[], true, SavedTime::Original, None),
        Err(e) if e == "no edits to save"
    ));
    let plan =
        save_edited("p.png", &[Orient::FlipH], true, SavedTime::Original, Some(1_000)).unwrap();
    assert!(matches!(plan.target, SaveTarget::Overwrite(ref tmp) if tmp == "p.png.rot.tmp"));
    assert_eq!(plan.stamp, Some(1_000), "an overwrite keeps the file's modified time");
    let plan =
        save_edited("p.png", &[Orient::RotateCw], false, SavedTime::At(869_037_150_000), None)
            .unwrap();
    assert!(matches!(plan.target, SaveTarget::Copy));
    assert_eq!(plan.stamp, Some(869_037_150_000));
    assert_eq!(epoch_distance(-5), (5, true));
    assert_eq!(epoch_distance(7), (7, false));
    assert_eq!(epoch_distance(i64::MIN), (1 << 63, true));
}

#[test]
fn kind_helpers_classify_by_mime() {
    assert!(facts("image/jpeg").is_image());
    assert!(facts("video/mp4").is_video());
    assert!(facts("audio/mpeg").is_audio());
    let txt = facts("text/plain");
    assert!(!txt.is_image() && !txt.is_video() && !txt.is_audio());
    assert!(txt.is_textual() && facts("text/markdown").is_textual());
    assert!(!facts("application/pdf").is_textual());
}

#[test]
fn dims_or_duration_prefers_image_size_then_audio_then_dash() {
    let mut f = facts("image/png");
    f.img_size = Some((4032, 3024));
    assert_eq!(f.dims_or_duration(), "4032×3024");

    let mut a = facts("audio/mpeg");
    a.audio_ms = Some(221_000);
    assert_eq!(a.dims_or_duration(), "3:41");

    assert_eq!(facts("application/pdf").dims_or_duration(), "—");
}

#[test]
fn fmt_ms_switches_to_hours_past_one_hour() {
    assert_eq!(fmt_ms(3_000), "0:03");
    assert_eq!(fmt_ms(221_000), "3:41");
    assert_eq!(fmt_ms(3_661_000), "1:01:01");
}

#[test]
fn an_entry_becomes_the_facts_a_cell_shows() {
    let entry = FileEntry {
        size: 9,
        modified_ms: -4,
        missing: true,
        mime: Some("audio/mpeg".to_string()),
        img_size: None,
        audio: Some(AudioPrint { duration_ms: 61_000, chunk_hashes: vec![[7; 32], [8; 32]] }),
        hash_hex: "ab".to_string(),
        origin: Some("camera".to_string()),
        exif: None,
    };
    let f = FileFacts::from_entry(entry, place("/r/a.mp3"), kinds_of("audio/mpeg"));
    assert_eq!(f.audio_ms, Some(61_000));
    assert_eq!(f.audio_seed, Some([7; 32]), "the first chunk seeds the glyph");
    assert_eq!((f.size, f.modified_ms, f.missing), (9, -4, true));
    assert_eq!(f.dims_or_duration(), "1:01");
    assert_eq!(f.origin.as_deref(), Some("camera"));
}

#[test]
fn a_cell_tries_its_sources_in_order() {
    assert_eq!(
        media_cell(&facts("image/png"), true),
        vec![CellSource::Thumbnail, CellSource::Placeholder]
    );
    assert_eq!(media_cell(&facts("image/png"), false), vec![CellSource::Placeholder]);
    assert_eq!(
        media_cell(&facts("video/mp4"), true),
        vec![CellSource::VideoStill, CellSource::Placeholder]
    );
    assert_eq!(
        media_cell(&facts("text/plain"), true),
        vec![CellSource::TextHead, CellSource::Placeholder]
    );
    assert_eq!(
        media_cell(&facts("application/pdf"), true),
        vec![CellSource::PdfPage, CellSource::ByteView, CellSource::Placeholder]
    );
    assert_eq!(
        media_cell(&facts("application/x-db"), true),
        vec![CellSource::ByteView, CellSource::Placeholder]
    );
    let mut song = facts("audio/mpeg");
    assert_eq!(media_cell(&song, true), vec![CellSource::Placeholder]);
    song.audio_ms = Some(1);
    assert_eq!(media_cell(&song, false)[0], CellSource::AudioGlyph);
}

#[test]
fn a_missing_file_veils_itself() {
    assert_eq!(cell_overlay(true, Some(CellOverlay::New)), Some(CellOverlay::Missing));
    assert_eq!(cell_overlay(false, Some(CellOverlay::New)), Some(CellOverlay::New));
    assert_eq!(cell_overlay(false, None), None);
    assert_eq!(CellOverlay::WillDelete.label(), "WILL DELETE");
    assert_eq!(CellOverlay::WillDelete.color(), Ink::Red);
    assert_eq!(CellOverlay::WasDeleted.label(), "WAS DELETED");
    assert_eq!(CellOverlay::WasDeleted.color(), Ink::Blue);
}

#[test]
fn a_placeholder_names_the_type_and_a_badge_the_extension() {
    assert_eq!(placeholder_label(&Some("image/png".to_string())), "image/png");
    assert_eq!(placeholder_label(&None), "file");
    let (label, hue) = extension_badge(&Some("db".to_string()));
    assert_eq!(label, ".db");
    assert_eq!(extension_badge(&Some("DB".to_string())), (label, hue), "case does not matter");
    let mut seed = [0u8; 32];
    assert_eq!(glyph_accent(&seed), Ink::Amber);
    seed[0] = 9;
    assert_eq!(glyph_accent(&seed), Ink::Orange);
}

#[test]
fn a_sampled_preview_discloses_that_it_is_a_sample() {
    let preview = |is_text: bool, truncated: bool| TextPreview {
        body: String::new(),
        is_text,
        truncated,
        error: None,
    };
    let note = preview_note(&preview(true, true));
    assert!(
        note.contains("64 KB") && note.to_lowercase().contains("only"),
        "a truncated text view says how much it read and that it is partial: {note:?}"
    );
    let hex = preview(false, true);
    assert!(
        preview_note(&hex).to_lowercase().contains("only"),
        "so does the hex view: {:?}",
        preview_note(&hex)
    );
    assert!(
        !preview_note(&preview(true, false)).to_lowercase().contains("only"),
        "a complete view does not warn about sampling"
    );
}

#[test]
fn test_other_member_indices() {
    let others = other_member_indices(4, 2);
    assert_eq!(others, vec![0, 1, 3]);
    assert_eq!(others.len(), 3);

    let label1 = format_other_switcher_label(0, others.len());
    assert_eq!(label1, "<1 / 3>");

    let label2 = format_other_switcher_label(2, others.len());
    assert_eq!(label2, "<3 / 3>");
}

fn png_facts(exif: Option<ExifInfo>) -> FileFacts {
    FileFacts {
        size: 1024,
        modified_ms: 1000,
        missing: false,
        mime: Some("image/png".to_string()),
        img_size: Some((800, 600)),
        audio_ms: None,
        audio_seed: None,
        hash_hex: "abcd".to_string(),
        place: place("/tmp/test.png"),
        origin: None,
        exif,
        kinds: kinds_of("image/png"),
    }
}

fn reps(f: &FileFacts, read_only: bool) -> FileRepresentations {
    FileRepresentations::from_facts(
        f,
        "MainRepo".to_string(),
        read_only,
        MarkState::Unmarked,
        Soffice::Absent,
    )
}

#[test]
fn test_file_representations_available_kinds() {
    let reps_plain = reps(&png_facts(None), false);
    assert_eq!(reps_plain.mark_state(), MarkState::Unmarked);
    assert_eq!(reps_plain.dedup_data().repo_name, "MainRepo");
    let kinds = reps_plain.available_kinds();
    assert!(kinds.contains(&RepresentationKind::Overview));
    assert!(kinds.contains(&RepresentationKind::Image));
    assert!(!kinds.contains(&RepresentationKind::Audio));
    // An image without EXIF has nothing to put on a Metadata tab.
    assert!(!kinds.contains(&RepresentationKind::Metadata));
    // A PNG has no readable text, so no Text tab — but its raw bytes are
    // always on Hex, and any embedded runs on Strings.
    assert!(!kinds.contains(&RepresentationKind::Text));
    assert!(kinds.contains(&RepresentationKind::Hex));
    assert!(kinds.contains(&RepresentationKind::Strings));

    // The same image *with* EXIF does offer Metadata — read-only, since
    // there is no EXIF writer.
    let with_exif = png_facts(Some(ExifInfo {
        taken_ms: Some(1_600_000_000_000),
        camera: Some("Canon EOS 5D".into()),
    }));
    let reps_exif = reps(&with_exif, false);
    assert!(reps_exif.available_kinds().contains(&RepresentationKind::Metadata));
    assert_eq!(
        reps_exif.metadata.as_ref().map(|m| m.can_save),
        Some(false),
        "EXIF is shown, never written"
    );
}

#[test]
fn metadata_is_offered_for_id3_containers_only() {
    let audio = |mime: &str| FileFacts {
        size: 417,
        modified_ms: 0,
        missing: false,
        mime: Some(mime.to_string()),
        img_size: None,
        audio_ms: Some(1000),
        audio_seed: None,
        hash_hex: "abcd".to_string(),
        place: place("/tmp/song"),
        origin: None,
        exif: None,
        kinds: kinds_of(mime),
    };

    let mp3 = reps(&audio("audio/mpeg"), false);
    assert!(mp3.available_kinds().contains(&RepresentationKind::Metadata));
    assert_eq!(
        mp3.metadata.as_ref().map(|m| m.can_save),
        Some(true),
        "a writable repo can save tags"
    );

    // A read-only repo still shows the tab, but not as a savable one.
    let ro = reps(&audio("audio/mpeg"), true);
    assert_eq!(ro.metadata.as_ref().map(|m| m.can_save), Some(false));

    // FLAC/OGG carry no ID3 tag the writer understands.
    let flac = reps(&audio("audio/flac"), false);
    assert!(!flac.available_kinds().contains(&RepresentationKind::Metadata));
}

#[test]
fn text_preview_reads_text_and_falls_back_to_hex() {
    let prev = load_text_preview(Ok(b"hello alpha\n".to_vec()));
    assert!(prev.is_text, "valid UTF-8 is shown as text");
    assert_eq!(prev.body, "hello alpha\n");
    assert!(!prev.truncated);
    assert!(prev.error.is_none());

    // Decodable but binary: a NUL byte alone forces the hex view.
    let nul = load_text_preview(Ok(b"%PDF-1.4\x00\x01stream".to_vec()));
    assert!(!nul.is_text, "a NUL byte marks the file binary even though it decodes");

    let prev = load_text_preview(Ok(vec![0xff, 0xfe, 0x00, 0x41]));
    assert!(!prev.is_text, "invalid UTF-8 falls back to a hex dump");
    assert!(
        prev.body.starts_with("00000000  ff fe 00 41"),
        "dump starts at offset 0 with the file's bytes: {:?}",
        prev.body
    );
    assert!(prev.body.contains("|...A|"), "and carries an ASCII gutter");

    // Longer than the window: the body is capped and flagged.
    let prev = load_text_preview(Ok("x".repeat(TEXT_PREVIEW_BYTES + 10).into_bytes()));
    assert_eq!(prev.body.len(), TEXT_PREVIEW_BYTES);
    assert!(prev.truncated, "the user is told there is more");

    let prev = load_text_preview(Err("no such file".to_string()));
    assert!(prev.error.is_some(), "an unreadable file reports why");
}

#[test]
fn text_cut_inside_a_character_is_dumped() {
    let mut bytes = vec![b'x'; TEXT_PREVIEW_BYTES - 1];
    bytes.extend_from_slice("é tail".as_bytes());
    let prev = load_text_preview(Ok(bytes));
    assert!(!prev.is_text, "the window ends inside a character");
    assert_eq!(prev.body, hex_dump(&[b'x'; HEX_DUMP_BYTES]));
    assert!(prev.truncated);
}

#[test]
fn a_hex_head_is_dumped_row_by_row() {
    let dump = hex_dump(b"ABCDEFGHIJKLMNOPQ");
    let lines: Vec<&str> = dump.lines().collect();
    assert_eq!(lines.len(), 2);
    assert!(lines[0].starts_with("00000000  41 42 43"), "{:?}", lines[0]);
    assert!(lines[0].ends_with("|ABCDEFGHIJKLMNOP|"), "{:?}", lines[0]);
    assert!(lines[1].starts_with("00000010  51"), "{:?}", lines[1]);
    let prev = hex_head_preview(Ok(vec![0; HEX_DUMP_BYTES + 1]));
    assert!(!prev.is_text && prev.truncated);
    assert_eq!(prev.body.lines().count(), HEX_DUMP_BYTES / 16);
    let prev = hex_head_preview(Err("gone".to_string()));
    assert!(prev.error.is_some());
}

#[test]
fn tabs_are_what_either_side_offers() {
    let image = reps(&png_facts(None), false);
    let note = reps(&facts("text/plain"), false);
    let both = tab_kinds(&image, Some(&note));
    for kind in image.available_kinds().iter().chain(note.available_kinds().iter()) {
        assert!(both.contains(kind), "{kind:?}");
    }
    assert_eq!(tab_kinds(&image, None), image.available_kinds());
    let bar = draw_tab_bar(RepresentationKind::Hex, &image, &note);
    assert_eq!(bar.len(), both.len() - 1, "the overview has no tab of its own");
    assert_eq!(bar.iter().filter(|b| b.selected).count(), 1);
    assert!(bar.iter().any(|b| b.selected && b.kind == RepresentationKind::Hex));
}

#[test]
fn readable_text_comes_from_text_and_documents() {
    assert!(has_text_representation(&facts("text/plain")));
    assert!(has_readable_text(&facts("application/pdf")));
    assert!(!has_readable_text(&facts("image/png")));
    let mut state = Soffice::Unknown;
    assert!(soffice_available(state), "optimistic until the probe has answered");
    set_soffice_available(&mut state, true);
    assert!(soffice_available(state));
    set_soffice_available(&mut state, false);
    assert!(!soffice_available(state), "the last probe decides");
}

#[test]
fn marks_are_labelled_and_protected_ones_locked() {
    assert!(MarkState::Protected.is_protected());
    assert!(!MarkState::Delete.is_protected());
    assert!(!MarkState::Delete.label().is_empty());
    let off = mark_pill("MARK A", false, true);
    assert!(off.enabled);
    let locked = mark_pill("MARK A", false, false);
    assert!(!locked.enabled);
    let on = mark_pill("MARK A", true, true);
    assert_ne!(on.fill, off.fill);
    assert_eq!(compare_panes(false, true), vec![Side::A, Side::B]);
    assert_eq!(compare_panes(true, false), vec![Side::A]);
    assert_eq!(compare_panes(true, true), vec![Side::B]);
}

#[test]
fn the_metadata_column_follows_its_mode() {
    let shown = tags();
    let stored = draw_metadata_column(&MetaBody::Stored { tags: Some(&shown), can_edit: true });
    assert!(stored.buttons.contains(&MetaAction::Edit));
    assert!(stored.lines.iter().any(|l| l.value == "Leonard Cohen"));
    let locked = draw_metadata_column(&MetaBody::Stored { tags: Some(&shown), can_edit: false });
    assert!(!locked.buttons.contains(&MetaAction::Edit));
    let mut options = vec![Vec::new(); 6];
    options[1] = vec!["Leonard Cohen".to_string(), "L. Cohen".to_string()];
    let editing = draw_metadata_column(&MetaBody::Editing { edited: &shown, options: &options });
    assert!(editing.buttons.contains(&MetaAction::Save));
    assert!(editing.buttons.contains(&MetaAction::Cancel));
    assert_eq!(editing.lines.len(), 6);
    assert!(editing.lines[1].picks && !editing.lines[0].picks);
    let fields = vec![
        ("Camera".to_string(), "Canon".to_string()),
        ("Lens".to_string(), "50mm".to_string()),
    ];
    let differing = vec!["Lens".to_string()];
    let exif = draw_metadata_column(&MetaBody::Exif { fields: &fields, differing: &differing });
    assert_eq!(exif.lines.len(), 2);
    assert_ne!(exif.lines[0].ink, exif.lines[1].ink, "a differing field stands out");
}

#[test]
fn adopting_a_value_changes_that_field_only() {
    let mut edited = tags();
    adopt_value(&mut edited, TagField::Artist, &"L. Cohen".to_string());
    assert_eq!(edited, Tags { artist: "L. Cohen".into(), ..tags() });
}

#[test]
fn loading_paused_holds_the_file_without_playing() {
    let mut player = Player::new();
    player.load_paused("abc", "/nonexistent.mp3", 1000, 0);
    let snap = player.snapshot();
    assert!(snap.loaded, "the copy is loaded");
    assert!(!snap.playing, "and deliberately not playing");
    assert_eq!(snap.hex.as_deref(), Some("abc"));
}

#[test]
fn a_pair_flips_between_its_sides_in_place() {
    let mut player = Player::new();
    let cmd = player.play_pair("a", "/a.mp3", "b", "/b.mp3", 1000, 250, false);
    assert!(matches!(cmd, Cmd::PlayPair { start_ms: 250, .. }));
    assert_eq!(player.snapshot().hex.as_deref(), Some("a"));
    assert_eq!(player.flip(), Cmd::Flip);
    assert_eq!(player.snapshot().hex.as_deref(), Some("b"));
    assert_eq!(player.snapshot().pos_ms, 250);
    player.flip();
    assert_eq!(player.snapshot().hex.as_deref(), Some("a"));
}

#[test]
fn the_start_is_clamped_to_the_file() {
    let mut player = Player::new();
    match player.play("a", "/a.mp3", 1000, 5000) {
        Cmd::Play { start_ms, paused, .. } => {
            assert_eq!(start_ms, 1000);
            assert!(!paused);
        }
        other => panic!("{other:?}"),
    }
    assert!(player.is_active());
    assert_eq!(player.toggle_pause(), Cmd::TogglePause);
    assert!(!player.snapshot().playing);
    player.toggle_pause();
    assert_eq!(player.seek_ms(400), Cmd::Seek(400));
    assert_eq!(player.snapshot().pos_ms, 400);
    assert_eq!(player.stop(), Cmd::Stop);
    assert!(!player.is_active());
}

#[test]
fn the_deck_opens_once_and_reopens_when_dead() {
    let mut player = Player::new();
    let cmd = player.play("a", "/a.mp3", 1000, 0);
    let mut deck = Deck::new();
    assert!(deck.must_open(&cmd, false));
    deck.carried_out(&mut player, &cmd, true, true, false);
    assert!(deck.open && deck.has_a);
    assert!(!deck.must_open(&Cmd::TogglePause, false));
    assert!(!deck.must_open(&Cmd::Flip, false));
    let ops = Deck::ops(&cmd, false);
    assert!(ops.iter().any(|op| matches!(op, SinkOp::Load { channel: Channel::A, .. })));
    deck.tick(&mut player, false, 500, false);
    assert_eq!(player.snapshot().pos_ms, 500);
    deck.tick(&mut player, false, 1000, true);
    assert!(!player.snapshot().playing, "an empty channel has played out");
}

#[test]
fn the_name_says_how_an_image_is_written() {
    assert_eq!(encoding_of("j.jpg"), Ok(Encoding::Jpeg(95)));
    assert_eq!(encoding_of("j.JPEG"), Ok(Encoding::Jpeg(95)));
    assert_eq!(encoding_of("a.png.jfif"), Ok(Encoding::Jpeg(95)));
    for ext in [
        "avif", "png", "apng", "gif", "webp", "tif", "tiff", "tga", "dds", "bmp", "ico", "hdr",
        "exr", "pbm", "pam", "ppm", "pgm", "pnm", "ff", "qoi",
    ] {
        assert_eq!(encoding_of(&format!("p.{ext}")), Ok(Encoding::AsNamed), "{ext}");
    }
    for name in ["noext", ".jpg", ".", ".."] {
        assert_eq!(
            encoding_of(name),
            Err("The image format could not be determined".to_string()),
            "{name}"
        );
    }
    let unknown = image::ImageFormat::from_path("notes.txt").unwrap_err().to_string();
    assert!(unknown.contains("txt"));
    assert_eq!(encoding_of("notes.txt"), Err(unknown.clone()));
    assert!(encoding_of("j.jpg.").is_err());
    assert_eq!(choose_encoding(Ok("image/jpeg".to_string())), Ok(Encoding::Jpeg(95)));
    assert_eq!(choose_encoding(Ok("image/png".to_string())), Ok(Encoding::AsNamed));
    let refused = save_edited("notes.txt", &[Orient::FlipH], true, SavedTime::Original, None);
    assert!(matches!(refused, Err(e) if e == unknown), "the reason is handed on");
    assert!(matches!(
        save_edited("notes.txt", &[], true, SavedTime::Original, None),
        Err(e) if e == "no edits to save"
    ));
    let plan =
        save_edited("j.jpg", &[Orient::FlipH], false, SavedTime::Original, None).unwrap();
    assert_eq!(plan.encoding, Encoding::Jpeg(95));
    let plan = plan_save(
        Ok(Encoding::AsNamed),
        "p.png",
        &[Orient::FlipH],
        true,
        SavedTime::At(7),
        None,
    )
    .unwrap();
    assert_eq!(plan.encoding, Encoding::AsNamed);
    assert_eq!(plan.stamp, Some(7));
}

#[test]
fn seeking_stops_at_the_end() {
    let mut player = Player::new();
    player.play("a", "/a.mp3", 1000, 0);
    assert_eq!(player.seek_ms(5000), Cmd::Seek(1000));
    assert_eq!(player.snapshot().pos_ms, 1000);
}
