use dedup_gui::align::{Alignment, Segment, SegmentKind};
use dedup_gui::hexdiff::{Capped, HexDiff, MAX_READ, ROWS_PER_PAGE};
use dedup_gui::textdiff::{
    changed_pair, emit_changed_block, lcs_line_matches, positional_matches, Mark, RowPlan, Step,
    TextDiff, MAX_ROWS,
};
use dedup_gui::theme::Ink;

/// The longest common head and tail of the two sides, with one difference in
/// between.
fn align(a: &[u8], b: &[u8]) -> Alignment {
    let shorter = a.len().min(b.len());
    let mut head = 0;
    while head < shorter && a[head] == b[head] {
        head += 1;
    }
    let mut tail = 0;
    while tail < shorter - head && a[a.len() - 1 - tail] == b[b.len() - 1 - tail] {
        tail += 1;
    }
    let mut segments = Vec::new();
    if head > 0 {
        segments.push(Segment {
            kind: SegmentKind::Equal,
            a_start: 0,
            a_end: head,
            b_start: 0,
            b_end: head,
        });
    }
    if head + tail < a.len() || head + tail < b.len() {
        segments.push(Segment {
            kind: SegmentKind::Diff,
            a_start: head,
            a_end: a.len() - tail,
            b_start: head,
            b_end: b.len() - tail,
        });
    }
    if tail > 0 {
        segments.push(Segment {
            kind: SegmentKind::Equal,
            a_start: a.len() - tail,
            a_end: a.len(),
            b_start: b.len() - tail,
            b_end: b.len(),
        });
    }
    Alignment { segments, degraded: false }
}

fn hex_diff(a: &[u8], b: &[u8]) -> HexDiff {
    HexDiff::build(a, b, &align(a, b), false, false)
}

fn text_diff(a: &str, b: &str) -> TextDiff {
    let plan = RowPlan::new(a, b);
    let alignments: Vec<Alignment> =
        plan.pairs().iter().map(|(l, r)| align(l.as_bytes(), r.as_bytes())).collect();
    TextDiff::build(a, b, &alignments)
}

fn left_text(d: &TextDiff, row: usize) -> String {
    d.rows[row].left.iter().map(|c| c.text.as_str()).collect()
}

fn right_text(d: &TextDiff, row: usize) -> String {
    d.rows[row].right.iter().map(|c| c.text.as_str()).collect()
}

fn marked(d: &TextDiff, mark: Mark) -> Vec<String> {
    d.rows
        .iter()
        .flat_map(|r| r.left.iter().chain(r.right.iter()))
        .filter(|c| c.mark == mark)
        .map(|c| c.text.clone())
        .collect()
}

#[test]
fn an_inserted_header_aligns_the_shared_payload_and_marks_the_gap() {
    let a = b"PAYLOAD-shared-and-fairly-long-so-it-spans-rows".to_vec();
    let mut b = b"HDR".to_vec();
    b.extend_from_slice(&a);
    let diff = hex_diff(&a, &b);
    assert!(!diff.degraded);
    assert!(!diff.is_identical(), "the inserted header is a difference");
    assert!(diff.rows() > 0);
    // There is a jump target, and it lands on a real page.
    let jump = diff.next_diff_page(0);
    assert!(jump.is_some(), "there is a difference to jump to");
    assert!(jump.unwrap() < diff.pages());
}

#[test]
fn identical_inputs_have_no_differences_to_jump_to() {
    let a = b"exactly the same on both sides".to_vec();
    let diff = hex_diff(&a, &a);
    assert!(diff.is_identical());
    assert_eq!(diff.next_diff_page(0), None);
    assert_eq!(diff.prev_diff_page(0), None);
}

#[test]
fn jump_wraps_around_the_file() {
    // A difference near the end; from page 0, next-diff finds it, and
    // prev-diff from page 0 wraps back to it.
    let a: Vec<u8> = (0..4000u32).map(|i| i as u8).collect();
    let mut b = a.clone();
    *b.last_mut().expect("non-empty") = 0xFF;
    let diff = hex_diff(&a, &b);
    assert!(!diff.is_identical());
    let last_page = diff.pages() - 1;
    assert_eq!(diff.next_diff_page(0), Some(last_page));
    assert_eq!(diff.prev_diff_page(0), Some(last_page), "prev wraps to the end");
}

#[test]
fn every_byte_reads_back_from_the_units() {
    let a = b"hello".to_vec();
    let b = b"hallo!".to_vec();
    let diff = hex_diff(&a, &b);
    let left: Vec<u8> = diff.units.iter().filter_map(|u| u.a.map(|x| x.1)).collect();
    let right: Vec<u8> = diff.units.iter().filter_map(|u| u.b.map(|x| x.1)).collect();
    assert_eq!(left, a);
    assert_eq!(right, b);
    assert_eq!(diff.diff_rows, vec![0]);
    assert!(diff.is_diff_row(0));
    assert!(!diff.is_diff_row(1));
}

#[test]
fn a_row_shows_offset_bytes_and_text() {
    let a = b"AB\x00".to_vec();
    let b = b"AC\x00".to_vec();
    let diff = hex_diff(&a, &b);
    let runs = diff.side_runs(0, true);
    let line: String = runs.iter().map(|r| r.0.as_str()).collect();
    assert!(line.contains("00000000"), "{line}");
    assert!(line.contains("41 42 00"), "{line}");
    assert!(runs.iter().any(|r| r.0.contains("42") && r.1 == Ink::Amber), "the change is amber");
    assert_eq!(diff.page_rows(0), (0, 1));
    assert_eq!(ROWS_PER_PAGE, 40);
}

#[test]
fn flags_of_a_read_are_kept() {
    let empty = Alignment { segments: Vec::new(), degraded: true };
    let diff = HexDiff::build(&[], &[], &empty, true, true);
    assert!(diff.degraded && diff.truncated && diff.read_failed);
    assert_eq!(diff.rows(), 0);
    assert_eq!(diff.pages(), 1);
}

#[test]
fn a_read_is_capped_and_says_so() {
    let whole = Capped::of(Some(vec![1, 2, 3]));
    assert_eq!(whole.bytes, vec![1, 2, 3]);
    assert!(!whole.truncated && whole.read_ok);
    let long = Capped::of(Some(vec![7; MAX_READ + 1]));
    assert_eq!(long.bytes.len(), MAX_READ);
    assert!(long.truncated && long.read_ok);
    let failed = Capped::of(None);
    assert!(failed.bytes.is_empty() && !failed.truncated && !failed.read_ok);
}

#[test]
fn a_changed_line_is_marked_and_aligns_with_the_equal_ones() {
    let a = "Dear Bob\nAmount is A\nRegards";
    let b = "Dear Bob\nAmount is B\nRegards";
    let d = text_diff(a, b);
    assert_eq!(d.rows.len(), 3);
    assert!(!d.rows[0].changed, "greeting is equal");
    assert!(d.rows[1].changed, "the amount line changed");
    assert!(!d.rows[2].changed, "sign-off is equal");
    assert_eq!(left_text(&d, 1), "Amount is A");
    assert_eq!(right_text(&d, 1), "Amount is B");
    // Only the differing character is amber — the shared prefix is not.
    let amber = marked(&d, Mark::Change);
    assert!(amber.contains(&"A".to_string()), "A-side change: {amber:?}");
    assert!(amber.contains(&"B".to_string()), "B-side change: {amber:?}");
    assert!(
        amber.iter().all(|t| !t.contains("Amount")),
        "the shared prefix is not marked: {amber:?}"
    );
}

#[test]
fn an_inserted_line_is_a_one_sided_gap() {
    let a = "one\nthree";
    let b = "one\ntwo\nthree";
    let d = text_diff(a, b);
    assert_eq!(d.rows.len(), 3);
    assert!(!d.rows[0].changed);
    assert!(d.rows[1].changed, "the inserted line is a change row");
    assert_eq!(left_text(&d, 1), "", "left blank where B inserted a line");
    assert_eq!(right_text(&d, 1), "two");
    assert!(!d.rows[2].changed);
    // An inserted line is a gap (green), not a substitution (amber).
    assert!(marked(&d, Mark::Gap).contains(&"two".to_string()));
    assert!(marked(&d, Mark::Change).is_empty());
}

#[test]
fn identical_text_has_no_changed_rows() {
    let d = text_diff("same\ncontent\nhere", "same\ncontent\nhere");
    assert_eq!(d.rows.len(), 3);
    assert!(
        (0..d.rows.len()).all(|i| !d.rows[i].changed),
        "nothing is marked when the documents match — and no verdict is drawn"
    );
}

#[test]
fn marks_have_their_own_colours() {
    assert_eq!(TextDiff::color(Mark::Equal), Ink::Text);
    assert_eq!(TextDiff::color(Mark::Gap), Ink::Green);
    assert_eq!(TextDiff::color(Mark::Change), Ink::Amber);
}

#[test]
fn pairing_finds_the_longest_common_run_of_lines() {
    let texts = |l: &[&str]| l.iter().map(|s| s.to_string()).collect::<Vec<_>>();
    let a = texts(&["x", "a", "b", "c"]);
    let b = texts(&["a", "y", "b", "c"]);
    assert_eq!(lcs_line_matches(&a, &b), vec![(1, 0), (2, 2), (3, 3)]);
    assert_eq!(positional_matches(&a, &b), vec![(2, 2), (3, 3)]);
}

#[test]
fn a_changed_block_pairs_lines_then_lists_the_rest() {
    let mut steps = Vec::new();
    emit_changed_block(&mut steps, 0, 3, 5, 6);
    assert_eq!(steps, vec![Step::Pair(0, 5), Step::LeftOnly(1), Step::LeftOnly(2)]);
    let mut steps = Vec::new();
    emit_changed_block(&mut steps, 2, 2, 0, 1);
    assert_eq!(steps, vec![Step::RightOnly(0)]);
}

#[test]
fn every_line_is_shown_once() {
    let d = text_diff("a\nb\nc", "b\nd\ne\nc");
    let left: Vec<String> =
        (0..d.rows.len()).map(|i| left_text(&d, i)).filter(|t| !t.is_empty()).collect();
    let right: Vec<String> =
        (0..d.rows.len()).map(|i| right_text(&d, i)).filter(|t| !t.is_empty()).collect();
    assert_eq!(left, vec!["a", "b", "c"]);
    assert_eq!(right, vec!["b", "d", "e", "c"]);
}

#[test]
fn a_split_character_is_shown_as_a_replacement() {
    // "é" and "è" differ in their second byte only, so a byte-wise alignment
    // cuts both characters in two.
    let row = changed_pair("é", "è", &align("é".as_bytes(), "è".as_bytes()));
    assert!(row.changed);
    let left: String = row.left.iter().map(|c| c.text.as_str()).collect();
    assert_eq!(left, "\u{FFFD}\u{FFFD}");
}

#[test]
fn an_alignment_is_held_to_the_lengths() {
    let a = b"hello".to_vec();
    let b = b"hallo!".to_vec();
    let alignment = align(&a, &b);
    assert!(alignment.stays_within(5, 6));
    assert!(!alignment.stays_within(5, 5), "the second stream is too short");
    assert!(!alignment.stays_within(4, 6), "the first stream is too short");
}

#[test]
fn rows_keep_to_the_ceiling() {
    let long = RowPlan::new("", &"x\n".repeat(MAX_ROWS + 1));
    assert_eq!(long.steps.len(), MAX_ROWS, "a longer document is cut to it");
    assert!(long.truncated);
    let d = TextDiff::build("", &"x\n".repeat(MAX_ROWS + 1), &Vec::new());
    assert_eq!(d.rows.len(), MAX_ROWS);
    assert!(d.truncated);
    let full = RowPlan::new("", &"x\n".repeat(MAX_ROWS));
    assert_eq!(full.steps.len(), MAX_ROWS);
    assert!(!full.truncated, "nothing was cut");
}

#[test]
fn rows_read_back_both_documents() {
    let a = "Dear Bob\n\nAmount is A\nkept\nonly here\nRegards";
    let b = "Dear Bob\nAmount is B\nkept\n\nRegards";
    let d = text_diff(a, b);
    assert!(!d.degraded && !d.truncated);
    let shown = |side: &dyn Fn(&TextDiff, usize) -> String| -> Vec<String> {
        (0..d.rows.len()).map(|i| side(&d, i)).filter(|t| !t.is_empty()).collect()
    };
    let written = |doc: &str| -> Vec<String> {
        doc.lines().filter(|l| !l.is_empty()).map(|l| l.to_string()).collect()
    };
    assert_eq!(shown(&left_text), written(a));
    assert_eq!(shown(&right_text), written(b));
    for (i, row) in d.rows.iter().enumerate() {
        let both = !row.left.is_empty() && !row.right.is_empty();
        assert_eq!(!row.changed, both && left_text(&d, i) == right_text(&d, i));
    }
    assert_eq!(d.rows.iter().filter(|r| !r.changed).count(), 3, "the longest pairing");
}

#[test]
fn a_changed_pair_shows_both_lines() {
    let (a, b) = ("Amount is 10 EUR", "Amount was 12 EUR");
    let row = changed_pair(a, b, &align(a.as_bytes(), b.as_bytes()));
    let text = |cells: &Vec<dedup_gui::textdiff::Cell>, mark: Option<Mark>| -> String {
        cells
            .iter()
            .filter(|c| mark.map_or(true, |m| c.mark == m))
            .map(|c| c.text.as_str())
            .collect()
    };
    assert!(row.changed);
    assert_eq!(text(&row.left, None), a);
    assert_eq!(text(&row.right, None), b);
    assert_eq!(text(&row.left, Some(Mark::Equal)), text(&row.right, Some(Mark::Equal)));
    assert!(row.left.iter().chain(row.right.iter()).all(|c| !c.text.is_empty()));
    let changes = |cells: &Vec<dedup_gui::textdiff::Cell>| {
        cells.iter().filter(|c| c.mark == Mark::Change).count()
    };
    assert_eq!(changes(&row.left), changes(&row.right));
}
