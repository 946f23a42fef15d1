use flow_state::center::ease_step;
use flow_state::kind::{file_kind, kind_for_extension, FileKind};
use flow_state::text::{
    is_whitespace, next_paragraph_start, paragraphs, prev_paragraph_start, sentence_start_before,
};

fn lines(text: &str) -> Vec<String> {
    text.split('\n').map(str::to_string).collect()
}

#[test]
fn ease_step_converges_and_lands_exactly() {
    for &target in &[9, -9, 1, -1, 40] {
        let mut cur = 0;
        let mut steps = 0;
        while cur != target {
            let s = ease_step(target - cur, 100);
            assert!(s != 0 && s.signum() == (target - cur).signum());
            cur += s;
            // never overshoot
            assert!((target - cur).signum() == (target).signum() || target == cur);
            steps += 1;
            assert!(steps < 30, "did not converge for {target}");
        }
        assert_eq!(cur, target);
    }
}

#[test]
fn ease_step_caps_and_zeroes() {
    assert_eq!(ease_step(100, 4), 4); // capped
    assert_eq!(ease_step(-100, 4), -4);
    assert_eq!(ease_step(0, 4), 0); // arrived
}

#[test]
fn ease_step_exact_values() {
    // half the distance, rounded up, capped, at least one line
    assert_eq!(ease_step(9, 100), 5);
    assert_eq!(ease_step(-9, 100), -5);
    assert_eq!(ease_step(1, 100), 1);
    assert_eq!(ease_step(40, 100), 20);
    assert_eq!(ease_step(40, 5), 5);
    assert_eq!(ease_step(3, 0), 1); // a non-positive cap still moves one line
}

#[test]
fn detects_file_kind() {
    assert_eq!(file_kind(Some("a.md")), FileKind::Markdown);
    assert_eq!(file_kind(Some("a.tex")), FileKind::Latex);
    assert_eq!(file_kind(Some("a.txt")), FileKind::Plain);
    assert_eq!(file_kind(None), FileKind::Plain);
}

#[test]
fn file_kind_reads_the_extension_through_std() {
    assert_eq!(file_kind(Some("/notes/chapter.one/draft.md")), FileKind::Markdown);
    assert_eq!(file_kind(Some("/notes/draft.md/plain")), FileKind::Plain);
    assert_eq!(file_kind(Some(".tex")), FileKind::Plain);
}

#[test]
fn paragraphs_split_on_blank_lines() {
    let l = lines("one\ntwo\n\nthree\n\n\nfour");
    assert_eq!(paragraphs(&l), vec![(0, 1), (3, 3), (6, 6)]);
}

#[test]
fn paragraph_navigation() {
    let l = lines("one\n\ntwo\n\nthree");
    assert_eq!(next_paragraph_start(&l, 0), Some(2));
    assert_eq!(next_paragraph_start(&l, 2), Some(4));
    assert_eq!(next_paragraph_start(&l, 4), None);
    assert_eq!(prev_paragraph_start(&l, 4), Some(2));
    assert_eq!(prev_paragraph_start(&l, 2), Some(0));
    assert_eq!(prev_paragraph_start(&l, 0), None);
}

#[test]
fn sentence_start_mid_sentence() {
    let l = lines("First one. Second part here");
    assert_eq!(sentence_start_before(&l, (0, 27)), Some((0, 11)));
}

#[test]
fn sentence_start_just_after_terminator_targets_whole_sentence() {
    let l = lines("First one. Second part. ");
    assert_eq!(sentence_start_before(&l, (0, 24)), Some((0, 11)));
}

#[test]
fn sentence_start_stops_at_paragraph_start() {
    let l = lines("para one.\n\nno terminator here");
    assert_eq!(sentence_start_before(&l, (2, 18)), Some((2, 0)));
}

#[test]
fn sentence_start_across_lines() {
    let l = lines("Stays. Sentence broken\nacross lines here");
    assert_eq!(sentence_start_before(&l, (1, 17)), Some((0, 7)));
}

#[test]
fn sentence_start_nothing_to_delete() {
    let l = lines("");
    assert_eq!(sentence_start_before(&l, (0, 0)), None);
}

#[test]
fn sentence_columns_are_byte_offsets() {
    // "héllo. wörld" — 'é' is 2 bytes, so "wörld" starts at byte 7.
    let l = lines("héllo. wörld");
    let cursor = (0, l[0].len());
    assert_eq!(sentence_start_before(&l, cursor), Some((0, 8)));
}

#[test]
fn whitespace_matches_std_for_every_char() {
    for u in 0u32..=0x10ffff {
        if let Some(c) = char::from_u32(u) {
            assert_eq!(is_whitespace(c), c.is_whitespace(), "U+{u:04X}");
        }
    }
}

#[test]
fn active_paragraph_on_a_blank_line_covers_the_blank_run() {
    let l = lines("one\n\n\ntwo");
    assert_eq!(flow_state::text::active_paragraph(&l, 0), (0, 0));
    assert_eq!(flow_state::text::active_paragraph(&l, 3), (3, 3));
}

#[test]
fn the_extension_decides_the_preview() {
    assert_eq!(kind_for_extension(Some("md")), FileKind::Markdown);
    assert_eq!(kind_for_extension(Some("tex")), FileKind::Latex);
    assert_eq!(kind_for_extension(Some("MD")), FileKind::Plain);
    assert_eq!(kind_for_extension(None), FileKind::Plain);
}
