use update_delivery_system::changelog::{line_offsets, parse, wrapped_lines, ChangelogError, ViewerState};

const VALID: &str = "# UDS v2.0.0\n\n## Added\n\nNew.\n# UDS v1.0.0\n\nOld.\n";

/// Verifies that parses versions and keeps subheadings and blank lines.
#[test]
fn parses_versions_and_keeps_subheadings_and_blank_lines() {
    let sections = parse(VALID, "2.0.0").ok().unwrap();
    assert_eq!(sections.len(), 2);
    assert!(sections[0].markdown.contains("## Added\n\nNew."));
}

/// Verifies that rejects bad headings duplicates order and version mismatch.
#[test]
fn rejects_bad_headings_duplicates_order_and_version_mismatch() {
    assert!(parse("# Wrong\n", "1.0.0").is_err());
    assert!(parse("# UDS v1.0.0\n# UDS v1.0.0\n", "1.0.0").is_err());
    assert!(parse("# UDS v1.0.0\n# UDS v2.0.0\n", "1.0.0").is_err());
    assert!(parse(VALID, "3.0.0").is_err());
}

/// Verifies that navigation and scroll stay in bounds.
#[test]
fn navigation_and_scroll_stay_in_bounds() {
    let mut state = ViewerState::default();
    state.newer();
    assert_eq!(state.section, 0);
    state.older(2);
    assert_eq!((state.section, state.scroll), (1, 0));
    state.older(2);
    assert_eq!(state.section, 1);
    state.scroll_by(20, 3);
    assert_eq!(state.scroll, 3);
    state.scroll_by(-20, 3);
    assert_eq!(state.scroll, 0);
    state.newer();
    assert_eq!((state.section, state.scroll), (0, 0));
}

/// Verifies that wrapping handles tiny terminals.
#[test]
fn wrapping_handles_tiny_terminals() {
    assert_eq!(wrapped_lines("abc", 1), ["a", "b", "c"]);
}

#[test]
fn parse_reports_each_refusal() {
    assert!(matches!(parse("# Wrong\n", "1.0.0"), Err(ChangelogError::InvalidHeading { .. })));
    assert!(matches!(parse("#Wrong\n", "1.0.0"), Err(ChangelogError::InvalidHeading { .. })));
    assert!(matches!(parse("# UDS vx\n", "1.0.0"), Err(ChangelogError::InvalidVersion { .. })));
    assert!(matches!(parse("text\n## sub\n", "1.0.0"), Err(ChangelogError::NoSections)));
    assert!(matches!(parse("", "1.0.0"), Err(ChangelogError::NoSections)));
    assert!(matches!(
        parse("# UDS v1.0.0\n# UDS v1.0.0\n", "1.0.0"),
        Err(ChangelogError::NotNewestFirst)
    ));
    assert!(matches!(
        parse("# UDS v1.0.0\n# UDS v2.0.0\n", "1.0.0"),
        Err(ChangelogError::NotNewestFirst)
    ));
    assert!(matches!(parse(VALID, "3.0.0"), Err(ChangelogError::VersionMismatch { .. })));
    assert!(matches!(parse(VALID, "not a version"), Err(ChangelogError::InvalidExpectedVersion { .. })));
}

#[test]
fn parse_splits_sections_at_headings_and_trims_their_ends() {
    let sections = parse(VALID, "2.0.0").ok().unwrap();
    assert_eq!(sections[0].markdown, "# UDS v2.0.0\n\n## Added\n\nNew.");
    assert_eq!(sections[1].markdown, "# UDS v1.0.0\n\nOld.");
    assert_eq!(sections[0].version.to_text(), "2.0.0");
    assert_eq!(sections[1].version.major(), 1);
    let crlf = parse("# UDS v1.2.3-rc.1+b7\r\nBody  \r\n\r\n", "1.2.3-rc.1+b7").ok().unwrap();
    assert_eq!(crlf.len(), 1);
    assert_eq!(crlf[0].markdown, "# UDS v1.2.3-rc.1+b7\r\nBody");
    assert_eq!(crlf[0].version.pre(), "rc.1");
    assert_eq!(crlf[0].version.build(), "b7");
}

#[test]
fn wrapping_splits_at_white_space_and_keeps_empty_lines() {
    assert_eq!(wrapped_lines("one two three", 7), ["one two", "three"]);
    assert_eq!(wrapped_lines("a\n\nb", 10), ["a", "", "b"]);
    assert_eq!(wrapped_lines("abc", 0), ["a", "b", "c"]);
    for line in wrapped_lines("lorem ipsum dolor sit amet consectetur", 6) {
        assert!(line.chars().count() <= 6);
    }
}

use update_delivery_system::changelog::{
    should_browse_interactively, truncate, viewer_footer, viewer_layout, viewer_title, visible_rows,
    ViewerEvent, ViewerKey, ViewerLayout,
};

fn key(code: ViewerKey) -> ViewerEvent {
    ViewerEvent::Key { code, pressed: true }
}

#[test]
fn viewer_events_move_within_bounds_and_quit() {
    let layout = ViewerLayout { body_height: 5, max_scroll: 7 };
    let mut state = ViewerState::default();
    assert!(!state.handle_event(key(ViewerKey::PageDown), 3, ViewerLayout { body_height: 5, max_scroll: 7 }));
    assert_eq!(state.scroll, 5);
    assert!(!state.handle_event(key(ViewerKey::PageDown), 3, ViewerLayout { body_height: 5, max_scroll: 7 }));
    assert_eq!(state.scroll, 7);
    assert!(!state.handle_event(key(ViewerKey::Up), 3, ViewerLayout { body_height: 5, max_scroll: 7 }));
    assert_eq!(state.scroll, 6);
    assert!(!state.handle_event(key(ViewerKey::Home), 3, ViewerLayout { body_height: 5, max_scroll: 7 }));
    assert_eq!(state.scroll, 0);
    assert!(!state.handle_event(key(ViewerKey::End), 3, ViewerLayout { body_height: 5, max_scroll: 7 }));
    assert_eq!(state.scroll, 7);
    assert!(!state.handle_event(key(ViewerKey::Left), 3, ViewerLayout { body_height: 5, max_scroll: 7 }));
    assert_eq!((state.section, state.scroll), (1, 0));
    assert!(!state.handle_event(key(ViewerKey::Left), 3, ViewerLayout { body_height: 5, max_scroll: 7 }));
    assert!(!state.handle_event(key(ViewerKey::Left), 3, ViewerLayout { body_height: 5, max_scroll: 7 }));
    assert_eq!(state.section, 2);
    assert!(!state.handle_event(key(ViewerKey::Right), 3, ViewerLayout { body_height: 5, max_scroll: 7 }));
    assert_eq!(state.section, 1);
    assert!(!state.handle_event(
        ViewerEvent::Key { code: ViewerKey::Char('q'), pressed: false },
        3,
        ViewerLayout { body_height: 5, max_scroll: 7 }
    ));
    assert!(!state.handle_event(ViewerEvent::Resize, 3, ViewerLayout { body_height: 5, max_scroll: 7 }));
    assert!(!state.handle_event(key(ViewerKey::Char('x')), 3, ViewerLayout { body_height: 5, max_scroll: 7 }));
    assert!(state.handle_event(key(ViewerKey::Char('q')), 3, ViewerLayout { body_height: 5, max_scroll: 7 }));
    assert!(state.handle_event(key(ViewerKey::Esc), 3, layout));
    assert_eq!(state.section, 1);
}

#[test]
fn frame_text_is_cut_to_the_terminal() {
    let layout = viewer_layout(10, 20);
    assert_eq!((layout.body_height, layout.max_scroll), (7, 13));
    let tiny = viewer_layout(2, 20);
    assert_eq!((tiny.body_height, tiny.max_scroll), (0, 20));
    let short = viewer_layout(10, 3);
    assert_eq!(short.max_scroll, 0);
    assert_eq!(truncate("abcdef", 3), "abc");
    assert_eq!(truncate("ab", 3), "ab");
    let lines: Vec<String> = ["one", "two", "three", "four"].iter().map(|s| s.to_string()).collect();
    assert_eq!(visible_rows(&lines, 1, 5, 3), ["two", "thr"]);
    assert_eq!(visible_rows(&lines, 9, 20, 3).len(), 0);
    let sections = parse(VALID, "2.0.0").ok().unwrap();
    assert_eq!(viewer_title(&sections[0].version, 0, 2, 80), "UDS changelog — 2.0.0  [1/2]");
    assert_eq!(viewer_title(&sections[1].version, 1, 2, 12), "UDS changelo");
    assert_eq!(viewer_footer(1, 80), None);
    assert_eq!(viewer_footer(5, 6).unwrap(), "← olde");
    assert!(should_browse_interactively(true, true));
    assert!(!should_browse_interactively(true, false));
    assert!(!should_browse_interactively(false, true));
}

#[test]
fn line_offsets_count_bytes_and_drop_line_breaks() {
    let lines = line_offsets("# \u{e9}\r\nb\n\nlast");
    let expected: Vec<(usize, String)> =
        vec![(0, "# \u{e9}".into()), (6, "b".into()), (8, "".into()), (9, "last".into())];
    assert_eq!(lines, expected);
    assert!(line_offsets("").is_empty());
}

#[test]
fn wrapping_splits_at_unicode_white_space() {
    assert_eq!(wrapped_lines("ab\u{3000}cd", 3), ["ab", "cd"]);
    assert_eq!(wrapped_lines("ab\u{a0}cd", 3), ["ab", "cd"]);
    assert_eq!(wrapped_lines("ab\u{200b}cd", 3), ["ab\u{200b}", "cd"]);
}

#[test]
fn every_drawn_frame_stays_in_bounds() {
    let count = 3;
    let mut state = ViewerState::default();
    let heights_and_lines = [(10u16, 20usize), (4, 2), (30, 50), (2, 9), (12, 12)];
    let events = [
        key(ViewerKey::End),
        key(ViewerKey::PageDown),
        key(ViewerKey::Left),
        key(ViewerKey::Left),
        key(ViewerKey::Left),
    ];
    for ((height, lines), event) in heights_and_lines.into_iter().zip(events) {
        let layout = viewer_layout(height, lines);
        state.clamp_scroll(layout.max_scroll);
        assert!(state.section < count);
        assert!(state.scroll <= layout.max_scroll);
        assert!(!state.handle_event(event, count, layout));
    }
    assert_eq!(state.section, 2);
}
