use forge::term::PaneTerm;

/// Feed raw bytes into a fresh pane terminal and return screen contents.
fn feed_bytes(rows: u16, cols: u16, bytes: &[u8]) -> String {
    let mut term = PaneTerm::new(rows, cols, 0);
    term.feed(bytes);
    term.contents()
}

#[test]
fn ansi_plain_text() {
    let screen = feed_bytes(24, 80, b"Hello, world!");
    assert!(screen.contains("Hello, world!"), "got: {screen}");
}

#[test]
fn ansi_newline_and_cr() {
    let screen = feed_bytes(24, 80, b"line1\r\nline2\r\nline3");
    assert!(screen.contains("line1"), "got: {screen}");
    assert!(screen.contains("line2"), "got: {screen}");
    assert!(screen.contains("line3"), "got: {screen}");
}

#[test]
fn ansi_cursor_movement() {
    // Write "AB", move cursor left 1, overwrite with "X" → "AX"
    let screen = feed_bytes(24, 80, b"AB\x1b[1DX");
    assert!(screen.contains("AX"), "got: {screen}");
}

#[test]
fn ansi_erase_line() {
    // Write "Hello", go back to col 0, erase to end of line
    let screen = feed_bytes(24, 80, b"Hello\r\x1b[K");
    assert!(!screen.contains("Hello"), "erase failed, got: {screen}");
}

#[test]
fn ansi_sgr_colors_dont_corrupt_text() {
    // SGR color codes should not appear as text
    let screen = feed_bytes(24, 80, b"\x1b[31mRed text\x1b[0m Normal");
    assert!(screen.contains("Red text"), "got: {screen}");
    assert!(screen.contains("Normal"), "got: {screen}");
    assert!(!screen.contains("[31m"), "raw escape leaked: {screen}");
}

#[test]
fn ansi_cursor_save_restore() {
    // Save the cursor at col 5, write on, restore, overwrite
    let screen = feed_bytes(24, 80, b"Hello\x1b7 World\x1b8XYZ");
    assert!(screen.contains("HelloXYZrld"), "got: {screen}");
}

#[test]
fn ansi_clear_screen() {
    let screen = feed_bytes(24, 80, b"garbage\x1b[2J\x1b[HClean");
    assert!(screen.contains("Clean"), "got: {screen}");
    assert!(!screen.contains("garbage"), "clear failed, got: {screen}");
}

#[test]
fn ansi_line_wrap() {
    // Write exactly 80 chars + 1 more — should wrap to next line
    let line = "A".repeat(80);
    let mut input = line.as_bytes().to_vec();
    input.push(b'B');
    let screen = feed_bytes(24, 80, &input);
    assert!(screen.contains(&"A".repeat(80)), "got: {screen}");
    assert!(screen.contains("B"), "wrap char missing: {screen}");
}

#[test]
fn ansi_alternate_screen() {
    // Switch to alternate screen, write, switch back — original restored
    let screen = feed_bytes(24, 80, b"Main\x1b[?1049hAlternate\x1b[?1049l");
    assert!(screen.contains("Main"), "original lost: {screen}");
    assert!(!screen.contains("Alternate"), "alt leaked: {screen}");
}

#[test]
fn ansi_scroll_region() {
    // Set scroll region to lines 2-4, then scroll within it
    let mut input = Vec::new();
    input.extend_from_slice(b"\x1b[1;1HLine1");
    input.extend_from_slice(b"\x1b[2;1HLine2");
    input.extend_from_slice(b"\x1b[3;1HLine3");
    input.extend_from_slice(b"\x1b[4;1HLine4");
    input.extend_from_slice(b"\x1b[5;1HLine5");
    input.extend_from_slice(b"\x1b[2;4r");
    input.extend_from_slice(b"\x1b[4;1H\n");
    input.extend_from_slice(b"New");
    let screen = feed_bytes(10, 80, &input);
    // Line1 untouched (above region), Line5 untouched (below region)
    assert!(screen.contains("Line1"), "got: {screen}");
    assert!(screen.contains("Line5"), "got: {screen}");
}

#[test]
fn ansi_large_burst() {
    // A large output burst: the tail should be visible after scrolling
    let mut input = Vec::new();
    for i in 0..500 {
        input.extend_from_slice(format!("file_{i:04}.txt\r\n").as_bytes());
    }
    let screen = feed_bytes(24, 80, &input);
    assert!(screen.contains("file_0499.txt"), "got tail: {screen}");
}

#[test]
fn resize_updates_parser_screen_size() {
    let mut term = PaneTerm::new(24, 80, 0);
    assert_eq!(term.size(), (24, 80));
    let changed = term.resize_to(40, 120);
    assert!(changed);
    assert_eq!(term.size(), (40, 120));
}

#[test]
fn resize_preserves_existing_content() {
    let mut term = PaneTerm::new(24, 80, 0);
    term.feed(b"Hello from pane");
    term.resize_to(20, 60);
    let screen = term.contents();
    assert!(screen.contains("Hello from pane"), "got: {screen}");
}

#[test]
fn resize_then_feed_uses_new_dimensions() {
    let mut term = PaneTerm::new(24, 80, 0);
    // Resize to a narrow terminal, then feed a long line — it must wrap
    term.resize_to(10, 20);
    let long = "X".repeat(25);
    term.feed(long.as_bytes());
    let screen = term.contents();
    let x_count = screen.chars().filter(|&c| c == 'X').count();
    assert_eq!(x_count, 25, "got {x_count} X's in: {screen}");
}

#[test]
fn resize_debounce_skips_same_size() {
    let mut term = PaneTerm::new(24, 80, 0);
    // Same size should be a no-op
    assert!(!term.resize_to(24, 80));
    assert_eq!(term.size(), (24, 80));
}

#[test]
fn resize_debounce_updates_on_change() {
    let mut term = PaneTerm::new(24, 80, 0);
    assert!(term.resize_to(40, 120));
    assert_eq!(term.size(), (40, 120));
}

#[test]
fn resize_debounce_skips_zero_dimensions() {
    let mut term = PaneTerm::new(24, 80, 0);
    assert!(!term.resize_to(0, 24));
    assert_eq!(term.size(), (24, 80));
    assert!(!term.resize_to(80, 0));
    assert_eq!(term.size(), (24, 80));
}
