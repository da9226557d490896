use terminal_runner::terminal::{decode_key, push_decimal, Key, Terminal};

fn text(out: &[char]) -> String {
    out.iter().collect()
}

#[test]
fn space_jumps_and_arrows_map_to_up() {
    assert_eq!(decode_key(b" ", 1), Key::Space);
    assert_eq!(decode_key(b"\x1b[A", 3), Key::Up);
    assert_eq!(decode_key(b"w", 1), Key::Up);
    assert_eq!(decode_key(b"k", 1), Key::Up);
}

#[test]
fn escape_and_q_quit() {
    assert_eq!(decode_key(b"\x1b", 1), Key::Quit);
    assert_eq!(decode_key(b"q", 1), Key::Quit);
}

#[test]
fn other_input_is_unknown() {
    assert_eq!(decode_key(b"x", 1), Key::Unknown);
    assert_eq!(decode_key(b"\x1b[B", 3), Key::Unknown);
    assert_eq!(decode_key(b"qq", 2), Key::Unknown);
    assert_eq!(decode_key(b"", 0), Key::Unknown);
}

#[test]
fn only_the_bytes_read_count() {
    let mut buf = [0u8; 16];
    buf[0] = b'q';
    buf[1] = b'q';
    assert_eq!(Terminal::poll_key(1, 1, &buf), Some(Key::Quit));
    assert_eq!(Terminal::poll_key(1, 2, &buf), Some(Key::Unknown));
}

#[test]
fn nothing_polled_gives_no_key() {
    let buf = [b' '; 16];
    assert_eq!(Terminal::poll_key(0, 1, &buf), None);
    assert_eq!(Terminal::poll_key(-1, 1, &buf), None);
    assert_eq!(Terminal::poll_key(1, 0, &buf), None);
    assert_eq!(Terminal::poll_key(1, -1, &buf), None);
    assert_eq!(Terminal::poll_key(1, 1, &buf), Some(Key::Space));
}

#[test]
fn window_size_falls_back_to_80_by_24() {
    assert_eq!(Terminal::terminal_size(0, 100, 50), (100, 50));
    assert_eq!(Terminal::terminal_size(-1, 100, 50), (80, 24));
    assert_eq!(Terminal::terminal_size(0, 0, 50), (80, 24));
    assert_eq!(Terminal::terminal_size(0, 100, 0), (80, 24));
}

#[test]
fn screen_is_at_least_40_by_10() {
    let t = Terminal::init(10, 5);
    assert_eq!((t.width(), t.height()), (40, 10));
    let t = Terminal::init(120, 40);
    assert_eq!((t.width(), t.height()), (120, 40));
}

#[test]
fn decimal_numerals() {
    let mut out = Vec::new();
    push_decimal(&mut out, 0);
    assert_eq!(text(&out), "0");
    let mut out = vec!['x'];
    push_decimal(&mut out, 12345);
    assert_eq!(text(&out), "x12345");
    let mut out = Vec::new();
    push_decimal(&mut out, u32::MAX);
    assert_eq!(text(&out), "4294967295");
}

#[test]
fn unchanged_frame_sends_only_cursor_hiding() {
    let mut t = Terminal::init(40, 10);
    assert_eq!(text(&t.flush()), "\x1b[?25l");
    t.clear();
    assert_eq!(text(&t.flush()), "\x1b[?25l");
}

#[test]
fn changed_cell_is_sent_with_one_based_position() {
    let mut t = Terminal::init(40, 10);
    t.set_cell(3, 2, 'x');
    assert_eq!(text(&t.flush()), "\x1b[3;4Hx\x1b[?25l");
    // The frames were swapped: the blank frame is drawn over the shown `x`.
    assert_eq!(text(&t.flush()), "\x1b[3;4H \x1b[?25l");
}

#[test]
fn writes_outside_the_screen_are_dropped() {
    let mut t = Terminal::init(40, 10);
    t.set_cell(40, 0, 'x');
    t.set_cell(0, 10, 'x');
    assert_eq!(text(&t.flush()), "\x1b[?25l");
}

#[test]
fn string_is_cut_at_the_right_edge() {
    let mut t = Terminal::init(40, 10);
    t.set_str(38, 0, "abc");
    assert_eq!(text(&t.flush()), "\x1b[1;39Ha\x1b[1;40Hb\x1b[?25l");
}

#[test]
fn later_writes_win_and_rows_come_in_order() {
    let mut t = Terminal::init(40, 10);
    t.set_cell(5, 9, 'z');
    t.set_str(0, 0, "hi");
    t.set_cell(1, 0, 'o');
    assert_eq!(text(&t.flush()), "\x1b[1;1Hh\x1b[1;2Ho\x1b[10;6Hz\x1b[?25l");
}

#[test]
fn clear_blanks_the_drawn_frame() {
    let mut t = Terminal::init(40, 10);
    t.set_str(0, 0, "abc");
    t.flush();
    // Drawn frame is now the old blank one; draw the same text again.
    t.set_str(0, 0, "abc");
    assert_eq!(text(&t.flush()), "\x1b[?25l");
    t.clear();
    assert_eq!(text(&t.flush()), "\x1b[1;1H \x1b[1;2H \x1b[1;3H \x1b[?25l");
}
