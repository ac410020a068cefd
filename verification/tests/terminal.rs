use bcon::terminal::osc::osc_is_defined;
use bcon::terminal::selection::{SearchState, Selection};
use bcon::terminal::Terminal;
use bcon::ui::{handle_selection_key, KEY_DOWN, KEY_LEFT, KEY_RIGHT};

/// Hands the VT parser's events to the terminal.
struct Feed<'a> {
    term: &'a mut Terminal,
}

impl<'a> vte::Perform for Feed<'a> {
    fn print(&mut self, c: char) {
        assert!(self.term.print_is_defined(c));
        self.term.print(c);
    }

    fn execute(&mut self, byte: u8) {
        self.term.execute(byte);
    }

    fn hook(&mut self, _params: &vte::Params, intermediates: &[u8], _ignore: bool, action: char) {
        self.term.hook(intermediates, action);
    }

    fn put(&mut self, byte: u8) {
        self.term.put(byte);
    }

    fn unhook(&mut self) {
        for (idx, _h, l, _s) in self.term.sixel_pending_hls() {
            let v = (l * 255 / 100) as u8;
            self.term.resolve_sixel_hls(idx, (v, v, v));
        }
        assert!(self.term.unhook_is_defined());
        self.term.unhook();
    }

    fn osc_dispatch(&mut self, params: &[&[u8]], _bell_terminated: bool) {
        let ps: Vec<Vec<u8>> = params.iter().map(|p| p.to_vec()).collect();
        assert!(osc_is_defined(&ps));
        self.term.osc_dispatch(&ps);
    }

    fn csi_dispatch(&mut self, params: &vte::Params, intermediates: &[u8], _ignore: bool, action: char) {
        let ps: Vec<Vec<u16>> = params.iter().map(|p| p.to_vec()).collect();
        assert!(self.term.csi_is_defined(&ps, intermediates, action));
        self.term.csi_dispatch(&ps, intermediates, action);
    }

    fn esc_dispatch(&mut self, intermediates: &[u8], _ignore: bool, byte: u8) {
        self.term.esc_dispatch(intermediates, byte);
    }
}

/// Feeds program output to the terminal, as the program's output loop does.
fn feed(term: &mut Terminal, parser: &mut vte::Parser, bytes: &[u8]) {
    term.pty_response.clear();
    if term.needs_apc_path(bytes) {
        for &b in bytes {
            let (forward, _load) = term.apc_feed(b);
            for f in forward {
                parser.advance(&mut Feed { term: &mut *term }, f);
            }
        }
    } else {
        for &b in bytes {
            parser.advance(&mut Feed { term: &mut *term }, b);
        }
        term.end_direct_chunk(bytes);
    }
}

fn run(term: &mut Terminal, bytes: &[u8]) {
    let mut parser = vte::Parser::new();
    feed(term, &mut parser, bytes);
}

fn cell_char(term: &Terminal, row: usize, col: usize) -> Vec<char> {
    term.grid.cell(row, col).grapheme.clone()
}

#[test]
fn printing_writes_cells_and_moves_cursor() {
    let mut t = Terminal::new(10, 3);
    run(&mut t, b"ab");
    assert_eq!(cell_char(&t, 0, 0), vec!['a']);
    assert_eq!(cell_char(&t, 0, 1), vec!['b']);
    assert_eq!(t.grid.cursor_col(), 2);
    assert_eq!(t.grid.cursor_row(), 0);
}

#[test]
fn cursor_position_sequence() {
    let mut t = Terminal::new(10, 5);
    run(&mut t, b"\x1b[3;4H");
    assert_eq!(t.grid.cursor_row(), 2);
    assert_eq!(t.grid.cursor_col(), 3);
    run(&mut t, b"\x1b[99;99H");
    assert_eq!(t.grid.cursor_row(), 4);
    assert_eq!(t.grid.cursor_col(), 9);
}

#[test]
fn save_and_restore_cursor_round_trip() {
    let mut t = Terminal::new(10, 5);
    run(&mut t, b"\x1b[3;4H\x1b7\x1b[H");
    assert_eq!((t.grid.cursor_row(), t.grid.cursor_col()), (0, 0));
    run(&mut t, b"\x1b8");
    assert_eq!((t.grid.cursor_row(), t.grid.cursor_col()), (2, 3));
    run(&mut t, b"\x1b[2;2H\x1b[s\x1b[5;5H\x1b[u");
    assert_eq!((t.grid.cursor_row(), t.grid.cursor_col()), (1, 1));
}

#[test]
fn cursor_report_replies_one_based_position() {
    let mut t = Terminal::new(10, 5);
    run(&mut t, b"\x1b[2;7H\x1b[6n");
    assert_eq!(t.pty_response, b"\x1b[2;7R".to_vec());
}

#[test]
fn lines_leaving_the_screen_enter_the_scrollback() {
    let mut t = Terminal::with_scrollback(5, 2, 3);
    run(&mut t, b"a\r\nb\r\nc\r\nd\r\ne\r\nf");
    assert_eq!(t.grid.rows(), 2);
    // four lines left the screen, the scrollback keeps the newest three
    assert_eq!(t.grid.scrollback_len(), 3);
    assert_eq!(t.grid.scrollback_row(0).unwrap()[0].grapheme, vec!['b']);
    assert_eq!(cell_char(&t, 0, 0), vec!['e']);
    assert_eq!(cell_char(&t, 1, 0), vec!['f']);
}

#[test]
fn scroll_back_then_forward_returns_to_offset() {
    let mut t = Terminal::with_scrollback(5, 2, 10);
    run(&mut t, b"1\r\n2\r\n3\r\n4\r\n5\r\n6");
    assert_eq!(t.grid.scrollback_len(), 4);
    t.scroll_back(1);
    assert_eq!(t.scroll_offset, 1);
    t.scroll_back(2);
    t.scroll_forward(2);
    assert_eq!(t.scroll_offset, 1);
    // scrolling back stops at the oldest line
    t.scroll_back(100);
    assert_eq!(t.scroll_offset, 4);
    t.scroll_to_bottom();
    assert_eq!(t.scroll_offset, 0);
}

#[test]
fn display_cell_shows_scrollback_when_scrolled() {
    let mut t = Terminal::with_scrollback(5, 2, 10);
    run(&mut t, b"1\r\n2\r\n3");
    t.scroll_back(1);
    assert_eq!(t.display_cell(0, 0).grapheme, vec!['1']);
    assert_eq!(t.display_cell(1, 0).grapheme, vec!['2']);
    t.scroll_to_bottom();
    assert_eq!(t.display_cell(0, 0).grapheme, vec!['2']);
}

#[test]
fn full_reset_clears_screen() {
    let mut t = Terminal::new(5, 2);
    run(&mut t, b"xy\x1bc");
    assert!(t.grid.cell(0, 0).grapheme.is_empty() || t.grid.cell(0, 0).grapheme == vec![' ']);
    assert_eq!(t.grid.cursor_col(), 0);
}

#[test]
fn clipboard_sequence_sets_and_answers() {
    let mut t = Terminal::new(10, 3);
    run(&mut t, b"\x1b]52;c;aGVsbG8=\x07");
    assert_eq!(t.clipboard, "hello");
    assert!(t.clipboard_changed);
    run(&mut t, b"\x1b]52;c;?\x07");
    let reply = String::from_utf8(t.pty_response.clone()).unwrap();
    assert!(reply.contains("aGVsbG8="));
}

#[test]
fn working_directory_sequence() {
    let mut t = Terminal::new(10, 3);
    run(&mut t, b"\x1b]7;file://host/home/user\x07");
    assert_eq!(t.current_directory.as_deref(), Some("/home/user"));
}

#[test]
fn hyperlink_is_the_url_at_its_cells() {
    let mut t = Terminal::new(20, 3);
    run(&mut t, b"\x1b]8;;https://example.org\x07link\x1b]8;;\x07 text");
    assert_eq!(t.detect_url_at(0, 1), Some("https://example.org".to_string()));
    assert_eq!(t.detect_url_at(0, 6), None);
}

#[test]
fn url_in_text_is_found_under_the_click() {
    let mut t = Terminal::new(40, 3);
    run(&mut t, b"see https://example.com/a?b=1 ok");
    assert_eq!(t.detect_url_at(0, 10), Some("https://example.com/a?b=1".to_string()));
    assert_eq!(t.detect_url_at(0, 1), None);
    assert_eq!(t.detect_url_at(0, 31), None);
}

#[test]
fn word_and_line_selection_copy_to_clipboard() {
    let mut t = Terminal::new(20, 3);
    run(&mut t, b"hello world");
    t.select_word(0, 7);
    assert_eq!(t.clipboard, "world");
    t.select_line(0);
    assert_eq!(t.clipboard, "hello world");
}

#[test]
fn selection_text_spans_rows() {
    let mut t = Terminal::new(10, 3);
    run(&mut t, b"abc\r\ndef");
    t.selection = Some(Selection { anchor_row: 0, anchor_col: 1, end_row: 1, end_col: 1 });
    assert_eq!(t.get_selection_text(), "bc\nde");
    // the same selection given end first
    t.selection = Some(Selection { anchor_row: 1, anchor_col: 1, end_row: 0, end_col: 1 });
    assert_eq!(t.get_selection_text(), "bc\nde");
}

#[test]
fn search_finds_matches_and_steps() {
    let mut t = Terminal::new(20, 3);
    run(&mut t, b"foo bar foo\r\nfoo");
    let mut s = SearchState::new();
    s.query.push_str("foo");
    t.search = Some(s);
    t.execute_search();
    let s = t.search.as_ref().unwrap();
    assert_eq!(s.match_count(), 3);
    assert_eq!(s.match_at(0), (0, 0, 3));
    assert_eq!(s.match_at(1), (0, 8, 11));
    assert_eq!(s.match_at(2), (1, 0, 3));
    let s = t.search.as_mut().unwrap();
    let first = s.current_match();
    s.next_match();
    s.prev_match();
    assert_eq!(s.current_match(), first);
    t.end_search();
    assert!(t.search.is_none());
}

#[test]
fn mouse_reports_in_both_encodings() {
    let mut t = Terminal::new(80, 24);
    assert_eq!(t.send_mouse_press(0, 4, 2), Vec::<u8>::new());
    run(&mut t, b"\x1b[?1000h");
    assert!(t.mouse_mode_enabled());
    assert_eq!(t.send_mouse_press(0, 4, 2), vec![0x1b, b'[', b'M', 32, 37, 35]);
    assert_eq!(t.send_mouse_release(0, 4, 2), vec![0x1b, b'[', b'M', 35, 37, 35]);
    // coordinates are capped at 223
    assert_eq!(t.send_mouse_press(1, 500, 0), vec![0x1b, b'[', b'M', 33, 255, 33]);
    run(&mut t, b"\x1b[?1006h");
    assert_eq!(t.send_mouse_press(0, 4, 2), b"\x1b[<0;5;3M".to_vec());
    assert_eq!(t.send_mouse_release(2, 4, 2), b"\x1b[<2;5;3m".to_vec());
    assert_eq!(t.send_mouse_wheel(-1, 0, 0), b"\x1b[<64;1;1M".to_vec());
    assert_eq!(t.send_mouse_wheel(1, 0, 0), b"\x1b[<65;1;1M".to_vec());
    // motion is reported only in the any-event mode, or with a button held
    assert_eq!(t.send_mouse_move(1, 1, None), Vec::<u8>::new());
    run(&mut t, b"\x1b[?1002h");
    assert_eq!(t.send_mouse_move(1, 1, Some(0)), b"\x1b[<32;2;2M".to_vec());
    run(&mut t, b"\x1b[?1003h");
    assert_eq!(t.send_mouse_move(1, 1, None), b"\x1b[<35;2;2M".to_vec());
}

#[test]
fn focus_reports_when_requested() {
    let mut t = Terminal::new(10, 3);
    assert!(t.send_focus_event(true).is_empty());
    run(&mut t, b"\x1b[?1004h");
    assert_eq!(t.send_focus_event(true), b"\x1b[I".to_vec());
    assert_eq!(t.send_focus_event(false), b"\x1b[O".to_vec());
}

#[test]
fn paste_is_bracketed_in_bracketed_mode() {
    let mut t = Terminal::new(10, 3);
    assert!(t.paste_clipboard().is_empty());
    t.set_clipboard("hi");
    assert_eq!(t.paste_clipboard(), b"hi".to_vec());
    run(&mut t, b"\x1b[?2004h");
    assert_eq!(t.paste_clipboard(), b"\x1b[200~hi\x1b[201~".to_vec());
}

#[test]
fn termcap_query_is_answered() {
    let mut t = Terminal::new(10, 3);
    // "TN" hex-encoded
    run(&mut t, b"\x1bP+q544e\x1b\\");
    let reply = String::from_utf8(t.pty_response.clone()).unwrap();
    assert!(reply.starts_with("\x1bP1+r544e="));
    assert!(reply.ends_with("\x1b\\"));
}

#[test]
fn setting_query_reports_scroll_region() {
    let mut t = Terminal::new(10, 5);
    run(&mut t, b"\x1b[2;4r\x1bP$qr\x1b\\");
    assert_eq!(t.pty_response, b"\x1bP1$r2;4r\x1b\\".to_vec());
}

#[test]
fn notification_history_keeps_the_newest_hundred() {
    let mut t = Terminal::new(10, 3);
    t.notifications_enabled = true;
    for i in 0..105 {
        let seq = format!("\x1b]9;message {}\x07", i);
        run(&mut t, seq.as_bytes());
    }
    assert_eq!(t.notifications.len(), 100);
    assert_eq!(t.notification_seq, 105);
}

#[test]
fn kitty_image_through_apc_is_stored_and_acknowledged() {
    let mut t = Terminal::new(10, 3);
    t.set_cell_size(10, 20);
    // one red RGB pixel
    run(&mut t, b"\x1b_Ga=T,f=24,s=1,v=1,i=7;/wAA\x1b\\");
    assert!(t.images.contains(7));
    assert_eq!(t.pty_response, b"\x1b_Gi=7;OK\x1b\\".to_vec());
    let img = t.images.get(7).unwrap();
    assert_eq!((img.width, img.height), (1, 1));
    assert_eq!(img.data, vec![255, 0, 0, 255]);
}

#[test]
fn sixel_image_through_dcs_is_registered() {
    let mut t = Terminal::new(10, 3);
    t.set_cell_size(10, 20);
    run(&mut t, b"\x1bPq#0;2;100;0;0~\x1b\\");
    assert_eq!(t.images.total_bytes(), 6 * 4);
    assert_eq!(t.grid.image_placements().len(), 1);
}

#[test]
fn shift_arrows_extend_the_selection() {
    let mut t = Terminal::new(10, 3);
    run(&mut t, b"\x1b[1;10H");
    handle_selection_key(&mut t, KEY_RIGHT, 10);
    let s = t.selection.as_ref().unwrap();
    // at the last column the end moves to the next row's start
    assert_eq!((s.anchor_row, s.anchor_col, s.end_row, s.end_col), (0, 9, 1, 0));
    handle_selection_key(&mut t, KEY_LEFT, 10);
    let s = t.selection.as_ref().unwrap();
    assert_eq!((s.end_row, s.end_col), (0, 9));
    handle_selection_key(&mut t, KEY_DOWN, 10);
    handle_selection_key(&mut t, KEY_DOWN, 10);
    handle_selection_key(&mut t, KEY_DOWN, 10);
    assert_eq!(t.selection.as_ref().unwrap().end_row, 2);
}

#[test]
fn copy_mode_selects_and_yanks() {
    let mut t = Terminal::new(10, 3);
    run(&mut t, b"abcdef\x1b[1;1H");
    t.enter_copy_mode();
    assert!(t.copy_mode.is_some());
    t.copy_mode_toggle_selection();
    t.copy_mode_move(0, 2);
    t.copy_mode_yank();
    assert_eq!(t.clipboard, "abc");
    assert!(t.copy_mode.is_none());
}

#[test]
fn search_prev_from_first_match_wraps_to_last() {
    let mut s = SearchState::new();
    s.set_matches(vec![(0, 0, 1), (1, 2, 3), (4, 0, 2)]);
    assert_eq!(s.current_match(), 0);
    s.prev_match();
    assert_eq!(s.current_match(), 2);
    s.next_match();
    assert_eq!(s.current_match(), 0);
    s.next_match();
    s.prev_match();
    assert_eq!(s.current_match(), 0);
}

#[test]
fn new_terminal_starts_empty() {
    let t = Terminal::new(12, 4);
    assert_eq!(t.grid.cols(), 12);
    assert_eq!(t.grid.rows(), 4);
    assert_eq!(t.scroll_offset, 0);
    assert!(t.selection.is_none());
    assert!(t.clipboard.is_empty());
    assert!(!t.clipboard_changed);
    assert!(t.images.get(1).is_none());
    assert_eq!(t.images.next_id(), 1);
    assert!(t.kitty_decoder.is_none());
    assert!(t.apc_buffer.is_empty());
    assert_eq!((t.cell_width, t.cell_height), (0, 0));
    assert!(t.search.is_none());
    assert!(t.copy_mode.is_none());
    assert!(t.current_directory.is_none());
    assert!(t.pty_response.is_empty());
    assert!(t.dirty_image_ids.is_empty());
    assert!(t.notifications.is_empty());
    assert_eq!(t.notification_seq, 0);
    assert!(t.notifications_enabled);
    assert!(t.active_progress.is_none());
    assert!(t.pending_notifications.is_empty());
    assert!(!t.allow_kitty_remote);
}
