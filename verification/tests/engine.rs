use enzato::engine::{Effect, Engine, Key, KeyPress, Mode};

fn press(code: Key) -> KeyPress {
    KeyPress { code, ctrl: false, shift: false }
}

fn ch(c: char) -> KeyPress {
    press(Key::Char(c))
}

fn ctrl(c: char) -> KeyPress {
    KeyPress { code: Key::Char(c), ctrl: true, shift: false }
}

fn shifted(code: Key) -> KeyPress {
    KeyPress { code, ctrl: false, shift: true }
}

fn type_text(e: &mut Engine, s: &str) {
    for c in s.chars() {
        assert_eq!(e.handle_key(ch(c)), Effect::Continue);
    }
}

fn text(e: &Engine) -> String {
    e.buffer.to_string()
}

#[test]
fn new_engine_state() {
    let e = Engine::new();
    assert_eq!(text(&e), "");
    assert_eq!(e.cursor_char_idx, 0);
    assert_eq!(e.mode, Mode::Normal);
    assert_eq!(e.filepath, None);
    assert!(!e.dirty);
    assert_eq!(e.status_message, "Welcome to Enzato | Ctrl+S: Save | Ctrl+Q: Quit | Ctrl+F: Find");
    assert_eq!(e.selection_start, None);
}

#[test]
fn typing_inserts_at_the_cursor() {
    let mut e = Engine::new();
    type_text(&mut e, "helo");
    e.handle_key(press(Key::Left));
    type_text(&mut e, "l");
    e.handle_key(press(Key::Enter));
    assert_eq!(text(&e), "hell\no");
    assert_eq!(e.cursor_char_idx, 5);
    assert!(e.dirty);
}

#[test]
fn undo_restores_text_after_each_kind_of_edit() {
    let mut e = Engine::new();
    type_text(&mut e, "abc");
    e.handle_key(ctrl('z'));
    assert_eq!(text(&e), "ab");
    assert_eq!(e.cursor_char_idx, 2);
    e.handle_key(press(Key::Backspace));
    assert_eq!(text(&e), "a");
    e.handle_key(ctrl('z'));
    assert_eq!(text(&e), "ab");
    e.handle_key(press(Key::Home));
    e.handle_key(press(Key::Delete));
    assert_eq!(text(&e), "b");
    e.handle_key(ctrl('z'));
    assert_eq!(text(&e), "ab");
}

#[test]
fn redo_after_undo_restores_text() {
    let mut e = Engine::new();
    type_text(&mut e, "xyz");
    e.handle_key(ctrl('z'));
    e.handle_key(ctrl('z'));
    assert_eq!(text(&e), "x");
    e.handle_key(ctrl('y'));
    assert_eq!(text(&e), "xy");
    e.handle_key(ctrl('y'));
    assert_eq!(text(&e), "xyz");
    assert_eq!(e.cursor_char_idx, 3);
    e.handle_key(ctrl('y'));
    assert_eq!(text(&e), "xyz");
}

#[test]
fn new_edit_after_undo_drops_redo() {
    let mut e = Engine::new();
    type_text(&mut e, "ab");
    e.handle_key(ctrl('z'));
    type_text(&mut e, "c");
    e.handle_key(ctrl('y'));
    assert_eq!(text(&e), "ac");
}

#[test]
fn backspace_at_start_and_delete_at_end_do_nothing() {
    let mut e = Engine::new();
    type_text(&mut e, "a");
    e.handle_key(press(Key::Delete));
    assert_eq!(text(&e), "a");
    e.handle_key(press(Key::Home));
    e.handle_key(press(Key::Backspace));
    assert_eq!(text(&e), "a");
    assert_eq!(e.cursor_char_idx, 0);
}

#[test]
fn typing_replaces_the_selection() {
    let mut e = Engine::new();
    type_text(&mut e, "hello");
    e.handle_key(press(Key::Home));
    e.handle_key(shifted(Key::Right));
    e.handle_key(shifted(Key::Right));
    assert_eq!(e.selection_start, Some(0));
    assert!(e.in_selection(1));
    assert!(!e.in_selection(2));
    type_text(&mut e, "J");
    assert_eq!(text(&e), "Jllo");
    assert_eq!(e.selection_start, None);
    e.handle_key(ctrl('z'));
    e.handle_key(ctrl('z'));
    e.handle_key(ctrl('z'));
    assert_eq!(text(&e), "hello");
}

#[test]
fn copy_and_cut_give_the_selected_text() {
    let mut e = Engine::new();
    type_text(&mut e, "abcdef");
    e.handle_key(shifted(Key::Left));
    e.handle_key(shifted(Key::Left));
    assert_eq!(e.handle_key(ctrl('c')), Effect::Copy("ef".to_string()));
    assert_eq!(text(&e), "abcdef");
    assert_eq!(e.handle_key(ctrl('x')), Effect::Copy("ef".to_string()));
    assert_eq!(text(&e), "abcd");
    assert_eq!(e.cursor_char_idx, 4);
    assert_eq!(e.handle_key(ctrl('c')), Effect::Continue);
    e.handle_key(ctrl('z'));
    e.handle_key(ctrl('z'));
    assert_eq!(text(&e), "abcdef");
}

#[test]
fn select_all_then_backspace_empties_the_text() {
    let mut e = Engine::new();
    type_text(&mut e, "one\ntwo");
    e.handle_key(ctrl('a'));
    assert_eq!(e.cursor_char_idx, 7);
    e.handle_key(press(Key::Backspace));
    assert_eq!(text(&e), "");
    assert_eq!(e.cursor_char_idx, 0);
}

#[test]
fn paste_inserts_and_records_each_character() {
    let mut e = Engine::new();
    type_text(&mut e, "ad");
    e.handle_key(press(Key::Left));
    assert_eq!(e.handle_key(ctrl('v')), Effect::Paste);
    e.paste("bc");
    assert_eq!(text(&e), "abcd");
    assert_eq!(e.cursor_char_idx, 3);
    e.handle_key(ctrl('z'));
    assert_eq!(text(&e), "abd");
    e.handle_key(ctrl('z'));
    assert_eq!(text(&e), "ad");
}

#[test]
fn paste_of_nothing_keeps_text_clean() {
    let mut e = Engine::new();
    e.paste("");
    assert!(!e.dirty);
    assert_eq!(text(&e), "");
}

#[test]
fn quit_with_and_without_changes() {
    let mut e = Engine::new();
    assert_eq!(e.handle_key(ctrl('q')), Effect::Quit);
    type_text(&mut e, "x");
    assert_eq!(e.handle_key(ctrl('q')), Effect::Continue);
    assert_eq!(e.mode, Mode::QuitPrompt);
    assert_eq!(e.handle_key(ch('c')), Effect::Continue);
    assert_eq!(e.mode, Mode::Normal);
    e.handle_key(ctrl('q'));
    assert_eq!(e.handle_key(press(Key::Esc)), Effect::Continue);
    assert_eq!(e.mode, Mode::Normal);
    e.handle_key(ctrl('q'));
    assert_eq!(e.handle_key(ch('q')), Effect::Continue);
    assert_eq!(e.handle_key(ch('N')), Effect::Quit);
    assert_eq!(e.handle_key(ch('y')), Effect::SaveAndQuit);
}

#[test]
fn save_without_file_opens_the_prompt() {
    let mut e = Engine::new();
    type_text(&mut e, "hi");
    assert_eq!(e.handle_key(ctrl('s')), Effect::Save);
    assert_eq!(e.save_target(), None);
    assert_eq!(e.mode, Mode::SavePrompt);
    for c in " out.txt\t".chars() {
        e.handle_key(ch(c));
    }
    e.handle_key(press(Key::Backspace));
    e.handle_key(ch('\u{3000}'));
    assert_eq!(e.prompt_input, " out.txt\u{3000}");
    assert_eq!(e.handle_key(press(Key::Enter)), Effect::Save);
    assert_eq!(e.mode, Mode::Normal);
    assert_eq!(e.prompt_input, "");
    assert_eq!(e.filepath, Some("out.txt".to_string()));
    assert_eq!(e.save_target(), Some("out.txt".to_string()));
    e.mark_saved("out.txt");
    assert!(!e.dirty);
    assert_eq!(e.status_message, "Saved successfully to out.txt");
}

#[test]
fn blank_save_name_is_ignored() {
    let mut e = Engine::new();
    e.save_target();
    e.handle_key(ch(' '));
    e.handle_key(ch('\t'));
    assert_eq!(e.handle_key(press(Key::Enter)), Effect::Continue);
    assert_eq!(e.filepath, None);
    assert_eq!(e.mode, Mode::Normal);
}

#[test]
fn load_file_replaces_the_session() {
    let mut e = Engine::new();
    type_text(&mut e, "old");
    e.load_file(Some("new\ntext"), "notes.txt");
    assert_eq!(text(&e), "new\ntext");
    assert_eq!(e.cursor_char_idx, 0);
    assert!(!e.dirty);
    assert_eq!(e.filepath, Some("notes.txt".to_string()));
    assert_eq!(e.status_message, "Loaded: notes.txt");
    e.handle_key(ctrl('z'));
    assert_eq!(text(&e), "new\ntext");
    e.load_file(None, "missing.txt");
    assert_eq!(text(&e), "");
}

#[test]
fn search_moves_to_matches_and_cycles() {
    let mut e = Engine::new();
    e.load_file(Some("ab ab ab"), "f");
    e.handle_key(press(Key::Right));
    e.handle_key(press(Key::Right));
    e.handle_key(ctrl('f'));
    assert_eq!(e.mode, Mode::Search);
    e.handle_key(ch('a'));
    assert_eq!(e.search_matches, vec![0, 3, 6]);
    assert_eq!(e.current_match_idx, 1);
    assert_eq!(e.cursor_char_idx, 3);
    e.handle_key(ch('b'));
    assert_eq!(e.cursor_char_idx, 3);
    e.handle_key(press(Key::Enter));
    assert_eq!(e.cursor_char_idx, 6);
    e.handle_key(press(Key::Enter));
    assert_eq!(e.cursor_char_idx, 0);
    e.handle_key(ch('z'));
    assert_eq!(e.search_matches, vec![0, 3, 6]);
    assert_eq!(e.cursor_char_idx, 0);
    e.handle_key(press(Key::Backspace));
    assert_eq!(e.prompt_input, "ab");
    e.handle_key(press(Key::Esc));
    assert_eq!(e.mode, Mode::Normal);
    assert!(e.search_matches.is_empty());
    assert_eq!(e.prompt_input, "");
}

#[test]
fn search_wraps_to_first_match_when_none_after_cursor() {
    let mut e = Engine::new();
    e.load_file(Some("xa xb"), "f");
    e.handle_key(ctrl('a'));
    e.handle_key(press(Key::Right));
    e.handle_key(ctrl('f'));
    e.handle_key(ch('x'));
    assert_eq!(e.current_match_idx, 0);
    assert_eq!(e.cursor_char_idx, 0);
}

#[test]
fn go_to_line_reads_digits() {
    let mut e = Engine::new();
    e.load_file(Some("a\nbb\nccc"), "f");
    e.handle_key(ctrl('g'));
    assert_eq!(e.mode, Mode::GoToLine);
    e.handle_key(ch('x'));
    e.handle_key(ch('3'));
    assert_eq!(e.prompt_input, "3");
    e.handle_key(press(Key::Enter));
    assert_eq!(e.cursor_char_idx, 5);
    assert_eq!(e.mode, Mode::Normal);
    e.handle_key(ctrl('g'));
    e.handle_key(ch('0'));
    e.handle_key(press(Key::Enter));
    assert_eq!(e.cursor_char_idx, 0);
    e.handle_key(ctrl('g'));
    e.handle_key(ch('9'));
    e.handle_key(press(Key::Enter));
    assert_eq!(e.cursor_char_idx, 8);
}

#[test]
fn go_to_line_ignores_numbers_too_large() {
    let mut e = Engine::new();
    e.load_file(Some("a\nb"), "f");
    e.handle_key(press(Key::Right));
    e.handle_key(ctrl('g'));
    for c in "99999999999999999999999".chars() {
        e.handle_key(ch(c));
    }
    e.handle_key(press(Key::Enter));
    assert_eq!(e.cursor_char_idx, 1);
    assert_eq!(e.mode, Mode::Normal);
    e.handle_key(ctrl('g'));
    e.handle_key(press(Key::Enter));
    assert_eq!(e.cursor_char_idx, 1);
    e.handle_key(ctrl('g'));
    e.handle_key(ch('2'));
    e.handle_key(press(Key::Backspace));
    e.handle_key(press(Key::Esc));
    assert_eq!(e.cursor_char_idx, 1);
}

#[test]
fn vertical_moves_keep_the_column() {
    let mut e = Engine::new();
    e.load_file(Some("abcd\nx\nefgh"), "f");
    e.handle_key(press(Key::End));
    assert_eq!(e.cursor_char_idx, 4);
    e.handle_key(press(Key::Down));
    assert_eq!(e.cursor_char_idx, 6);
    e.handle_key(press(Key::Down));
    assert_eq!(e.cursor_char_idx, 8);
    e.handle_key(press(Key::Up));
    assert_eq!(e.cursor_char_idx, 6);
    e.handle_key(press(Key::Up));
    e.handle_key(press(Key::Up));
    assert_eq!(e.cursor_char_idx, 1);
    e.handle_key(press(Key::Home));
    assert_eq!(e.cursor_char_idx, 0);
}

#[test]
fn movement_without_shift_ends_the_selection() {
    let mut e = Engine::new();
    type_text(&mut e, "abc");
    e.handle_key(shifted(Key::Left));
    assert_eq!(e.selection_start, Some(3));
    e.handle_key(press(Key::Left));
    assert_eq!(e.selection_start, None);
    assert_eq!(e.cursor_char_idx, 1);
}

#[test]
fn move_cursor_vertical_by_several_lines() {
    let mut e = Engine::new();
    e.load_file(Some("a\nb\nc\nd"), "f");
    e.move_cursor_vertical(3);
    assert_eq!(e.cursor_char_idx, 6);
    e.move_cursor_vertical(-2);
    assert_eq!(e.cursor_char_idx, 2);
    e.move_cursor_vertical(-9);
    assert_eq!(e.cursor_char_idx, 0);
}

#[test]
fn ctrl_with_other_keys_does_nothing() {
    let mut e = Engine::new();
    type_text(&mut e, "ab");
    let k = KeyPress { code: Key::Left, ctrl: true, shift: false };
    assert_eq!(e.handle_key(k), Effect::Continue);
    assert_eq!(e.cursor_char_idx, 2);
    assert_eq!(e.handle_key(ctrl('k')), Effect::Continue);
    assert_eq!(text(&e), "ab");
}

#[test]
fn prompt_keys_do_not_edit_text() {
    let mut e = Engine::new();
    type_text(&mut e, "keep");
    for opener in ['f', 'g'] {
        e.handle_key(ctrl(opener));
        for k in [ch('k'), ch('1'), press(Key::Backspace), press(Key::Delete), press(Key::Enter)] {
            e.handle_key(k);
            assert_eq!(text(&e), "keep");
        }
        e.handle_key(press(Key::Esc));
    }
    e.handle_key(ctrl('q'));
    e.handle_key(press(Key::Backspace));
    assert_eq!(text(&e), "keep");
}

#[test]
fn undoing_every_edit_gives_back_the_start() {
    let mut e = Engine::new();
    let keys = [
        ch('a'), ch('b'), ch('c'), press(Key::Enter), ch('d'), press(Key::Left), press(Key::Left),
        press(Key::Backspace), shifted(Key::Left), shifted(Key::Left), ch('X'), press(Key::Home),
        press(Key::Delete), press(Key::Up), ch('Y'), shifted(Key::End), ctrl('x'), press(Key::Down),
        ch('Z'), ctrl('a'), ch('W'), ch('V'),
    ];
    for k in keys {
        e.handle_key(k);
        assert!(e.cursor_char_idx <= e.buffer.len());
    }
    e.paste("pq\nr");
    let end = text(&e);
    assert_eq!(end, "WVpq\nr");
    for _ in 0..100 {
        e.handle_key(ctrl('z'));
        assert!(e.cursor_char_idx <= e.buffer.len());
    }
    assert_eq!(text(&e), "");
    for _ in 0..100 {
        e.handle_key(ctrl('y'));
    }
    assert_eq!(text(&e), end);
}
