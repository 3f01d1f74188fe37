use enzato::buffer::GapBuffer;

fn model_insert(s: &mut Vec<char>, i: usize, c: char) {
    s.insert(i, c);
}

#[test]
fn new_buffer_is_empty() {
    let b = GapBuffer::new();
    assert_eq!(b.len(), 0);
    assert_eq!(b.to_string(), "");
}

#[test]
fn from_string_round_trips() {
    let b = GapBuffer::from_string("héllo\nwörld");
    assert_eq!(b.len(), 11);
    assert_eq!(b.to_string(), "héllo\nwörld");
}

#[test]
fn insert_at_start_middle_and_end() {
    let mut b = GapBuffer::from_string("ace");
    b.insert(1, 'b');
    b.insert(3, 'd');
    b.insert(0, '>');
    b.insert(6, '<');
    assert_eq!(b.to_string(), ">abcde<");
    assert_eq!(b.len(), 7);
}

#[test]
fn insert_then_delete_restores_text() {
    let mut b = GapBuffer::from_string("hello");
    b.insert(2, 'X');
    assert_eq!(b.to_string(), "heXllo");
    assert_eq!(b.delete(2), Some('X'));
    assert_eq!(b.to_string(), "hello");
}

#[test]
fn delete_then_insert_restores_text() {
    let mut b = GapBuffer::from_string("hello");
    let c = b.delete(4).unwrap();
    assert_eq!(c, 'o');
    assert_eq!(b.to_string(), "hell");
    b.insert(4, c);
    assert_eq!(b.to_string(), "hello");
}

#[test]
fn delete_past_end_changes_nothing() {
    let mut b = GapBuffer::from_string("ab");
    assert_eq!(b.delete(2), None);
    assert_eq!(b.delete(100), None);
    assert_eq!(b.to_string(), "ab");
}

#[test]
fn many_edits_grow_the_gap_and_match_a_plain_model() {
    let mut b = GapBuffer::new();
    let mut m: Vec<char> = Vec::new();
    for k in 0..3000usize {
        let c = char::from(b'a' + (k % 26) as u8);
        let i = (k * 7) % (m.len() + 1);
        b.insert(i, c);
        model_insert(&mut m, i, c);
        if k % 5 == 0 {
            let j = (k * 3) % m.len();
            assert_eq!(b.delete(j), Some(m.remove(j)));
        }
    }
    assert_eq!(b.len(), m.len());
    assert_eq!(b.to_string(), m.iter().collect::<String>());
}

#[test]
fn get_range_string_cuts_at_the_end() {
    let b = GapBuffer::from_string("hello");
    assert_eq!(b.get_range_string(1, 3), "el");
    assert_eq!(b.get_range_string(1, 100), "ello");
    assert_eq!(b.get_range_string(3, 3), "");
    assert_eq!(b.get_range_string(4, 2), "");
    assert_eq!(b.get_range_string(7, 9), "");
}

#[test]
fn line_start_and_end() {
    let b = GapBuffer::from_string("ab\ncd\nef");
    assert_eq!(b.line_start_idx(0), 0);
    assert_eq!(b.line_start_idx(2), 0);
    assert_eq!(b.line_start_idx(3), 3);
    assert_eq!(b.line_start_idx(5), 3);
    assert_eq!(b.line_start_idx(8), 6);
    assert_eq!(b.line_end_idx(0), 2);
    assert_eq!(b.line_end_idx(2), 2);
    assert_eq!(b.line_end_idx(3), 5);
    assert_eq!(b.line_end_idx(6), 8);
    assert_eq!(b.line_end_idx(20), 20);
}

#[test]
fn idx_at_line_counts_from_one() {
    let b = GapBuffer::from_string("ab\ncd\nef");
    assert_eq!(b.idx_at_line(0), 0);
    assert_eq!(b.idx_at_line(1), 0);
    assert_eq!(b.idx_at_line(2), 3);
    assert_eq!(b.idx_at_line(3), 6);
    assert_eq!(b.idx_at_line(4), 8);
    assert_eq!(b.idx_at_line(usize::MAX), 8);
}

#[test]
fn line_col_of_positions() {
    let b = GapBuffer::from_string("ab\ncd\nef");
    assert_eq!(b.line_col_at_idx(0), (0, 0));
    assert_eq!(b.line_col_at_idx(2), (0, 2));
    assert_eq!(b.line_col_at_idx(3), (1, 0));
    assert_eq!(b.line_col_at_idx(4), (1, 1));
    assert_eq!(b.line_col_at_idx(8), (2, 2));
    assert_eq!(b.line_col_at_idx(100), (2, 2));
}

#[test]
fn idx_at_line_col_stays_on_the_line() {
    let b = GapBuffer::from_string("ab\ncdef\ng");
    assert_eq!(b.idx_at_line_col(0, 1), 1);
    assert_eq!(b.idx_at_line_col(0, 9), 2);
    assert_eq!(b.idx_at_line_col(1, 3), 6);
    assert_eq!(b.idx_at_line_col(2, 5), 9);
    assert_eq!(b.idx_at_line_col(7, 0), 9);
}

#[test]
fn line_col_round_trip_for_every_position() {
    let b = GapBuffer::from_string("first\n\nthird line\nx");
    for i in 0..=b.len() {
        let (line, col) = b.line_col_at_idx(i);
        assert_eq!(b.idx_at_line_col(line, col), i);
        assert!(line < b.total_lines());
    }
}

#[test]
fn total_lines_counts_line_breaks() {
    assert_eq!(GapBuffer::new().total_lines(), 1);
    assert_eq!(GapBuffer::from_string("a").total_lines(), 1);
    assert_eq!(GapBuffer::from_string("a\n").total_lines(), 2);
    assert_eq!(GapBuffer::from_string("\n\n\n").total_lines(), 4);
}

#[test]
fn get_line_string_without_break() {
    let b = GapBuffer::from_string("ab\ncd\n\nef");
    assert_eq!(b.get_line_string(0), "ab");
    assert_eq!(b.get_line_string(1), "cd");
    assert_eq!(b.get_line_string(2), "");
    assert_eq!(b.get_line_string(3), "ef");
    assert_eq!(b.get_line_string(9), "");
}

#[test]
fn search_all_finds_overlapping_matches_in_order() {
    let b = GapBuffer::from_string("abababa");
    assert_eq!(b.search_all("aba"), vec![0, 2, 4]);
    assert_eq!(b.search_all("a"), vec![0, 2, 4, 6]);
    assert_eq!(b.search_all("abababa"), vec![0]);
    assert_eq!(b.search_all("abababab"), Vec::<usize>::new());
    assert_eq!(b.search_all(""), Vec::<usize>::new());
    assert_eq!(b.search_all("c"), Vec::<usize>::new());
}

#[test]
fn search_all_counts_characters_not_bytes() {
    let b = GapBuffer::from_string("ééxé");
    assert_eq!(b.search_all("x"), vec![2]);
    assert_eq!(b.search_all("é"), vec![0, 1, 3]);
}

#[test]
fn search_all_after_edits() {
    let mut b = GapBuffer::from_string("xx");
    b.insert(1, 'y');
    assert_eq!(b.search_all("xy"), vec![0]);
    assert_eq!(b.search_all("yx"), vec![1]);
}
