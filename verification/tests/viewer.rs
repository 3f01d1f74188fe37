use enzato::viewer::Viewer;

#[test]
fn new_viewer_starts_at_the_top() {
    let v = Viewer::new(80, 24);
    assert_eq!(v.width(), 80);
    assert_eq!(v.height(), 24);
    assert_eq!(v.row_offset(), 0);
    assert_eq!(v.col_offset(), 0);
    assert_eq!(v.text_height(), 22);
}

#[test]
fn resize_keeps_offsets() {
    let mut v = Viewer::new(80, 24);
    v.scroll_to(100, 0);
    v.resize(40, 1);
    assert_eq!(v.width(), 40);
    assert_eq!(v.height(), 1);
    assert_eq!(v.text_height(), 0);
    assert_eq!(v.row_offset(), 79);
}

#[test]
fn scroll_keeps_cursor_in_view() {
    let mut v = Viewer::new(10, 7);
    v.scroll_to(3, 4);
    assert_eq!((v.row_offset(), v.col_offset()), (0, 0));
    v.scroll_to(12, 25);
    assert_eq!((v.row_offset(), v.col_offset()), (8, 16));
    v.scroll_to(9, 20);
    assert_eq!((v.row_offset(), v.col_offset()), (8, 16));
    v.scroll_to(2, 3);
    assert_eq!((v.row_offset(), v.col_offset()), (2, 3));
}
