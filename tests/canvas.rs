use rmud::canvas::{BufferChange, Canvas, CanvasError, Cell, Color, RenderBuffer, Style};

fn plain(ch: char) -> Cell {
    Cell { ch, style: Style::default() }
}

#[test]
fn set_char_then_read_returns_written_cell() {
    let mut rb = RenderBuffer::new(4, 3);
    let style = Style { fg: Some(Color::Ansi(9)), bg: None, bold: true, italic: true };
    rb.set_char('Z', Some(&style), 3, 2);
    assert_eq!(*rb.cell_at(3, 2), Cell { ch: 'Z', style });
    assert_eq!(*rb.cell_at(2, 2), plain(' '));
    rb.set_char('q', None, 0, 0);
    assert_eq!(*rb.cell_at(0, 0), plain('q'));
}

#[test]
fn diff_against_identical_copy_is_empty() {
    let mut a = RenderBuffer::new(5, 4);
    let mut b = RenderBuffer::new(5, 4);
    a.set_text("hey", None, 1, 2).unwrap();
    b.set_text("hey", None, 1, 2).unwrap();
    assert!(a.diff(&b).is_empty());
    assert!(RenderBuffer::new(0, 0).diff(&RenderBuffer::new(0, 0)).is_empty());
}

#[test]
fn buffer_diff() {
    let mut buffer = RenderBuffer::new(3, 3);
    let old_buffer = RenderBuffer::new(3, 3);
    buffer.set_text("ABC", None, 0, 0).unwrap();
    let diff = buffer.diff(&old_buffer);
    assert_eq!(diff.len(), 3);
    assert_eq!(diff[0], BufferChange { cell: plain('A'), x: 0, y: 0 });
    assert_eq!(diff[1], BufferChange { cell: plain('B'), x: 1, y: 0 });
    assert_eq!(diff[2], BufferChange { cell: plain('C'), x: 2, y: 0 });
}

#[test]
fn diff_is_row_major() {
    let mut buffer = RenderBuffer::new(3, 2);
    let old_buffer = RenderBuffer::new(3, 2);
    buffer.set_char('b', None, 0, 1);
    buffer.set_char('a', None, 2, 0);
    let diff = buffer.diff(&old_buffer);
    assert_eq!(diff, vec![
        BufferChange { cell: plain('a'), x: 2, y: 0 },
        BufferChange { cell: plain('b'), x: 0, y: 1 },
    ]);
}

#[test]
fn buffer_set_text() {
    let mut rb = RenderBuffer::new(10, 10);
    assert!(rb.set_text(&"@".repeat(10), None, 0, 0).is_ok());
    assert!(rb.set_text(&"N".repeat(11), None, 0, 0).is_err());
}

#[test]
fn set_text_too_long_leaves_buffer_unchanged() {
    let mut rb = RenderBuffer::new(5, 2);
    rb.set_text("ab", None, 0, 1).unwrap();
    assert_eq!(rb.set_text("xyz", None, 3, 1), Err(CanvasError::TextTooLong));
    let row: Vec<char> = (0..5).map(|x| rb.cell_at(x, 1).ch).collect();
    assert_eq!(row, vec!['a', 'b', ' ', ' ', ' ']);
    assert_eq!(rb.set_text("", None, 6, 9), Err(CanvasError::TextTooLong));
    assert_eq!(rb.set_text("", None, 5, 9), Ok(()));
}

#[test]
fn set_text_counts_characters_not_bytes() {
    let mut rb = RenderBuffer::new(3, 1);
    assert_eq!(rb.set_text("éàü", None, 0, 0), Ok(()));
    assert_eq!(rb.cell_at(2, 0).ch, 'ü');
}

#[test]
fn draw_border_draws_frame() {
    let mut rb = RenderBuffer::new(5, 4);
    assert_eq!(rb.draw_border(1, 0, 4, 3, None), Ok(()));
    let rows: Vec<String> = (0..4).map(|y| (0..5).map(|x| rb.cell_at(x, y).ch).collect()).collect();
    assert_eq!(rows, vec![" ┌──┐", " │  │", " └──┘", "     "]);
}

#[test]
fn draw_border_one_row_high() {
    let mut rb = RenderBuffer::new(3, 1);
    assert_eq!(rb.draw_border(0, 0, 3, 1, None), Ok(()));
    let row: String = (0..3).map(|x| rb.cell_at(x, 0).ch).collect();
    assert_eq!(row, "└─┘");
}

#[test]
fn draw_border_rejects_area_outside() {
    let mut rb = RenderBuffer::new(4, 4);
    assert_eq!(rb.draw_border(1, 0, 4, 2, None), Err(CanvasError::AreaExceedsBounds));
    assert_eq!(rb.draw_border(0, 3, 2, 2, None), Err(CanvasError::AreaExceedsBounds));
    assert_eq!(*rb.cell_at(1, 0), plain(' '));
    assert_eq!(*rb.cell_at(0, 3), plain(' '));
}

#[test]
fn clear_blanks_every_cell() {
    let mut rb = RenderBuffer::new(2, 2);
    rb.set_text("xy", None, 0, 1).unwrap();
    rb.clear();
    assert!(rb.diff(&RenderBuffer::new(2, 2)).is_empty());
    assert_eq!(rb.width(), 2);
    assert_eq!(rb.height(), 2);
}

fn accepts(bytes: &[u8], on: &[u8], off: &[u8]) -> bool {
    bytes == on || bytes == off
}

#[test]
fn redraw_emits_only_changed_cells() {
    let mut canvas = Canvas::new(20, 20);
    let mut frame = RenderBuffer::new(20, 20);
    frame.set_char('A', None, 0, 0);
    frame.set_text("Hi", None, 0, 1).unwrap();
    let mut out = Vec::new();
    canvas.redraw(&mut out, frame);
    let on = b"\x1b[1;1H\x1b[39m\x1b[49m\x1b[22mA\x1b[2;1H\x1b[39m\x1b[49m\x1b[22mH\x1b[2;2H\x1b[39m\x1b[49m\x1b[22mi";
    let off = b"\x1b[1;1H\x1b[m\x1b[m\x1b[22mA\x1b[2;1H\x1b[m\x1b[m\x1b[22mH\x1b[2;2H\x1b[m\x1b[m\x1b[22mi";
    assert!(accepts(&out, on, off), "{:?}", String::from_utf8_lossy(&out));

    let mut again = RenderBuffer::new(20, 20);
    again.set_char('A', None, 0, 0);
    again.set_text("Hi", None, 0, 1).unwrap();
    let mut out2 = Vec::new();
    canvas.redraw(&mut out2, again);
    assert!(out2.is_empty());
}

#[test]
fn redraw_encodes_colours_bold_and_position() {
    let mut canvas = Canvas::new(30, 12);
    let mut frame = RenderBuffer::new(30, 12);
    let style = Style { fg: Some(Color::Rgb { r: 1, g: 2, b: 255 }), bg: Some(Color::Ansi(9)), bold: true, italic: false };
    frame.set_char('é', Some(&style), 24, 10);
    let mut out = vec![7u8];
    canvas.redraw(&mut out, frame);
    let mut on = vec![7u8];
    on.extend_from_slice("\x1b[11;25H\x1b[38;2;1;2;255m\x1b[48;5;9m\x1b[1mé".as_bytes());
    let mut off = vec![7u8];
    off.extend_from_slice("\x1b[11;25H\x1b[m\x1b[m\x1b[1mé".as_bytes());
    assert!(accepts(&out, &on, &off), "{:?}", String::from_utf8_lossy(&out));
}

#[test]
fn to_text_prints_rows() {
    let mut rb = RenderBuffer::new(3, 2);
    rb.set_text("ab", None, 1, 0).unwrap();
    rb.set_char('z', None, 0, 1);
    assert_eq!(rb.to_text(), " ab\nz  \n");
    assert_eq!(RenderBuffer::new(0, 0).to_text(), "");
}

#[test]
fn draw_border_rejects_empty_area() {
    let mut rb = RenderBuffer::new(4, 4);
    assert_eq!(rb.draw_border(1, 1, 0, 2, None), Err(CanvasError::AreaExceedsBounds));
    assert_eq!(rb.draw_border(1, 1, 2, 0, None), Err(CanvasError::AreaExceedsBounds));
    assert_eq!(rb.draw_border(9, 9, 0, 0, None), Err(CanvasError::AreaExceedsBounds));
    assert_eq!(rb.to_text(), "    \n    \n    \n    \n");
}

#[test]
fn redraw_of_unchanged_frame_writes_nothing() {
    let mut canvas = Canvas::new(3, 2);
    let mut out = vec![1u8, 2];
    canvas.redraw(&mut out, RenderBuffer::new(3, 2));
    assert_eq!(out, vec![1, 2]);
}
