use ds_pinyin_lsp::index::TextIndex;
use ds_pinyin_lsp::types::Position;

fn index(text: &str) -> TextIndex {
    TextIndex::new(text.to_string()).unwrap()
}

#[test]
fn new_keeps_the_text() {
    assert_eq!(index("你好\nni").text(), "你好\nni");
    assert_eq!(index("").text(), "");
}

#[test]
fn from_offset_finds_line_and_column() {
    let doc = index("Hello, world!\nКак дела?\r\n做得好\nThis is 💣!");
    assert_eq!(doc.from_offset(0), Position::new(0, 0));
    assert_eq!(doc.from_offset(13), Position::new(0, 13));
    assert_eq!(doc.from_offset(14), Position::new(1, 0));
    assert_eq!(doc.from_offset(20), Position::new(1, 3));
    assert_eq!(doc.from_offset(50), Position::new(3, 8));
    assert_eq!(doc.from_offset(54), Position::new(3, 10));
}

#[test]
fn from_offset_clamps() {
    let doc = index("a💣b");
    // inside the four bytes of the character: its start
    assert_eq!(doc.from_offset(2), Position::new(0, 1));
    assert_eq!(doc.from_offset(4), Position::new(0, 1));
    assert_eq!(doc.from_offset(5), Position::new(0, 3));
    // behind the text: its end
    assert_eq!(doc.from_offset(6), Position::new(0, 4));
    assert_eq!(doc.from_offset(600), Position::new(0, 4));
    assert_eq!(index("").from_offset(3), Position::new(0, 0));
}

#[test]
fn end_of_text_counts_to_the_last_line_with_characters() {
    let doc = index("Hi\n");
    assert_eq!(doc.from_offset(3), Position::new(0, 3));
    assert_eq!(doc.to_offset(Position::new(0, 3)), 3);
    assert_eq!(doc.to_offset(Position::new(1, 0)), 3);
}

#[test]
fn positions_inside_lines_come_back() {
    let doc = index("你好ni\n\nabc💣");
    let positions = [
        Position::new(0, 0),
        Position::new(0, 1),
        Position::new(0, 4),
        Position::new(1, 0),
        Position::new(2, 0),
        Position::new(2, 3),
        Position::new(2, 5),
    ];
    for position in positions {
        assert_eq!(doc.from_offset(doc.to_offset(position)), position);
    }
}
