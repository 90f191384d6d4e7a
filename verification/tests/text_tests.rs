use othello::board::Board;
use othello::cell::Cell;
use othello::text::decode_move;

const INITIAL_RENDER: &str = "  abcdefgh\n\
                              a ........\n\
                              b ........\n\
                              c ........\n\
                              d ...WB...\n\
                              e ...BW...\n\
                              f ........\n\
                              g ........\n\
                              h ........\n";

#[test]
fn initial_board_renders_the_canonical_grid() {
    let b = Board::new();
    let rendered: String = b.render().into_iter().collect();
    assert_eq!(rendered, INITIAL_RENDER);
}

#[test]
fn render_after_a_move_shows_the_flip() {
    let mut b = Board::new();
    b.apply_move(2, 3, Cell::Black);
    let rendered: String = b.render().into_iter().collect();
    assert!(rendered.contains("c ...B....\n"));
    assert!(rendered.contains("d ...BB...\n"));
}

#[test]
fn render_then_parse_reproduces_the_board() {
    let mut b = Board::new();
    b.apply_move(2, 3, Cell::Black);
    b.apply_move(2, 2, Cell::White);
    let rendered = b.render();
    let reparsed = Board::parse(&rendered).unwrap();
    for row in 0..8 {
        for col in 0..8 {
            assert_eq!(reparsed.get_cell(row, col), b.get_cell(row, col));
        }
    }
}

#[test]
fn parse_accepts_exactly_the_rendered_text() {
    let chars: Vec<char> = INITIAL_RENDER.chars().collect();
    let b = Board::parse(&chars).unwrap();
    assert_eq!(b.get_cell(3, 3), Cell::White);
    assert_eq!(b.get_cell(4, 3), Cell::Black);
    assert_eq!(b.count_pieces(), (2, 2));
}

#[test]
fn parse_rejects_wrong_lengths_and_bad_glyphs() {
    assert!(Board::parse(&Vec::new()).is_none());
    let short: Vec<char> = INITIAL_RENDER.chars().take(98).collect();
    assert!(Board::parse(&short).is_none());
    let mut bad_glyph: Vec<char> = INITIAL_RENDER.chars().collect();
    bad_glyph[13] = 'x'; // first cell of row a
    assert!(Board::parse(&bad_glyph).is_none());
    let mut bad_frame: Vec<char> = INITIAL_RENDER.chars().collect();
    bad_frame[0] = 'z'; // header must keep its spaces
    assert!(Board::parse(&bad_frame).is_none());
}

#[test]
fn decode_reads_two_letters_as_row_then_col() {
    assert_eq!(decode_move("aa"), Some((0, 0)));
    assert_eq!(decode_move("cd"), Some((2, 3)));
    assert_eq!(decode_move("hh"), Some((7, 7)));
}

#[test]
fn decoded_corner_is_still_an_illegal_opening() {
    let b = Board::new();
    let (row, col) = decode_move("aa").unwrap();
    assert!(!b.is_valid_move(row, col, Cell::Black));
}

#[test]
fn wrong_shape_is_rejected_before_any_legality_check() {
    assert_eq!(decode_move("abc"), None);
    assert_eq!(decode_move("a"), None);
    assert_eq!(decode_move(""), None);
}

#[test]
fn out_of_alphabet_letters_are_rejected() {
    assert_eq!(decode_move("ia"), None);
    assert_eq!(decode_move("ai"), None);
    assert_eq!(decode_move("AA"), None);
    assert_eq!(decode_move("a1"), None);
}
