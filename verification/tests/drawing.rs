use sandworm::render::{paint, Glyph};
use sandworm::SandWormInterpreter;

fn load(source: &str) -> SandWormInterpreter {
    SandWormInterpreter::new(source, Vec::new()).unwrap()
}

#[test]
fn digit_segment_is_hex_on_green() {
    assert_eq!(paint(Glyph::Digit(5)), "\x1b[42m5\x1b[49m");
    assert_eq!(paint(Glyph::Digit(0)), "\x1b[42m0\x1b[49m");
    assert_eq!(paint(Glyph::Digit(9)), "\x1b[42m9\x1b[49m");
}

#[test]
fn hex_has_lower_case_letters_and_no_padding() {
    assert_eq!(paint(Glyph::Digit(10)), "\x1b[42ma\x1b[49m");
    assert_eq!(paint(Glyph::Digit(15)), "\x1b[42mf\x1b[49m");
    assert_eq!(paint(Glyph::Digit(16)), "\x1b[42m10\x1b[49m");
    assert_eq!(paint(Glyph::Digit(171)), "\x1b[42mab\x1b[49m");
    assert_eq!(paint(Glyph::Digit(255)), "\x1b[42mff\x1b[49m");
}

#[test]
fn cargo_is_a_green_star_on_red() {
    assert_eq!(paint(Glyph::Cargo), "\x1b[32;41m*\x1b[0m");
}

#[test]
fn head_is_on_yellow() {
    assert_eq!(paint(Glyph::Head), "\x1b[43m@\x1b[49m");
}

#[test]
fn other_bytes_are_a_green_star() {
    assert_eq!(paint(Glyph::Other), "\x1b[32m*\x1b[39m");
}

#[test]
fn plain_and_empty_cells_have_no_colour() {
    assert_eq!(paint(Glyph::Empty), " ");
    assert_eq!(paint(Glyph::Plain(b'!')), "!");
    assert_eq!(paint(Glyph::Plain(b'~')), "~");
    assert_eq!(paint(Glyph::Plain(b'A')), "A");
}

#[test]
fn cells_are_classified_by_worm_and_byte() {
    let mut interpreter = load("@5A! \u{1}\u{e9}");
    interpreter.step(2);
    assert_eq!(interpreter.body(), &vec![(0, 0), (1, 0)]);
    assert_eq!(interpreter.glyph_at((0, 0)), Glyph::Digit(5));
    assert_eq!(interpreter.glyph_at((1, 0)), Glyph::Cargo);
    assert_eq!(interpreter.glyph_at((2, 0)), Glyph::Head);
    assert_eq!(interpreter.glyph_at((3, 0)), Glyph::Plain(b'!'));
    assert_eq!(interpreter.glyph_at((4, 0)), Glyph::Empty);
    assert_eq!(interpreter.glyph_at((5, 0)), Glyph::Other);
    assert_eq!(interpreter.glyph_at((6, 0)), Glyph::Other);
    assert_eq!(interpreter.glyph_at((7, 0)), Glyph::Other);
}

#[test]
fn null_padding_is_drawn_blank() {
    let interpreter = load("@\nab");
    assert_eq!(interpreter.glyph_at((1, 0)), Glyph::Empty);
    assert_eq!(interpreter.render(), "\x1b[43m@\x1b[49m \nab\n");
}

#[test]
fn grid_is_drawn_row_by_row() {
    let mut interpreter = load("@5A!\n ~ \u{7f}");
    interpreter.step(2);
    assert!(interpreter.head_intact());
    assert_eq!(
        interpreter.render(),
        "\x1b[42m5\x1b[49m\x1b[32;41m*\x1b[0m\x1b[43m@\x1b[49m!\n ~ \x1b[32m*\x1b[39m\n"
    );
}

#[test]
fn head_is_intact_only_where_the_source_marks_it() {
    assert!(load("ab@").head_intact());
    assert!(!load("abc").head_intact());
    let mut interpreter = load("abc");
    interpreter.step_once();
    assert!(interpreter.head_intact());
}

#[test]
fn segment_under_the_head_counts_as_intact() {
    let mut interpreter = load("@5<");
    interpreter.step(3);
    assert!(interpreter.occupies((1, 0)));
    assert!(!interpreter.occupies((0, 0)));
    assert!(interpreter.head_intact());
    *interpreter.get_mut((1, 0)) = 7;
    assert!(interpreter.head_intact());
    assert_eq!(interpreter.glyph_at((1, 0)), Glyph::Digit(7));
}
