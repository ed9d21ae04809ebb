use aftventure::render::style_string;
use aftventure::render::FrameBuffer;
use aftventure::render::Style;
use aftventure::Player;

#[test]
fn new_buffer_is_blank() {
    let buffer = FrameBuffer::new(3, 2);
    assert_eq!(buffer.width(), 3);
    assert_eq!(buffer.height(), 2);
    for x in 0..3 {
        for y in 0..2 {
            let (glyph, styles) = buffer.cell(x, y);
            assert_eq!(glyph, ' ');
            assert!(styles.is_empty());
        }
    }
}

#[test]
fn render_is_one_based() {
    let mut buffer = FrameBuffer::new(3, 2);
    buffer.render((1, 1), &[Style::Italic], 'a');
    buffer.render((3, 2), &[], 'b');
    assert_eq!(buffer.cell(0, 0).0, 'a');
    assert_eq!(buffer.cell(0, 0).1.to_vec(), vec![Style::Italic]);
    assert_eq!(buffer.cell(2, 1).0, 'b');
    assert_eq!(buffer.cell(1, 0).0, ' ');
}

#[test]
fn render_ignores_positions_off_screen() {
    let mut buffer = FrameBuffer::new(3, 2);
    buffer.render((0, 1), &[Style::Bold], 'x');
    buffer.render((4, 1), &[Style::Bold], 'x');
    buffer.render((1, 3), &[Style::Bold], 'x');
    for x in 0..3 {
        for y in 0..2 {
            assert_eq!(buffer.cell(x, y).0, ' ');
        }
    }
}

#[test]
fn control_characters_show_as_blank() {
    let mut buffer = FrameBuffer::new(2, 1);
    buffer.render((1, 1), &[], '\n');
    buffer.render((2, 1), &[], '\u{9b}');
    assert_eq!(buffer.cell(0, 0).0, ' ');
    assert_eq!(buffer.cell(1, 0).0, ' ');
}

#[test]
fn style_sequences() {
    assert_eq!(style_string(Style::Bold), "\x1b[1m");
    assert_eq!(style_string(Style::Italic), "\x1b[3m");
    assert_eq!(style_string(Style::Underline), "\x1b[4m");
    assert_eq!(style_string(Style::Blink), "\x1b[5m");
    assert_eq!(style_string(Style::Fg(150, 75, 0)), "\x1b[38;2;150;75;0m");
    assert_eq!(style_string(Style::Bg(0, 9, 255)), "\x1b[48;2;0;9;255m");
}

#[test]
fn display_text_walks_rows() {
    let mut buffer = FrameBuffer::new(2, 2);
    buffer.render((1, 1), &[Style::Bold, Style::Fg(1, 2, 3)], 'a');
    buffer.render((1, 2), &[], 'c');
    let text = buffer.display_text();
    assert_eq!(
        text,
        "\x1b[1;1H\x1b[m\x1b[1m\x1b[38;2;1;2;3ma\x1b[m \x1b[mc\x1b[m "
    );
}

#[test]
fn player_sprite_in_bold_at_centre() {
    let mut buffer = FrameBuffer::new(5, 5);
    let player = Player::new(3, 4, 5, '@');
    assert_eq!(player.x, 3);
    assert_eq!(player.y, 4);
    assert_eq!(player.z, 5);
    buffer.render_player(&player);
    assert_eq!(buffer.cell(1, 1).0, '@');
    assert_eq!(buffer.cell(1, 1).1.to_vec(), vec![Style::Bold]);
}
