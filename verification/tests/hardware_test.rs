use termpaper::hardware_test::{color_pattern_frame, hardware_test_frame, pattern_frame, HardwareTestPattern};
use termpaper::waveshare3ing::{
    pack_landscape_color_frame, pack_landscape_mono_frame, Epd3in0gColor, LANDSCAPE_HEIGHT,
    LANDSCAPE_WIDTH, PACKED_BUFFER_LEN,
};

#[test]
fn patterns_have_panel_landscape_dimensions() {
    for pattern in [
        HardwareTestPattern::White,
        HardwareTestPattern::Black,
        HardwareTestPattern::Border,
        HardwareTestPattern::Checkerboard,
        HardwareTestPattern::Text,
    ] {
        let frame = pattern_frame(pattern);
        assert_eq!(frame.width(), LANDSCAPE_WIDTH as u32);
        assert_eq!(frame.height(), LANDSCAPE_HEIGHT as u32);
    }
}

#[test]
fn black_pattern_is_all_black() {
    let frame = pattern_frame(HardwareTestPattern::Black);
    assert!(frame.pixels().iter().all(|pixel| *pixel == 0));
}

#[test]
fn color_patterns_have_panel_landscape_dimensions() {
    for pattern in [
        HardwareTestPattern::Red,
        HardwareTestPattern::Yellow,
        HardwareTestPattern::ColorQuadrants,
    ] {
        let frame = color_pattern_frame(pattern);
        assert_eq!(
            frame.len(),
            LANDSCAPE_WIDTH as usize * LANDSCAPE_HEIGHT as usize
        );
    }
}

#[test]
fn color_quadrants_cover_all_panel_colors() {
    let frame = color_pattern_frame(HardwareTestPattern::ColorQuadrants);

    assert!(frame.contains(&Epd3in0gColor::Black));
    assert!(frame.contains(&Epd3in0gColor::White));
    assert!(frame.contains(&Epd3in0gColor::Red));
    assert!(frame.contains(&Epd3in0gColor::Yellow));
}

#[test]
fn border_and_checkerboard_patterns() {
    let border = pattern_frame(HardwareTestPattern::Border);
    assert_eq!(border.get_pixel(0, 0), 0);
    assert_eq!(border.get_pixel(399, 100), 0);
    assert_eq!(border.get_pixel(200, 167), 0);
    assert_eq!(border.get_pixel(1, 1), 255);
    let board = pattern_frame(HardwareTestPattern::Checkerboard);
    assert_eq!(board.get_pixel(0, 0), 0);
    assert_eq!(board.get_pixel(15, 15), 0);
    assert_eq!(board.get_pixel(16, 0), 255);
    assert_eq!(board.get_pixel(16, 16), 0);
    let white = pattern_frame(HardwareTestPattern::White);
    assert!(white.pixels().iter().all(|p| *p == 255));
    let red_as_mono = pattern_frame(HardwareTestPattern::Red);
    assert!(red_as_mono.pixels().iter().all(|p| *p == 255));
}

#[test]
fn text_pattern_draws_block_letters_inside_the_border() {
    let frame = pattern_frame(HardwareTestPattern::Text);
    assert_eq!(frame.get_pixel(0, 50), 0);
    // The frame of the first block letter starts at (24, 28).
    assert_eq!(frame.get_pixel(24, 28), 0);
    assert_eq!(frame.get_pixel(37, 45), 0);
    // Between the text lines there is nothing.
    assert_eq!(frame.get_pixel(30, 50), 255);
    // Past the end of "TERMPAPER" (9 letters) the line is blank.
    assert_eq!(frame.get_pixel(24 + 9 * 14 + 2, 30), 255);
    let black = frame.pixels().iter().filter(|p| **p == 0).count();
    assert!(black > 2 * (400 + 168));
}

#[test]
fn color_quadrant_layout() {
    let frame = color_pattern_frame(HardwareTestPattern::ColorQuadrants);
    let at = |x: usize, y: usize| frame[y * 400 + x];
    assert_eq!(at(0, 0), Epd3in0gColor::Black);
    assert_eq!(at(199, 83), Epd3in0gColor::Black);
    assert_eq!(at(200, 0), Epd3in0gColor::White);
    assert_eq!(at(0, 84), Epd3in0gColor::Red);
    assert_eq!(at(399, 167), Epd3in0gColor::Yellow);
    assert!(color_pattern_frame(HardwareTestPattern::Red).iter().all(|c| *c == Epd3in0gColor::Red));
    assert!(color_pattern_frame(HardwareTestPattern::Text).iter().all(|c| *c == Epd3in0gColor::White));
}

#[test]
fn hardware_test_frames_pack_the_chosen_frame() {
    let mono = hardware_test_frame(HardwareTestPattern::Border).unwrap();
    assert_eq!(mono, pack_landscape_mono_frame(&pattern_frame(HardwareTestPattern::Border)).unwrap());
    assert_eq!(mono.len(), PACKED_BUFFER_LEN);
    let color = hardware_test_frame(HardwareTestPattern::Yellow).unwrap();
    assert_eq!(
        color,
        pack_landscape_color_frame(&color_pattern_frame(HardwareTestPattern::Yellow)).unwrap()
    );
    assert!(color.iter().all(|b| *b == Epd3in0gColor::Yellow.repeated_byte()));
}
