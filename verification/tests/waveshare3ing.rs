use termpaper::render::MonoFrame;
use termpaper::clock::Duration;
use termpaper::waveshare3ing::{
    clear_steps, display_packed_steps, init_steps, sleep_steps, EpdDriver, EpdStep,
    new_landscape_color_frame, pack_2bpp_pixels, pack_landscape_color_frame,
    pack_landscape_mono_frame, Epd3in0gColor, Epd3in0gError, LANDSCAPE_HEIGHT, LANDSCAPE_WIDTH,
    PACKED_BUFFER_LEN, PANEL_WIDTH,
};

#[test]
fn packs_four_2bpp_pixels_per_byte() {
    assert_eq!(
        pack_2bpp_pixels(&[
            Epd3in0gColor::Black as u8,
            Epd3in0gColor::White as u8,
            Epd3in0gColor::Yellow as u8,
            Epd3in0gColor::Red as u8,
        ]),
        vec![0b0001_1011]
    );
}

#[test]
fn packs_landscape_frame_to_controller_buffer_size() {
    let frame = MonoFrame::from_pixel(LANDSCAPE_WIDTH as u32, LANDSCAPE_HEIGHT as u32, 255_u8);

    let packed = pack_landscape_mono_frame(&frame).unwrap();

    assert_eq!(packed.len(), PACKED_BUFFER_LEN);
    assert!(packed
        .iter()
        .all(|byte| *byte == Epd3in0gColor::White.repeated_byte()));
}

#[test]
fn rotates_landscape_frame_like_waveshare_python_sample() {
    let mut frame = MonoFrame::from_pixel(LANDSCAPE_WIDTH as u32, LANDSCAPE_HEIGHT as u32, 255_u8);
    frame.put_pixel(0, 0, 0_u8);

    let packed = pack_landscape_mono_frame(&frame).unwrap();
    let target_x = 0_usize;
    let target_y = LANDSCAPE_WIDTH as usize - 1;
    let pixel_index = target_y * PANEL_WIDTH as usize + target_x;
    let byte = packed[pixel_index / 4];
    let shift = 6 - ((pixel_index % 4) * 2);

    assert_eq!((byte >> shift) & 0x03, Epd3in0gColor::Black as u8);
}

fn packed_code(packed: &[u8], index: usize) -> u8 {
    (packed[index / 4] >> (6 - (index % 4) * 2)) & 0x03
}

#[test]
fn every_landscape_pixel_lands_rotated() {
    let mut frame = MonoFrame::from_pixel(400, 168, 255);
    let marks = [(0, 0), (399, 0), (0, 167), (399, 167), (123, 45), (7, 100)];
    for (x, y) in marks {
        frame.put_pixel(x, y, 127);
    }
    frame.put_pixel(50, 50, 128);
    let packed = pack_landscape_mono_frame(&frame).unwrap();
    for y in 0..168u32 {
        for x in 0..400u32 {
            let index = (399 - x as usize) * 168 + y as usize;
            let expected = if marks.contains(&(x, y)) { 0 } else { 1 };
            assert_eq!(packed_code(&packed, index), expected, "({x}, {y})");
        }
    }
}

#[test]
fn color_frames_rotate_the_same_way() {
    let mut frame = new_landscape_color_frame(Epd3in0gColor::White);
    frame[0] = Epd3in0gColor::Red;
    frame[167 * 400 + 399] = Epd3in0gColor::Yellow;
    let packed = pack_landscape_color_frame(&frame).unwrap();
    assert_eq!(packed.len(), PACKED_BUFFER_LEN);
    assert_eq!(packed_code(&packed, 399 * 168), 3);
    assert_eq!(packed_code(&packed, 167), 2);
    assert_eq!(packed_code(&packed, 1), 1);
}

#[test]
fn wrong_sizes_are_refused() {
    let frame = MonoFrame::from_pixel(10, 5, 255);
    assert_eq!(
        pack_landscape_mono_frame(&frame),
        Err(Epd3in0gError::FrameSize { width: 10, height: 5 })
    );
    let short = vec![Epd3in0gColor::Black; 10];
    assert_eq!(pack_landscape_color_frame(&short), Err(Epd3in0gError::FrameLength { len: 10 }));
}

#[test]
fn packing_pads_with_white_and_keeps_low_bits() {
    assert_eq!(pack_2bpp_pixels(&[]), Vec::<u8>::new());
    assert_eq!(pack_2bpp_pixels(&[3]), vec![0b1101_0101]);
    assert_eq!(pack_2bpp_pixels(&[0, 0, 0, 0, 2, 0xFE]), vec![0, 0b1010_0101]);
    for color in [Epd3in0gColor::Black, Epd3in0gColor::White, Epd3in0gColor::Yellow, Epd3in0gColor::Red] {
        assert_eq!(color.repeated_byte(), color.code() * 85);
        assert_eq!(color.code(), color as u8);
    }
}

#[test]
fn init_script_resets_then_programs_registers() {
    let steps = init_steps();
    assert_eq!(steps.len(), 21);
    assert_eq!(
        steps[0],
        EpdStep::Reset(Duration::from_millis(200), Duration::from_millis(2))
    );
    assert_eq!(steps[1], EpdStep::Command(0x66));
    assert_eq!(steps[2], EpdStep::Data(vec![0x49, 0x55, 0x13, 0x5D, 0x05, 0x10]));
    assert_eq!(steps[11], EpdStep::Command(0x61));
    assert_eq!(steps[12], EpdStep::Data(vec![0x00, 0xA8, 0x01, 0x90]));
    assert_eq!(steps[20], EpdStep::Data(vec![0x00]));
}

#[test]
fn display_script_writes_buffer_between_power_on_and_refresh() {
    let packed = vec![0x55_u8; PACKED_BUFFER_LEN];
    let steps = display_packed_steps(&packed).unwrap();
    assert_eq!(steps.len(), 10);
    assert_eq!(steps[0], EpdStep::Command(0x04));
    assert_eq!(steps[1], EpdStep::WaitBusyHigh(Duration::from_secs(20)));
    assert_eq!(steps[2], EpdStep::Command(0x10));
    assert_eq!(steps[3], EpdStep::Data(packed.clone()));
    assert_eq!(steps[4], EpdStep::Command(0x12));
    assert_eq!(steps[5], EpdStep::Data(vec![0x01]));
    assert_eq!(steps[6], EpdStep::WaitBusyHigh(Duration::from_secs(30)));
    assert_eq!(steps[7], EpdStep::Command(0x02));
    assert_eq!(steps[9], EpdStep::WaitBusyHigh(Duration::from_secs(20)));
}

#[test]
fn display_script_rejects_wrong_buffer_length() {
    assert_eq!(
        display_packed_steps(&[0_u8; 3]),
        Err(Epd3in0gError::PackedLength { len: 3 })
    );
}

#[test]
fn clear_script_fills_every_line_with_the_color() {
    let steps = clear_steps(Epd3in0gColor::Red);
    assert_eq!(steps.len(), 3 + 400 + 6);
    for step in &steps[3..403] {
        assert_eq!(*step, EpdStep::Data(vec![0xFF; 42]));
    }
    assert_eq!(steps[403], EpdStep::Command(0x12));
}

#[test]
fn sleep_script_is_empty_when_already_sleeping() {
    assert!(sleep_steps(true).is_empty());
    assert_eq!(
        sleep_steps(false),
        vec![
            EpdStep::Command(0x02),
            EpdStep::Data(vec![0x00]),
            EpdStep::Command(0x07),
            EpdStep::Data(vec![0xA5]),
        ]
    );
}

#[test]
fn driver_clears_white_before_first_frame_after_init() {
    let mut driver = EpdDriver::new();
    assert_eq!(driver.init().len(), 21);
    let packed = vec![0x55_u8; PACKED_BUFFER_LEN];
    let first = driver.display_packed(&packed).unwrap();
    assert_eq!(first.len(), 409 + 10);
    assert_eq!(first[3], EpdStep::Data(vec![0x55; 42]));
    assert_eq!(first[409 + 3], EpdStep::Data(packed.clone()));
    let second = driver.display_packed(&packed).unwrap();
    assert_eq!(second.len(), 10);
    driver.init();
    assert_eq!(driver.display_packed(&packed).unwrap().len(), 419);
}

#[test]
fn driver_refuses_short_buffer_without_clearing() {
    let mut driver = EpdDriver::new();
    assert_eq!(
        driver.display_packed(&[0_u8; 2]),
        Err(Epd3in0gError::PackedLength { len: 2 })
    );
    assert_eq!(driver.display_packed(&vec![0_u8; PACKED_BUFFER_LEN]).unwrap().len(), 419);
}

#[test]
fn second_sleep_writes_nothing() {
    let mut driver = EpdDriver::new();
    assert_eq!(driver.sleep().len(), 4);
    assert!(driver.sleep().is_empty());
    driver.init();
    assert_eq!(driver.sleep().len(), 4);
}
