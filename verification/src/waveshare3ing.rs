//! The Waveshare 3inch e-Paper (G): its color codes and the 2-bit packed
//! frame buffer of its 168 x 400 portrait controller.

use vstd::prelude::*;

use crate::clock::Duration;
use crate::render::MonoFrame;

verus! {

pub const PANEL_WIDTH: u16 = 168;

pub const PANEL_HEIGHT: u16 = 400;

pub const LANDSCAPE_WIDTH: u16 = 400;

pub const LANDSCAPE_HEIGHT: u16 = 168;

/// Bytes of a packed frame: 168 x 400 pixels, four per byte.
pub const PACKED_BUFFER_LEN: usize = 16800;

/// The four colors of the panel.
#[derive(Debug, Clone, Copy, PartialEq, Eq, Structural)]
pub enum Epd3in0gColor {
    Black,
    White,
    Yellow,
    Red,
}

/// The controller's 2-bit code of a color.
pub open spec fn color_code(color: Epd3in0gColor) -> u8 {
    match color {
        Epd3in0gColor::Black => 0,
        Epd3in0gColor::White => 1,
        Epd3in0gColor::Yellow => 2,
        Epd3in0gColor::Red => 3,
    }
}

impl Epd3in0gColor {
    /// The controller's 2-bit code: black 0, white 1, yellow 2, red 3.
    pub fn code(self) -> (r: u8)
        ensures
            r == color_code(self),
    {
        match self {
            Epd3in0gColor::Black => 0,
            Epd3in0gColor::White => 1,
            Epd3in0gColor::Yellow => 2,
            Epd3in0gColor::Red => 3,
        }
    }

    /// A byte of four pixels of this color.
    pub fn repeated_byte(self) -> (r: u8)
        ensures
            r == pack_four(color_code(self), color_code(self), color_code(self), color_code(self)),
            r == color_code(self) * 85,
    {
        let value = self.code();
        proof {
            lemma_pack_four_bits(value, value, value, value);
        }
        (value << 6) | (value << 4) | (value << 2) | value
    }
}

/// Four 2-bit pixels in one byte, the first in the top bits.
pub open spec fn pack_four(a: u8, b: u8, c: u8, d: u8) -> u8 {
    (a * 64 + b * 16 + c * 4 + d) as u8
}

proof fn lemma_pack_four_bits(a: u8, b: u8, c: u8, d: u8)
    requires
        a < 4,
        b < 4,
        c < 4,
        d < 4,
    ensures
        (a << 6) | (b << 4) | (c << 2) | d == pack_four(a, b, c, d),
        a * 64 + b * 16 + c * 4 + d < 256,
{
    assert((a << 6) | (b << 4) | (c << 2) | d == (a * 64 + b * 16 + c * 4 + d) as u8) by (bit_vector)
        requires
            a < 4,
            b < 4,
            c < 4,
            d < 4,
    ;
}

/// The 2-bit code at position `j` of the pixels: the low two bits of the
/// byte, or white past the end.
pub open spec fn code_at(pixels: Seq<u8>, j: int) -> u8 {
    if j < pixels.len() {
        (pixels[j] % 4) as u8
    } else {
        1
    }
}

/// Pixels packed four to a byte, the last byte padded with white.
pub open spec fn packed_spec(pixels: Seq<u8>) -> Seq<u8> {
    Seq::new(
        ((pixels.len() + 3) / 4) as nat,
        |i: int|
            pack_four(
                code_at(pixels, 4 * i),
                code_at(pixels, 4 * i + 1),
                code_at(pixels, 4 * i + 2),
                code_at(pixels, 4 * i + 3),
            ),
    )
}

/// The 2-bit pixel at position `j` of a packed buffer.
pub open spec fn packed_pixel(packed: Seq<u8>, j: int) -> u8 {
    ((packed[j / 4] as int / pow4(3 - j % 4)) % 4) as u8
}

/// Four to the power `e`, for `e` of 0 to 3.
pub open spec fn pow4(e: int) -> int {
    if e <= 0 {
        1
    } else if e == 1 {
        4
    } else if e == 2 {
        16
    } else {
        64
    }
}

fn low_bits(byte: u8) -> (r: u8)
    ensures
        r == byte % 4,
{
    let r = byte & 0x03;
    assert(byte & 0x03 == byte % 4) by (bit_vector);
    r
}

/// Packs 2-bit color codes four to a byte, the first pixel in the top bits;
/// only the low two bits of each input byte count, and a short last group
/// is padded with white.
pub fn pack_2bpp_pixels(pixels: &[u8]) -> (r: Vec<u8>)
    ensures
        r@ == packed_spec(pixels@),
{
    let n = pixels.len();
    let m = n / 4 + if n % 4 != 0 {
        1
    } else {
        0
    };
    let mut out: Vec<u8> = Vec::new();
    let mut k: usize = 0;
    while k < m
        invariant
            n == pixels@.len(),
            m == (n + 3) / 4,
            k <= m,
            out@.len() == k,
            forall|t: int| 0 <= t < out@.len() ==> #[trigger] out@[t] == packed_spec(pixels@)[t],
        decreases m - k,
    {
        let i = 4 * k;
        let a = low_bits(pixels[i]);
        let b = if n - i > 1 {
            low_bits(pixels[i + 1])
        } else {
            1
        };
        let c = if n - i > 2 {
            low_bits(pixels[i + 2])
        } else {
            1
        };
        let d = if n - i > 3 {
            low_bits(pixels[i + 3])
        } else {
            1
        };
        proof {
            lemma_pack_four_bits(a, b, c, d);
        }
        out.push((a << 6) | (b << 4) | (c << 2) | d);
        k = k + 1;
    }
    proof {
        assert(out@ =~= packed_spec(pixels@));
    }
    out
}

/// Reading pixel `j` back out of a packed buffer gives its 2-bit code.
pub proof fn lemma_packed_pixel_roundtrip(pixels: Seq<u8>, j: int)
    requires
        0 <= j < pixels.len(),
    ensures
        packed_pixel(packed_spec(pixels), j) == pixels[j] % 4,
{
    let q = j / 4;
    let r = j % 4;
    assert(j == 4 * q + r && 0 <= r < 4);
    assert(q < (pixels.len() + 3) / 4);
    let a = code_at(pixels, 4 * q);
    let b = code_at(pixels, 4 * q + 1);
    let c = code_at(pixels, 4 * q + 2);
    let d = code_at(pixels, 4 * q + 3);
    assert(a < 4 && b < 4 && c < 4 && d < 4);
    let v = a * 64 + b * 16 + c * 4 + d;
    assert(packed_spec(pixels)[q] == v);
    if r == 0 {
        assert((v / 64) % 4 == a);
    } else if r == 1 {
        assert((v / 16) % 4 == b);
    } else if r == 2 {
        assert((v / 4) % 4 == c);
    } else {
        assert(v % 4 == d);
    }
}

/// Why a frame or buffer cannot go to the panel.
#[derive(Debug, Clone, Copy, PartialEq, Eq, Structural)]
pub enum Epd3in0gError {
    /// A monochrome frame that is not 400 x 168.
    FrameSize { width: u32, height: u32 },
    /// A color frame that does not hold 400 x 168 pixels.
    FrameLength { len: usize },
    /// A packed buffer that is not `PACKED_BUFFER_LEN` bytes.
    PackedLength { len: usize },
}

/// The code of a monochrome pixel: black below luma 128, white from 128.
pub open spec fn mono_code(luma: u8) -> u8 {
    if luma < 128 {
        0
    } else {
        1
    }
}

/// The panel color of a monochrome pixel.
fn mono_pixel_to_epd_color(luma: u8) -> (r: Epd3in0gColor)
    ensures
        color_code(r) == mono_code(luma),
{
    if luma < 128 {
        Epd3in0gColor::Black
    } else {
        Epd3in0gColor::White
    }
}

/// A 400 x 168 landscape frame of codes (row-major) turned a quarter
/// counterclockwise into the controller's 168 x 400 portrait order:
/// portrait row `ty`, column `tx` shows landscape column `399 - ty`, row `tx`.
pub open spec fn rotated(codes: Seq<u8>) -> Seq<u8> {
    Seq::new(67200, |i: int| codes[(i % 168) * 400 + 399 - i / 168])
}

fn rotate_landscape_codes(codes: &Vec<u8>) -> (r: Vec<u8>)
    requires
        codes@.len() == 67200,
    ensures
        r@ == rotated(codes@),
{
    let mut out: Vec<u8> = Vec::new();
    let mut ty: usize = 0;
    while ty < 400
        invariant
            codes@.len() == 67200,
            ty <= 400,
            out@.len() == ty * 168,
            forall|k: int| 0 <= k < out@.len() ==> #[trigger] out@[k] == rotated(codes@)[k],
        decreases 400 - ty,
    {
        let mut tx: usize = 0;
        while tx < 168
            invariant
                codes@.len() == 67200,
                ty < 400,
                tx <= 168,
                out@.len() == ty * 168 + tx,
                forall|k: int| 0 <= k < out@.len() ==> #[trigger] out@[k] == rotated(codes@)[k],
            decreases 168 - tx,
        {
            proof {
                vstd::arithmetic::div_mod::lemma_fundamental_div_mod_converse(
                    ty * 168 + tx,
                    168,
                    ty as int,
                    tx as int,
                );
            }
            out.push(codes[tx * 400 + (399 - ty)]);
            tx = tx + 1;
        }
        ty = ty + 1;
    }
    proof {
        assert(out@ =~= rotated(codes@));
    }
    out
}

/// The packed buffer of a 400 x 168 monochrome frame.
pub open spec fn mono_frame_packed(pixels: Seq<u8>) -> Seq<u8> {
    packed_spec(rotated(pixels.map_values(|p: u8| mono_code(p))))
}

/// The packed buffer of a 400 x 168 color frame.
pub open spec fn color_frame_packed(colors: Seq<Epd3in0gColor>) -> Seq<u8> {
    packed_spec(rotated(colors.map_values(|c: Epd3in0gColor| color_code(c))))
}

/// Turns a 400 x 168 landscape monochrome frame into the controller's packed
/// portrait buffer, pixels black below luma 128 and white from 128.
pub fn pack_landscape_mono_frame(frame: &MonoFrame) -> (r: Result<Vec<u8>, Epd3in0gError>)
    requires
        frame@.wf(),
    ensures
        match r {
            Ok(packed) => frame@.width == 400 && frame@.height == 168 && packed@ == mono_frame_packed(
                frame@.pixels,
            ),
            Err(e) => !(frame@.width == 400 && frame@.height == 168) && e == (
            Epd3in0gError::FrameSize { width: frame@.width as u32, height: frame@.height as u32 }),
        },
{
    if frame.width() != LANDSCAPE_WIDTH as u32 || frame.height() != LANDSCAPE_HEIGHT as u32 {
        return Err(Epd3in0gError::FrameSize { width: frame.width(), height: frame.height() });
    }
    let pixels = frame.pixels();
    proof {
        assert(frame@.width == 400 && frame@.height == 168);
        assert(frame@.width * frame@.height == 67200) by (nonlinear_arith)
            requires
                frame@.width == 400 && frame@.height == 168,
        ;
    }
    let mut codes: Vec<u8> = Vec::new();
    let mut i: usize = 0;
    while i < pixels.len()
        invariant
            pixels@ == frame@.pixels,
            pixels@.len() == 67200,
            i <= pixels@.len(),
            codes@.len() == i,
            forall|k: int| 0 <= k < i ==> #[trigger] codes@[k] == mono_code(pixels@[k]),
        decreases pixels@.len() - i,
    {
        codes.push(mono_pixel_to_epd_color(pixels[i]).code());
        i = i + 1;
    }
    proof {
        assert(codes@ =~= frame@.pixels.map_values(|p: u8| mono_code(p)));
    }
    let unpacked = rotate_landscape_codes(&codes);
    Ok(pack_2bpp_pixels(unpacked.as_slice()))
}

/// Turns a 400 x 168 landscape color frame (row-major) into the
/// controller's packed portrait buffer.
pub fn pack_landscape_color_frame(frame: &[Epd3in0gColor]) -> (r: Result<Vec<u8>, Epd3in0gError>)
    ensures
        match r {
            Ok(packed) => frame@.len() == 67200 && packed@ == color_frame_packed(frame@),
            Err(e) => frame@.len() != 67200 && e == (Epd3in0gError::FrameLength { len: frame@.len() as usize }),
        },
{
    if frame.len() != 67200 {
        return Err(Epd3in0gError::FrameLength { len: frame.len() });
    }
    let mut codes: Vec<u8> = Vec::new();
    let mut i: usize = 0;
    while i < frame.len()
        invariant
            frame@.len() == 67200,
            i <= frame@.len(),
            codes@.len() == i,
            forall|k: int| 0 <= k < i ==> #[trigger] codes@[k] == color_code(frame@[k]),
        decreases frame@.len() - i,
    {
        codes.push(frame[i].code());
        i = i + 1;
    }
    proof {
        assert(codes@ =~= frame@.map_values(|c: Epd3in0gColor| color_code(c)));
    }
    let unpacked = rotate_landscape_codes(&codes);
    Ok(pack_2bpp_pixels(unpacked.as_slice()))
}

/// A landscape color frame of one color.
pub fn new_landscape_color_frame(color: Epd3in0gColor) -> (r: Vec<Epd3in0gColor>)
    ensures
        r@.len() == 67200,
        forall|k: int| 0 <= k < 67200 ==> #[trigger] r@[k] == color,
{
    let mut frame: Vec<Epd3in0gColor> = Vec::new();
    let mut i: usize = 0;
    while i < 67200
        invariant
            i <= 67200,
            frame@.len() == i,
            forall|k: int| 0 <= k < i ==> #[trigger] frame@[k] == color,
        decreases 67200 - i,
    {
        frame.push(color);
        i = i + 1;
    }
    frame
}

/// A landscape pixel at column `x`, row `y` lands in the packed buffer at
/// portrait row `399 - x`, column `y`, with its code unchanged.
pub proof fn lemma_landscape_pixel_lands_rotated(codes: Seq<u8>, x: int, y: int)
    requires
        codes.len() == 67200,
        0 <= x < 400,
        0 <= y < 168,
        forall|k: int| 0 <= k < codes.len() ==> #[trigger] codes[k] < 4,
    ensures
        packed_pixel(packed_spec(rotated(codes)), (399 - x) * 168 + y) == codes[y * 400 + x],
{
    let j = (399 - x) * 168 + y;
    vstd::arithmetic::div_mod::lemma_fundamental_div_mod_converse(j, 168, 399 - x, y);
    assert(rotated(codes)[j] == codes[y * 400 + x]);
    lemma_packed_pixel_roundtrip(rotated(codes), j);
}

/// The packed monochrome buffer shows landscape pixel `x`, `y` at portrait
/// row `399 - x`, column `y`, black exactly when its luma is below 128.
pub proof fn lemma_mono_frame_rotation(pixels: Seq<u8>, x: int, y: int)
    requires
        pixels.len() == 67200,
        0 <= x < 400,
        0 <= y < 168,
    ensures
        packed_pixel(mono_frame_packed(pixels), (399 - x) * 168 + y) == mono_code(pixels[y * 400 + x]),
{
    let codes = pixels.map_values(|p: u8| mono_code(p));
    lemma_landscape_pixel_lands_rotated(codes, x, y);
}

/// SPI writes of data are split into chunks of at most this many bytes.
pub const SPI_CHUNK_SIZE: usize = 4096;

/// One step of driving the panel over SPI and GPIO.
#[derive(Debug, Clone, PartialEq, Eq)]
pub enum EpdStep {
    /// Pulse the reset pin: high for the first duration, low for the
    /// second, then high for the first again.
    Reset(Duration, Duration),
    /// Send a command byte (data/command pin low).
    Command(u8),
    /// Send data bytes (data/command pin high).
    Data(Vec<u8>),
    /// Wait until the busy pin reads high, failing after the timeout.
    WaitBusyHigh(Duration),
}

/// A step with its data as a sequence.
#[verifier::ext_equal]
pub enum EpdStepView {
    Reset(Duration, Duration),
    Command(u8),
    Data(Seq<u8>),
    WaitBusyHigh(Duration),
}

/// The abstract form of a step.
pub open spec fn step_view(step: EpdStep) -> EpdStepView {
    match step {
        EpdStep::Reset(high, low) => EpdStepView::Reset(high, low),
        EpdStep::Command(c) => EpdStepView::Command(c),
        EpdStep::Data(d) => EpdStepView::Data(d@),
        EpdStep::WaitBusyHigh(t) => EpdStepView::WaitBusyHigh(t),
    }
}

/// The abstract form of a list of steps.
pub open spec fn steps_view(steps: Seq<EpdStep>) -> Seq<EpdStepView> {
    steps.map_values(|s: EpdStep| step_view(s))
}

/// The power-on sequence: a reset pulse (high 200 ms, low 2 ms, high
/// 200 ms), then the controller's init registers.
pub open spec fn init_steps_spec() -> Seq<EpdStepView> {
    seq![
        EpdStepView::Reset(Duration { nanos: 200_000_000 }, Duration { nanos: 2_000_000 }),
        EpdStepView::Command(0x66),
        EpdStepView::Data(seq![0x49u8, 0x55u8, 0x13u8, 0x5Du8, 0x05u8, 0x10u8]),
        EpdStepView::Command(0xB0),
        EpdStepView::Data(seq![0x00u8]),
        EpdStepView::Command(0x01),
        EpdStepView::Data(seq![0x0Fu8, 0x00u8]),
        EpdStepView::Command(0x00),
        EpdStepView::Data(seq![0x4Fu8, 0x6Bu8]),
        EpdStepView::Command(0x06),
        EpdStepView::Data(seq![0xD7u8, 0xDEu8, 0x12u8]),
        EpdStepView::Command(0x61),
        EpdStepView::Data(seq![0x00u8, 0xA8u8, 0x01u8, 0x90u8]),
        EpdStepView::Command(0x50),
        EpdStepView::Data(seq![0x37u8]),
        EpdStepView::Command(0x60),
        EpdStepView::Data(seq![0x0Cu8, 0x05u8]),
        EpdStepView::Command(0xE3),
        EpdStepView::Data(seq![0xFFu8]),
        EpdStepView::Command(0x84),
        EpdStepView::Data(seq![0x00u8]),
    ]
}

/// Refresh the panel and power it off: `0x12` with `0x01`, wait up to
/// 30 s, `0x02`,
/// wait up to 20 s.
pub open spec fn turn_on_display_spec() -> Seq<EpdStepView> {
    seq![
        EpdStepView::Command(0x12),
        EpdStepView::Data(seq![0x01u8]),
        EpdStepView::WaitBusyHigh(Duration { nanos: 30_000_000_000 }),
        EpdStepView::Command(0x02),
        EpdStepView::Data(seq![0x00u8]),
        EpdStepView::WaitBusyHigh(Duration { nanos: 20_000_000_000 }),
    ]
}

/// Power on, wait up to 20 s, start a frame write with `0x10`.
pub open spec fn frame_start_spec() -> Seq<EpdStepView> {
    seq![
        EpdStepView::Command(0x04),
        EpdStepView::WaitBusyHigh(Duration { nanos: 20_000_000_000 }),
        EpdStepView::Command(0x10),
    ]
}

/// Deep sleep: power off `0x02` then `0x07` with `0xA5`; nothing when the
/// panel already sleeps.
pub open spec fn sleep_steps_spec(sleeping: bool) -> Seq<EpdStepView> {
    if sleeping {
        seq![]
    } else {
        seq![
            EpdStepView::Command(0x02),
            EpdStepView::Data(seq![0x00u8]),
            EpdStepView::Command(0x07),
            EpdStepView::Data(seq![0xA5u8]),
        ]
    }
}

/// Showing a packed buffer: power on, write the buffer after `0x10`, then
/// refresh.
pub open spec fn display_steps_spec(packed: Seq<u8>) -> Seq<EpdStepView> {
    frame_start_spec() + seq![EpdStepView::Data(packed)] + turn_on_display_spec()
}

/// Clearing the panel to one color: power on, 400 lines of 42 bytes of that
/// color, then refresh.
pub open spec fn clear_steps_spec(color: Epd3in0gColor) -> Seq<EpdStepView> {
    frame_start_spec() + Seq::new(
        400,
        |i: int| EpdStepView::Data(Seq::new(42, |j: int| (color_code(color) * 85) as u8)),
    ) + turn_on_display_spec()
}

fn push_step(steps: &mut Vec<EpdStep>, step: EpdStep)
    ensures
        steps_view(final(steps)@) == steps_view(old(steps)@).push(step_view(step)),
{
    let ghost st = step;
    steps.push(step);
    proof {
        assert(steps_view(steps@) =~= steps_view(old(steps)@).push(step_view(st)));
    }
}

fn push_command_with_data(steps: &mut Vec<EpdStep>, command: u8, data: Vec<u8>)
    ensures
        steps_view(final(steps)@) == steps_view(old(steps)@) + seq![
            EpdStepView::Command(command),
            EpdStepView::Data(data@),
        ],
{
    let ghost data_view = data@;
    push_step(steps, EpdStep::Command(command));
    push_step(steps, EpdStep::Data(data));
    proof {
        assert(steps_view(steps@) =~= steps_view(old(steps)@) + seq![
            EpdStepView::Command(command),
            EpdStepView::Data(data_view),
        ]);
    }
}

fn push_turn_on_display(steps: &mut Vec<EpdStep>)
    ensures
        steps_view(final(steps)@) == steps_view(old(steps)@) + turn_on_display_spec(),
{
    let ghost start = steps_view(steps@);
    push_command_with_data(steps, 0x12, vec![0x01]);
    push_step(steps, EpdStep::WaitBusyHigh(Duration::from_secs(30)));
    push_command_with_data(steps, 0x02, vec![0x00]);
    push_step(steps, EpdStep::WaitBusyHigh(Duration::from_secs(20)));
    proof {
        assert(steps_view(steps@) =~~= start + turn_on_display_spec());
    }
}

fn push_frame_start(steps: &mut Vec<EpdStep>)
    ensures
        steps_view(final(steps)@) == steps_view(old(steps)@) + frame_start_spec(),
{
    let ghost start = steps_view(steps@);
    push_step(steps, EpdStep::Command(0x04));
    push_step(steps, EpdStep::WaitBusyHigh(Duration::from_secs(20)));
    push_step(steps, EpdStep::Command(0x10));
    proof {
        assert(steps_view(steps@) =~= start + frame_start_spec());
    }
}

/// The steps that bring the panel up: reset and the init registers.
pub fn init_steps() -> (r: Vec<EpdStep>)
    ensures
        steps_view(r@) == init_steps_spec(),
{
    let mut steps: Vec<EpdStep> = Vec::new();
    push_step(&mut steps, EpdStep::Reset(Duration::from_millis(200), Duration::from_millis(2)));
    push_command_with_data(&mut steps, 0x66, vec![0x49, 0x55, 0x13, 0x5D, 0x05, 0x10]);
    push_command_with_data(&mut steps, 0xB0, vec![0x00]);
    push_command_with_data(&mut steps, 0x01, vec![0x0F, 0x00]);
    push_command_with_data(&mut steps, 0x00, vec![0x4F, 0x6B]);
    push_command_with_data(&mut steps, 0x06, vec![0xD7, 0xDE, 0x12]);
    push_command_with_data(&mut steps, 0x61, vec![0x00, 0xA8, 0x01, 0x90]);
    push_command_with_data(&mut steps, 0x50, vec![0x37]);
    push_command_with_data(&mut steps, 0x60, vec![0x0C, 0x05]);
    push_command_with_data(&mut steps, 0xE3, vec![0xFF]);
    push_command_with_data(&mut steps, 0x84, vec![0x00]);
    proof {
        assert(steps_view(steps@) =~~= init_steps_spec());
    }
    steps
}

/// The steps that show a packed buffer: only one of `PACKED_BUFFER_LEN`
/// bytes is accepted; it is written after power-on and then refreshed.
pub fn display_packed_steps(packed: &[u8]) -> (r: Result<Vec<EpdStep>, Epd3in0gError>)
    ensures
        match r {
            Ok(steps) => packed@.len() == PACKED_BUFFER_LEN && steps_view(steps@) == display_steps_spec(
                packed@,
            ),
            Err(e) => packed@.len() != PACKED_BUFFER_LEN && e == (Epd3in0gError::PackedLength {
                len: packed@.len() as usize,
            }),
        },
{
    if packed.len() != PACKED_BUFFER_LEN {
        return Err(Epd3in0gError::PackedLength { len: packed.len() });
    }
    let mut steps: Vec<EpdStep> = Vec::new();
    push_frame_start(&mut steps);
    let ghost before = steps_view(steps@);
    let data = copy_bytes(packed);
    push_step(&mut steps, EpdStep::Data(data));
    proof {
        assert(steps_view(steps@) =~= before + seq![EpdStepView::Data(packed@)]);
    }
    push_turn_on_display(&mut steps);
    Ok(steps)
}

fn copy_bytes(bytes: &[u8]) -> (r: Vec<u8>)
    ensures
        r@ == bytes@,
{
    let mut out: Vec<u8> = Vec::new();
    let mut i: usize = 0;
    while i < bytes.len()
        invariant
            i <= bytes@.len(),
            out@ == bytes@.take(i as int),
        decreases bytes@.len() - i,
    {
        out.push(bytes[i]);
        proof {
            assert(bytes@.take(i + 1) =~= bytes@.take(i as int).push(bytes@[i as int]));
        }
        i = i + 1;
    }
    proof {
        assert(bytes@.take(bytes@.len() as int) =~= bytes@);
    }
    out
}

/// The steps that clear the panel to one color: after power-on, 400 lines
/// of 42 bytes of that color, then a refresh.
pub fn clear_steps(color: Epd3in0gColor) -> (r: Vec<EpdStep>)
    ensures
        steps_view(r@) == clear_steps_spec(color),
{
    let mut steps: Vec<EpdStep> = Vec::new();
    push_frame_start(&mut steps);
    let byte = color.repeated_byte();
    let ghost line = Seq::new(42, |j: int| (color_code(color) * 85) as u8);
    let ghost start = steps_view(steps@);
    let mut n: usize = 0;
    while n < 400
        invariant
            n <= 400,
            byte == color_code(color) * 85,
            line == Seq::new(42, |j: int| (color_code(color) * 85) as u8),
            steps_view(steps@) == start + Seq::new(n as nat, |i: int| EpdStepView::Data(line)),
        decreases 400 - n,
    {
        let mut data: Vec<u8> = Vec::new();
        let mut k: usize = 0;
        while k < 42
            invariant
                k <= 42,
                byte == color_code(color) * 85,
                data@ == Seq::new(k as nat, |j: int| byte),
            decreases 42 - k,
        {
            data.push(byte);
            proof {
                assert(data@ =~= Seq::new((k + 1) as nat, |j: int| byte));
            }
            k = k + 1;
        }
        proof {
            assert(data@ =~= line);
        }
        let ghost prev = steps_view(steps@);
        steps.push(EpdStep::Data(data));
        proof {
            assert(steps_view(steps@) =~= prev.push(EpdStepView::Data(line)));
            assert(start + Seq::new((n + 1) as nat, |i: int| EpdStepView::Data(line)) =~= (start
                + Seq::new(n as nat, |i: int| EpdStepView::Data(line))).push(EpdStepView::Data(line)));
        }
        n = n + 1;
    }
    push_turn_on_display(&mut steps);
    proof {
        assert(Seq::new(400, |i: int| EpdStepView::Data(line)) =~= Seq::new(
            400,
            |i: int| EpdStepView::Data(Seq::new(42, |j: int| (color_code(color) * 85) as u8)),
        ));
    }
    steps
}

/// The steps that put the panel into deep sleep, unless it already sleeps.
pub fn sleep_steps(sleeping: bool) -> (r: Vec<EpdStep>)
    ensures
        steps_view(r@) == sleep_steps_spec(sleeping),
{
    let mut steps: Vec<EpdStep> = Vec::new();
    if !sleeping {
        push_command_with_data(&mut steps, 0x02, vec![0x00]);
        push_command_with_data(&mut steps, 0x07, vec![0xA5]);
    }
    proof {
        assert(steps_view(steps@) =~~= sleep_steps_spec(sleeping));
    }
    steps
}

/// The panel driver's state between scripts: whether the panel sleeps, and
/// whether it was cleared to white since it was last initialized.
pub struct EpdDriver {
    sleeping: bool,
    cleared: bool,
}

impl EpdDriver {
    /// Whether the panel is in deep sleep.
    pub closed spec fn sleeping(&self) -> bool {
        self.sleeping
    }

    /// Whether the panel was cleared to white since its last initialization.
    pub closed spec fn cleared(&self) -> bool {
        self.cleared
    }

    /// The state of a panel just opened: awake, not yet cleared.
    pub fn new() -> (r: Self)
        ensures
            !r.sleeping(),
            !r.cleared(),
    {
        EpdDriver { sleeping: false, cleared: false }
    }

    /// The script that initializes the panel; it is then awake and not
    /// cleared.
    pub fn init(&mut self) -> (r: Vec<EpdStep>)
        ensures
            steps_view(r@) == init_steps_spec(),
            !final(self).sleeping(),
            !final(self).cleared(),
    {
        self.sleeping = false;
        self.cleared = false;
        init_steps()
    }

    /// The script that shows a packed buffer: the first frame after
    /// initialization is preceded by a white clear. A buffer of the wrong
    /// length is refused and nothing changes.
    pub fn display_packed(&mut self, packed: &[u8]) -> (r: Result<Vec<EpdStep>, Epd3in0gError>)
        ensures
            final(self).sleeping() == old(self).sleeping(),
            match r {
                Ok(steps) => packed@.len() == PACKED_BUFFER_LEN && steps_view(steps@) == (if old(
                    self,
                ).cleared() {
                    display_steps_spec(packed@)
                } else {
                    clear_steps_spec(Epd3in0gColor::White) + display_steps_spec(packed@)
                }) && final(self).cleared(),
                Err(e) => packed@.len() != PACKED_BUFFER_LEN && e == (Epd3in0gError::PackedLength {
                    len: packed@.len() as usize,
                }) && final(self).cleared() == old(self).cleared(),
            },
    {
        let shown = match display_packed_steps(packed) {
            Ok(steps) => steps,
            Err(e) => {
                return Err(e);
            },
        };
        if self.cleared {
            return Ok(shown);
        }
        let mut steps = clear_steps(Epd3in0gColor::White);
        let mut rest = shown;
        let ghost first = steps@;
        let ghost second = rest@;
        steps.append(&mut rest);
        proof {
            assert(steps_view(steps@) =~= steps_view(first) + steps_view(second));
        }
        self.cleared = true;
        Ok(steps)
    }

    /// The script that puts the panel into deep sleep; it is empty when the
    /// panel already sleeps, so a second sleep writes nothing.
    pub fn sleep(&mut self) -> (r: Vec<EpdStep>)
        ensures
            steps_view(r@) == sleep_steps_spec(old(self).sleeping()),
            old(self).sleeping() ==> r@.len() == 0,
            final(self).sleeping(),
            final(self).cleared() == old(self).cleared(),
    {
        let steps = sleep_steps(self.sleeping);
        proof {
            assert(steps_view(steps@).len() == steps@.len());
        }
        self.sleeping = true;
        steps
    }
}

} // verus!
