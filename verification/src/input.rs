//! Keyboard and paste input, and the bytes a VT100-style terminal
//! application expects for them.

use vstd::prelude::*;
use vstd::utf8::*;

verus! {

broadcast use vstd::utf8::group_utf8_lib;

/// An input event from the host.
#[derive(Debug, Clone, PartialEq, Eq)]
pub enum InputEvent {
    Key(KeyEvent),
    InsertText(String),
    VoiceButtonPressed,
    Resize { columns: u16, rows: u16 },
    Shutdown,
}

/// A key press with its modifiers.
#[derive(Debug, Clone, PartialEq, Eq, Structural)]
pub struct KeyEvent {
    pub key: Key,
    pub modifiers: Modifiers,
}

/// The keys the terminal forwards.
#[derive(Debug, Clone, PartialEq, Eq, Structural)]
pub enum Key {
    Char(char),
    Enter,
    Backspace,
    Tab,
    Escape,
    Up,
    Down,
    Right,
    Left,
    Home,
    End,
    PageUp,
    PageDown,
    Insert,
    Delete,
    Function(u8),
}

/// Modifier keys held during a key press.
#[derive(Debug, Clone, Copy, PartialEq, Eq, Structural)]
pub struct Modifiers {
    pub control: bool,
    pub alt: bool,
    pub shift: bool,
}

impl Default for Modifiers {
    fn default() -> (r: Self)
        ensures
            r == (Modifiers { control: false, alt: false, shift: false }),
    {
        Modifiers { control: false, alt: false, shift: false }
    }
}

/// The input modes the running application has switched on.
#[derive(Debug, Clone, Copy, PartialEq, Eq, Structural)]
pub struct TerminalInputMode {
    pub application_cursor: bool,
    pub bracketed_paste: bool,
}

/// The code point of `c` with ASCII `a`..`z` mapped to `A`..`Z`.
pub open spec fn ascii_uppercase_code(c: char) -> u32 {
    if 'a' <= c <= 'z' {
        (c as u32 - 32) as u32
    } else {
        c as u32
    }
}

/// The control byte that Ctrl plus `c` sends: `@`..`_` (either case for
/// letters) map to 0x00..0x1F, `?` to DEL, anything else to nothing.
pub open spec fn control_byte_spec(c: char) -> Option<u8> {
    let upper = ascii_uppercase_code(c);
    if 0x40 <= upper <= 0x5F {
        Some((upper - 0x40) as u8)
    } else if c == '?' {
        Some(0x7f)
    } else {
        None
    }
}

/// The bytes of an arrow key: `ESC O x` in application cursor mode,
/// `ESC [ x` otherwise, for the final byte `x` of `A`..`D`.
pub open spec fn cursor_sequence_spec(final_byte: u8, application_cursor: bool) -> Seq<u8> {
    if final_byte == 0x41 || final_byte == 0x42 || final_byte == 0x43 || final_byte == 0x44 {
        if application_cursor {
            seq![0x1bu8, 0x4fu8, final_byte]
        } else {
            seq![0x1bu8, 0x5bu8, final_byte]
        }
    } else {
        seq![]
    }
}

/// The bytes of function key `n`: `ESC O P`..`ESC O S` for F1-F4,
/// `ESC [ k ~` for F5-F12, nothing for any other number.
pub open spec fn function_key_spec(n: u8) -> Seq<u8> {
    if n == 1 {
        seq![0x1bu8, 0x4fu8, 0x50u8]
    } else if n == 2 {
        seq![0x1bu8, 0x4fu8, 0x51u8]
    } else if n == 3 {
        seq![0x1bu8, 0x4fu8, 0x52u8]
    } else if n == 4 {
        seq![0x1bu8, 0x4fu8, 0x53u8]
    } else if n == 5 {
        seq![0x1bu8, 0x5bu8, 0x31u8, 0x35u8, 0x7eu8]
    } else if n == 6 {
        seq![0x1bu8, 0x5bu8, 0x31u8, 0x37u8, 0x7eu8]
    } else if n == 7 {
        seq![0x1bu8, 0x5bu8, 0x31u8, 0x38u8, 0x7eu8]
    } else if n == 8 {
        seq![0x1bu8, 0x5bu8, 0x31u8, 0x39u8, 0x7eu8]
    } else if n == 9 {
        seq![0x1bu8, 0x5bu8, 0x32u8, 0x30u8, 0x7eu8]
    } else if n == 10 {
        seq![0x1bu8, 0x5bu8, 0x32u8, 0x31u8, 0x7eu8]
    } else if n == 11 {
        seq![0x1bu8, 0x5bu8, 0x32u8, 0x33u8, 0x7eu8]
    } else if n == 12 {
        seq![0x1bu8, 0x5bu8, 0x32u8, 0x34u8, 0x7eu8]
    } else {
        seq![]
    }
}

/// The bytes of a key without its Alt prefix.
pub open spec fn key_bytes_spec(key: Key, control: bool, mode: TerminalInputMode) -> Seq<u8> {
    match key {
        Key::Char(c) => if control {
            match control_byte_spec(c) {
                Some(b) => seq![b],
                None => seq![],
            }
        } else {
            encode_scalar(c as u32)
        },
        Key::Enter => seq![0x0du8],
        Key::Backspace => seq![0x7fu8],
        Key::Tab => seq![0x09u8],
        Key::Escape => seq![0x1bu8],
        Key::Up => cursor_sequence_spec(0x41, mode.application_cursor),
        Key::Down => cursor_sequence_spec(0x42, mode.application_cursor),
        Key::Right => cursor_sequence_spec(0x43, mode.application_cursor),
        Key::Left => cursor_sequence_spec(0x44, mode.application_cursor),
        Key::Home => seq![0x1bu8, 0x5bu8, 0x48u8],
        Key::End => seq![0x1bu8, 0x5bu8, 0x46u8],
        Key::PageUp => seq![0x1bu8, 0x5bu8, 0x35u8, 0x7eu8],
        Key::PageDown => seq![0x1bu8, 0x5bu8, 0x36u8, 0x7eu8],
        Key::Insert => seq![0x1bu8, 0x5bu8, 0x32u8, 0x7eu8],
        Key::Delete => seq![0x1bu8, 0x5bu8, 0x33u8, 0x7eu8],
        Key::Function(n) => function_key_spec(n),
    }
}

/// The bytes of a key event: ESC first when Alt is held, then the key.
pub open spec fn encode_key_spec(event: KeyEvent, mode: TerminalInputMode) -> Seq<u8> {
    (if event.modifiers.alt {
        seq![0x1bu8]
    } else {
        seq![]
    }) + key_bytes_spec(event.key, event.modifiers.control, mode)
}

/// Inserted text as UTF-8, between `ESC [200~` and `ESC [201~` when the
/// application asked for bracketed paste.
pub open spec fn inserted_text_spec(text: Seq<char>, bracketed_paste: bool) -> Seq<u8> {
    if bracketed_paste {
        seq![0x1bu8, 0x5bu8, 0x32u8, 0x30u8, 0x30u8, 0x7eu8] + encode_utf8(text) + seq![
            0x1bu8,
            0x5bu8,
            0x32u8,
            0x30u8,
            0x31u8,
            0x7eu8,
        ]
    } else {
        encode_utf8(text)
    }
}

/// The bytes an input event sends to the application; events that are not
/// keys or text send nothing.
pub open spec fn encode_event_spec(event: InputEvent, mode: TerminalInputMode) -> Seq<u8> {
    match event {
        InputEvent::Key(key) => encode_key_spec(key, mode),
        InputEvent::InsertText(text) => inserted_text_spec(text@, mode.bracketed_paste),
        _ => seq![],
    }
}

/// Holding Alt sends ESC and then exactly what the same key sends without
/// Alt, for every key, modifier and mode.
pub proof fn lemma_alt_prefixes_escape(key: Key, control: bool, shift: bool, mode: TerminalInputMode)
    ensures
        encode_key_spec(KeyEvent { key, modifiers: Modifiers { control, alt: true, shift } }, mode)
            == seq![0x1bu8] + encode_key_spec(
            KeyEvent { key, modifiers: Modifiers { control, alt: false, shift } },
            mode,
        ),
{
    assert(seq![0x1bu8] + key_bytes_spec(key, control, mode) =~= seq![0x1bu8] + (Seq::<u8>::empty()
        + key_bytes_spec(key, control, mode)));
}

/// Encodes an input event for the application.
pub fn encode_event(event: &InputEvent, mode: TerminalInputMode) -> (r: Vec<u8>)
    ensures
        r@ == encode_event_spec(*event, mode),
{
    match event {
        InputEvent::Key(key) => encode_key(key, mode),
        InputEvent::InsertText(text) => encode_inserted_text(text.as_str(), mode.bracketed_paste),
        InputEvent::VoiceButtonPressed => Vec::new(),
        InputEvent::Resize { .. } => Vec::new(),
        InputEvent::Shutdown => Vec::new(),
    }
}

fn push_all(bytes: &mut Vec<u8>, more: &[u8])
    ensures
        final(bytes)@ == old(bytes)@ + more@,
{
    let n = more.len();
    let mut i: usize = 0;
    while i < n
        invariant
            n == more@.len(),
            i <= n,
            bytes@ == old(bytes)@ + more@.take(i as int),
        decreases n - i,
    {
        bytes.push(more[i]);
        proof {
            assert(more@.take(i + 1) =~= more@.take(i as int).push(more@[i as int]));
        }
        i = i + 1;
    }
    proof {
        assert(more@.take(n as int) =~= more@);
    }
}

/// Encodes inserted text, wrapped in bracketed-paste markers when asked.
pub fn encode_inserted_text(text: &str, bracketed_paste: bool) -> (r: Vec<u8>)
    ensures
        r@ == inserted_text_spec(text@, bracketed_paste),
{
    let mut bytes: Vec<u8> = Vec::new();
    if bracketed_paste {
        bytes.push(0x1b);
        bytes.push(0x5b);
        bytes.push(0x32);
        bytes.push(0x30);
        bytes.push(0x30);
        bytes.push(0x7e);
        push_all(&mut bytes, text.as_bytes());
        bytes.push(0x1b);
        bytes.push(0x5b);
        bytes.push(0x32);
        bytes.push(0x30);
        bytes.push(0x31);
        bytes.push(0x7e);
        proof {
            let pre = seq![0x1bu8, 0x5bu8, 0x32u8, 0x30u8, 0x30u8, 0x7eu8];
            let post = seq![0x1bu8, 0x5bu8, 0x32u8, 0x30u8, 0x31u8, 0x7eu8];
            assert(bytes@ =~= pre + encode_utf8(text@) + post);
        }
    } else {
        push_all(&mut bytes, text.as_bytes());
        proof {
            assert(bytes@ =~= encode_utf8(text@));
        }
    }
    bytes
}

/// The UTF-8 encoding of one character.
fn encode_char_utf8(c: char) -> (r: Vec<u8>)
    ensures
        r@ == encode_scalar(c as u32),
{
    let v = c as u32;
    let mut out: Vec<u8> = Vec::new();
    if v <= 0x7F {
        out.push((v & 0x7F) as u8);
    } else if v <= 0x7FF {
        out.push(0xC0 | ((v >> 6) & 0x1F) as u8);
        out.push(0x80 | (v & 0x3F) as u8);
    } else if v <= 0xFFFF {
        out.push(0xE0 | ((v >> 12) & 0x0F) as u8);
        out.push(0x80 | ((v >> 6) & 0x3F) as u8);
        out.push(0x80 | (v & 0x3F) as u8);
    } else {
        out.push(0xF0 | ((v >> 18) & 0x7) as u8);
        out.push(0x80 | ((v >> 12) & 0x3F) as u8);
        out.push(0x80 | ((v >> 6) & 0x3F) as u8);
        out.push(0x80 | (v & 0x3F) as u8);
    }
    proof {
        assert(is_scalar(v));
        assert(out@ =~= encode_scalar(v));
    }
    out
}

/// The bytes of a key event for the application in `mode`: ESC first when
/// Alt is held; Ctrl with a character sends its control byte; other
/// characters their UTF-8; named keys their VT100/xterm sequences.
pub fn encode_key(event: &KeyEvent, mode: TerminalInputMode) -> (r: Vec<u8>)
    ensures
        r@ == encode_key_spec(*event, mode),
{
    let mut bytes: Vec<u8> = Vec::new();
    if event.modifiers.alt {
        bytes.push(0x1b);
    }
    let ghost prefix = bytes@;
    let tail: Vec<u8> = match event.key {
        Key::Char(c) => if event.modifiers.control {
            match control_byte(c) {
                Some(control) => vec![control],
                None => Vec::new(),
            }
        } else {
            encode_char_utf8(c)
        },
        Key::Enter => vec![0x0d],
        Key::Backspace => vec![0x7f],
        Key::Tab => vec![0x09],
        Key::Escape => vec![0x1b],
        Key::Up => cursor_sequence(0x41, mode.application_cursor),
        Key::Down => cursor_sequence(0x42, mode.application_cursor),
        Key::Right => cursor_sequence(0x43, mode.application_cursor),
        Key::Left => cursor_sequence(0x44, mode.application_cursor),
        Key::Home => vec![0x1b, 0x5b, 0x48],
        Key::End => vec![0x1b, 0x5b, 0x46],
        Key::PageUp => vec![0x1b, 0x5b, 0x35, 0x7e],
        Key::PageDown => vec![0x1b, 0x5b, 0x36, 0x7e],
        Key::Insert => vec![0x1b, 0x5b, 0x32, 0x7e],
        Key::Delete => vec![0x1b, 0x5b, 0x33, 0x7e],
        Key::Function(n) => function_key_sequence(n),
    };
    proof {
        assert(tail@ =~= key_bytes_spec(event.key, event.modifiers.control, mode));
    }
    push_all(&mut bytes, tail.as_slice());
    bytes
}

fn cursor_sequence(final_byte: u8, application_cursor: bool) -> (r: Vec<u8>)
    ensures
        r@ == cursor_sequence_spec(final_byte, application_cursor),
{
    let r = if final_byte == 0x41 || final_byte == 0x42 || final_byte == 0x43 || final_byte == 0x44 {
        if application_cursor {
            vec![0x1b, 0x4f, final_byte]
        } else {
            vec![0x1b, 0x5b, final_byte]
        }
    } else {
        Vec::new()
    };
    proof {
        assert(r@ =~= cursor_sequence_spec(final_byte, application_cursor));
    }
    r
}

fn function_key_sequence(n: u8) -> (r: Vec<u8>)
    ensures
        r@ == function_key_spec(n),
{
    let r = match n {
        1 => vec![0x1b, 0x4f, 0x50],
        2 => vec![0x1b, 0x4f, 0x51],
        3 => vec![0x1b, 0x4f, 0x52],
        4 => vec![0x1b, 0x4f, 0x53],
        5 => vec![0x1b, 0x5b, 0x31, 0x35, 0x7e],
        6 => vec![0x1b, 0x5b, 0x31, 0x37, 0x7e],
        7 => vec![0x1b, 0x5b, 0x31, 0x38, 0x7e],
        8 => vec![0x1b, 0x5b, 0x31, 0x39, 0x7e],
        9 => vec![0x1b, 0x5b, 0x32, 0x30, 0x7e],
        10 => vec![0x1b, 0x5b, 0x32, 0x31, 0x7e],
        11 => vec![0x1b, 0x5b, 0x32, 0x33, 0x7e],
        12 => vec![0x1b, 0x5b, 0x32, 0x34, 0x7e],
        _ => Vec::new(),
    };
    proof {
        assert(r@ =~= function_key_spec(n));
    }
    r
}

fn control_byte(c: char) -> (r: Option<u8>)
    ensures
        r == control_byte_spec(c),
{
    let code = c as u32;
    let upper: u32 = if 'a' <= c && c <= 'z' {
        code - 32
    } else {
        code
    };
    if 0x40 <= upper && upper <= 0x5F {
        Some((upper - 0x40) as u8)
    } else if c == '?' {
        Some(0x7f)
    } else {
        None
    }
}

/// Ctrl with a letter sends the letter's position in the alphabet
/// (Ctrl-A is 1, Ctrl-Z is 26), whichever its case.
pub proof fn lemma_control_letters(c: char)
    requires
        'a' <= c <= 'z' || 'A' <= c <= 'Z',
    ensures
        control_byte_spec(c) == Some(
            (ascii_uppercase_code(c) - 0x40) as u8,
        ),
        1 <= ascii_uppercase_code(c) - 0x40 <= 26,
{
}

} // verus!
