//! Keys and their virtual-key codes.
use vstd::prelude::*;

verus! {

/// The keys that a controller passes on to a worker. `Other` stands for every key that it
/// does not pass on.
#[derive(Clone, Copy, Debug, PartialEq, Eq, Structural)]
pub enum Key {
    A,
    B,
    C,
    D,
    E,
    F,
    G,
    H,
    I,
    J,
    K,
    L,
    M,
    N,
    O,
    P,
    Q,
    R,
    S,
    T,
    U,
    V,
    W,
    X,
    Y,
    Z,
    Num0,
    Num1,
    Num2,
    Num3,
    Num4,
    Num5,
    Num6,
    Num7,
    Num8,
    Num9,
    Enter,
    Space,
    Backspace,
    Tab,
    Delete,
    Escape,
    ArrowLeft,
    ArrowRight,
    ArrowUp,
    ArrowDown,
    PageUp,
    PageDown,
    Home,
    End,
    Insert,
    F1,
    F2,
    F3,
    F4,
    F5,
    F6,
    F7,
    F8,
    F9,
    F10,
    F11,
    F12,
    Comma,
    Period,
    Slash,
    Semicolon,
    OpenBracket,
    CloseBracket,
    Backslash,
    Minus,
    Equals,
    Other,
}

/// The virtual-key code of a key, and zero for a key that is not passed on.
pub open spec fn vk_of(key: Key) -> u16 {
    match key {
        Key::A => 0x41,
        Key::B => 0x42,
        Key::C => 0x43,
        Key::D => 0x44,
        Key::E => 0x45,
        Key::F => 0x46,
        Key::G => 0x47,
        Key::H => 0x48,
        Key::I => 0x49,
        Key::J => 0x4A,
        Key::K => 0x4B,
        Key::L => 0x4C,
        Key::M => 0x4D,
        Key::N => 0x4E,
        Key::O => 0x4F,
        Key::P => 0x50,
        Key::Q => 0x51,
        Key::R => 0x52,
        Key::S => 0x53,
        Key::T => 0x54,
        Key::U => 0x55,
        Key::V => 0x56,
        Key::W => 0x57,
        Key::X => 0x58,
        Key::Y => 0x59,
        Key::Z => 0x5A,
        Key::Num0 => 0x30,
        Key::Num1 => 0x31,
        Key::Num2 => 0x32,
        Key::Num3 => 0x33,
        Key::Num4 => 0x34,
        Key::Num5 => 0x35,
        Key::Num6 => 0x36,
        Key::Num7 => 0x37,
        Key::Num8 => 0x38,
        Key::Num9 => 0x39,
        Key::Enter => 0x0D,
        Key::Space => 0x20,
        Key::Backspace => 0x08,
        Key::Tab => 0x09,
        Key::Delete => 0x2E,
        Key::Escape => 0x1B,
        Key::ArrowLeft => 0x25,
        Key::ArrowRight => 0x27,
        Key::ArrowUp => 0x26,
        Key::ArrowDown => 0x28,
        Key::PageUp => 0x21,
        Key::PageDown => 0x22,
        Key::Home => 0x24,
        Key::End => 0x23,
        Key::Insert => 0x2D,
        Key::F1 => 0x70,
        Key::F2 => 0x71,
        Key::F3 => 0x72,
        Key::F4 => 0x73,
        Key::F5 => 0x74,
        Key::F6 => 0x75,
        Key::F7 => 0x76,
        Key::F8 => 0x77,
        Key::F9 => 0x78,
        Key::F10 => 0x79,
        Key::F11 => 0x7A,
        Key::F12 => 0x7B,
        Key::Comma => 0xBC,
        Key::Period => 0xBE,
        Key::Slash => 0xBF,
        Key::Semicolon => 0xBA,
        Key::OpenBracket => 0xDB,
        Key::CloseBracket => 0xDD,
        Key::Backslash => 0xDC,
        Key::Minus => 0xBD,
        Key::Equals => 0xBB,
        Key::Other => 0,
    }
}

/// The virtual-key code of a key, and zero for a key that is not passed on.
pub fn egui_key_to_vk(key: Key) -> (vk: u16)
    ensures
        vk == vk_of(key),
{
    match key {
        Key::A => 0x41,
        Key::B => 0x42,
        Key::C => 0x43,
        Key::D => 0x44,
        Key::E => 0x45,
        Key::F => 0x46,
        Key::G => 0x47,
        Key::H => 0x48,
        Key::I => 0x49,
        Key::J => 0x4A,
        Key::K => 0x4B,
        Key::L => 0x4C,
        Key::M => 0x4D,
        Key::N => 0x4E,
        Key::O => 0x4F,
        Key::P => 0x50,
        Key::Q => 0x51,
        Key::R => 0x52,
        Key::S => 0x53,
        Key::T => 0x54,
        Key::U => 0x55,
        Key::V => 0x56,
        Key::W => 0x57,
        Key::X => 0x58,
        Key::Y => 0x59,
        Key::Z => 0x5A,
        Key::Num0 => 0x30,
        Key::Num1 => 0x31,
        Key::Num2 => 0x32,
        Key::Num3 => 0x33,
        Key::Num4 => 0x34,
        Key::Num5 => 0x35,
        Key::Num6 => 0x36,
        Key::Num7 => 0x37,
        Key::Num8 => 0x38,
        Key::Num9 => 0x39,
        Key::Enter => 0x0D,
        Key::Space => 0x20,
        Key::Backspace => 0x08,
        Key::Tab => 0x09,
        Key::Delete => 0x2E,
        Key::Escape => 0x1B,
        Key::ArrowLeft => 0x25,
        Key::ArrowRight => 0x27,
        Key::ArrowUp => 0x26,
        Key::ArrowDown => 0x28,
        Key::PageUp => 0x21,
        Key::PageDown => 0x22,
        Key::Home => 0x24,
        Key::End => 0x23,
        Key::Insert => 0x2D,
        Key::F1 => 0x70,
        Key::F2 => 0x71,
        Key::F3 => 0x72,
        Key::F4 => 0x73,
        Key::F5 => 0x74,
        Key::F6 => 0x75,
        Key::F7 => 0x76,
        Key::F8 => 0x77,
        Key::F9 => 0x78,
        Key::F10 => 0x79,
        Key::F11 => 0x7A,
        Key::F12 => 0x7B,
        Key::Comma => 0xBC,
        Key::Period => 0xBE,
        Key::Slash => 0xBF,
        Key::Semicolon => 0xBA,
        Key::OpenBracket => 0xDB,
        Key::CloseBracket => 0xDD,
        Key::Backslash => 0xDC,
        Key::Minus => 0xBD,
        Key::Equals => 0xBB,
        Key::Other => 0,
    }
}

/// No two keys have the same code, and only a key that is not passed on has none.
pub proof fn codes_tell_keys_apart(a: Key, b: Key)
    ensures
        vk_of(a) == vk_of(b) ==> a == b,
        vk_of(a) == 0 <==> a == Key::Other,
{
}

/// The code of a letter or a digit is that of its ASCII character, letters as capitals.
pub proof fn letters_and_digits_are_ascii()
    ensures
        vk_of(Key::A) == 'A' as int,
        vk_of(Key::B) == 'B' as int,
        vk_of(Key::C) == 'C' as int,
        vk_of(Key::D) == 'D' as int,
        vk_of(Key::E) == 'E' as int,
        vk_of(Key::F) == 'F' as int,
        vk_of(Key::G) == 'G' as int,
        vk_of(Key::H) == 'H' as int,
        vk_of(Key::I) == 'I' as int,
        vk_of(Key::J) == 'J' as int,
        vk_of(Key::K) == 'K' as int,
        vk_of(Key::L) == 'L' as int,
        vk_of(Key::M) == 'M' as int,
        vk_of(Key::N) == 'N' as int,
        vk_of(Key::O) == 'O' as int,
        vk_of(Key::P) == 'P' as int,
        vk_of(Key::Q) == 'Q' as int,
        vk_of(Key::R) == 'R' as int,
        vk_of(Key::S) == 'S' as int,
        vk_of(Key::T) == 'T' as int,
        vk_of(Key::U) == 'U' as int,
        vk_of(Key::V) == 'V' as int,
        vk_of(Key::W) == 'W' as int,
        vk_of(Key::X) == 'X' as int,
        vk_of(Key::Y) == 'Y' as int,
        vk_of(Key::Z) == 'Z' as int,
        vk_of(Key::Num0) == '0' as int,
        vk_of(Key::Num1) == '1' as int,
        vk_of(Key::Num2) == '2' as int,
        vk_of(Key::Num3) == '3' as int,
        vk_of(Key::Num4) == '4' as int,
        vk_of(Key::Num5) == '5' as int,
        vk_of(Key::Num6) == '6' as int,
        vk_of(Key::Num7) == '7' as int,
        vk_of(Key::Num8) == '8' as int,
        vk_of(Key::Num9) == '9' as int,
{
}

/// The codes of the other keys: those of control characters where there is one, the navigation
/// keys in one row from 33 on, the function keys in one row from 112 on, and the codes of the
/// keys for punctuation, where comma, minus, period and slash are in a row, and so are the opening
/// bracket, the backslash and the closing bracket.
pub proof fn other_keys_have_their_places()
    ensures
        vk_of(Key::Backspace) == 8,
        vk_of(Key::Tab) == '\t' as int,
        vk_of(Key::Enter) == '\r' as int,
        vk_of(Key::Escape) == 27,
        vk_of(Key::Space) == ' ' as int,
        vk_of(Key::PageUp) == 33,
        vk_of(Key::PageDown) == 34,
        vk_of(Key::End) == 35,
        vk_of(Key::Home) == 36,
        vk_of(Key::ArrowLeft) == 37,
        vk_of(Key::ArrowUp) == 38,
        vk_of(Key::ArrowRight) == 39,
        vk_of(Key::ArrowDown) == 40,
        vk_of(Key::Insert) == 45,
        vk_of(Key::Delete) == 46,
        vk_of(Key::F1) == 112,
        vk_of(Key::F2) == vk_of(Key::F1) + 1,
        vk_of(Key::F3) == vk_of(Key::F1) + 2,
        vk_of(Key::F4) == vk_of(Key::F1) + 3,
        vk_of(Key::F5) == vk_of(Key::F1) + 4,
        vk_of(Key::F6) == vk_of(Key::F1) + 5,
        vk_of(Key::F7) == vk_of(Key::F1) + 6,
        vk_of(Key::F8) == vk_of(Key::F1) + 7,
        vk_of(Key::F9) == vk_of(Key::F1) + 8,
        vk_of(Key::F10) == vk_of(Key::F1) + 9,
        vk_of(Key::F11) == vk_of(Key::F1) + 10,
        vk_of(Key::F12) == vk_of(Key::F1) + 11,
        vk_of(Key::Semicolon) == 186,
        vk_of(Key::Equals) == 187,
        vk_of(Key::Comma) == 188,
        vk_of(Key::Minus) == 189,
        vk_of(Key::Period) == 190,
        vk_of(Key::Slash) == 191,
        vk_of(Key::OpenBracket) == 219,
        vk_of(Key::Backslash) == 220,
        vk_of(Key::CloseBracket) == 221,
        vk_of(Key::Other) == 0,
{
}

} // verus!
