//! Keyboard key codes as reported by virtio input devices.

use vstd::prelude::*;

verus! {

/// A key of the keyboard or a mouse button.
#[derive(Debug, PartialEq, Eq, Clone, Copy)]
pub enum Key {
    NoKey,
    ESC,
    One,
    Two,
    Three,
    Four,
    Five,
    Six,
    Seven,
    Eight,
    Nine,
    Zero,
    Minus,
    Equal,
    BackSpace,
    Tab,
    Q,
    W,
    E,
    R,
    T,
    Y,
    U,
    I,
    O,
    P,
    LSB,
    RSB,
    Enter,
    LCTRL,
    A,
    S,
    D,
    F,
    G,
    H,
    J,
    K,
    L,
    Colon,
    SineglePoint,
    Point,
    LSHIFT,
    BackSlash,
    Z,
    X,
    C,
    V,
    B,
    N,
    M,
    Comma,
    Dot,
    Slash,
    RSHIFT,
    DPSTAR,
    LALT,
    Space,
    CAPS,
    MouseLeft,
    MouseRight,
    MouseMid,
}

/// The key that an input code stands for; unknown codes give `Key::NoKey`.
pub open spec fn key_of_code(x: u16) -> Key {
    match x {
        1 => Key::ESC,
        2 => Key::One,
        3 => Key::Two,
        4 => Key::Three,
        5 => Key::Four,
        6 => Key::Five,
        7 => Key::Six,
        8 => Key::Seven,
        9 => Key::Eight,
        10 => Key::Nine,
        11 => Key::Zero,
        12 => Key::Minus,
        13 => Key::Equal,
        14 => Key::BackSpace,
        15 => Key::Tab,
        16 => Key::Q,
        17 => Key::W,
        18 => Key::E,
        19 => Key::R,
        20 => Key::T,
        21 => Key::Y,
        22 => Key::U,
        23 => Key::I,
        24 => Key::O,
        25 => Key::P,
        26 => Key::LSB,
        27 => Key::RSB,
        28 => Key::Enter,
        29 => Key::LCTRL,
        30 => Key::A,
        31 => Key::S,
        32 => Key::D,
        33 => Key::F,
        34 => Key::G,
        35 => Key::H,
        36 => Key::J,
        37 => Key::K,
        38 => Key::L,
        39 => Key::Colon,
        40 => Key::SineglePoint,
        41 => Key::Point,
        42 => Key::LSHIFT,
        43 => Key::BackSlash,
        44 => Key::Z,
        45 => Key::X,
        46 => Key::C,
        47 => Key::V,
        48 => Key::B,
        49 => Key::N,
        50 => Key::M,
        51 => Key::Comma,
        52 => Key::Dot,
        53 => Key::Slash,
        54 => Key::RSHIFT,
        55 => Key::DPSTAR,
        56 => Key::LALT,
        57 => Key::Space,
        58 => Key::CAPS,
        272 => Key::MouseLeft,
        273 => Key::MouseRight,
        274 => Key::MouseMid,
        _ => Key::NoKey,
    }
}

/// The code of a key; `Key::NoKey` has code 0.
pub open spec fn code_of_key(k: Key) -> u16 {
    match k {
        Key::NoKey => 0,
        Key::ESC => 1,
        Key::One => 2,
        Key::Two => 3,
        Key::Three => 4,
        Key::Four => 5,
        Key::Five => 6,
        Key::Six => 7,
        Key::Seven => 8,
        Key::Eight => 9,
        Key::Nine => 10,
        Key::Zero => 11,
        Key::Minus => 12,
        Key::Equal => 13,
        Key::BackSpace => 14,
        Key::Tab => 15,
        Key::Q => 16,
        Key::W => 17,
        Key::E => 18,
        Key::R => 19,
        Key::T => 20,
        Key::Y => 21,
        Key::U => 22,
        Key::I => 23,
        Key::O => 24,
        Key::P => 25,
        Key::LSB => 26,
        Key::RSB => 27,
        Key::Enter => 28,
        Key::LCTRL => 29,
        Key::A => 30,
        Key::S => 31,
        Key::D => 32,
        Key::F => 33,
        Key::G => 34,
        Key::H => 35,
        Key::J => 36,
        Key::K => 37,
        Key::L => 38,
        Key::Colon => 39,
        Key::SineglePoint => 40,
        Key::Point => 41,
        Key::LSHIFT => 42,
        Key::BackSlash => 43,
        Key::Z => 44,
        Key::X => 45,
        Key::C => 46,
        Key::V => 47,
        Key::B => 48,
        Key::N => 49,
        Key::M => 50,
        Key::Comma => 51,
        Key::Dot => 52,
        Key::Slash => 53,
        Key::RSHIFT => 54,
        Key::DPSTAR => 55,
        Key::LALT => 56,
        Key::Space => 57,
        Key::CAPS => 58,
        Key::MouseLeft => 272,
        Key::MouseRight => 273,
        Key::MouseMid => 274,
    }
}

/// The character that a key types, if it types one.
pub open spec fn char_of_key(k: Key) -> Option<char> {
    match k {
        Key::A => Some('a'),
        Key::B => Some('b'),
        Key::C => Some('c'),
        Key::D => Some('d'),
        Key::E => Some('e'),
        Key::F => Some('f'),
        Key::G => Some('g'),
        Key::H => Some('h'),
        Key::I => Some('i'),
        Key::J => Some('j'),
        Key::K => Some('k'),
        Key::L => Some('l'),
        Key::M => Some('m'),
        Key::N => Some('n'),
        Key::O => Some('o'),
        Key::P => Some('p'),
        Key::Q => Some('q'),
        Key::R => Some('r'),
        Key::S => Some('s'),
        Key::T => Some('t'),
        Key::U => Some('u'),
        Key::V => Some('v'),
        Key::W => Some('w'),
        Key::X => Some('x'),
        Key::Y => Some('y'),
        Key::Z => Some('z'),
        Key::Enter => Some('\r'),
        Key::One => Some('1'),
        Key::Two => Some('2'),
        Key::Three => Some('3'),
        Key::Four => Some('4'),
        Key::Five => Some('5'),
        Key::Six => Some('6'),
        Key::Seven => Some('7'),
        Key::Eight => Some('8'),
        Key::Nine => Some('9'),
        Key::Zero => Some('0'),
        Key::Dot => Some('.'),
        Key::Colon => Some(';'),
        Key::SineglePoint => Some('\''),
        Key::BackSlash => Some('\\'),
        Key::Comma => Some(','),
        Key::Slash => Some('/'),
        Key::Space => Some(' '),
        Key::Minus => Some('-'),
        Key::Equal => Some('='),
        Key::Tab => Some('\t'),
        _ => None,
    }
}

impl Key {
    /// Decodes an input code into a key.
    pub fn from(x: u16) -> (k: Key)
        ensures
            k == key_of_code(x),
    {
        match x {
            1 => Key::ESC,
            2 => Key::One,
            3 => Key::Two,
            4 => Key::Three,
            5 => Key::Four,
            6 => Key::Five,
            7 => Key::Six,
            8 => Key::Seven,
            9 => Key::Eight,
            10 => Key::Nine,
            11 => Key::Zero,
            12 => Key::Minus,
            13 => Key::Equal,
            14 => Key::BackSpace,
            15 => Key::Tab,
            16 => Key::Q,
            17 => Key::W,
            18 => Key::E,
            19 => Key::R,
            20 => Key::T,
            21 => Key::Y,
            22 => Key::U,
            23 => Key::I,
            24 => Key::O,
            25 => Key::P,
            26 => Key::LSB,
            27 => Key::RSB,
            28 => Key::Enter,
            29 => Key::LCTRL,
            30 => Key::A,
            31 => Key::S,
            32 => Key::D,
            33 => Key::F,
            34 => Key::G,
            35 => Key::H,
            36 => Key::J,
            37 => Key::K,
            38 => Key::L,
            39 => Key::Colon,
            40 => Key::SineglePoint,
            41 => Key::Point,
            42 => Key::LSHIFT,
            43 => Key::BackSlash,
            44 => Key::Z,
            45 => Key::X,
            46 => Key::C,
            47 => Key::V,
            48 => Key::B,
            49 => Key::N,
            50 => Key::M,
            51 => Key::Comma,
            52 => Key::Dot,
            53 => Key::Slash,
            54 => Key::RSHIFT,
            55 => Key::DPSTAR,
            56 => Key::LALT,
            57 => Key::Space,
            58 => Key::CAPS,
            272 => Key::MouseLeft,
            273 => Key::MouseRight,
            274 => Key::MouseMid,
            _ => Key::NoKey,
        }
    }

    /// The code of this key (the value it was decoded from).
    pub fn code(self) -> (c: u16)
        ensures
            c == code_of_key(self),
    {
        match self {
            Key::NoKey => 0,
            Key::ESC => 1,
            Key::One => 2,
            Key::Two => 3,
            Key::Three => 4,
            Key::Four => 5,
            Key::Five => 6,
            Key::Six => 7,
            Key::Seven => 8,
            Key::Eight => 9,
            Key::Nine => 10,
            Key::Zero => 11,
            Key::Minus => 12,
            Key::Equal => 13,
            Key::BackSpace => 14,
            Key::Tab => 15,
            Key::Q => 16,
            Key::W => 17,
            Key::E => 18,
            Key::R => 19,
            Key::T => 20,
            Key::Y => 21,
            Key::U => 22,
            Key::I => 23,
            Key::O => 24,
            Key::P => 25,
            Key::LSB => 26,
            Key::RSB => 27,
            Key::Enter => 28,
            Key::LCTRL => 29,
            Key::A => 30,
            Key::S => 31,
            Key::D => 32,
            Key::F => 33,
            Key::G => 34,
            Key::H => 35,
            Key::J => 36,
            Key::K => 37,
            Key::L => 38,
            Key::Colon => 39,
            Key::SineglePoint => 40,
            Key::Point => 41,
            Key::LSHIFT => 42,
            Key::BackSlash => 43,
            Key::Z => 44,
            Key::X => 45,
            Key::C => 46,
            Key::V => 47,
            Key::B => 48,
            Key::N => 49,
            Key::M => 50,
            Key::Comma => 51,
            Key::Dot => 52,
            Key::Slash => 53,
            Key::RSHIFT => 54,
            Key::DPSTAR => 55,
            Key::LALT => 56,
            Key::Space => 57,
            Key::CAPS => 58,
            Key::MouseLeft => 272,
            Key::MouseRight => 273,
            Key::MouseMid => 274,
        }
    }

    /// The character this key types: letters, digits, some punctuation, space,
    /// tab and carriage return.
    pub fn to_char(self) -> (c: Option<char>)
        ensures
            c == char_of_key(self),
    {
        match self {
            Key::A => Some('a'),
            Key::B => Some('b'),
            Key::C => Some('c'),
            Key::D => Some('d'),
            Key::E => Some('e'),
            Key::F => Some('f'),
            Key::G => Some('g'),
            Key::H => Some('h'),
            Key::I => Some('i'),
            Key::J => Some('j'),
            Key::K => Some('k'),
            Key::L => Some('l'),
            Key::M => Some('m'),
            Key::N => Some('n'),
            Key::O => Some('o'),
            Key::P => Some('p'),
            Key::Q => Some('q'),
            Key::R => Some('r'),
            Key::S => Some('s'),
            Key::T => Some('t'),
            Key::U => Some('u'),
            Key::V => Some('v'),
            Key::W => Some('w'),
            Key::X => Some('x'),
            Key::Y => Some('y'),
            Key::Z => Some('z'),
            Key::Enter => Some('\r'),
            Key::One => Some('1'),
            Key::Two => Some('2'),
            Key::Three => Some('3'),
            Key::Four => Some('4'),
            Key::Five => Some('5'),
            Key::Six => Some('6'),
            Key::Seven => Some('7'),
            Key::Eight => Some('8'),
            Key::Nine => Some('9'),
            Key::Zero => Some('0'),
            Key::Dot => Some('.'),
            Key::Colon => Some(';'),
            Key::SineglePoint => Some('\''),
            Key::BackSlash => Some('\\'),
            Key::Comma => Some(','),
            Key::Slash => Some('/'),
            Key::Space => Some(' '),
            Key::Minus => Some('-'),
            Key::Equal => Some('='),
            Key::Tab => Some('\t'),
            _ => None,
        }
    }
}

/// The character that the key with input code `c` types on a US keyboard,
/// read off its rows: codes 2 to 13 are the row `1234567890-=`, 16 to 25
/// the row `qwertyuiop`, 30 to 38 the row `asdfghjkl`, 39 and 40 the `;`
/// and `'` beside it, 44 to 53 the row `zxcvbnm,./`; 43 is `\`, 15 tab,
/// 28 return and 57 the space bar. Other keys type nothing.
pub open spec fn layout_char(c: int) -> Option<char> {
    let digits = seq!['1', '2', '3', '4', '5', '6', '7', '8', '9', '0', '-', '='];
    let top = seq!['q', 'w', 'e', 'r', 't', 'y', 'u', 'i', 'o', 'p'];
    let home = seq!['a', 's', 'd', 'f', 'g', 'h', 'j', 'k', 'l', ';', '\''];
    let bottom = seq!['z', 'x', 'c', 'v', 'b', 'n', 'm', ',', '.', '/'];
    if 2 <= c <= 13 {
        Some(digits[c - 2])
    } else if 16 <= c <= 25 {
        Some(top[c - 16])
    } else if 30 <= c <= 40 {
        Some(home[c - 30])
    } else if 44 <= c <= 53 {
        Some(bottom[c - 44])
    } else if c == 43 {
        Some('\\')
    } else if c == 15 {
        Some('\t')
    } else if c == 28 {
        Some('\r')
    } else if c == 57 {
        Some(' ')
    } else {
        None
    }
}

/// Each key types the character its place on the keyboard carries: the
/// character `to_char` gives a key is the one at its input code on the
/// keyboard's rows, and so is the character of the key an input code
/// decodes to.
pub proof fn lemma_keys_type_layout(k: Key, x: u16)
    ensures
        char_of_key(k) == layout_char(code_of_key(k) as int),
        char_of_key(key_of_code(x)) == layout_char(x as int),
{
}

/// Decoding the code of a key gives the key back.
pub proof fn lemma_code_round_trip(k: Key)
    ensures
        key_of_code(code_of_key(k)) == k || (k == Key::NoKey),
{
}

/// Every code that decodes to a real key is that key's code.
pub proof fn lemma_decode_then_code(x: u16)
    ensures
        key_of_code(x) != Key::NoKey ==> code_of_key(key_of_code(x)) == x,
{
}

} // verus!
