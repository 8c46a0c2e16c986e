//! Keys and editing modes.

use vstd::prelude::*;

use crate::collections::Ident;

verus! {

/// A key of the keyboard, without modifiers.
#[derive(Debug, Clone, Copy, PartialEq, Eq, Structural)]
pub enum KeyCode {
    Backspace,
    Enter,
    Left,
    Right,
    Up,
    Down,
    Home,
    End,
    PageUp,
    PageDown,
    Tab,
    Delete,
    Insert,
    F(u8),
    Char(char),
    Null,
    Esc,
    CapsLock,
    ScrollLock,
    NumLock,
    PrintScreen,
    Pause,
    Menu,
    KeypadBegin,
}

/// No modifier is held.
pub const NONE: u8 = 0;

pub const SHIFT: u8 = 1;

pub const CONTROL: u8 = 2;

pub const ALT: u8 = 4;

/// A key with the modifiers that are held, as a set of bits.
#[derive(Debug, Clone, Copy, PartialEq, Eq, Structural)]
pub struct KeyEvent {
    pub code: KeyCode,
    pub modifiers: u8,
}

impl Ident for KeyEvent {
    fn same(&self, other: &Self) -> (r: bool) {
        *self == *other
    }
}

impl KeyEvent {
    /// The character that the key types, if it types one.
    pub open spec fn typed(self) -> Option<char> {
        match self.code {
            KeyCode::Char(ch) => Some(ch),
            _ => None,
        }
    }

    pub fn char(&self) -> (r: Option<char>)
        ensures
            r == self.typed(),
    {
        match self.code {
            KeyCode::Char(ch) => Some(ch),
            _ => None,
        }
    }

    /// Whether this is the escape key, without modifiers.
    pub fn is_escape(&self) -> (r: bool)
        ensures
            r == (*self == escape()),
    {
        match self.code {
            KeyCode::Esc => self.modifiers == NONE,
            _ => false,
        }
    }
}

pub open spec fn escape() -> KeyEvent {
    KeyEvent { code: KeyCode::Esc, modifiers: NONE }
}

/// Keys are ordered by their kind, then by number or character, then by their modifiers.
pub open spec fn code_rank(code: KeyCode) -> int {
    match code {
        KeyCode::Backspace => 0,
        KeyCode::Enter => 0x1_000000,
        KeyCode::Left => 0x2_000000,
        KeyCode::Right => 0x3_000000,
        KeyCode::Up => 0x4_000000,
        KeyCode::Down => 0x5_000000,
        KeyCode::Home => 0x6_000000,
        KeyCode::End => 0x7_000000,
        KeyCode::PageUp => 0x8_000000,
        KeyCode::PageDown => 0x9_000000,
        KeyCode::Tab => 0xa_000000,
        KeyCode::Delete => 0xb_000000,
        KeyCode::Insert => 0xc_000000,
        KeyCode::F(n) => 0xd_000000 + n,
        KeyCode::Char(c) => 0xe_000000 + (c as int),
        KeyCode::Null => 0xf_000000,
        KeyCode::Esc => 0x10_000000,
        KeyCode::CapsLock => 0x11_000000,
        KeyCode::ScrollLock => 0x12_000000,
        KeyCode::NumLock => 0x13_000000,
        KeyCode::PrintScreen => 0x14_000000,
        KeyCode::Pause => 0x15_000000,
        KeyCode::Menu => 0x16_000000,
        KeyCode::KeypadBegin => 0x17_000000,
    }
}

pub open spec fn key_rank(key: KeyEvent) -> int {
    code_rank(key.code) * 256 + key.modifiers
}

/// The rank of a key.
pub fn rank(key: KeyEvent) -> (r: u64)
    ensures
        r == key_rank(key),
{
    let code: u64 = match key.code {
        KeyCode::Backspace => 0,
        KeyCode::Enter => 0x1_000000,
        KeyCode::Left => 0x2_000000,
        KeyCode::Right => 0x3_000000,
        KeyCode::Up => 0x4_000000,
        KeyCode::Down => 0x5_000000,
        KeyCode::Home => 0x6_000000,
        KeyCode::End => 0x7_000000,
        KeyCode::PageUp => 0x8_000000,
        KeyCode::PageDown => 0x9_000000,
        KeyCode::Tab => 0xa_000000,
        KeyCode::Delete => 0xb_000000,
        KeyCode::Insert => 0xc_000000,
        KeyCode::F(n) => 0xd_000000 + n as u64,
        KeyCode::Char(c) => 0xe_000000 + c as u64,
        KeyCode::Null => 0xf_000000,
        KeyCode::Esc => 0x10_000000,
        KeyCode::CapsLock => 0x11_000000,
        KeyCode::ScrollLock => 0x12_000000,
        KeyCode::NumLock => 0x13_000000,
        KeyCode::PrintScreen => 0x14_000000,
        KeyCode::Pause => 0x15_000000,
        KeyCode::Menu => 0x16_000000,
        KeyCode::KeypadBegin => 0x17_000000,
    };
    code * 256 + key.modifiers as u64
}

/// No two keys have the same rank.
pub proof fn law_rank_tells_keys_apart(a: KeyEvent, b: KeyEvent)
    requires
        key_rank(a) == key_rank(b),
    ensures
        a == b,
{
    assert(code_rank(a.code) == code_rank(b.code));
    assert(a.modifiers == b.modifiers);
    match (a.code, b.code) {
        (KeyCode::Char(x), KeyCode::Char(y)) => {
            assert(x as int == y as int);
        },
        _ => {},
    }
}

/// The editing modes.
#[derive(Debug, Clone, Copy, PartialEq, Eq, Structural)]
pub enum Mode {
    Normal,
    Select,
    Insert,
}

impl Ident for Mode {
    fn same(&self, other: &Self) -> (r: bool) {
        *self == *other
    }
}

/// Keys stand in the order of their kinds, letters in that of the letters, and the same key with
/// more modifiers behind itself.
pub proof fn law_letters_stand_in_their_order(a: char, b: char, modifiers: u8, n: u8)
    ensures
        (a as int) < (b as int) ==> key_rank(
            (KeyEvent { code: KeyCode::Char(a), modifiers }),
        ) < key_rank((KeyEvent { code: KeyCode::Char(b), modifiers: n })),
        modifiers < n ==> key_rank((KeyEvent { code: KeyCode::Char(a), modifiers }))
            < key_rank((KeyEvent { code: KeyCode::Char(a), modifiers: n })),
        key_rank((KeyEvent { code: KeyCode::F(n), modifiers })) < key_rank(
            (KeyEvent { code: KeyCode::Char(a), modifiers }),
        ),
        key_rank((KeyEvent { code: KeyCode::Tab, modifiers })) < key_rank(
            (KeyEvent { code: KeyCode::F(n), modifiers }),
        ),
        key_rank((KeyEvent { code: KeyCode::Char(a), modifiers })) < key_rank(
            (KeyEvent { code: KeyCode::Esc, modifiers }),
        ),
{
}

} // verus!
