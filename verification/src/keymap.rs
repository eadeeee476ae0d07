//! From HID usages to keys.
//!
//! Letters, the digits of the top row, punctuation, navigation, function keys and modifiers are
//! covered. For anything else there is no key, and the event is dropped.

use vstd::prelude::*;

verus! {

/// A key as it is pressed on the client.
#[derive(Debug, Clone, Copy, PartialEq, Eq, Structural)]
pub enum Key {
    /// The key that types this character.
    Unicode(char),
    Return,
    Escape,
    Backspace,
    Tab,
    Space,
    CapsLock,
    F1,
    F2,
    F3,
    F4,
    F5,
    F6,
    F7,
    F8,
    F9,
    F10,
    F11,
    F12,
    Home,
    PageUp,
    Delete,
    End,
    PageDown,
    RightArrow,
    LeftArrow,
    DownArrow,
    UpArrow,
    Control,
    Shift,
    Alt,
    Meta,
}

/// What the keys of the digits and of punctuation type, without Shift and with it.
pub open spec fn typed(usage: u16) -> Option<(char, char)> {
    match usage {
        0x1E => Some(('1', '!')),
        0x1F => Some(('2', '@')),
        0x20 => Some(('3', '#')),
        0x21 => Some(('4', '$')),
        0x22 => Some(('5', '%')),
        0x23 => Some(('6', '^')),
        0x24 => Some(('7', '&')),
        0x25 => Some(('8', '*')),
        0x26 => Some(('9', '(')),
        0x27 => Some(('0', ')')),
        0x2D => Some(('-', '_')),
        0x2E => Some(('=', '+')),
        0x2F => Some(('[', '{')),
        0x30 => Some((']', '}')),
        0x31 => Some(('\\', '|')),
        0x33 => Some((';', ':')),
        0x34 => Some(('\'', '"')),
        0x35 => Some(('`', '~')),
        0x36 => Some((',', '<')),
        0x37 => Some(('.', '>')),
        0x38 => Some(('/', '?')),
        _ => None,
    }
}

/// The keys that type nothing.
pub open spec fn named(usage: u16) -> Option<Key> {
    match usage {
        0x28 => Some(Key::Return),
        0x29 => Some(Key::Escape),
        0x2A => Some(Key::Backspace),
        0x2B => Some(Key::Tab),
        0x2C => Some(Key::Space),
        0x39 => Some(Key::CapsLock),
        0x3A => Some(Key::F1),
        0x3B => Some(Key::F2),
        0x3C => Some(Key::F3),
        0x3D => Some(Key::F4),
        0x3E => Some(Key::F5),
        0x3F => Some(Key::F6),
        0x40 => Some(Key::F7),
        0x41 => Some(Key::F8),
        0x42 => Some(Key::F9),
        0x43 => Some(Key::F10),
        0x44 => Some(Key::F11),
        0x45 => Some(Key::F12),
        0x4A => Some(Key::Home),
        0x4B => Some(Key::PageUp),
        0x4C => Some(Key::Delete),
        0x4D => Some(Key::End),
        0x4E => Some(Key::PageDown),
        0x4F => Some(Key::RightArrow),
        0x50 => Some(Key::LeftArrow),
        0x51 => Some(Key::DownArrow),
        0x52 => Some(Key::UpArrow),
        0xE0 => Some(Key::Control),
        0xE1 => Some(Key::Shift),
        0xE2 => Some(Key::Alt),
        0xE3 => Some(Key::Meta),
        0xE4 => Some(Key::Control),
        0xE5 => Some(Key::Shift),
        0xE6 => Some(Key::Alt),
        0xE7 => Some(Key::Meta),
        _ => None,
    }
}

/// The key that a usage stands for: letters in the case that Shift gives them, other characters as
/// Shift changes them.
pub open spec fn key_for(usage: u16, shift: bool) -> Option<Key> {
    if 0x04 <= usage <= 0x1D {
        Some(Key::Unicode(((if shift {
            'A' as u32
        } else {
            'a' as u32
        }) + (usage - 0x04)) as char))
    } else {
        match typed(usage) {
            Some((plain, shifted)) => Some(Key::Unicode(if shift {
                shifted
            } else {
                plain
            })),
            None => named(usage),
        }
    }
}

/// The characters on a key of a digit or of punctuation.
fn typed_by(usage: u16) -> (r: Option<(char, char)>)
    ensures
        r == typed(usage),
{
    match usage {
        0x1E => Some(('1', '!')),
        0x1F => Some(('2', '@')),
        0x20 => Some(('3', '#')),
        0x21 => Some(('4', '$')),
        0x22 => Some(('5', '%')),
        0x23 => Some(('6', '^')),
        0x24 => Some(('7', '&')),
        0x25 => Some(('8', '*')),
        0x26 => Some(('9', '(')),
        0x27 => Some(('0', ')')),
        0x2D => Some(('-', '_')),
        0x2E => Some(('=', '+')),
        0x2F => Some(('[', '{')),
        0x30 => Some((']', '}')),
        0x31 => Some(('\\', '|')),
        0x33 => Some((';', ':')),
        0x34 => Some(('\'', '"')),
        0x35 => Some(('`', '~')),
        0x36 => Some((',', '<')),
        0x37 => Some(('.', '>')),
        0x38 => Some(('/', '?')),
        _ => None,
    }
}

/// A key that types nothing.
fn named_by(usage: u16) -> (r: Option<Key>)
    ensures
        r == named(usage),
{
    match usage {
        0x28 => Some(Key::Return),
        0x29 => Some(Key::Escape),
        0x2A => Some(Key::Backspace),
        0x2B => Some(Key::Tab),
        0x2C => Some(Key::Space),
        0x39 => Some(Key::CapsLock),
        0x3A => Some(Key::F1),
        0x3B => Some(Key::F2),
        0x3C => Some(Key::F3),
        0x3D => Some(Key::F4),
        0x3E => Some(Key::F5),
        0x3F => Some(Key::F6),
        0x40 => Some(Key::F7),
        0x41 => Some(Key::F8),
        0x42 => Some(Key::F9),
        0x43 => Some(Key::F10),
        0x44 => Some(Key::F11),
        0x45 => Some(Key::F12),
        0x4A => Some(Key::Home),
        0x4B => Some(Key::PageUp),
        0x4C => Some(Key::Delete),
        0x4D => Some(Key::End),
        0x4E => Some(Key::PageDown),
        0x4F => Some(Key::RightArrow),
        0x50 => Some(Key::LeftArrow),
        0x51 => Some(Key::DownArrow),
        0x52 => Some(Key::UpArrow),
        0xE0 => Some(Key::Control),
        0xE1 => Some(Key::Shift),
        0xE2 => Some(Key::Alt),
        0xE3 => Some(Key::Meta),
        0xE4 => Some(Key::Control),
        0xE5 => Some(Key::Shift),
        0xE6 => Some(Key::Alt),
        0xE7 => Some(Key::Meta),
        _ => None,
    }
}

/// The key that a usage stands for.
pub fn hid_to_enigo(usage: u16, shift: bool) -> (r: Option<Key>)
    ensures
        r == key_for(usage, shift),
{
    if 0x04 <= usage && usage <= 0x1D {
        let first: u8 = if shift {
            'A' as u8
        } else {
            'a' as u8
        };
        let c: u8 = first + (usage - 0x04) as u8;
        return Some(Key::Unicode(c as char));
    }
    match typed_by(usage) {
        Some((plain, shifted)) => Some(Key::Unicode(if shift {
            shifted
        } else {
            plain
        })),
        None => named_by(usage),
    }
}

/// The keys of letters type the letters of the alphabet in order, small ones without Shift and
/// capitals with it.
pub proof fn letters_are_in_order(usage: u16, shift: bool)
    requires
        0x04 <= usage <= 0x1D,
    ensures
        ({
            let alphabet = if shift {
                "ABCDEFGHIJKLMNOPQRSTUVWXYZ"@
            } else {
                "abcdefghijklmnopqrstuvwxyz"@
            };
            key_for(usage, shift) == Some(Key::Unicode(alphabet[usage - 0x04]))
        }),
{
    reveal_strlit("ABCDEFGHIJKLMNOPQRSTUVWXYZ");
    reveal_strlit("abcdefghijklmnopqrstuvwxyz");
}

/// The keys of the top row type the digits from one to nine and nought, and with Shift what stands
/// above them.
pub proof fn digits_are_in_order(usage: u16, shift: bool)
    requires
        0x1E <= usage <= 0x27,
    ensures
        ({
            let row = if shift {
                "!@#$%^&*()"@
            } else {
                "1234567890"@
            };
            key_for(usage, shift) == Some(Key::Unicode(row[usage - 0x1E]))
        }),
{
    reveal_strlit("!@#$%^&*()");
    reveal_strlit("1234567890");
}

/// The keys of punctuation, in the order of their usages, one of which is not on the keyboard.
pub proof fn punctuation_is_in_order(usage: u16, shift: bool)
    requires
        0x2D <= usage <= 0x38,
    ensures
        ({
            let row = if shift {
                "_+{}|.:\"~<>?"@
            } else {
                "-=[]\\.;'`,./"@
            };
            key_for(usage, shift) == if usage == 0x32 {
                None
            } else {
                Some(Key::Unicode(row[usage - 0x2D]))
            }
        }),
{
    reveal_strlit("_+{}|.:\"~<>?");
    reveal_strlit("-=[]\\.;'`,./");
}

/// The keys that type nothing, in the order of their usages, are the same with Shift and without.
pub proof fn other_keys_are_in_order(usage: u16, shift: bool)
    ensures
        0x28 <= usage <= 0x2C ==> key_for(usage, shift) == Some(
            seq![Key::Return, Key::Escape, Key::Backspace, Key::Tab, Key::Space][usage - 0x28],
        ),
        0x39 <= usage <= 0x45 ==> key_for(usage, shift) == Some(
            seq![
                Key::CapsLock,
                Key::F1,
                Key::F2,
                Key::F3,
                Key::F4,
                Key::F5,
                Key::F6,
                Key::F7,
                Key::F8,
                Key::F9,
                Key::F10,
                Key::F11,
                Key::F12,
            ][usage - 0x39],
        ),
        0x4A <= usage <= 0x52 ==> key_for(usage, shift) == Some(
            seq![
                Key::Home,
                Key::PageUp,
                Key::Delete,
                Key::End,
                Key::PageDown,
                Key::RightArrow,
                Key::LeftArrow,
                Key::DownArrow,
                Key::UpArrow,
            ][usage - 0x4A],
        ),
        0xE0 <= usage <= 0xE7 ==> key_for(usage, shift) == Some(
            seq![Key::Control, Key::Shift, Key::Alt, Key::Meta][(usage - 0xE0) % 4],
        ),
{
}

/// No two usages stand for one key, but for a modifier on the left and the same one on the right.
pub proof fn keys_are_told_apart(a: u16, b: u16, shift: bool)
    requires
        key_for(a, shift) is Some,
        key_for(a, shift) == key_for(b, shift),
    ensures
        a == b || 0xE0 <= a <= 0xE7 && 0xE0 <= b <= 0xE7 && (a == b + 4 || b == a + 4),
{
    if 0x04 <= a <= 0x1D && 0x04 <= b <= 0x1D {
        letters_are_in_order(a, shift);
        letters_are_in_order(b, shift);
    }
}

/// Nothing else is a key.
pub proof fn nothing_else_is_a_key(usage: u16, shift: bool)
    ensures
        key_for(usage, shift) is Some <==> 0x04 <= usage <= 0x31 || 0x33 <= usage <= 0x45 || 0x4A
            <= usage <= 0x52 || 0xE0 <= usage <= 0xE7,
{
}

} // verus!
