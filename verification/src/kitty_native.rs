//! Terminal control with direct escape sequences: key decoding and the
//! sequences that move the cursor, set colours and switch screens. Writing
//! the sequences to the terminal is left to the caller.

use crate::config::{rgb_bg, rgb_fg, rgb_sequence};
use crate::text_format::{decimal, push_decimal, push_str};
use vstd::prelude::*;

verus! {

/// A key of the keyboard.
#[derive(Debug, Clone, Copy, PartialEq, Eq, Structural)]
pub enum KeyCode {
    Char(char),
    Enter,
    Backspace,
    Tab,
    Esc,
    Up,
    Down,
    Left,
    Right,
    Home,
    End,
    PageUp,
    PageDown,
}

/// Modifier keys held with a key.
#[derive(Debug, Clone, Copy, PartialEq, Eq, Structural)]
pub struct KeyModifiers {
    pub ctrl: bool,
    pub alt: bool,
    pub shift: bool,
    pub cmd: bool,
}

/// No modifier.
pub open spec fn no_modifiers() -> KeyModifiers {
    KeyModifiers { ctrl: false, alt: false, shift: false, cmd: false }
}

impl KeyModifiers {
    /// Control alone.
    pub fn control() -> (m: KeyModifiers)
        ensures
            m == (KeyModifiers { ctrl: true, alt: false, shift: false, cmd: false }),
    {
        KeyModifiers { ctrl: true, alt: false, shift: false, cmd: false }
    }

    /// Command (super) alone.
    pub fn super_key() -> (m: KeyModifiers)
        ensures
            m == (KeyModifiers { ctrl: false, alt: false, shift: false, cmd: true }),
    {
        KeyModifiers { ctrl: false, alt: false, shift: false, cmd: true }
    }

    /// Shift alone.
    pub fn shift() -> (m: KeyModifiers)
        ensures
            m == (KeyModifiers { ctrl: false, alt: false, shift: true, cmd: false }),
    {
        KeyModifiers { ctrl: false, alt: false, shift: true, cmd: false }
    }

    /// Alt alone.
    pub fn alt() -> (m: KeyModifiers)
        ensures
            m == (KeyModifiers { ctrl: false, alt: true, shift: false, cmd: false }),
    {
        KeyModifiers { ctrl: false, alt: true, shift: false, cmd: false }
    }

    /// Whether every modifier held in `other` is held in `self`.
    pub fn contains(&self, other: KeyModifiers) -> (b: bool)
        ensures
            b == ((other.ctrl ==> self.ctrl) && (other.alt ==> self.alt) && (other.shift
                ==> self.shift) && (other.cmd ==> self.cmd)),
    {
        (!other.ctrl || self.ctrl) && (!other.alt || self.alt) && (!other.shift || self.shift) && (
        !other.cmd || self.cmd)
    }
}

/// A key press with its modifiers.
#[derive(Debug, Clone, Copy, PartialEq, Eq, Structural)]
pub struct KeyEvent {
    pub code: KeyCode,
    pub modifiers: KeyModifiers,
}

/// Raw terminal access; its functions give the escape sequences to write.
pub struct KittyTerminal;

pub open spec fn key(code: KeyCode) -> KeyEvent {
    KeyEvent { code, modifiers: no_modifiers() }
}

pub open spec fn shifted(code: KeyCode) -> KeyEvent {
    KeyEvent { code, modifiers: KeyModifiers { ctrl: false, alt: false, shift: true, cmd: false } }
}

/// The key that a chunk of terminal input encodes, if it is one that the
/// editor knows.
pub open spec fn parse_spec(b: Seq<u8>) -> Option<KeyEvent> {
    if b.len() == 1 {
        let x = b[0];
        if x == 13 {
            Some(key(KeyCode::Enter))
        } else if x == 127 {
            Some(key(KeyCode::Backspace))
        } else if x == 9 {
            Some(key(KeyCode::Tab))
        } else if x == 27 {
            Some(key(KeyCode::Esc))
        } else if 32 <= x <= 126 {
            Some(key(KeyCode::Char(x as char)))
        } else if 1 <= x <= 26 {
            Some(
                KeyEvent {
                    code: KeyCode::Char((x - 1 + 97) as char),
                    modifiers: KeyModifiers { ctrl: true, alt: false, shift: false, cmd: false },
                },
            )
        } else {
            None
        }
    } else if b.len() == 4 && b[0] == 226 && b[1] == 140 && b[2] == 152 {
        Some(
            KeyEvent {
                code: KeyCode::Char(b[3] as char),
                modifiers: KeyModifiers { ctrl: false, alt: false, shift: false, cmd: true },
            },
        )
    } else if b.len() == 3 && b[0] == 27 && b[1] == 91 {
        if b[2] == 65 {
            Some(key(KeyCode::Up))
        } else if b[2] == 66 {
            Some(key(KeyCode::Down))
        } else if b[2] == 68 {
            Some(key(KeyCode::Left))
        } else if b[2] == 67 {
            Some(key(KeyCode::Right))
        } else if b[2] == 72 {
            Some(key(KeyCode::Home))
        } else if b[2] == 70 {
            Some(key(KeyCode::End))
        } else {
            None
        }
    } else if b.len() == 4 && b[0] == 27 && b[1] == 91 && b[3] == 126 {
        if b[2] == 53 {
            Some(key(KeyCode::PageUp))
        } else if b[2] == 54 {
            Some(key(KeyCode::PageDown))
        } else {
            None
        }
    } else if b.len() == 6 && b[0] == 27 && b[1] == 91 && b[2] == 49 && b[3] == 59 && b[4] == 50 {
        if b[5] == 65 {
            Some(shifted(KeyCode::Up))
        } else if b[5] == 66 {
            Some(shifted(KeyCode::Down))
        } else if b[5] == 68 {
            Some(shifted(KeyCode::Left))
        } else if b[5] == 67 {
            Some(shifted(KeyCode::Right))
        } else {
            None
        }
    } else {
        None
    }
}

fn plain(code: KeyCode) -> (e: KeyEvent)
    ensures
        e == key(code),
{
    KeyEvent { code, modifiers: KeyModifiers { ctrl: false, alt: false, shift: false, cmd: false } }
}

fn with_shift(code: KeyCode) -> (e: KeyEvent)
    ensures
        e == shifted(code),
{
    KeyEvent { code, modifiers: KeyModifiers { ctrl: false, alt: false, shift: true, cmd: false } }
}

impl KittyTerminal {
    /// Decodes one chunk of terminal input: Enter, Backspace, Tab, Esc,
    /// printable ASCII, Ctrl+letter, Cmd+char, arrows (also with Shift),
    /// Home/End and Page Up/Down. Anything else gives `None`.
    pub fn parse_input(bytes: &[u8]) -> (r: Result<Option<KeyEvent>, std::io::Error>)
        ensures
            r matches Ok(k) && k == parse_spec(bytes@),
    {
        let n = bytes.len();
        if n == 1 {
            let x = bytes[0];
            if x == 13 {
                Ok(Some(plain(KeyCode::Enter)))
            } else if x == 127 {
                Ok(Some(plain(KeyCode::Backspace)))
            } else if x == 9 {
                Ok(Some(plain(KeyCode::Tab)))
            } else if x == 27 {
                Ok(Some(plain(KeyCode::Esc)))
            } else if 32 <= x && x <= 126 {
                Ok(Some(plain(KeyCode::Char(x as char))))
            } else if 1 <= x && x <= 26 {
                let ch = (x - 1 + 97) as char;
                Ok(
                    Some(
                        KeyEvent {
                            code: KeyCode::Char(ch),
                            modifiers: KeyModifiers { ctrl: true, alt: false, shift: false, cmd: false },
                        },
                    ),
                )
            } else {
                Ok(None)
            }
        } else if n == 4 && bytes[0] == 226 && bytes[1] == 140 && bytes[2] == 152 {
            Ok(
                Some(
                    KeyEvent {
                        code: KeyCode::Char(bytes[3] as char),
                        modifiers: KeyModifiers { ctrl: false, alt: false, shift: false, cmd: true },
                    },
                ),
            )
        } else if n == 3 && bytes[0] == 27 && bytes[1] == 91 {
            let x = bytes[2];
            if x == 65 {
                Ok(Some(plain(KeyCode::Up)))
            } else if x == 66 {
                Ok(Some(plain(KeyCode::Down)))
            } else if x == 68 {
                Ok(Some(plain(KeyCode::Left)))
            } else if x == 67 {
                Ok(Some(plain(KeyCode::Right)))
            } else if x == 72 {
                Ok(Some(plain(KeyCode::Home)))
            } else if x == 70 {
                Ok(Some(plain(KeyCode::End)))
            } else {
                Ok(None)
            }
        } else if n == 4 && bytes[0] == 27 && bytes[1] == 91 && bytes[3] == 126 {
            if bytes[2] == 53 {
                Ok(Some(plain(KeyCode::PageUp)))
            } else if bytes[2] == 54 {
                Ok(Some(plain(KeyCode::PageDown)))
            } else {
                Ok(None)
            }
        } else if n == 6 && bytes[0] == 27 && bytes[1] == 91 && bytes[2] == 49 && bytes[3] == 59
            && bytes[4] == 50 {
            let x = bytes[5];
            if x == 65 {
                Ok(Some(with_shift(KeyCode::Up)))
            } else if x == 66 {
                Ok(Some(with_shift(KeyCode::Down)))
            } else if x == 68 {
                Ok(Some(with_shift(KeyCode::Left)))
            } else if x == 67 {
                Ok(Some(with_shift(KeyCode::Right)))
            } else {
                Ok(None)
            }
        } else {
            Ok(None)
        }
    }
}

impl KittyTerminal {
    /// Sequence that saves the screen, enters the alternate buffer, clears
    /// it, homes and hides the cursor and enables mouse tracking.
    pub fn enter_fullscreen() -> (s: String)
        ensures
            s@ == "\x1b[?1049h\x1b[2J\x1b[H\x1b[?25l\x1b[?1000h"@,
    {
        literal("\x1b[?1049h\x1b[2J\x1b[H\x1b[?25l\x1b[?1000h")
    }

    /// Sequence that disables mouse tracking, shows the cursor, clears the
    /// screen, homes the cursor and leaves the alternate buffer.
    pub fn exit_fullscreen() -> (s: String)
        ensures
            s@ == "\x1b[?1000l\x1b[?25h\x1b[2J\x1b[H\x1b[?1049l"@,
    {
        literal("\x1b[?1000l\x1b[?25h\x1b[2J\x1b[H\x1b[?1049l")
    }

    /// Sequence that moves the cursor to the zero-based cell `(x, y)`; the
    /// terminal counts from 1.
    pub fn move_to(x: u16, y: u16) -> (s: String)
        ensures
            s@ == seq!['\x1b', '['] + decimal((y + 1) as nat) + seq![';'] + decimal((x + 1) as nat) + seq!['H'],
    {
        let mut s = String::new();
        s.push('\x1b');
        s.push('[');
        push_decimal(&mut s, y as u64 + 1);
        s.push(';');
        push_decimal(&mut s, x as u64 + 1);
        s.push('H');
        assert(s@ =~= seq!['\x1b', '['] + decimal((y + 1) as nat) + seq![';'] + decimal((x + 1) as nat) + seq!['H']);
        s
    }

    /// Sequence that hides the cursor.
    pub fn hide_cursor() -> (s: String)
        ensures
            s@ == "\x1b[?25l"@,
    {
        literal("\x1b[?25l")
    }

    /// Sequence that shows the cursor.
    pub fn show_cursor() -> (s: String)
        ensures
            s@ == "\x1b[?25h"@,
    {
        literal("\x1b[?25h")
    }

    /// Sequence that sets the foreground colour `(r, g, b)`.
    pub fn set_fg_rgb(r: u8, g: u8, b: u8) -> (s: String)
        ensures
            s@ == rgb_sequence(seq!['3', '8'], r, g, b),
    {
        rgb_fg(r, g, b)
    }

    /// Sequence that sets the background colour `(r, g, b)`.
    pub fn set_bg_rgb(r: u8, g: u8, b: u8) -> (s: String)
        ensures
            s@ == rgb_sequence(seq!['4', '8'], r, g, b),
    {
        rgb_bg(r, g, b)
    }

    /// Sequence that resets colours and attributes.
    pub fn reset_colors() -> (s: String)
        ensures
            s@ == "\x1b[m"@,
    {
        literal("\x1b[m")
    }

    /// Sequence that clears the screen.
    pub fn clear_screen() -> (s: String)
        ensures
            s@ == "\x1b[2J"@,
    {
        literal("\x1b[2J")
    }

    /// Sequence that clears the current line.
    pub fn clear_line() -> (s: String)
        ensures
            s@ == "\x1b[2K"@,
    {
        literal("\x1b[2K")
    }
}

/// A `String` holding `t`.
pub fn literal(t: &str) -> (s: String)
    ensures
        s@ == t@,
{
    let mut s = String::new();
    push_str(&mut s, t);
    assert(s@ =~= t@);
    s
}

/// The four arrow keys.
pub open spec fn is_arrow(code: KeyCode) -> bool {
    code == KeyCode::Up || code == KeyCode::Down || code == KeyCode::Right || code == KeyCode::Left
}

/// The final byte of an arrow key's cursor-key sequence, as terminals send
/// it: `A` up, `B` down, `C` right (forward), `D` left (back).
pub open spec fn arrow_byte(code: KeyCode) -> u8 {
    match code {
        KeyCode::Up => 65,
        KeyCode::Down => 66,
        KeyCode::Right => 67,
        KeyCode::Left => 68,
        _ => 0,
    }
}

/// Decoding follows the cursor-key table: `ESC [ A`, `B`, `C`, `D` are the
/// Up, Down, Right and Left arrows with no modifier, and `ESC [ 1 ; 2`
/// followed by the same letter is the same arrow with Shift.
pub proof fn law_arrow_keys(code: KeyCode)
    requires
        is_arrow(code),
    ensures
        parse_spec(seq![27u8, 91u8, arrow_byte(code)]) == Some(key(code)),
        parse_spec(seq![27u8, 91u8, 49u8, 59u8, 50u8, arrow_byte(code)]) == Some(shifted(code)),
{
}

/// The shifted form of an arrow sequence decodes to the same key as the
/// plain form, with Shift held and no other modifier.
pub proof fn law_shift_adds_shift(x: u8)
    requires
        65 <= x <= 68,
    ensures
        parse_spec(seq![27u8, 91u8, x]) is Some,
        parse_spec(seq![27u8, 91u8, 49u8, 59u8, 50u8, x]) == Some(
            KeyEvent {
                code: parse_spec(seq![27u8, 91u8, x]).unwrap().code,
                modifiers: KeyModifiers { shift: true, ..parse_spec(seq![27u8, 91u8, x]).unwrap().modifiers },
            },
        ),
{
}

} // verus!
