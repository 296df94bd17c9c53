//! Configuration constants of the editor and helpers for terminal colours.

pub mod colors;
pub mod layout;
pub mod navigation;
pub mod timing;

use crate::text_format::{decimal, push_decimal};
use vstd::prelude::*;

verus! {

/// The escape sequence that selects the 24-bit colour `(r, g, b)`, as
/// background (`layer` 48) or foreground (`layer` 38).
pub open spec fn rgb_sequence(layer: Seq<char>, r: u8, g: u8, b: u8) -> Seq<char> {
    seq!['\x1b', '['] + layer + seq![';', '2', ';'] + decimal(r as nat) + seq![';'] + decimal(
        g as nat,
    ) + seq![';'] + decimal(b as nat) + seq!['m']
}

fn rgb_escape(background: bool, r: u8, g: u8, b: u8) -> (s: String)
    ensures
        s@ == rgb_sequence(
            if background {
                seq!['4', '8']
            } else {
                seq!['3', '8']
            },
            r,
            g,
            b,
        ),
{
    let mut s = String::new();
    s.push('\x1b');
    s.push('[');
    if background {
        s.push('4');
    } else {
        s.push('3');
    }
    s.push('8');
    s.push(';');
    s.push('2');
    s.push(';');
    push_decimal(&mut s, r as u64);
    s.push(';');
    push_decimal(&mut s, g as u64);
    s.push(';');
    push_decimal(&mut s, b as u64);
    s.push('m');
    proof {
        let layer = if background {
            seq!['4', '8']
        } else {
            seq!['3', '8']
        };
        assert(s@ =~= rgb_sequence(layer, r, g, b));
    }
    s
}

/// Escape sequence that sets the background colour `(r, g, b)`:
/// `ESC [ 48 ; 2 ; r ; g ; b m`.
pub fn rgb_bg(r: u8, g: u8, b: u8) -> (s: String)
    ensures
        s@ == rgb_sequence(seq!['4', '8'], r, g, b),
{
    rgb_escape(true, r, g, b)
}

/// Escape sequence that sets the foreground colour `(r, g, b)`:
/// `ESC [ 38 ; 2 ; r ; g ; b m`.
pub fn rgb_fg(r: u8, g: u8, b: u8) -> (s: String)
    ensures
        s@ == rgb_sequence(seq!['3', '8'], r, g, b),
{
    rgb_escape(false, r, g, b)
}

} // verus!
