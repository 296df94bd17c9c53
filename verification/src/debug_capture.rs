//! A buffer of debug messages, and the line that records a coordinate
//! conversion.

use crate::text_format::{decimal, push_decimal, push_str};
use crate::kitty_native::literal;
use vstd::prelude::*;

verus! {

/// Adds a message to the end of the debug buffer (writing it to the
/// error stream as well is left to the caller).
pub fn debug_print(buffer: &mut Vec<String>, msg: String)
    ensures
        final(buffer)@ == old(buffer)@.push(msg),
{
    buffer.push(msg);
}

/// The messages of a buffer as plain values.
pub open spec fn messages_of(v: Seq<String>) -> Seq<Seq<char>> {
    v.map_values(|m: String| m@)
}

/// A copy of the buffer's messages, in order.
pub fn get_debug_messages(buffer: &Vec<String>) -> (r: Vec<String>)
    ensures
        messages_of(r@) == messages_of(buffer@),
{
    let mut r: Vec<String> = Vec::new();
    let mut i: usize = 0;
    while i < buffer.len()
        invariant
            i <= buffer@.len(),
            messages_of(r@) == messages_of(buffer@).take(i as int),
        decreases buffer@.len() - i,
    {
        let ghost before = r@;
        let m = buffer[i].clone();
        assert(m@ == buffer@[i as int]@);
        r.push(m);
        assert(messages_of(r@) =~= messages_of(before).push(m@));
        assert(messages_of(buffer@).take(i + 1) =~= messages_of(buffer@).take(i as int).push(
            buffer@[i as int]@,
        ));
        i = i + 1;
    }
    assert(messages_of(buffer@).take(buffer@.len() as int) =~= messages_of(buffer@));
    r
}

/// Empties the buffer.
pub fn clear_debug_buffer(buffer: &mut Vec<String>)
    ensures
        final(buffer)@.len() == 0,
{
    buffer.clear();
}

/// `(a,b)` in decimal.
pub open spec fn pair_text(a: nat, b: nat) -> Seq<char> {
    seq!['('] + decimal(a) + seq![','] + decimal(b) + seq![')']
}

/// The log line of a conversion from screen to pane to document
/// coordinates: `event: Screen(x,y) → Pane(x,y) + Viewport(x,y) = Doc(x,y)`.
pub open spec fn coordinate_event_text(
    event: Seq<char>,
    screen: (u16, u16),
    pane: (usize, usize),
    document: (usize, usize),
    viewport: (usize, usize),
) -> Seq<char> {
    event + ": Screen"@ + pair_text(screen.0 as nat, screen.1 as nat) + " → Pane"@ + pair_text(
        pane.0 as nat,
        pane.1 as nat,
    ) + " + Viewport"@ + pair_text(viewport.0 as nat, viewport.1 as nat) + " = Doc"@ + pair_text(
        document.0 as nat,
        document.1 as nat,
    )
}

fn push_pair(s: &mut String, a: u64, b: u64)
    ensures
        final(s)@ == old(s)@ + pair_text(a as nat, b as nat),
{
    s.push('(');
    push_decimal(s, a);
    s.push(',');
    push_decimal(s, b);
    s.push(')');
    assert(final(s)@ =~= old(s)@ + pair_text(a as nat, b as nat));
}

/// The line that records a coordinate conversion (see
/// `coordinate_event_text`); writing it to the log is left to the caller.
pub fn log_coordinate_event(
    event: &str,
    screen: (u16, u16),
    pane: (usize, usize),
    document: (usize, usize),
    viewport: (usize, usize),
) -> (line: String)
    ensures
        line@ == coordinate_event_text(event@, screen, pane, document, viewport),
{
    let mut s = literal(event);
    push_str(&mut s, ": Screen");
    push_pair(&mut s, screen.0 as u64, screen.1 as u64);
    push_str(&mut s, " → Pane");
    push_pair(&mut s, pane.0 as u64, pane.1 as u64);
    push_str(&mut s, " + Viewport");
    push_pair(&mut s, viewport.0 as u64, viewport.1 as u64);
    push_str(&mut s, " = Doc");
    push_pair(&mut s, document.0 as u64, document.1 as u64);
    s
}

} // verus!
