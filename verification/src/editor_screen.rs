//! The texts that the editor's screen shows around the open note: the note
//! indicator in the title bar, the entries of the notes sidebar and of the
//! notes menu, and the two halves of the status line.
//!
//! Texts that do not fit are cut at a byte count and end in an ellipsis; a
//! cut must fall between two characters.

use crate::editor::App;
use crate::text_format::{decimal, push_decimal, push_str};
use vstd::prelude::*;
use vstd::utf8::{decode_utf8, encode_utf8, is_char_boundary};

verus! {

/// The length in bytes of the UTF-8 form of `s`.
pub open spec fn byte_len(s: Seq<char>) -> int {
    encode_utf8(s).len() as int
}

/// The characters of the first `keep` bytes of the UTF-8 form of `s`.
pub open spec fn utf8_prefix(s: Seq<char>, keep: int) -> Seq<char> {
    decode_utf8(encode_utf8(s).take(keep))
}

/// `s` when it has at most `limit` bytes; else its first `keep` bytes
/// followed by `suffix`.
pub open spec fn shortened(s: Seq<char>, limit: int, keep: int, suffix: Seq<char>) -> Seq<char> {
    if byte_len(s) > limit {
        utf8_prefix(s, keep) + suffix
    } else {
        s
    }
}

/// A cut of `s` at `keep` bytes, where one is made, falls between two
/// characters.
pub open spec fn cut_ok(s: Seq<char>, limit: int, keep: int) -> bool {
    byte_len(s) > limit ==> is_char_boundary(encode_utf8(s), keep)
}

/// `s` shortened (see `shortened`).
fn shorten(s: &str, limit: usize, keep: usize, suffix: &str) -> (r: String)
    requires
        cut_ok(s@, limit as int, keep as int),
    ensures
        r@ == shortened(s@, limit as int, keep as int, suffix@),
{
    broadcast use vstd::utf8::encode_utf8_decode_utf8, vstd::utf8::encode_utf8_valid_utf8;

    let mut r = String::new();
    if s.as_bytes().len() > limit {
        let (head, _) = s.split_at(keep);
        assert(encode_utf8(head@) == encode_utf8(s@).subrange(0, keep as int));
        assert(encode_utf8(s@).subrange(0, keep as int) == encode_utf8(s@).take(keep as int));
        assert(head@ == decode_utf8(encode_utf8(head@)));
        push_str(&mut r, head);
        push_str(&mut r, suffix);
    } else {
        push_str(&mut r, s);
        assert(r@ =~= s@);
    }
    r
}

/// Whether a cut of `s` at `keep` bytes, where one is made, falls between
/// two characters.
fn cut_fits(s: &str, limit: usize, keep: usize) -> (b: bool)
    ensures
        b == cut_ok(s@, limit as int, keep as int),
{
    s.as_bytes().len() <= limit || s.is_char_boundary(keep)
}

/// `a - b`, or 0 when `b > a`.
pub open spec fn less(a: int, b: int) -> int {
    if a > b {
        a - b
    } else {
        0
    }
}

/// The title shown for note `i` in the sidebar and the menu: while it is
/// renamed, the title being typed with a `_` for the cursor; else its title,
/// or `Untitled` when it has none.
pub open spec fn shown_title(app: &App, i: int) -> Seq<char> {
    if i == app.selected_note_index && app.editing_title {
        app.title_buffer@.push('_')
    } else if app.notes_list@[i].title@.len() == 0 {
        "Untitled"@
    } else {
        app.notes_list@[i].title@
    }
}

/// The title shown for note `i` (see `shown_title`).
pub fn sidebar_title(app: &App, i: usize) -> (t: String)
    requires
        i < app.notes_list@.len(),
    ensures
        t@ == shown_title(app, i as int),
{
    let mut t = String::new();
    if i == app.selected_note_index && app.editing_title {
        push_str(&mut t, app.title_buffer.as_str());
        t.push('_');
    } else if app.notes_list[i].title.as_str().is_empty() {
        proof {
            reveal_strlit("Untitled");
        }
        push_str(&mut t, "Untitled");
    } else {
        push_str(&mut t, app.notes_list[i].title.as_str());
    }
    assert(t@ =~= shown_title(app, i as int));
    t
}

/// The mark before a note's title: an arrow for the selected note.
pub open spec fn entry_prefix(selected: bool) -> Seq<char> {
    if selected {
        "▸ "@
    } else {
        "  "@
    }
}

/// Bytes left for the title of an entry of the expanded sidebar.
pub open spec fn sidebar_room(width: u16, selected: bool) -> int {
    less(width as int, byte_len(entry_prefix(selected)))
}

/// An entry of the expanded sidebar: the mark, then the title cut to the
/// room the sidebar leaves, ending in `…` when cut.
pub open spec fn sidebar_entry_spec(app: &App, i: int, width: u16) -> Seq<char> {
    let selected = i == app.selected_note_index;
    let room = sidebar_room(width, selected);
    entry_prefix(selected) + shortened(shown_title(app, i), room, less(room, 1), "…"@)
}

/// The cut of an entry of the expanded sidebar falls between characters.
pub open spec fn sidebar_entry_ok(app: &App, i: int, width: u16) -> bool {
    let room = sidebar_room(width, i == app.selected_note_index);
    cut_ok(shown_title(app, i), room, less(room, 1))
}

proof fn lemma_prefix_bytes()
    ensures
        byte_len("▸ "@) == 4,
        byte_len("  "@) == 2,
{
    reveal_strlit("▸ ");
    reveal_strlit("  ");
    let a = "▸ "@;
    let b = "  "@;
    assert(a.drop_first().drop_first() =~= Seq::<char>::empty());
    assert(b.drop_first().drop_first() =~= Seq::<char>::empty());
    assert(('▸' as u32) == 0x25B8);
    assert(vstd::utf8::encode_scalar(0x25B8u32).len() == 3);
    assert(encode_utf8(a) == vstd::utf8::encode_scalar(a[0] as u32) + encode_utf8(a.drop_first()));
    assert(encode_utf8(a.drop_first()) == vstd::utf8::encode_scalar(a[1] as u32) + encode_utf8(
        a.drop_first().drop_first(),
    ));
    assert(encode_utf8(b) == vstd::utf8::encode_scalar(b[0] as u32) + encode_utf8(b.drop_first()));
    assert(encode_utf8(b.drop_first()) == vstd::utf8::encode_scalar(b[1] as u32) + encode_utf8(
        b.drop_first().drop_first(),
    ));
}

/// The room for an entry's title.
fn room_for(width: u16, selected: bool) -> (r: usize)
    ensures
        r == sidebar_room(width, selected),
{
    proof {
        lemma_prefix_bytes();
    }
    let p: usize = if selected {
        4
    } else {
        2
    };
    if (width as usize) > p {
        width as usize - p
    } else {
        0
    }
}

/// Whether the entry of note `i` can be cut between characters (see
/// `sidebar_entry_ok`).
pub fn sidebar_entry_fits(app: &App, i: usize, width: u16) -> (b: bool)
    requires
        i < app.notes_list@.len(),
    ensures
        b == sidebar_entry_ok(app, i as int, width),
{
    let title = sidebar_title(app, i);
    let room = room_for(width, i == app.selected_note_index);
    let keep = if room > 0 {
        room - 1
    } else {
        0
    };
    cut_fits(title.as_str(), room, keep)
}

/// The entry of note `i` in the expanded sidebar (see
/// `sidebar_entry_spec`).
pub fn sidebar_entry(app: &App, i: usize, width: u16) -> (t: String)
    requires
        i < app.notes_list@.len(),
        sidebar_entry_ok(app, i as int, width),
    ensures
        t@ == sidebar_entry_spec(app, i as int, width),
{
    let selected = i == app.selected_note_index;
    let title = sidebar_title(app, i);
    let room = room_for(width, selected);
    let keep = if room > 0 {
        room - 1
    } else {
        0
    };
    let mut t = String::new();
    if selected {
        push_str(&mut t, "▸ ");
    } else {
        push_str(&mut t, "  ");
    }
    let cut = shorten(title.as_str(), room, keep, "…");
    push_str(&mut t, cut.as_str());
    t
}

/// The notes the sidebar shows when it has `height` rows: from the first
/// scrolled to, as many as fit below and above the scroll marks, as
/// `start..end`.
pub open spec fn sidebar_window_spec(app: &App, height: u16) -> (int, int) {
    let start = app.notes_list_scroll as int;
    let end = start + (height - 2);
    (start, if end < app.notes_list@.len() {
        end
    } else {
        app.notes_list@.len() as int
    })
}

/// The notes the sidebar shows (see `sidebar_window_spec`).
pub fn sidebar_window(app: &App, height: u16) -> (w: (usize, usize))
    requires
        height >= 2,
        app.notes_list_scroll + height <= usize::MAX,
    ensures
        (w.0 as int, w.1 as int) == sidebar_window_spec(app, height),
{
    let start = app.notes_list_scroll;
    let end = start + (height - 2) as usize;
    (start, if end < app.notes_list.len() {
        end
    } else {
        app.notes_list.len()
    })
}

/// The line of note `i` in the notes menu: the mark and title, cut to
/// the 42 bytes that fit and ending in `…` when longer than 43 bytes.
pub open spec fn menu_line_spec(app: &App, i: int) -> Seq<char> {
    shortened(entry_prefix(i == app.selected_note_index) + shown_title(app, i), 43, 42, "…"@)
}

/// The cut of a line of the notes menu falls between characters.
pub open spec fn menu_line_ok(app: &App, i: int) -> bool {
    cut_ok(entry_prefix(i == app.selected_note_index) + shown_title(app, i), 43, 42)
}

fn menu_text(app: &App, i: usize) -> (t: String)
    requires
        i < app.notes_list@.len(),
    ensures
        t@ == entry_prefix(i == app.selected_note_index) + shown_title(app, i as int),
{
    let mut t = String::new();
    if i == app.selected_note_index {
        push_str(&mut t, "▸ ");
    } else {
        push_str(&mut t, "  ");
    }
    let title = sidebar_title(app, i);
    push_str(&mut t, title.as_str());
    t
}

/// Whether the menu line of note `i` can be cut between characters.
pub fn menu_line_fits(app: &App, i: usize) -> (b: bool)
    requires
        i < app.notes_list@.len(),
    ensures
        b == menu_line_ok(app, i as int),
{
    let t = menu_text(app, i);
    cut_fits(t.as_str(), 43, 42)
}

/// The line of note `i` in the notes menu (see `menu_line_spec`).
pub fn menu_line(app: &App, i: usize) -> (t: String)
    requires
        i < app.notes_list@.len(),
        menu_line_ok(app, i as int),
    ensures
        t@ == menu_line_spec(app, i as int),
{
    let t = menu_text(app, i);
    shorten(t.as_str(), 43, 42, "…")
}

/// The line under the notes menu's entries when there are more notes than
/// the 15 it lists.
pub open spec fn more_notes_spec(app: &App) -> Option<Seq<char>> {
    if app.notes_list@.len() > 15 {
        Some("  ... "@ + decimal((app.notes_list@.len() - 15) as nat) + " more notes"@)
    } else {
        None
    }
}

/// The line for notes beyond the menu's 15 (see `more_notes_spec`).
pub fn more_notes_line(app: &App) -> (t: Option<String>)
    ensures
        match t {
            Some(s) => more_notes_spec(app) == Some(s@),
            None => more_notes_spec(app) is None,
        },
{
    if app.notes_list.len() > 15 {
        let mut s = String::new();
        push_str(&mut s, "  ... ");
        push_decimal(&mut s, (app.notes_list.len() - 15) as u64);
        push_str(&mut s, " more notes");
        Some(s)
    } else {
        None
    }
}

/// The position shown at the right of the status line: `Ln r, Col c `,
/// counted from 1.
pub open spec fn position_text(app: &App) -> Seq<char> {
    "Ln "@ + decimal(app.cursor_row as nat + 1) + ", Col "@ + decimal(app.cursor_col as nat + 1) + seq![' ']
}

/// The left of the status line: `*` when the note has unsaved changes
/// (else a space), then the status message; cut to the room the position
/// leaves (one column apart), ending in `…` when cut.
pub open spec fn status_left_spec(app: &App, term_width: u16) -> Seq<char> {
    let room = less(less(term_width as int, byte_len(position_text(app))), 1);
    shortened(
        (if app.dirty {
            seq!['*']
        } else {
            seq![' ']
        }) + app.status_message@,
        room,
        less(room, 1),
        "…"@,
    )
}

/// The cut of the status line's left falls between characters.
pub open spec fn status_left_ok(app: &App, term_width: u16) -> bool {
    let room = less(less(term_width as int, byte_len(position_text(app))), 1);
    cut_ok(
        (if app.dirty {
            seq!['*']
        } else {
            seq![' ']
        }) + app.status_message@,
        room,
        less(room, 1),
    )
}

/// The position text (see `position_text`).
pub fn status_position(app: &App) -> (t: String)
    requires
        app.cursor_row < usize::MAX,
        app.cursor_col < usize::MAX,
    ensures
        t@ == position_text(app),
{
    let mut t = String::new();
    push_str(&mut t, "Ln ");
    push_decimal(&mut t, (app.cursor_row + 1) as u64);
    push_str(&mut t, ", Col ");
    push_decimal(&mut t, (app.cursor_col + 1) as u64);
    t.push(' ');
    t
}

fn status_left_text(app: &App) -> (t: String)
    ensures
        t@ == (if app.dirty {
            seq!['*']
        } else {
            seq![' ']
        }) + app.status_message@,
{
    let mut t = String::new();
    if app.dirty {
        t.push('*');
    } else {
        t.push(' ');
    }
    push_str(&mut t, app.status_message.as_str());
    t
}

fn status_room(app: &App, term_width: u16) -> (r: usize)
    requires
        app.cursor_row < usize::MAX,
        app.cursor_col < usize::MAX,
    ensures
        r == less(less(term_width as int, byte_len(position_text(app))), 1),
{
    let p = status_position(app);
    let n = p.as_str().as_bytes().len();
    let a = if (term_width as usize) > n {
        term_width as usize - n
    } else {
        0
    };
    if a > 1 {
        a - 1
    } else {
        0
    }
}

/// Whether the status line's left can be cut between characters.
pub fn status_left_fits(app: &App, term_width: u16) -> (b: bool)
    requires
        app.cursor_row < usize::MAX,
        app.cursor_col < usize::MAX,
    ensures
        b == status_left_ok(app, term_width),
{
    let room = status_room(app, term_width);
    let keep = if room > 0 {
        room - 1
    } else {
        0
    };
    let left = status_left_text(app);
    cut_fits(left.as_str(), room, keep)
}

/// The left of the status line (see `status_left_spec`).
pub fn status_left(app: &App, term_width: u16) -> (t: String)
    requires
        app.cursor_row < usize::MAX,
        app.cursor_col < usize::MAX,
        status_left_ok(app, term_width),
    ensures
        t@ == status_left_spec(app, term_width),
{
    let room = status_room(app, term_width);
    let keep = if room > 0 {
        room - 1
    } else {
        0
    };
    let left = status_left_text(app);
    shorten(left.as_str(), room, keep, "…")
}

/// The note indicator in the title bar: ` │ `, the open note's title cut
/// to the room the bar leaves (its width less 40 bytes, ending in `...`
/// when cut), and `*` when it has unsaved changes; nothing without an open
/// note.
pub open spec fn note_indicator_spec(app: &App, term_width: u16) -> Option<Seq<char>> {
    match app.current_note {
        Some(n) => {
            let room = less(term_width as int, 40);
            Some(
                " │ "@ + shortened(n.title@, room, less(room, 3), "..."@) + (if app.dirty {
                    seq!['*']
                } else {
                    Seq::empty()
                }),
            )
        },
        None => None,
    }
}

/// The cut of the note indicator falls between characters.
pub open spec fn note_indicator_ok(app: &App, term_width: u16) -> bool {
    match app.current_note {
        Some(n) => {
            let room = less(term_width as int, 40);
            cut_ok(n.title@, room, less(room, 3))
        },
        None => true,
    }
}

fn indicator_room(term_width: u16) -> (r: (usize, usize))
    ensures
        r.0 == less(term_width as int, 40),
        r.1 == less(r.0 as int, 3),
{
    let room = if term_width as usize > 40 {
        term_width as usize - 40
    } else {
        0
    };
    (room, if room > 3 {
        room - 3
    } else {
        0
    })
}

/// Whether the note indicator can be cut between characters.
pub fn note_indicator_fits(app: &App, term_width: u16) -> (b: bool)
    ensures
        b == note_indicator_ok(app, term_width),
{
    match &app.current_note {
        Some(n) => {
            let (room, keep) = indicator_room(term_width);
            cut_fits(n.title.as_str(), room, keep)
        },
        None => true,
    }
}

/// The note indicator (see `note_indicator_spec`).
pub fn note_indicator(app: &App, term_width: u16) -> (t: Option<String>)
    requires
        note_indicator_ok(app, term_width),
    ensures
        match t {
            Some(s) => note_indicator_spec(app, term_width) == Some(s@),
            None => note_indicator_spec(app, term_width) is None,
        },
{
    match &app.current_note {
        Some(n) => {
            let (room, keep) = indicator_room(term_width);
            let mut s = String::new();
            push_str(&mut s, " │ ");
            let title = shorten(n.title.as_str(), room, keep, "...");
            push_str(&mut s, title.as_str());
            if app.dirty {
                s.push('*');
            }
            assert(s@ =~= note_indicator_spec(app, term_width).unwrap());
            Some(s)
        },
        None => None,
    }
}

} // verus!
