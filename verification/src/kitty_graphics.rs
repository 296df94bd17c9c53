//! Pictures in the terminal: the protocol a terminal speaks, the escape
//! sequences that send a picture with the Kitty or iTerm2 protocol, and a
//! fallback drawing in quarter-block characters.
//!
//! A picture is held as RGBA bytes, row by row.

use crate::text_format::{decimal, push_decimal, push_str};
use base64::Engine;
use image::ExtendedColorType as C;
use image::{write_buffer_with_format, ImageFormat};
use std::io::Cursor;
use self::ChannelLayout as L;
use vstd::prelude::*;

verus! {

/// How a terminal can show pictures.
#[derive(Debug, Clone, Copy, PartialEq, Eq, Structural)]
pub enum ImageProtocol {
    Kitty,
    ITerm2,
    Blocks,
}

/// A picture: `width` by `height` pixels, four bytes (red, green, blue,
/// alpha) per pixel, row by row.
pub struct RgbaImage {
    pub width: u32,
    pub height: u32,
    pub pixels: Vec<u8>,
}

/// How the samples of a picture's pixels are laid out: grey, grey and
/// alpha, red-green-blue, or red-green-blue and alpha, with 8 or 16 bits
/// per sample.
#[derive(Debug, Clone, Copy, PartialEq, Eq, Structural)]
pub enum ChannelLayout {
    L8,
    La8,
    Rgb8,
    Rgba8,
    L16,
    La16,
    Rgb16,
    Rgba16,
}

/// Samples per pixel of a layout.
pub open spec fn channels(l: ChannelLayout) -> nat {
    match l {
        ChannelLayout::L8 | ChannelLayout::L16 => 1,
        ChannelLayout::La8 | ChannelLayout::La16 => 2,
        ChannelLayout::Rgb8 | ChannelLayout::Rgb16 => 3,
        ChannelLayout::Rgba8 | ChannelLayout::Rgba16 => 4,
    }
}

/// Whether a layout has 16 bits per sample.
pub open spec fn wide(l: ChannelLayout) -> bool {
    match l {
        ChannelLayout::L16 | ChannelLayout::La16 | ChannelLayout::Rgb16 | ChannelLayout::Rgba16 => true,
        _ => false,
    }
}

/// A picture in its own layout: `width` by `height` pixels, row by row,
/// each pixel `channels(layout)` samples, held in `samples8` for an 8-bit
/// layout and in `samples16` for a 16-bit one (the other left empty).
pub struct Picture {
    pub width: u32,
    pub height: u32,
    pub layout: ChannelLayout,
    pub samples8: Vec<u8>,
    pub samples16: Vec<u16>,
}

impl Picture {
    /// The samples are exactly those of the picture, in the vector of its
    /// bit depth.
    pub open spec fn wf(&self) -> bool {
        if wide(self.layout) {
            &&& self.samples8@.len() == 0
            &&& self.samples16@.len() == self.width * self.height * channels(self.layout)
        } else {
            &&& self.samples16@.len() == 0
            &&& self.samples8@.len() == self.width * self.height * channels(self.layout)
        }
    }
}

impl RgbaImage {
    /// The pixel bytes are exactly those of the picture.
    pub open spec fn wf(&self) -> bool {
        self.pixels@.len() == self.width * self.height * 4
    }
}

/// The protocol a terminal speaks: Kitty when it sets `KITTY_WINDOW_ID` or
/// is Ghostty, iTerm2 for iTerm2 and WezTerm, else block characters.
pub open spec fn protocol_spec(in_kitty: bool, term_program: Seq<char>) -> ImageProtocol {
    if in_kitty || term_program == "ghostty"@ {
        ImageProtocol::Kitty
    } else if term_program == "iTerm.app"@ || term_program == "WezTerm"@ {
        ImageProtocol::ITerm2
    } else {
        ImageProtocol::Blocks
    }
}

/// The protocol for a terminal that does or does not set `KITTY_WINDOW_ID`
/// and names itself `term_program` (empty when unnamed).
pub fn image_protocol(in_kitty: bool, term_program: &str) -> (p: ImageProtocol)
    ensures
        p == protocol_spec(in_kitty, term_program@),
{
    if in_kitty || crate::std_text::same_text(term_program, "ghostty") {
        ImageProtocol::Kitty
    } else if crate::std_text::same_text(term_program, "iTerm.app") || crate::std_text::same_text(
        term_program,
        "WezTerm",
    ) {
        ImageProtocol::ITerm2
    } else {
        ImageProtocol::Blocks
    }
}

/// The sequence that clears pictures: Kitty deletes them all; the others
/// need none.
pub fn clear_sequence(p: ImageProtocol) -> (s: String)
    ensures
        s@ == (if p == ImageProtocol::Kitty {
            "\x1b_Ga=d\x1b\\"@
        } else {
            Seq::empty()
        }),
{
    let mut s = String::new();
    if p == ImageProtocol::Kitty {
        push_str(&mut s, "\x1b_Ga=d\x1b\\");
    }
    s
}

/// The index of the first byte of pixel `(x, y)`.
pub open spec fn pixel_index(img: &RgbaImage, x: int, y: int) -> int {
    (y * img.width + x) * 4
}

/// Whether `(x, y)` is a pixel of the picture.
pub open spec fn inside(img: &RgbaImage, x: int, y: int) -> bool {
    0 <= x < img.width && 0 <= y < img.height
}

/// The red, green and blue bytes of pixel `(x, y)`.
pub open spec fn rgb_at(img: &RgbaImage, x: int, y: int) -> (u8, u8, u8) {
    let i = pixel_index(img, x, y);
    (img.pixels@[i], img.pixels@[i + 1], img.pixels@[i + 2])
}

/// The brightness of pixel `(x, y)`: the mean of its red, green and blue
/// bytes, rounded down; 0 outside the picture.
pub open spec fn brightness(img: &RgbaImage, x: int, y: int) -> u8 {
    if inside(img, x, y) {
        let c = rgb_at(img, x, y);
        ((c.0 + c.1 + c.2) / 3) as u8
    } else {
        0
    }
}

proof fn lemma_pixel_index(img: &RgbaImage, x: int, y: int)
    requires
        img.wf(),
        inside(img, x, y),
    ensures
        0 <= pixel_index(img, x, y),
        pixel_index(img, x, y) + 4 <= img.pixels@.len(),
{
    let w = img.width as int;
    let h = img.height as int;
    assert(0 <= (y * w + x) * 4) by (nonlinear_arith)
        requires
            0 <= x < w,
            0 <= y < h,
    ;
    assert((y * w + x) * 4 + 4 <= w * h * 4) by (nonlinear_arith)
        requires
            0 <= x < w,
            0 <= y < h,
    ;
}

/// The bytes of pixel `(x, y)`.
fn pixel_rgb(img: &RgbaImage, x: usize, y: usize) -> (c: (u8, u8, u8))
    requires
        img.wf(),
        inside(img, x as int, y as int),
    ensures
        c == rgb_at(img, x as int, y as int),
{
    proof {
        lemma_pixel_index(img, x as int, y as int);
    }
    let n = img.pixels.len();
    let w = img.width as usize;
    assert(y * w <= (y * w + x) * 4) by (nonlinear_arith)
        requires
            0 <= y,
            0 <= w,
            0 <= x,
    ;
    let i = (y * w + x) * 4;
    (img.pixels[i], img.pixels[i + 1], img.pixels[i + 2])
}

/// The brightness of a pixel (see `brightness`).
pub(crate) fn pixel_brightness(img: &RgbaImage, x: usize, y: usize) -> (b: u8)
    requires
        img.wf(),
    ensures
        b == brightness(img, x as int, y as int),
{
    if x >= img.width as usize || y >= img.height as usize {
        return 0;
    }
    let (r, g, b) = pixel_rgb(img, x, y);
    ((r as u32 + g as u32 + b as u32) / 3) as u8
}

/// Sums of red, green and blue, and the count, of the pixels of row `y`
/// from column `x` over `w` columns that lie in the picture.
pub open spec fn row_sums(img: &RgbaImage, x: int, y: int, w: nat) -> (nat, nat, nat, nat)
    decreases w,
{
    if w == 0 {
        (0, 0, 0, 0)
    } else {
        let s = row_sums(img, x, y, (w - 1) as nat);
        let px = x + w - 1;
        if inside(img, px, y) {
            let c = rgb_at(img, px, y);
            (s.0 + c.0 as nat, s.1 + c.1 as nat, s.2 + c.2 as nat, s.3 + 1)
        } else {
            s
        }
    }
}

/// Sums of red, green and blue, and the count, of the pixels of the
/// `w` by `h` region at `(x, y)` that lie in the picture.
pub open spec fn region_sums(img: &RgbaImage, x: int, y: int, w: nat, h: nat) -> (nat, nat, nat, nat)
    decreases h,
{
    if h == 0 {
        (0, 0, 0, 0)
    } else {
        let s = region_sums(img, x, y, w, (h - 1) as nat);
        let r = row_sums(img, x, y + h - 1, w);
        (s.0 + r.0, s.1 + r.1, s.2 + r.2, s.3 + r.3)
    }
}

/// The mean color of the pixels of a region that lie in the picture,
/// rounded down; black when none does.
pub open spec fn average_color_spec(img: &RgbaImage, x: int, y: int, w: nat, h: nat) -> (u8, u8, u8) {
    let s = region_sums(img, x, y, w, h);
    if s.3 == 0 {
        (0, 0, 0)
    } else {
        ((s.0 / s.3) as u8, (s.1 / s.3) as u8, (s.2 / s.3) as u8)
    }
}

proof fn lemma_row_sums_bound(img: &RgbaImage, x: int, y: int, w: nat)
    ensures
        row_sums(img, x, y, w).3 <= w,
        row_sums(img, x, y, w).0 <= 255 * row_sums(img, x, y, w).3,
        row_sums(img, x, y, w).1 <= 255 * row_sums(img, x, y, w).3,
        row_sums(img, x, y, w).2 <= 255 * row_sums(img, x, y, w).3,
    decreases w,
{
    if w > 0 {
        lemma_row_sums_bound(img, x, y, (w - 1) as nat);
    }
}

proof fn lemma_region_sums_bound(img: &RgbaImage, x: int, y: int, w: nat, h: nat)
    ensures
        region_sums(img, x, y, w, h).3 <= w * h,
        region_sums(img, x, y, w, h).0 <= 255 * region_sums(img, x, y, w, h).3,
        region_sums(img, x, y, w, h).1 <= 255 * region_sums(img, x, y, w, h).3,
        region_sums(img, x, y, w, h).2 <= 255 * region_sums(img, x, y, w, h).3,
    decreases h,
{
    if h > 0 {
        lemma_region_sums_bound(img, x, y, w, (h - 1) as nat);
        lemma_row_sums_bound(img, x, y + h - 1, w);
        assert(w * (h - 1) + w == w * h) by (nonlinear_arith);
    }
}

/// The mean color of a region (see `average_color_spec`).
pub(crate) fn average_color(img: &RgbaImage, x: usize, y: usize, w: usize, h: usize) -> (c: (u8, u8, u8))
    requires
        img.wf(),
        x + w <= usize::MAX,
        y + h <= usize::MAX,
        w * h * 255 <= u32::MAX,
    ensures
        c == average_color_spec(img, x as int, y as int, w as nat, h as nat),
{
    let mut r_sum: u32 = 0;
    let mut g_sum: u32 = 0;
    let mut b_sum: u32 = 0;
    let mut count: u32 = 0;
    let mut dy: usize = 0;
    while dy < h
        invariant
            img.wf(),
            dy <= h,
            x + w <= usize::MAX,
            y + h <= usize::MAX,
            w * h * 255 <= u32::MAX,
            (r_sum as nat, g_sum as nat, b_sum as nat, count as nat) == region_sums(
                img,
                x as int,
                y as int,
                w as nat,
                dy as nat,
            ),
        decreases h - dy,
    {
        let ghost before = (r_sum as nat, g_sum as nat, b_sum as nat, count as nat);
        proof {
            lemma_region_sums_bound(img, x as int, y as int, w as nat, (dy + 1) as nat);
            assert(w * (dy + 1) * 255 <= w * h * 255) by (nonlinear_arith)
                requires
                    dy + 1 <= h,
            ;
        }
        let mut dx: usize = 0;
        while dx < w
            invariant
                img.wf(),
                dy < h,
                dx <= w,
                x + w <= usize::MAX,
                y + h <= usize::MAX,
                w * (dy + 1) * 255 <= u32::MAX,
                region_sums(img, x as int, y as int, w as nat, (dy + 1) as nat).3 <= w * (dy + 1),
                region_sums(img, x as int, y as int, w as nat, (dy + 1) as nat).0 <= 255 * region_sums(img, x as int, y as int, w as nat, (dy + 1) as nat).3,
                region_sums(img, x as int, y as int, w as nat, (dy + 1) as nat).1 <= 255 * region_sums(img, x as int, y as int, w as nat, (dy + 1) as nat).3,
                region_sums(img, x as int, y as int, w as nat, (dy + 1) as nat).2 <= 255 * region_sums(img, x as int, y as int, w as nat, (dy + 1) as nat).3,
                (r_sum as nat, g_sum as nat, b_sum as nat, count as nat) == {
                    let s = region_sums(img, x as int, y as int, w as nat, dy as nat);
                    let r = row_sums(img, x as int, y + dy, dx as nat);
                    (s.0 + r.0, s.1 + r.1, s.2 + r.2, s.3 + r.3)
                },
            decreases w - dx,
        {
            let px = x + dx;
            let py = y + dy;
            proof {
                lemma_row_sums_bound(img, x as int, y + dy, (dx + 1) as nat);
                lemma_row_sums_bound(img, x as int, y + dy, w as nat);
                lemma_row_sums_mono(img, x as int, y + dy, (dx + 1) as nat, w as nat);
            }
            if px < img.width as usize && py < img.height as usize {
                let (r, g, b) = pixel_rgb(img, px, py);
                r_sum = r_sum + r as u32;
                g_sum = g_sum + g as u32;
                b_sum = b_sum + b as u32;
                count = count + 1;
            }
            dx = dx + 1;
        }
        dy = dy + 1;
    }
    if count == 0 {
        (0, 0, 0)
    } else {
        ((r_sum / count) as u8, (g_sum / count) as u8, (b_sum / count) as u8)
    }
}

proof fn lemma_row_sums_mono(img: &RgbaImage, x: int, y: int, a: nat, b: nat)
    requires
        a <= b,
    ensures
        row_sums(img, x, y, a).0 <= row_sums(img, x, y, b).0,
        row_sums(img, x, y, a).1 <= row_sums(img, x, y, b).1,
        row_sums(img, x, y, a).2 <= row_sums(img, x, y, b).2,
        row_sums(img, x, y, a).3 <= row_sums(img, x, y, b).3,
    decreases b - a,
{
    if a < b {
        lemma_row_sums_mono(img, x, y, a, (b - 1) as nat);
    }
}

/// The quarter-block character that fills the quarters set in `i`: bit 0
/// top left, bit 1 top right, bit 2 bottom left, bit 3 bottom right.
pub open spec fn block_glyph(i: nat) -> char {
    if i == 0 {
        ' '
    } else if i == 1 {
        '▘'
    } else if i == 2 {
        '▝'
    } else if i == 3 {
        '▀'
    } else if i == 4 {
        '▖'
    } else if i == 5 {
        '▌'
    } else if i == 6 {
        '▞'
    } else if i == 7 {
        '▛'
    } else if i == 8 {
        '▗'
    } else if i == 9 {
        '▚'
    } else if i == 10 {
        '▐'
    } else if i == 11 {
        '▜'
    } else if i == 12 {
        '▄'
    } else if i == 13 {
        '▙'
    } else if i == 14 {
        '▟'
    } else {
        '█'
    }
}

fn block_char(i: u8) -> (c: char)
    ensures
        c == block_glyph(i as nat),
{
    if i == 0 {
        ' '
    } else if i == 1 {
        '▘'
    } else if i == 2 {
        '▝'
    } else if i == 3 {
        '▀'
    } else if i == 4 {
        '▖'
    } else if i == 5 {
        '▌'
    } else if i == 6 {
        '▞'
    } else if i == 7 {
        '▛'
    } else if i == 8 {
        '▗'
    } else if i == 9 {
        '▚'
    } else if i == 10 {
        '▐'
    } else if i == 11 {
        '▜'
    } else if i == 12 {
        '▄'
    } else if i == 13 {
        '▙'
    } else if i == 14 {
        '▟'
    } else {
        '█'
    }
}

/// Which quarters of the 2 by 2 pixels at `(px, py)` are bright (above
/// 128), as the bits of `block_glyph`.
pub open spec fn fill_pattern(img: &RgbaImage, px: int, py: int) -> nat {
    (if brightness(img, px, py) > 128 { 1nat } else { 0nat }) + (if brightness(img, px + 1, py) > 128 {
        2nat
    } else {
        0nat
    }) + (if brightness(img, px, py + 1) > 128 { 4nat } else { 0nat }) + (if brightness(
        img,
        px + 1,
        py + 1,
    ) > 128 {
        8nat
    } else {
        0nat
    })
}

/// One character cell: the mean color of its 2 by 2 pixels as the
/// foreground, then the quarter block of its bright pixels.
pub open spec fn block_cell(img: &RgbaImage, cx: int, cy: int) -> Seq<char> {
    let px = cx * 2;
    let py = cy * 2;
    let c = average_color_spec(img, px, py, 2, 2);
    "\x1b[38;2;"@ + decimal(c.0 as nat) + seq![';'] + decimal(c.1 as nat) + seq![';'] + decimal(
        c.2 as nat,
    ) + seq!['m', block_glyph(fill_pattern(img, px, py))]
}

/// The first `n` cells of character row `cy`.
pub open spec fn block_cells(img: &RgbaImage, cy: int, n: nat) -> Seq<char>
    decreases n,
{
    if n == 0 {
        Seq::empty()
    } else {
        block_cells(img, cy, (n - 1) as nat) + block_cell(img, n - 1, cy)
    }
}

/// A row of `cols` cells, with the color reset at its end.
pub open spec fn block_row_text(img: &RgbaImage, cy: int, cols: nat) -> Seq<char> {
    block_cells(img, cy, cols) + "\x1b[0m"@
}

/// Character columns of the drawing: one per two pixels, at most
/// `max_width`.
pub open spec fn block_columns(img: &RgbaImage, max_width: u16) -> nat {
    if (max_width as nat) < img.width / 2 {
        max_width as nat
    } else {
        (img.width / 2) as nat
    }
}

/// Character rows of the drawing: one per two pixels, at most
/// `max_height`.
pub open spec fn block_row_count(img: &RgbaImage, max_height: u16) -> nat {
    if (max_height as nat) < img.height / 2 {
        max_height as nat
    } else {
        (img.height / 2) as nat
    }
}

/// One character cell (see `block_cell`).
fn push_block_cell(s: &mut String, img: &RgbaImage, cx: usize, cy: usize)
    requires
        img.wf(),
        cx * 2 + 2 <= img.width,
        cy * 2 + 2 <= img.height,
    ensures
        final(s)@ == old(s)@ + block_cell(img, cx as int, cy as int),
{
    let px = cx * 2;
    let py = cy * 2;
    let tl = pixel_brightness(img, px, py);
    let tr = pixel_brightness(img, px + 1, py);
    let bl = pixel_brightness(img, px, py + 1);
    let br = pixel_brightness(img, px + 1, py + 1);
    let mut index: u8 = 0;
    if tl > 128 {
        index = index + 1;
    }
    if tr > 128 {
        index = index + 2;
    }
    if bl > 128 {
        index = index + 4;
    }
    if br > 128 {
        index = index + 8;
    }
    let (r, g, b) = average_color(img, px, py, 2, 2);
    let ghost start = s@;
    push_str(s, "\x1b[38;2;");
    push_decimal(s, r as u64);
    s.push(';');
    push_decimal(s, g as u64);
    s.push(';');
    push_decimal(s, b as u64);
    s.push('m');
    s.push(block_char(index));
    assert(s@ =~= start + block_cell(img, cx as int, cy as int));
}

/// The drawing of a picture in quarter-block characters, one string per
/// character row: each cell of two by two pixels shows its bright pixels
/// as a quarter block in their mean color, and each row ends by resetting
/// the color (see `block_row_text`).
pub fn block_rows(img: &RgbaImage, max_width: u16, max_height: u16) -> (rows: Vec<String>)
    requires
        img.wf(),
    ensures
        rows@.len() == block_row_count(img, max_height),
        forall|cy: int|
            0 <= cy < rows@.len() ==> #[trigger] rows@[cy]@ == block_row_text(
                img,
                cy,
                block_columns(img, max_width),
            ),
{
    let half_w = (img.width / 2) as usize;
    let half_h = (img.height / 2) as usize;
    let cols: usize = if (max_width as usize) < half_w {
        max_width as usize
    } else {
        half_w
    };
    let count: usize = if (max_height as usize) < half_h {
        max_height as usize
    } else {
        half_h
    };
    let mut rows: Vec<String> = Vec::new();
    let mut cy: usize = 0;
    while cy < count
        invariant
            img.wf(),
            cy <= count,
            count == block_row_count(img, max_height),
            cols == block_columns(img, max_width),
            rows@.len() == cy,
            forall|k: int|
                0 <= k < rows@.len() ==> #[trigger] rows@[k]@ == block_row_text(img, k, cols as nat),
        decreases count - cy,
    {
        let mut line = String::new();
        let mut cx: usize = 0;
        while cx < cols
            invariant
                img.wf(),
                cx <= cols,
                cy < count,
                count == block_row_count(img, max_height),
                cols == block_columns(img, max_width),
                line@ == block_cells(img, cy as int, cx as nat),
            decreases cols - cx,
        {
            push_block_cell(&mut line, img, cx, cy);
            cx = cx + 1;
        }
        push_str(&mut line, "\x1b[0m");
        rows.push(line);
        cy = cy + 1;
    }
    rows
}

/// The PNG file that `image` writes for a picture of `width` by `height`
/// pixels in the given layout and samples (8-bit or 16-bit ones), or
/// nothing when its encoder reports an error.
pub uninterp spec fn png_file(width: u32, height: u32, layout: ChannelLayout, samples8: Seq<u8>, samples16: Seq<u16>) -> Option<
    Seq<u8>,
>;

/// `image::write_buffer_with_format` with the PNG format, into a byte
/// vector: the file, named `png_file` of the picture, or nothing on an
/// encoder error. The samples are handed over as the crate takes them:
/// the 8-bit samples as they are, the 16-bit ones two bytes each in the
/// machine's order (which the PNG encoder writes big-endian), with the
/// `ExtendedColorType` of the layout. It panics unless the buffer is
/// exactly as long as the picture needs, which `wf` requires.
#[verifier::external_body]
fn png_file_of(pic: &Picture) -> (r: Option<Vec<u8>>)
    requires
        pic.wf(),
    ensures
        match r {
            Some(b) => png_file(pic.width, pic.height, pic.layout, pic.samples8@, pic.samples16@) == Some(b@),
            None => png_file(pic.width, pic.height, pic.layout, pic.samples8@, pic.samples16@) is None,
        },
{
    let color = match pic.layout {
        L::L8 => C::L8, L::La8 => C::La8, L::Rgb8 => C::Rgb8, L::Rgba8 => C::Rgba8,
        L::L16 => C::L16, L::La16 => C::La16, L::Rgb16 => C::Rgb16, L::Rgba16 => C::Rgba16,
    };
    let mut buf = pic.samples8.clone();
    buf.extend(pic.samples16.iter().flat_map(|v| v.to_ne_bytes()));
    let mut out = Cursor::new(Vec::new());
    match write_buffer_with_format(&mut out, &buf, pic.width, pic.height, color, ImageFormat::Png) {
        Ok(()) => Some(out.into_inner()),
        Err(_) => None,
    }
}

/// The base64 digit of a 6-bit value (RFC 4648 standard alphabet).
pub open spec fn base64_digit(v: int) -> char {
    if v < 26 {
        (65 + v) as char
    } else if v < 52 {
        (97 + v - 26) as char
    } else if v < 62 {
        (48 + v - 52) as char
    } else if v == 62 {
        '+'
    } else {
        '/'
    }
}

/// The standard base64 text of some bytes (RFC 4648, padded with `=`):
/// each group of three bytes becomes four digits of six bits each; a last
/// group of one or two bytes becomes two or three digits and padding.
pub open spec fn base64_standard(bytes: Seq<u8>) -> Seq<char>
    decreases bytes.len(),
{
    if bytes.len() == 0 {
        Seq::empty()
    } else if bytes.len() == 1 {
        let a = bytes[0] as int;
        seq![base64_digit(a / 4), base64_digit((a % 4) * 16), '=', '=']
    } else if bytes.len() == 2 {
        let a = bytes[0] as int;
        let b = bytes[1] as int;
        seq![base64_digit(a / 4), base64_digit((a % 4) * 16 + b / 16), base64_digit((b % 16) * 4), '=']
    } else {
        let a = bytes[0] as int;
        let b = bytes[1] as int;
        let c = bytes[2] as int;
        seq![
            base64_digit(a / 4),
            base64_digit((a % 4) * 16 + b / 16),
            base64_digit((b % 16) * 4 + c / 64),
            base64_digit(c % 64),
        ] + base64_standard(bytes.subrange(3, bytes.len() as int))
    }
}

/// Whether the base64 text of `n` bytes has a length that fits in a
/// `usize`, as the `base64` crate computes it before encoding.
pub open spec fn base64_len_fits(n: nat) -> bool {
    (n / 3) * 4 + (if n % 3 > 0 { 4nat } else { 0nat }) <= usize::MAX
}

/// `base64::engine::general_purpose::STANDARD.encode`: the padded
/// standard base64 text of the bytes (see `base64_standard`). It panics
/// when the length of the text does not fit in a `usize`, which the
/// precondition rules out.
#[verifier::external_body]
fn base64_encode(bytes: &Vec<u8>) -> (s: String)
    requires
        base64_len_fits(bytes@.len()),
    ensures
        s@ == base64_standard(bytes@),
{
    base64::engine::general_purpose::STANDARD.encode(bytes)
}

/// The Kitty command that shows a PNG picture of `w` by `h` pixels, sent
/// as base64 `data`, at the cursor.
pub open spec fn kitty_frame(w: u32, h: u32, data: Seq<char>) -> Seq<char> {
    "\x1b_Ga=T,t=d,f=100,s="@ + decimal(w as nat) + ",v="@ + decimal(h as nat) + seq![';'] + data
        + "\x1b\\"@
}

/// The iTerm2 command that shows an inline picture of `w` by `h` pixels,
/// sent as base64 `data`, keeping its aspect ratio.
pub open spec fn iterm2_frame(w: u32, h: u32, data: Seq<char>) -> Seq<char> {
    "\x1b]1337;File=inline=1;width="@ + decimal(w as nat) + ";height="@ + decimal(h as nat)
        + ";preserveAspectRatio=1:"@ + data + seq!['\x07']
}

/// The command for a picture with one of the two protocols: its PNG file
/// in base64, framed; nothing when the file cannot be written or its
/// base64 text would not fit in memory.
pub open spec fn image_command_spec(img: &Picture, kitty: bool) -> Option<Seq<char>> {
    match png_file(img.width, img.height, img.layout, img.samples8@, img.samples16@) {
        Some(b) => if base64_len_fits(b.len()) {
            let data = base64_standard(b);
            Some(
                if kitty {
                    kitty_frame(img.width, img.height, data)
                } else {
                    iterm2_frame(img.width, img.height, data)
                },
            )
        } else {
            None
        },
        None => None,
    }
}

/// The Kitty (`kitty` true) or iTerm2 command that shows a PNG picture of
/// `w` by `h` pixels sent as the base64 text `data`.
pub fn image_frame(w: u32, h: u32, data: &str, kitty: bool) -> (s: String)
    ensures
        s@ == (if kitty {
            kitty_frame(w, h, data@)
        } else {
            iterm2_frame(w, h, data@)
        }),
{
    let mut s = String::new();
    if kitty {
        push_str(&mut s, "\x1b_Ga=T,t=d,f=100,s=");
        push_decimal(&mut s, w as u64);
        push_str(&mut s, ",v=");
        push_decimal(&mut s, h as u64);
        s.push(';');
        push_str(&mut s, data);
        push_str(&mut s, "\x1b\\");
    } else {
        push_str(&mut s, "\x1b]1337;File=inline=1;width=");
        push_decimal(&mut s, w as u64);
        push_str(&mut s, ";height=");
        push_decimal(&mut s, h as u64);
        push_str(&mut s, ";preserveAspectRatio=1:");
        push_str(&mut s, data);
        s.push('\x07');
    }
    assert(s@ =~= (if kitty {
        kitty_frame(w, h, data@)
    } else {
        iterm2_frame(w, h, data@)
    }));
    s
}

/// The Kitty (`kitty` true) or iTerm2 command that shows the picture (see
/// `image_command_spec`).
pub fn image_command(img: &Picture, kitty: bool) -> (r: Option<String>)
    requires
        img.wf(),
    ensures
        match r {
            Some(s) => image_command_spec(img, kitty) == Some(s@),
            None => image_command_spec(img, kitty) is None,
        },
{
    let png = match png_file_of(img) {
        Some(b) => b,
        None => return None,
    };
    let n = png.len();
    let chunks = n / 3;
    if chunks > usize::MAX / 4 {
        assert(chunks * 4 > usize::MAX) by (nonlinear_arith)
            requires
                chunks > usize::MAX / 4,
        ;
        return None;
    }
    assert(chunks * 4 <= usize::MAX) by (nonlinear_arith)
        requires
            chunks <= usize::MAX / 4,
    ;
    let body = chunks * 4;
    let pad: usize = if n % 3 > 0 {
        4
    } else {
        0
    };
    if body > usize::MAX - pad {
        return None;
    }
    let data = base64_encode(&png);
    let s = image_frame(img.width, img.height, data.as_str(), kitty);
    assert(s@ =~= image_command_spec(img, kitty).unwrap());
    Some(s)
}

} // verus!
