//! The `.grid` file format of the chunked canvas.
//!
//! A file starts with `GRID`, a two-byte version and the number of chunks
//! (32-bit little-endian). Each chunk record holds the chunk's row and
//! column (32-bit signed little-endian), the number of its cells, and for
//! each cell its row and column inside the chunk (one byte each) and its
//! character in UTF-8, padded with zero bytes to four bytes.

use crate::chunked_grid::{coord_in_range, is_blank, key_lt, world_of, write_cell, ChunkedGrid};
use crate::text_format::chars_of;
use vstd::prelude::*;
use vstd::utf8::{decode_utf8, encode_utf8, valid_utf8};

verus! {

/// Why a file could not be read as a grid.
#[derive(Debug, Clone, Copy, PartialEq, Eq, Structural)]
pub enum GridFileError {
    /// The file does not start with `GRID`.
    InvalidFormat,
    /// The file ends inside a record.
    UnexpectedEnd,
    /// A cell lies where no position of the canvas is.
    OutOfRange,
}

/// The four bytes `GRID`.
pub open spec fn grid_magic() -> Seq<u8> {
    seq![0x47u8, 0x52u8, 0x49u8, 0x44u8]
}

/// A 32-bit number as four little-endian bytes.
pub open spec fn le_u32(n: u32) -> Seq<u8> {
    seq![(n % 256) as u8, ((n / 256) % 256) as u8, ((n / 65536) % 256) as u8, (n / 16777216) as u8]
}

/// A signed 32-bit number as four little-endian bytes of its two's
/// complement.
pub open spec fn le_i32(n: i32) -> Seq<u8> {
    le_u32(n as u32)
}

/// The 32-bit number in the four little-endian bytes from `i`.
pub open spec fn u32_at(b: Seq<u8>, i: int) -> u32 {
    (b[i] as int + b[i + 1] as int * 256 + b[i + 2] as int * 65536 + b[i + 3] as int * 16777216) as u32
}

/// The signed 32-bit number in the four little-endian bytes from `i`.
pub open spec fn i32_at(b: Seq<u8>, i: int) -> i32 {
    u32_at(b, i) as i32
}

/// Bytes padded with zero bytes to four.
pub open spec fn pad4(b: Seq<u8>) -> Seq<u8> {
    b + Seq::new((4 - b.len()) as nat, |i: int| 0u8)
}

/// The first character of four bytes read as UTF-8, when they are valid
/// UTF-8.
pub open spec fn first_char(b: Seq<u8>) -> Option<char> {
    if valid_utf8(b) && decode_utf8(b).len() > 0 {
        Some(decode_utf8(b)[0])
    } else {
        None
    }
}

/// The content after reading `n` cell records of chunk `k` from `pos` into
/// `m`, with the position after them. A cell whose character bytes are not
/// UTF-8 is skipped.
pub open spec fn read_cells(b: Seq<u8>, pos: int, n: nat, k: (i32, i32), m: Map<(int, int), char>) -> Result<
    (Map<(int, int), char>, int),
    GridFileError,
>
    decreases n,
{
    if n == 0 {
        Ok((m, pos))
    } else if pos + 6 > b.len() {
        Err(GridFileError::UnexpectedEnd)
    } else {
        match first_char(b.subrange(pos + 2, pos + 6)) {
            None => read_cells(b, pos + 6, (n - 1) as nat, k, m),
            Some(c) => {
                let w = world_of(k, (b[pos] as usize, b[pos + 1] as usize));
                if k.0 >= 0 && k.1 >= 0 && coord_in_range(w.0) && coord_in_range(w.1) {
                    read_cells(b, pos + 6, (n - 1) as nat, k, write_cell(m, w, c))
                } else {
                    Err(GridFileError::OutOfRange)
                }
            },
        }
    }
}

/// The content after reading `n` chunk records from `pos` into `m`, with the
/// position after them.
pub open spec fn read_chunks(b: Seq<u8>, pos: int, n: nat, m: Map<(int, int), char>) -> Result<
    (Map<(int, int), char>, int),
    GridFileError,
>
    decreases n,
{
    if n == 0 {
        Ok((m, pos))
    } else if pos + 12 > b.len() {
        Err(GridFileError::UnexpectedEnd)
    } else {
        let k = (i32_at(b, pos), i32_at(b, pos + 4));
        match read_cells(b, pos + 12, u32_at(b, pos + 8) as nat, k, m) {
            Ok((m2, p2)) => read_chunks(b, p2, (n - 1) as nat, m2),
            Err(e) => Err(e),
        }
    }
}

/// What reading the bytes of a file as a grid gives: its content, or why
/// it cannot be read.
pub open spec fn grid_file_spec(b: Seq<u8>) -> Result<Map<(int, int), char>, GridFileError> {
    if b.len() < 4 {
        Err(GridFileError::UnexpectedEnd)
    } else if b.subrange(0, 4) != grid_magic() {
        Err(GridFileError::InvalidFormat)
    } else if b.len() < 10 {
        Err(GridFileError::UnexpectedEnd)
    } else {
        match read_chunks(b, 10, u32_at(b, 6) as nat, Map::empty()) {
            Ok((m, _)) => Ok(m),
            Err(e) => Err(e),
        }
    }
}

/// `std::str::from_utf8`: the bytes as a string when they are valid UTF-8
/// (its characters are those the bytes encode), else nothing.
#[verifier::external_body]
fn utf8_str(v: &[u8]) -> (r: Option<&str>)
    ensures
        match r {
            Some(s) => valid_utf8(v@) && s@ == decode_utf8(v@),
            None => !valid_utf8(v@),
        },
{
    std::str::from_utf8(v).ok()
}

/// The first character of the four character bytes of the cell record at
/// `pos` (see `first_char`).
fn cell_char(b: &[u8], pos: usize) -> (r: Option<char>)
    requires
        pos + 6 <= b@.len(),
    ensures
        r == first_char(b@.subrange(pos + 2, pos + 6)),
{
    let n = b.len();
    let four: Vec<u8> = vec![b[pos + 2], b[pos + 3], b[pos + 4], b[pos + 5]];
    assert(four@ =~= b@.subrange(pos + 2, pos + 6));
    match utf8_str(four.as_slice()) {
        Some(s) => {
            let v = chars_of(s);
            if v.len() > 0 {
                Some(v[0])
            } else {
                None
            }
        },
        None => None,
    }
}

/// The 32-bit number in four little-endian bytes.
fn read_u32(b: &[u8], i: usize) -> (n: u32)
    requires
        i + 4 <= b@.len(),
    ensures
        n == u32_at(b@, i as int),
{
    let x: u64 = b[i] as u64 + b[i + 1] as u64 * 256 + b[i + 2] as u64 * 65536 + b[i + 3] as u64
        * 16777216;
    x as u32
}

impl ChunkedGrid {
    /// Reads a grid from the bytes of a `.grid` file (see `grid_file_spec`):
    /// its cells are written in file order; a cell whose character bytes are
    /// not UTF-8 is skipped.
    pub fn from_grid_bytes(bytes: &[u8]) -> (r: Result<ChunkedGrid, GridFileError>)
        ensures
            match r {
                Ok(g) => g.wf() && grid_file_spec(bytes@) == Ok::<Map<(int, int), char>, GridFileError>(g@),
                Err(e) => grid_file_spec(bytes@) == Err::<Map<(int, int), char>, GridFileError>(e),
            },
    {
        let ghost b = bytes@;
        let len = bytes.len();
        if len < 4 {
            return Err(GridFileError::UnexpectedEnd);
        }
        if bytes[0] != 0x47u8 || bytes[1] != 0x52u8 || bytes[2] != 0x49u8 || bytes[3] != 0x44u8 {
            assert(b.subrange(0, 4) != grid_magic()) by {
                if b.subrange(0, 4) == grid_magic() {
                    assert(b.subrange(0, 4)[0] == b[0]);
                    assert(b.subrange(0, 4)[1] == b[1]);
                    assert(b.subrange(0, 4)[2] == b[2]);
                    assert(b.subrange(0, 4)[3] == b[3]);
                }
            }
            return Err(GridFileError::InvalidFormat);
        }
        assert(b.subrange(0, 4) =~= grid_magic());
        if len < 10 {
            return Err(GridFileError::UnexpectedEnd);
        }
        let ghost target = grid_file_spec(b);
        let chunk_count = read_u32(bytes, 6);
        let mut grid = ChunkedGrid::new();
        let mut pos: usize = 10;
        let mut chunks_left: u32 = chunk_count;
        while chunks_left > 0
            invariant
                b == bytes@,
                target == grid_file_spec(bytes@),
                len == b.len(),
                pos <= len,
                grid.wf(),
                target == match read_chunks(b, pos as int, chunks_left as nat, grid@) {
                    Ok((m, _)) => Ok(m),
                    Err(e) => Err(e),
                },
            decreases chunks_left,
        {
            if len - pos < 12 {
                assert(read_chunks(b, pos as int, chunks_left as nat, grid@) == Err::<
                    (Map<(int, int), char>, int),
                    GridFileError,
                >(GridFileError::UnexpectedEnd));
                return Err(GridFileError::UnexpectedEnd);
            }
            let k0 = #[verifier::truncate] (read_u32(bytes, pos) as i32);
            let k1 = #[verifier::truncate] (read_u32(bytes, pos + 4) as i32);
            let cell_count = read_u32(bytes, pos + 8);
            let ghost k = (k0, k1);
            let ghost after = (chunks_left - 1) as nat;
            let mut cells_left: u32 = cell_count;
            let mut p: usize = pos + 12;
            while cells_left > 0
                invariant
                    b == bytes@,
                    target == grid_file_spec(bytes@),
                    k == (k0, k1),
                    len == b.len(),
                    p <= len,
                    grid.wf(),
                    target == match read_cells(b, p as int, cells_left as nat, k, grid@) {
                        Ok((m2, p2)) => match read_chunks(b, p2, after, m2) {
                            Ok((m, _)) => Ok(m),
                            Err(e) => Err(e),
                        },
                        Err(e) => Err(e),
                    },
                decreases cells_left,
            {
                if len - p < 6 {
                    return Err(GridFileError::UnexpectedEnd);
                }
                match cell_char(bytes, p) {
                    None => {},
                    Some(c) => {
                        let lr = bytes[p] as usize;
                        let lc = bytes[p + 1] as usize;
                        let ghost w = world_of(k, (lr, lc));
                        if k0 < 0 || k1 < 0 {
                            return Err(GridFileError::OutOfRange);
                        }
                        let row_chunk = k0 as usize;
                        let col_chunk = k1 as usize;
                        assert(row_chunk as int == k0 as int);
                        assert(col_chunk as int == k1 as int);
                        assert(w.0 == row_chunk * 32 + lr);
                        assert(w.1 == col_chunk * 32 + lc);
                        if row_chunk > (usize::MAX - lr) / 32 || col_chunk > (usize::MAX - lc) / 32 {
                            proof {
                                assert(!(coord_in_range(w.0) && coord_in_range(w.1))) by (nonlinear_arith)
                                    requires
                                        w.0 == row_chunk * 32 + lr,
                                        w.1 == col_chunk * 32 + lc,
                                        row_chunk > (usize::MAX - lr) / 32 || col_chunk > (usize::MAX - lc) / 32,
                                        lr < 256,
                                        lc < 256,
                                ;
                            }
                            return Err(GridFileError::OutOfRange);
                        }
                        let row = row_chunk * 32 + lr;
                        let col = col_chunk * 32 + lc;
                        if row / 32 > 2147483647usize || col / 32 > 2147483647usize {
                            return Err(GridFileError::OutOfRange);
                        }
                        assert(coord_in_range(row as int) && coord_in_range(col as int));
                        grid.set(row, col, c);
                    },
                }
                p = p + 6;
                cells_left = cells_left - 1;
            }
            pos = p;
            chunks_left = chunks_left - 1;
        }
        Ok(grid)
    }
}

/// The record of one cell: its place in the chunk, then its character in
/// UTF-8 padded to four bytes.
pub open spec fn cell_record(l: (usize, usize), c: char) -> Seq<u8> {
    seq![l.0 as u8, l.1 as u8] + pad4(encode_utf8(seq![c]))
}

/// The records of cells, in order.
pub open spec fn cell_records(cs: Seq<((usize, usize), char)>) -> Seq<u8>
    decreases cs.len(),
{
    if cs.len() == 0 {
        Seq::empty()
    } else {
        cell_record(cs[0].0, cs[0].1) + cell_records(cs.drop_first())
    }
}

/// The record of one chunk: its key, the number of its cells and their
/// records.
pub open spec fn chunk_record(k: (i32, i32), cs: Seq<((usize, usize), char)>) -> Seq<u8> {
    le_i32(k.0) + le_i32(k.1) + le_u32(cs.len() as u32) + cell_records(cs)
}

/// The records of chunks, in order.
pub open spec fn chunk_records(e: Seq<((i32, i32), Seq<((usize, usize), char)>)>) -> Seq<u8>
    decreases e.len(),
{
    if e.len() == 0 {
        Seq::empty()
    } else {
        chunk_record(e[0].0, e[0].1) + chunk_records(e.drop_first())
    }
}

/// The bytes of a file holding the chunks `e`.
pub open spec fn grid_file_bytes(e: Seq<((i32, i32), Seq<((usize, usize), char)>)>) -> Seq<u8> {
    grid_magic() + seq![1u8, 0u8] + le_u32(e.len() as u32) + chunk_records(e)
}

/// Cell `a` of chunk `i` of a listing, as a world position.
pub open spec fn listed_pos(e: Seq<((i32, i32), Seq<((usize, usize), char)>)>, i: int, a: int) -> (int, int) {
    world_of(e[i].0, e[i].1[a].0)
}

/// `e` lists the content `m` chunk by chunk: each chunk once, at a key
/// whose positions are all on the canvas, each of its cells once, inside
/// the chunk, with the character `m` holds there; and every position of
/// `m` is listed.
pub open spec fn lists_content(e: Seq<((i32, i32), Seq<((usize, usize), char)>)>, m: Map<(int, int), char>) -> bool {
    &&& forall|i: int, j: int| 0 <= i < j < e.len() ==> #[trigger] e[i].0 != #[trigger] e[j].0
    &&& forall|i: int| 0 <= i < e.len() ==> chunk_listed(#[trigger] e[i], m)
    &&& forall|p: (int, int)| #[trigger] m.contains_key(p) ==> exists|i: int, a: int|
        0 <= i < e.len() && 0 <= a < e[i].1.len() && #[trigger] listed_pos(e, i, a) == p
}

/// One chunk of a listing (see `lists_content`).
pub open spec fn chunk_listed(x: ((i32, i32), Seq<((usize, usize), char)>), m: Map<(int, int), char>) -> bool {
    let k = x.0;
    let cs = x.1;
    &&& 0 <= k.0
    &&& 0 <= k.1
    &&& k.0 as int * 32 + 31 <= usize::MAX
    &&& k.1 as int * 32 + 31 <= usize::MAX
    &&& forall|a: int, c: int| 0 <= a < c < cs.len() ==> #[trigger] cs[a].0 != #[trigger] cs[c].0
    &&& forall|a: int|
        0 <= a < cs.len() ==> {
            let l = #[trigger] cs[a].0;
            &&& l.0 < 32
            &&& l.1 < 32
            &&& m.contains_key(world_of(k, l))
            &&& m[world_of(k, l)] == cs[a].1
        }
}

/// Appending a cell record at the end of a list appends its bytes.
pub proof fn lemma_cell_records_push(cs: Seq<((usize, usize), char)>, x: ((usize, usize), char))
    ensures
        cell_records(cs.push(x)) == cell_records(cs) + cell_record(x.0, x.1),
    decreases cs.len(),
{
    let r = cell_record(x.0, x.1);
    if cs.len() == 0 {
        assert(cs.push(x).drop_first() =~= Seq::<((usize, usize), char)>::empty());
        assert(cs.push(x)[0] == x);
        assert(cell_records(cs.push(x)) == r + cell_records(Seq::<((usize, usize), char)>::empty()));
        assert(r + Seq::<u8>::empty() =~= r);
        assert(Seq::<u8>::empty() + r =~= r);
    } else {
        let t = cs.drop_first();
        assert(cs.push(x).drop_first() =~= t.push(x));
        assert(cs.push(x)[0] == cs[0]);
        lemma_cell_records_push(t, x);
        let h = cell_record(cs[0].0, cs[0].1);
        assert(cell_records(cs.push(x)) == h + cell_records(t.push(x)));
        assert(h + (cell_records(t) + r) =~= (h + cell_records(t)) + r);
    }
}

/// Appending a chunk record at the end of a list appends its bytes.
pub proof fn lemma_chunk_records_push(
    e: Seq<((i32, i32), Seq<((usize, usize), char)>)>,
    x: ((i32, i32), Seq<((usize, usize), char)>),
)
    ensures
        chunk_records(e.push(x)) == chunk_records(e) + chunk_record(x.0, x.1),
    decreases e.len(),
{
    let r = chunk_record(x.0, x.1);
    if e.len() == 0 {
        assert(e.push(x).drop_first() =~= Seq::<((i32, i32), Seq<((usize, usize), char)>)>::empty());
        assert(e.push(x)[0] == x);
        assert(chunk_records(e.push(x)) == r + chunk_records(
            Seq::<((i32, i32), Seq<((usize, usize), char)>)>::empty(),
        ));
        assert(r + Seq::<u8>::empty() =~= r);
        assert(Seq::<u8>::empty() + r =~= r);
    } else {
        let t = e.drop_first();
        assert(e.push(x).drop_first() =~= t.push(x));
        assert(e.push(x)[0] == e[0]);
        lemma_chunk_records_push(t, x);
        let h = chunk_record(e[0].0, e[0].1);
        assert(chunk_records(e.push(x)) == h + chunk_records(t.push(x)));
        assert(h + (chunk_records(t) + r) =~= (h + chunk_records(t)) + r);
    }
}

/// Appends a 32-bit number as four little-endian bytes.
pub(crate) fn push_u32(out: &mut Vec<u8>, n: u32)
    ensures
        final(out)@ == old(out)@ + le_u32(n),
{
    out.push((n % 256) as u8);
    out.push(((n / 256) % 256) as u8);
    out.push(((n / 65536) % 256) as u8);
    out.push((n / 16777216) as u8);
    assert(final(out)@ =~= old(out)@ + le_u32(n));
}

/// Appends a signed 32-bit number as four little-endian bytes of its two's
/// complement.
pub(crate) fn push_i32(out: &mut Vec<u8>, n: i32)
    ensures
        final(out)@ == old(out)@ + le_i32(n),
{
    push_u32(out, #[verifier::truncate] (n as u32));
}

/// A character in UTF-8 takes one to four bytes.
pub proof fn lemma_char_utf8_len(c: char)
    ensures
        1 <= encode_utf8(seq![c]).len() <= 4,
{
    assert(seq![c].drop_first() =~= Seq::<char>::empty());
    assert(encode_utf8(seq![c]) == vstd::utf8::encode_scalar(c as u32) + encode_utf8(Seq::<char>::empty()));
}

/// Appends a character in UTF-8, padded with zero bytes to four.
pub(crate) fn push_char4(out: &mut Vec<u8>, c: char)
    ensures
        final(out)@ == old(out)@ + pad4(encode_utf8(seq![c])),
{
    let mut s = String::new();
    s.push(c);
    assert(s@ =~= seq![c]);
    let bytes = s.as_str().as_bytes();
    proof {
        lemma_char_utf8_len(c);
    }
    let ghost start = out@;
    let mut i: usize = 0;
    while i < bytes.len()
        invariant
            i <= bytes@.len(),
            bytes@ == encode_utf8(seq![c]),
            out@ == start + bytes@.take(i as int),
        decreases bytes@.len() - i,
    {
        out.push(bytes[i]);
        assert(out@ =~= start + bytes@.take(i + 1));
        i = i + 1;
    }
    assert(bytes@.take(i as int) == bytes@);
    let mut j: usize = bytes.len();
    while j < 4
        invariant
            bytes@.len() <= j <= 4,
            bytes@ == encode_utf8(seq![c]),
            out@ == start + bytes@ + Seq::new((j - bytes@.len()) as nat, |k: int| 0u8),
        decreases 4 - j,
    {
        out.push(0u8);
        assert(out@ =~= start + bytes@ + Seq::new((j + 1 - bytes@.len()) as nat, |k: int| 0u8));
        j = j + 1;
    }
    assert(out@ =~= start + pad4(encode_utf8(seq![c])));
}

/// The content after writing cells `cs` of chunk `k` into `m`, in order.
pub open spec fn written_cells(m: Map<(int, int), char>, k: (i32, i32), cs: Seq<((usize, usize), char)>) -> Map<
    (int, int),
    char,
>
    decreases cs.len(),
{
    if cs.len() == 0 {
        m
    } else {
        written_cells(write_cell(m, world_of(k, cs[0].0), cs[0].1), k, cs.drop_first())
    }
}

/// The content after writing the cells of chunks `e` into `m`, in order.
pub open spec fn written_chunks(m: Map<(int, int), char>, e: Seq<((i32, i32), Seq<((usize, usize), char)>)>) -> Map<
    (int, int),
    char,
>
    decreases e.len(),
{
    if e.len() == 0 {
        m
    } else {
        written_chunks(written_cells(m, e[0].0, e[0].1), e.drop_first())
    }
}

proof fn lemma_u32_roundtrip(n: u32)
    ensures
        u32_at(le_u32(n), 0) == n,
{
    let b = le_u32(n);
    assert(b[0] as int + b[1] as int * 256 + b[2] as int * 65536 + b[3] as int * 16777216 == n) by {
        assert((n % 256) as int + ((n / 256) % 256) as int * 256 + ((n / 65536) % 256) as int * 65536
            + (n / 16777216) as int * 16777216 == n as int) by (nonlinear_arith);
    }
}

proof fn lemma_u32_at_shift(b: Seq<u8>, i: int, n: u32)
    requires
        0 <= i,
        i + 4 <= b.len(),
        b.subrange(i, i + 4) == le_u32(n),
    ensures
        u32_at(b, i) == n,
{
    lemma_u32_roundtrip(n);
    let t = b.subrange(i, i + 4);
    assert(t[0] == b[i] && t[1] == b[i + 1] && t[2] == b[i + 2] && t[3] == b[i + 3]);
}

proof fn lemma_i32_roundtrip(n: i32)
    ensures
        ((n as u32) as i32) == n,
{
    assert(((n as u32) as i32) == n) by (bit_vector);
}

/// A character padded to four bytes reads back as itself.
proof fn lemma_char_reads_back(c: char)
    ensures
        pad4(encode_utf8(seq![c])).len() == 4,
        first_char(pad4(encode_utf8(seq![c]))) == Some(c),
{
    broadcast use vstd::utf8::encode_utf8_valid_utf8, vstd::utf8::encode_utf8_decode_utf8;

    lemma_char_utf8_len(c);
    let enc = encode_utf8(seq![c]);
    let k = (4 - enc.len()) as nat;
    let nuls = Seq::new(k, |i: int| '\0');
    let chars = seq![c] + nuls;
    lemma_encode_concat(seq![c], nuls);
    lemma_encode_nuls(k);
    assert(pad4(enc) == encode_utf8(chars));
    assert(decode_utf8(encode_utf8(chars)) == chars);
    assert(chars[0] == c);
}

/// UTF-8 of a concatenation is the concatenation of the UTF-8.
proof fn lemma_encode_concat(a: Seq<char>, b: Seq<char>)
    ensures
        encode_utf8(a + b) == encode_utf8(a) + encode_utf8(b),
    decreases a.len(),
{
    if a.len() == 0 {
        assert(a + b =~= b);
        assert(Seq::<u8>::empty() + encode_utf8(b) =~= encode_utf8(b));
    } else {
        assert((a + b).drop_first() =~= a.drop_first() + b);
        assert((a + b)[0] == a[0]);
        lemma_encode_concat(a.drop_first(), b);
        assert(vstd::utf8::encode_scalar(a[0] as u32) + (encode_utf8(a.drop_first()) + encode_utf8(b))
            =~= (vstd::utf8::encode_scalar(a[0] as u32) + encode_utf8(a.drop_first())) + encode_utf8(b));
    }
}

/// NUL characters are zero bytes in UTF-8.
proof fn lemma_encode_nuls(k: nat)
    ensures
        encode_utf8(Seq::new(k, |i: int| '\0')) == Seq::new(k, |i: int| 0u8),
    decreases k,
{
    let s = Seq::new(k, |i: int| '\0');
    if k > 0 {
        lemma_encode_nuls((k - 1) as nat);
        assert(s.drop_first() =~= Seq::new((k - 1) as nat, |i: int| '\0'));
        let z: u32 = 0;
        assert((z & 0x7F) as u8 == 0u8) by (bit_vector)
            requires
                z == 0,
        ;
        assert(('\0' as u32) == 0);
        assert(vstd::utf8::encode_scalar('\0' as u32) =~= seq![0u8]);
        assert(seq![0u8] + Seq::new((k - 1) as nat, |i: int| 0u8) =~= Seq::new(k, |i: int| 0u8));
    } else {
        assert(s =~= Seq::<char>::empty());
        assert(Seq::new(k, |i: int| 0u8) =~= Seq::<u8>::empty());
    }
}

/// Each cell record takes six bytes.
proof fn lemma_cell_records_len(cs: Seq<((usize, usize), char)>)
    ensures
        cell_records(cs).len() == 6 * cs.len(),
    decreases cs.len(),
{
    if cs.len() > 0 {
        lemma_char_reads_back(cs[0].1);
        lemma_cell_records_len(cs.drop_first());
    }
}

/// A cell of a chunk on the canvas is a position on the canvas.
proof fn lemma_cell_in_range(k: (i32, i32), l: (usize, usize))
    requires
        0 <= k.0,
        0 <= k.1,
        k.0 as int * 32 + 31 <= usize::MAX,
        k.1 as int * 32 + 31 <= usize::MAX,
        l.0 < 32,
        l.1 < 32,
    ensures
        coord_in_range(world_of(k, l).0),
        coord_in_range(world_of(k, l).1),
{
    let w = world_of(k, l);
    assert(w.0 / 32 == k.0 as int);
    assert(w.1 / 32 == k.1 as int);
}

/// Reading the records of cells `cs` of chunk `k` writes the cells in
/// order.
proof fn lemma_read_cells(
    b: Seq<u8>,
    pos: int,
    k: (i32, i32),
    cs: Seq<((usize, usize), char)>,
    m: Map<(int, int), char>,
)
    requires
        0 <= pos,
        pos + 6 * cs.len() <= b.len(),
        b.subrange(pos, pos + 6 * cs.len()) == cell_records(cs),
        0 <= k.0,
        0 <= k.1,
        k.0 as int * 32 + 31 <= usize::MAX,
        k.1 as int * 32 + 31 <= usize::MAX,
        forall|a: int| 0 <= a < cs.len() ==> (#[trigger] cs[a]).0.0 < 32 && cs[a].0.1 < 32,
    ensures
        read_cells(b, pos, cs.len(), k, m) == Ok::<(Map<(int, int), char>, int), GridFileError>(
            (written_cells(m, k, cs), pos + 6 * cs.len()),
        ),
    decreases cs.len(),
{
    if cs.len() > 0 {
        let c0 = cs[0];
        let rest = cs.drop_first();
        lemma_char_reads_back(c0.1);
        lemma_cell_records_len(rest);
        let r0 = cell_record(c0.0, c0.1);
        assert(r0.len() == 6);
        let all = b.subrange(pos, pos + 6 * cs.len());
        assert(all == r0 + cell_records(rest));
        assert(b[pos] == all[0] && b[pos + 1] == all[1]);
        assert(all[0] == c0.0.0 as u8 && all[1] == c0.0.1 as u8);
        assert(b.subrange(pos + 2, pos + 6) =~= pad4(encode_utf8(seq![c0.1]))) by {
            assert forall|i: int| 0 <= i < 4 implies b.subrange(pos + 2, pos + 6)[i] == pad4(
                encode_utf8(seq![c0.1]),
            )[i] by {
                assert(b.subrange(pos + 2, pos + 6)[i] == all[i + 2]);
                assert(all[i + 2] == r0[i + 2]);
            }
        }
        assert((b[pos] as usize) == c0.0.0 && (b[pos + 1] as usize) == c0.0.1);
        lemma_cell_in_range(k, c0.0);
        assert(b.subrange(pos + 6, pos + 6 + 6 * rest.len()) =~= cell_records(rest)) by {
            assert forall|i: int| 0 <= i < 6 * rest.len() implies b.subrange(
                pos + 6,
                pos + 6 + 6 * rest.len(),
            )[i] == cell_records(rest)[i] by {
                assert(b.subrange(pos + 6, pos + 6 + 6 * rest.len())[i] == all[i + 6]);
            }
        }
        assert forall|a: int| 0 <= a < rest.len() implies (#[trigger] rest[a]).0.0 < 32 && rest[a].0.1 < 32 by {
            assert(rest[a] == cs[a + 1]);
        }
        lemma_read_cells(b, pos + 6, k, rest, write_cell(m, world_of(k, c0.0), c0.1));
    }
}

/// Reading the records of chunks `e` writes their cells in order.
proof fn lemma_read_chunks(
    b: Seq<u8>,
    pos: int,
    e: Seq<((i32, i32), Seq<((usize, usize), char)>)>,
    m: Map<(int, int), char>,
    mm: Map<(int, int), char>,
)
    requires
        0 <= pos,
        pos + chunk_records(e).len() <= b.len(),
        b.subrange(pos, pos + chunk_records(e).len()) == chunk_records(e),
        forall|i: int| 0 <= i < e.len() ==> chunk_listed(#[trigger] e[i], mm) && e[i].1.len() <= u32::MAX,
    ensures
        read_chunks(b, pos, e.len(), m) == Ok::<(Map<(int, int), char>, int), GridFileError>(
            (written_chunks(m, e), pos + chunk_records(e).len()),
        ),
    decreases e.len(),
{
    if e.len() > 0 {
        let k = e[0].0;
        let cs = e[0].1;
        let rest = e.drop_first();
        assert(chunk_listed(e[0], mm));
        lemma_cell_records_len(cs);
        let r0 = chunk_record(k, cs);
        let n = 6 * cs.len();
        assert(r0.len() == 12 + n);
        let all = b.subrange(pos, pos + chunk_records(e).len());
        assert(all == r0 + chunk_records(rest));
        assert(b.subrange(pos, pos + 4) =~= le_i32(k.0)) by {
            assert forall|i: int| 0 <= i < 4 implies b.subrange(pos, pos + 4)[i] == le_i32(k.0)[i] by {
                assert(b.subrange(pos, pos + 4)[i] == all[i]);
                assert(all[i] == r0[i]);
            }
        }
        assert(b.subrange(pos + 4, pos + 8) =~= le_i32(k.1)) by {
            assert forall|i: int| 0 <= i < 4 implies b.subrange(pos + 4, pos + 8)[i] == le_i32(k.1)[i] by {
                assert(b.subrange(pos + 4, pos + 8)[i] == all[i + 4]);
                assert(all[i + 4] == r0[i + 4]);
            }
        }
        assert(b.subrange(pos + 8, pos + 12) =~= le_u32(cs.len() as u32)) by {
            let want = le_u32(cs.len() as u32);
            assert forall|i: int| 0 <= i < 4 implies #[trigger] b.subrange(pos + 8, pos + 12)[i] == want[i] by {
                assert(b.subrange(pos + 8, pos + 12)[i] == all[i + 8]);
                assert(all[i + 8] == r0[i + 8]);
            }
        }
        lemma_u32_at_shift(b, pos, k.0 as u32);
        lemma_u32_at_shift(b, pos + 4, k.1 as u32);
        lemma_u32_at_shift(b, pos + 8, cs.len() as u32);
        lemma_i32_roundtrip(k.0);
        lemma_i32_roundtrip(k.1);
        assert((i32_at(b, pos), i32_at(b, pos + 4)) == k);
        assert(u32_at(b, pos + 8) as nat == cs.len());
        assert(b.subrange(pos + 12, pos + 12 + n) =~= cell_records(cs)) by {
            assert forall|i: int| 0 <= i < n implies b.subrange(pos + 12, pos + 12 + n)[i] == cell_records(
                cs,
            )[i] by {
                assert(b.subrange(pos + 12, pos + 12 + n)[i] == all[i + 12]);
                assert(all[i + 12] == r0[i + 12]);
            }
        }
        assert forall|a: int| 0 <= a < cs.len() implies (#[trigger] cs[a]).0.0 < 32 && cs[a].0.1 < 32 by {
            let l = cs[a].0;
        }
        lemma_read_cells(b, pos + 12, k, cs, m);
        let tail = chunk_records(rest);
        assert(b.subrange(pos + 12 + n, pos + 12 + n + tail.len()) =~= tail) by {
            assert forall|i: int| 0 <= i < tail.len() implies b.subrange(pos + 12 + n, pos + 12 + n + tail.len())[i]
                == tail[i] by {
                assert(b.subrange(pos + 12 + n, pos + 12 + n + tail.len())[i] == all[i + 12 + n]);
            }
        }
        assert forall|i: int| 0 <= i < rest.len() implies chunk_listed(#[trigger] rest[i], mm)
            && rest[i].1.len() <= u32::MAX by {
            assert(rest[i] == e[i + 1]);
        }
        lemma_read_chunks(b, pos + 12 + n, rest, written_cells(m, k, cs), mm);
    }
}

/// Every key of `a` is a key of `b` with the same character.
pub open spec fn within(a: Map<(int, int), char>, b: Map<(int, int), char>) -> bool {
    forall|q: (int, int)| #[trigger] a.contains_key(q) ==> b.contains_key(q) && a[q] == b[q]
}

/// Writing listed cells of `mm` keeps the content within `mm`, keeps what
/// was there, and holds each written cell.
proof fn lemma_written_cells(
    m0: Map<(int, int), char>,
    k: (i32, i32),
    cs: Seq<((usize, usize), char)>,
    mm: Map<(int, int), char>,
)
    requires
        chunk_listed((k, cs), mm),
        forall|q: (int, int)| #[trigger] mm.contains_key(q) ==> !is_blank(mm[q]),
        within(m0, mm),
    ensures
        within(written_cells(m0, k, cs), mm),
        forall|q: (int, int)| #[trigger] m0.contains_key(q) ==> written_cells(m0, k, cs).contains_key(q),
        forall|a: int| 0 <= a < cs.len() ==> written_cells(m0, k, cs).contains_key(world_of(k, (#[trigger] cs[a]).0)),
    decreases cs.len(),
{
    if cs.len() > 0 {
        let c0 = cs[0];
        let rest = cs.drop_first();
        let w = world_of(k, c0.0);
        let m1 = write_cell(m0, w, c0.1);
        let x = (k, cs);
        assert(x.1[0] == c0);
        assert(mm.contains_key(world_of(k, x.1[0].0)) && mm[world_of(k, x.1[0].0)] == x.1[0].1);
        assert(mm.contains_key(w) && mm[w] == c0.1);
        assert(m1 == m0.insert(w, c0.1));
        assert(chunk_listed((k, rest), mm)) by {
            assert forall|a: int, c: int| 0 <= a < c < rest.len() implies #[trigger] rest[a].0 != #[trigger] rest[c].0 by {
                assert(rest[a] == cs[a + 1] && rest[c] == cs[c + 1]);
                assert(x.1[a + 1].0 != x.1[c + 1].0);
            }
            assert forall|a: int| 0 <= a < rest.len() implies {
                let l = #[trigger] rest[a].0;
                &&& l.0 < 32
                &&& l.1 < 32
                &&& mm.contains_key(world_of(k, l))
                &&& mm[world_of(k, l)] == rest[a].1
            } by {
                assert(rest[a] == cs[a + 1]);
                assert(x.1[a + 1] == cs[a + 1]);
                let l2 = x.1[a + 1].0;
            }
        }
        lemma_written_cells(m1, k, rest, mm);
        assert forall|q: (int, int)| #[trigger] m0.contains_key(q) implies written_cells(m0, k, cs).contains_key(q) by {
            assert(m1.contains_key(q));
        }
        assert forall|a: int| 0 <= a < cs.len() implies written_cells(m0, k, cs).contains_key(
            world_of(k, (#[trigger] cs[a]).0),
        ) by {
            if a > 0 {
                assert(rest[a - 1] == cs[a]);
            } else {
                assert(m1.contains_key(w));
            }
        }
    }
}

/// Writing the cells of a listing of `mm` keeps the content within `mm`,
/// keeps what was there, and holds every listed cell.
proof fn lemma_written_chunks(
    m0: Map<(int, int), char>,
    e: Seq<((i32, i32), Seq<((usize, usize), char)>)>,
    mm: Map<(int, int), char>,
)
    requires
        forall|i: int| 0 <= i < e.len() ==> chunk_listed(#[trigger] e[i], mm),
        forall|q: (int, int)| #[trigger] mm.contains_key(q) ==> !is_blank(mm[q]),
        within(m0, mm),
    ensures
        within(written_chunks(m0, e), mm),
        forall|q: (int, int)| #[trigger] m0.contains_key(q) ==> written_chunks(m0, e).contains_key(q),
        forall|i: int, a: int|
            0 <= i < e.len() && 0 <= a < e[i].1.len() ==> written_chunks(m0, e).contains_key(
                #[trigger] listed_pos(e, i, a),
            ),
    decreases e.len(),
{
    if e.len() > 0 {
        let rest = e.drop_first();
        assert(chunk_listed(e[0], mm));
        lemma_written_cells(m0, e[0].0, e[0].1, mm);
        let m1 = written_cells(m0, e[0].0, e[0].1);
        assert forall|i: int| 0 <= i < rest.len() implies chunk_listed(#[trigger] rest[i], mm) by {
            assert(rest[i] == e[i + 1]);
        }
        lemma_written_chunks(m1, rest, mm);
        assert forall|i: int, a: int| 0 <= i < e.len() && 0 <= a < e[i].1.len() implies written_chunks(
            m0,
            e,
        ).contains_key(#[trigger] listed_pos(e, i, a)) by {
            if i > 0 {
                assert(rest[i - 1] == e[i]);
                assert(listed_pos(rest, i - 1, a) == listed_pos(e, i, a));
            } else {
                assert(m1.contains_key(world_of(e[0].0, e[0].1[a].0)));
            }
        }
    }
}

/// Reading the bytes of a file that holds a listing of a grid gives back
/// the grid's content, when the numbers of chunks and of the cells of each
/// chunk fit in 32 bits.
pub proof fn law_grid_file_roundtrip(g: ChunkedGrid, e: Seq<((i32, i32), Seq<((usize, usize), char)>)>)
    requires
        g.wf(),
        lists_content(e, g@),
        e.len() <= u32::MAX,
        forall|i: int| 0 <= i < e.len() ==> (#[trigger] e[i]).1.len() <= u32::MAX,
    ensures
        grid_file_spec(grid_file_bytes(e)) == Ok::<Map<(int, int), char>, GridFileError>(g@),
{
    let b = grid_file_bytes(e);
    let m = g@;
    g.lemma_view_not_blank();
    let head = grid_magic() + seq![1u8, 0u8] + le_u32(e.len() as u32);
    assert(head.len() == 10);
    assert(b == head + chunk_records(e));
    assert(b.subrange(0, 4) =~= grid_magic());
    assert(b.subrange(6, 10) =~= le_u32(e.len() as u32));
    lemma_u32_at_shift(b, 6, e.len() as u32);
    assert(b.subrange(10, 10 + chunk_records(e).len() as int) =~= chunk_records(e));
    assert forall|i: int| 0 <= i < e.len() implies chunk_listed(#[trigger] e[i], m) && e[i].1.len()
        <= u32::MAX by {}
    lemma_read_chunks(b, 10, e, Map::empty(), m);
    lemma_written_chunks(Map::empty(), e, m);
    let w = written_chunks(Map::<(int, int), char>::empty(), e);
    assert(w =~= m) by {
        assert forall|q: (int, int)| #[trigger] m.contains_key(q) implies w.contains_key(q) by {
            let (i, a) = choose|i: int, a: int|
                0 <= i < e.len() && 0 <= a < e[i].1.len() && #[trigger] listed_pos(e, i, a) == q;
        }
    }
}

/// Row-major order on positions inside a chunk.
pub open spec fn local_lt(a: (usize, usize), b: (usize, usize)) -> bool {
    a.0 < b.0 || (a.0 == b.0 && a.1 < b.1)
}

/// The chunks of a listing come in row-major order of their keys, and the
/// cells of each chunk in row-major order of their places.
pub open spec fn in_order(e: Seq<((i32, i32), Seq<((usize, usize), char)>)>) -> bool {
    &&& forall|i: int, j: int| 0 <= i < j < e.len() ==> key_lt(#[trigger] e[i].0, #[trigger] e[j].0)
    &&& forall|i: int| 0 <= i < e.len() ==> cells_in_order(#[trigger] e[i].1)
}

/// Cells in row-major order of their places.
pub open spec fn cells_in_order(cs: Seq<((usize, usize), char)>) -> bool {
    forall|a: int, c: int| 0 <= a < c < cs.len() ==> local_lt(#[trigger] cs[a].0, #[trigger] cs[c].0)
}

/// Keys that a map hands out in increasing order are in row-major order.
pub proof fn lemma_keys_in_order(s: Seq<(i32, i32)>)
    requires
        vstd::std_specs::btree::increasing_seq(s),
    ensures
        forall|i: int, j: int| 0 <= i < j < s.len() ==> key_lt(#[trigger] s[i], #[trigger] s[j]),
{
    broadcast use vstd::std_specs::btree::axiom_increasing_seq_meaning;

    assert forall|i: int, j: int| 0 <= i < j < s.len() implies key_lt(#[trigger] s[i], #[trigger] s[j]) by {
        assert(vstd::std_specs::cmp::OrdSpec::cmp_spec(&s[i], &s[j]) is Less);
    }
}

/// Places that a map hands out in increasing order are in row-major order.
pub proof fn lemma_places_in_order(s: Seq<(usize, usize)>)
    requires
        vstd::std_specs::btree::increasing_seq(s),
    ensures
        forall|i: int, j: int| 0 <= i < j < s.len() ==> local_lt(#[trigger] s[i], #[trigger] s[j]),
{
    broadcast use vstd::std_specs::btree::axiom_increasing_seq_meaning;

    assert forall|i: int, j: int| 0 <= i < j < s.len() implies local_lt(#[trigger] s[i], #[trigger] s[j]) by {
        assert(vstd::std_specs::cmp::OrdSpec::cmp_spec(&s[i], &s[j]) is Less);
    }
}

} // verus!
