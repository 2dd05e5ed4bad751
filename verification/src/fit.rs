//! What a texter text buffer does with a content change.
//!
//! A buffer holds its text and a table of line breaks: the first entry is
//! 0, each further entry is the offset of the last byte of a line break
//! (`\n`, the `\n` of `\r\n`, or a lone `\r`); line `k` starts just after
//! entry `k`. The buffer reads the lines from the table, not from the text.
//! A change's positions name a line and a column; the column counts UTF-8
//! bytes, UTF-16 units or characters of that line, after the buffer's
//! encoding. The change is refused (the buffer answers with an error),
//! applied (giving the new text and table), or makes the buffer panic.
use vstd::prelude::*;
use vstd::utf8::encode_utf8;

use crate::protocol::{ContentChange, Position};
use crate::server::TextEncoding;

verus! {

/// Whether `b` starts a character (is not a continuation byte).
pub open spec fn is_lead_byte(b: u8) -> bool {
    b < 0x80 || b >= 0xC0
}

/// Whether `i` is a character boundary of the UTF-8 bytes `b`, as
/// `str::is_char_boundary` answers it.
pub open spec fn char_boundary(b: Seq<u8>, i: int) -> bool {
    i == 0 || i == b.len() || (0 < i < b.len() && is_lead_byte(b[i]))
}

/// The number of bytes of the character whose first byte is `b`.
pub open spec fn utf8_width(b: u8) -> int {
    if b < 0x80 {
        1
    } else if b < 0xE0 {
        2
    } else if b < 0xF0 {
        3
    } else {
        4
    }
}

/// The number of UTF-16 units of the character whose first byte is `b`.
pub open spec fn utf16_units(b: u8) -> int {
    if b >= 0xF0 {
        2
    } else {
        1
    }
}

/// The offset after the character that starts at `p`, no later than `e`.
pub open spec fn next_char(b: Seq<u8>, e: int, p: int) -> int {
    if p + utf8_width(b[p]) <= e {
        p + utf8_width(b[p])
    } else {
        e
    }
}

/// The line breaks of `b` from offset `i` on, each given by its last byte.
pub open spec fn eols_from(b: Seq<u8>, i: int) -> Seq<usize>
    decreases b.len() - i,
{
    if i < 0 || i >= b.len() {
        Seq::empty()
    } else if b[i] == 13u8 && i + 1 < b.len() && b[i + 1] == 10u8 {
        seq![(i + 1) as usize] + eols_from(b, i + 2)
    } else if b[i] == 13u8 || b[i] == 10u8 {
        seq![i as usize] + eols_from(b, i + 1)
    } else {
        eols_from(b, i + 1)
    }
}

/// The line-break table of a buffer made from the text `b`.
pub open spec fn initial_breaks(b: Seq<u8>) -> Seq<usize> {
    seq![0usize] + eols_from(b, 0)
}

/// Where line `row` starts, after the table `bk`.
pub open spec fn row_start(bk: Seq<usize>, row: int) -> int {
    if row == 0 {
        bk[row] as int
    } else {
        bk[row] + 1
    }
}

/// How many bytes of line break end the bytes `rs..re` of `b`.
pub open spec fn eol_len(b: Seq<u8>, rs: int, re: int) -> int {
    if re - rs >= 2 && b[re - 2] == 13u8 && b[re - 1] == 10u8 {
        2
    } else if re - rs >= 1 && (b[re - 1] == 10u8 || b[re - 1] == 13u8) {
        1
    } else {
        0
    }
}

/// A line as the buffer reads it from its table.
#[derive(Debug, Clone, Copy, PartialEq, Eq, Structural)]
pub enum Line {
    /// No such line: the buffer refuses it.
    Refused,
    /// The table sends the buffer out of its text, or inside a character.
    Panics,
    /// The bytes of the line, its line break left out.
    Span(usize, usize),
}

/// Line `row` of the text `b` after the table `bk`.
pub open spec fn pure_line(b: Seq<u8>, bk: Seq<usize>, row: int) -> Line {
    if row < 0 || row >= bk.len() {
        Line::Refused
    } else {
        let rs = row_start(bk, row);
        if row != bk.len() - 1 && bk.len() > 1 {
            let re = row_start(bk, row + 1);
            if rs <= re <= b.len() && char_boundary(b, rs) && char_boundary(b, re) {
                Line::Span(rs as usize, (re - eol_len(b, rs, re)) as usize)
            } else {
                Line::Panics
            }
        } else if rs <= b.len() && char_boundary(b, rs) {
            Line::Span(rs as usize, b.len() as usize)
        } else {
            Line::Panics
        }
    }
}

/// A UTF-8 column of the line `s..e`: a byte offset that must be a
/// character boundary of the line.
pub open spec fn land_utf8(b: Seq<u8>, s: int, e: int, col: int) -> Option<int> {
    if col <= e - s && (col == e - s || is_lead_byte(b[s + col])) {
        Some(s + col)
    } else {
        None
    }
}

/// The walk over the characters of the line `s..e` that turns a UTF-16
/// column into a byte offset: `u` units lie before byte `p`. Past the
/// column it refuses; when the line ends first, the column is taken as a
/// byte count, up to the end of the line (which may fall inside a
/// character).
pub open spec fn land_utf16_from(b: Seq<u8>, s: int, e: int, col: int, p: int, u: int) -> Option<int>
    decreases e - p,
{
    if p >= e {
        if col < e - s {
            Some(s + col)
        } else {
            Some(e)
        }
    } else if u > col {
        None
    } else {
        let u2 = u + utf16_units(b[p]);
        let p2 = next_char(b, e, p);
        if u2 == col {
            Some(p2)
        } else {
            land_utf16_from(b, s, e, col, p2, u2)
        }
    }
}

pub open spec fn land_utf16(b: Seq<u8>, s: int, e: int, col: int) -> Option<int> {
    if col == 0 {
        Some(s)
    } else {
        land_utf16_from(b, s, e, col, s, 0)
    }
}

/// A character column: the offset of the character `col` places on from
/// `p`, or the end of the line `..e` when there are fewer.
pub open spec fn land_utf32(b: Seq<u8>, e: int, col: int, p: int) -> Option<int>
    decreases e - p,
{
    if p >= e {
        Some(e)
    } else if col <= 0 {
        Some(p)
    } else {
        land_utf32(b, e, col - 1, next_char(b, e, p))
    }
}

/// The byte offset the column `col` of the line `s..e` comes to.
pub open spec fn land_in(encoding: TextEncoding, b: Seq<u8>, s: int, e: int, col: int) -> Option<int> {
    match encoding {
        TextEncoding::Utf8 => land_utf8(b, s, e, col),
        TextEncoding::Utf16 => land_utf16(b, s, e, col),
        TextEncoding::Utf32 => land_utf32(b, e, col, s),
    }
}

/// What becomes of a position.
#[derive(Debug, Clone, Copy, PartialEq, Eq, Structural)]
pub enum Landing {
    /// The buffer refuses it.
    Refused,
    /// The buffer panics reading its line.
    Panics,
    /// The line and the byte column within it.
    At(usize, usize),
}

/// What becomes of `pos` in the text `b` with the table `bk`.
pub open spec fn land(encoding: TextEncoding, b: Seq<u8>, bk: Seq<usize>, pos: Position) -> Landing {
    if bk.len() == 0 {
        Landing::Panics
    } else if pos.line == bk.len() {
        Landing::Refused
    } else {
        match pure_line(b, bk, pos.line as int) {
            Line::Refused => Landing::Refused,
            Line::Panics => Landing::Panics,
            Line::Span(s, e) => match land_in(encoding, b, s as int, e as int, pos.character as int) {
                None => Landing::Refused,
                Some(q) => Landing::At(pos.line as usize, (q - s) as usize),
            },
        }
    }
}

/// What a change comes to.
pub enum TexterOutcome {
    /// The buffer panics.
    Panics,
    /// The buffer answers with an error and keeps its text and table.
    Refused,
    /// The buffer's new text and table.
    Applied(Seq<u8>, Seq<usize>),
}

/// Whether every entry of `bk` from `from` on stays a `usize` when moved by `d`.
pub open spec fn shift_ok(bk: Seq<usize>, from: int, d: int) -> bool {
    forall|j: int| from <= j < bk.len() ==> 0 <= #[trigger] bk[j] + d <= usize::MAX
}

/// `bk` from `from` on, each entry moved by `d`.
pub open spec fn shifted(bk: Seq<usize>, from: int, d: int) -> Seq<usize> {
    bk.skip(from).map_values(|x: usize| (x + d) as usize)
}

/// The line breaks of `s` placed at offset `at`.
pub open spec fn eols_at(s: Seq<u8>, at: int) -> Seq<usize> {
    eols_from(s, 0).map_values(|x: usize| (x + at) as usize)
}

/// The text `b` with the bytes `sb..eb`, of the lines `r0..=r1`, replaced
/// by `s`; the breaks of the lines in between give way to those of `s`,
/// and the later ones move by the change of length.
pub open spec fn splice(b: Seq<u8>, bk: Seq<usize>, r0: int, r1: int, sb: int, eb: int, s: Seq<u8>) -> TexterOutcome {
    let d = s.len() - (eb - sb);
    if sb > eb || !shift_ok(bk, r1 + 1, d) {
        TexterOutcome::Panics
    } else if !(eb <= b.len() && char_boundary(b, sb) && char_boundary(b, eb)) {
        TexterOutcome::Panics
    } else if b.len() + d > isize::MAX {
        TexterOutcome::Panics
    } else {
        TexterOutcome::Applied(
            b.take(sb) + s + b.skip(eb),
            bk.take(r0 + 1) + eols_at(s, sb) + shifted(bk, r1 + 1, d),
        )
    }
}

/// A deletion or replacement of `start..end` by `s`: the ends are read in
/// turn; reversed ends are swapped and each moved one byte on.
pub open spec fn replace_range(
    encoding: TextEncoding,
    b: Seq<u8>,
    bk: Seq<usize>,
    start: Position,
    end: Position,
    s: Seq<u8>,
) -> TexterOutcome {
    match land(encoding, b, bk, start) {
        Landing::Panics => TexterOutcome::Panics,
        Landing::Refused => TexterOutcome::Refused,
        Landing::At(sr, sc) => match land(encoding, b, bk, end) {
            Landing::Panics => TexterOutcome::Panics,
            Landing::Refused => TexterOutcome::Refused,
            Landing::At(er, ec) => if sr > er || (sr == er && sc > ec) {
                splice(b, bk, er as int, sr as int, row_start(bk, er as int) + ec + 1, row_start(bk, sr as int) + sc + 1, s)
            } else {
                splice(b, bk, sr as int, er as int, row_start(bk, sr as int) + sc, row_start(bk, er as int) + ec, s)
            },
        },
    }
}

/// What a buffer with the text `b`, the table `bk` and the encoding
/// `encoding` does with `change`: a whole-text change without a range; a
/// deletion for an empty text; an insertion for an empty range; else a
/// replacement.
pub open spec fn texter_apply(encoding: TextEncoding, b: Seq<u8>, bk: Seq<usize>, change: ContentChange) -> TexterOutcome {
    let s = encode_utf8(change.text@);
    if bk.len() == 0 {
        TexterOutcome::Panics
    } else {
        match change.range {
            None => if row_start(bk, bk.len() - 1) > b.len() {
                TexterOutcome::Panics
            } else {
                TexterOutcome::Applied(s, initial_breaks(s))
            },
            Some(r) => if s.len() == 0 {
                replace_range(encoding, b, bk, r.start, r.end, s)
            } else if r.start == r.end {
                match land(encoding, b, bk, r.start) {
                    Landing::Panics => TexterOutcome::Panics,
                    Landing::Refused => TexterOutcome::Refused,
                    Landing::At(row, col) => splice(
                        b,
                        bk,
                        row as int,
                        row as int,
                        row_start(bk, row as int) + col,
                        row_start(bk, row as int) + col,
                        s,
                    ),
                }
            } else {
                replace_range(encoding, b, bk, r.start, r.end, s)
            },
        }
    }
}

/// Whether the buffer takes `change` without panicking.
pub open spec fn change_fits(encoding: TextEncoding, b: Seq<u8>, bk: Seq<usize>, change: ContentChange) -> bool {
    !(texter_apply(encoding, b, bk, change) is Panics)
}

fn char_boundary_exec(b: &[u8], i: usize) -> (r: bool)
    ensures
        r == char_boundary(b@, i as int),
{
    i == 0 || i == b.len() || (i < b.len() && (b[i] < 0x80 || b[i] >= 0xC0))
}

/// Where line `row` starts; `None` when that overflows.
fn row_start_exec(bk: &[usize], row: usize) -> (r: Option<usize>)
    requires
        row < bk@.len(),
    ensures
        r matches Some(x) ==> x == row_start(bk@, row as int),
        r is None ==> row_start(bk@, row as int) > usize::MAX,
{
    if row == 0 {
        Some(bk[0])
    } else if bk[row] == usize::MAX {
        None
    } else {
        Some(bk[row] + 1)
    }
}

fn pure_line_exec(b: &[u8], bk: &[usize], row: usize) -> (r: Line)
    ensures
        r == pure_line(b@, bk@, row as int),
        r matches Line::Span(s, e) ==> s <= e <= b@.len(),
{
    let blen = b.len();
    if row >= bk.len() {
        return Line::Refused;
    }
    let rs = match row_start_exec(bk, row) {
        Some(x) => x,
        None => return Line::Panics,
    };
    if row != bk.len() - 1 && bk.len() > 1 {
        let re = match row_start_exec(bk, row + 1) {
            Some(x) => x,
            None => return Line::Panics,
        };
        if rs <= re && re <= b.len() && char_boundary_exec(b, rs) && char_boundary_exec(b, re) {
            let eol: usize = if re - rs >= 2 && b[re - 2] == 13u8 && b[re - 1] == 10u8 {
                2
            } else if re - rs >= 1 && (b[re - 1] == 10u8 || b[re - 1] == 13u8) {
                1
            } else {
                0
            };
            Line::Span(rs, re - eol)
        } else {
            Line::Panics
        }
    } else if rs <= b.len() && char_boundary_exec(b, rs) {
        Line::Span(rs, b.len())
    } else {
        Line::Panics
    }
}

fn utf8_width_exec(b: u8) -> (r: usize)
    ensures
        r == utf8_width(b),
{
    if b < 0x80 {
        1
    } else if b < 0xE0 {
        2
    } else if b < 0xF0 {
        3
    } else {
        4
    }
}

fn land_utf16_exec(b: &[u8], s: usize, e: usize, col: u32) -> (r: Option<usize>)
    requires
        s <= e <= b@.len(),
    ensures
        r matches Some(q) ==> land_utf16(b@, s as int, e as int, col as int) == Some(q as int) && s <= q <= e,
        r is None ==> land_utf16(b@, s as int, e as int, col as int) is None,
{
    if col == 0 {
        return Some(s);
    }
    let fallback = if (col as usize) < e - s {
        s + col as usize
    } else {
        e
    };
    let mut p: usize = s;
    let mut u: u64 = 0;
    while p < e
        invariant
            s <= p,
            e <= b@.len(),
            s <= fallback <= e,
            fallback == (if col < e - s { s + col } else { e as int }),
            u <= col as u64,
            land_utf16_from(b@, s as int, e as int, col as int, p as int, u as int) == land_utf16(
                b@,
                s as int,
                e as int,
                col as int,
            ),
        decreases e - p,
    {
        let w = utf8_width_exec(b[p]);
        let units: u64 = if b[p] >= 0xF0 {
            2
        } else {
            1
        };
        let u2 = u + units;
        let p2 = if w <= e - p {
            p + w
        } else {
            e
        };
        if u2 == col as u64 {
            return Some(p2);
        }
        if u2 > col as u64 {
            proof {
                assert(land_utf16_from(b@, s as int, e as int, col as int, p as int, u as int) == land_utf16_from(
                    b@,
                    s as int,
                    e as int,
                    col as int,
                    p2 as int,
                    u2 as int,
                ));
            }
            if p2 >= e {
                return Some(fallback);
            }
            return None;
        }
        p = p2;
        u = u2;
    }
    Some(fallback)
}

fn land_utf32_exec(b: &[u8], e: usize, col: u32, s: usize) -> (r: usize)
    requires
        s <= e <= b@.len(),
    ensures
        land_utf32(b@, e as int, col as int, s as int) == Some(r as int),
        s <= r <= e,
{
    let mut p: usize = s;
    let mut left: u32 = col;
    while p < e
        invariant
            e <= b@.len(),
            s <= p,
            land_utf32(b@, e as int, left as int, p as int) == land_utf32(b@, e as int, col as int, s as int),
        decreases e - p,
    {
        if left == 0 {
            return p;
        }
        let w = utf8_width_exec(b[p]);
        if w >= e - p {
            proof {
                let p2 = next_char(b@, e as int, p as int);
                assert(p2 == e);
                assert(land_utf32(b@, e as int, left - 1, p2) == Some(e as int));
            }
            return e;
        }
        p = p + w;
        left = left - 1;
    }
    e
}

/// What becomes of `pos` in the text `b` with the table `bk`.
pub fn land_exec(encoding: TextEncoding, b: &[u8], bk: &[usize], pos: Position) -> (r: Landing)
    ensures
        r == land(encoding, b@, bk@, pos),
{
    if bk.len() == 0 {
        return Landing::Panics;
    }
    if pos.line as usize == bk.len() {
        return Landing::Refused;
    }
    match pure_line_exec(b, bk, pos.line as usize) {
        Line::Refused => Landing::Refused,
        Line::Panics => Landing::Panics,
        Line::Span(s, e) => {
            let q = match encoding {
                TextEncoding::Utf8 => {
                    let col = pos.character as usize;
                    if col <= e - s && (col == e - s || b[s + col] < 0x80 || b[s + col] >= 0xC0) {
                        s + col
                    } else {
                        return Landing::Refused;
                    }
                },
                TextEncoding::Utf16 => match land_utf16_exec(b, s, e, pos.character) {
                    Some(q) => q,
                    None => return Landing::Refused,
                },
                TextEncoding::Utf32 => land_utf32_exec(b, e, pos.character, s),
            };
            proof {
                assert(land_in(encoding, b@, s as int, e as int, pos.character as int) == Some(q as int));
            }
            Landing::At(pos.line as usize, q - s)
        },
    }
}

/// Whether every entry of `bk` from `from` on stays a `usize` when moved
/// up by `up` or down by `down` (one of them zero).
fn shift_ok_exec(bk: &[usize], from: usize, up: usize, down: usize) -> (r: bool)
    requires
        up == 0 || down == 0,
    ensures
        r == shift_ok(bk@, from as int, up - down),
{
    let mut j = from;
    while j < bk.len()
        invariant
            from <= j,
            up == 0 || down == 0,
            forall|i: int| from <= i < j ==> 0 <= #[trigger] bk@[i] + (up - down) <= usize::MAX,
        decreases bk.len() - j,
    {
        if bk[j] > usize::MAX - up || bk[j] < down {
            proof {
                assert(!(0 <= bk@[j as int] + (up - down) <= usize::MAX));
            }
            return false;
        }
        j = j + 1;
    }
    true
}

/// Whether `a + c` stays within `isize::MAX`.
fn within_isize(a: usize, c: usize) -> (r: bool)
    ensures
        r == (a + c <= isize::MAX),
{
    a <= isize::MAX as usize && c <= isize::MAX as usize - a
}

/// Whether the splice of `sb..eb`, lines `r0..=r1`, by `slen` bytes goes
/// through without panicking.
fn splice_ok(b: &[u8], bk: &[usize], r1: usize, sb: usize, eb: usize, slen: usize) -> (r: bool)
    requires
        r1 < bk@.len(),
    ensures
        forall|s: Seq<u8>, r0: int|
            s.len() == slen ==> (r == !(#[trigger] splice(b@, bk@, r0, r1 as int, sb as int, eb as int, s) is Panics)),
{
    let blen = b.len();
    let bklen = bk.len();
    if sb > eb {
        return false;
    }
    let old_len = eb - sb;
    let (up, down) = if slen >= old_len {
        (slen - old_len, 0usize)
    } else {
        (0usize, old_len - slen)
    };
    if !shift_ok_exec(bk, r1 + 1, up, down) {
        return false;
    }
    if !(eb <= b.len() && char_boundary_exec(b, sb) && char_boundary_exec(b, eb)) {
        return false;
    }
    within_isize(b.len() - old_len, slen)
}

/// Whether a splice of `row_start(r0) + c0 .. row_start(r1) + c1`, computed
/// without overflow, goes through without panicking.
fn positions_splice_ok(b: &[u8], bk: &[usize], r0: usize, c0: usize, r1: usize, c1: usize, slen: usize) -> (r: bool)
    requires
        r0 < bk@.len(),
        r1 < bk@.len(),
    ensures
        forall|s: Seq<u8>|
            s.len() == slen ==> (r == !(#[trigger] splice(
                b@,
                bk@,
                r0 as int,
                r1 as int,
                row_start(bk@, r0 as int) + c0,
                row_start(bk@, r1 as int) + c1,
                s,
            ) is Panics)),
{
    let blen = b.len();
    let rs0 = match row_start_exec(bk, r0) {
        Some(x) => x,
        None => return false,
    };
    let rs1 = match row_start_exec(bk, r1) {
        Some(x) => x,
        None => return false,
    };
    if rs0 > usize::MAX - c0 || rs1 > usize::MAX - c1 {
        // Such offsets lie past any text, where the splice panics.
        proof {
            assert forall|s: Seq<u8>| s.len() == slen implies splice(
                b@,
                bk@,
                r0 as int,
                r1 as int,
                rs0 + c0,
                rs1 + c1,
                s,
            ) is Panics by {
                assert(b@.len() <= usize::MAX);
            }
        }
        return false;
    }
    splice_ok(b, bk, r1, rs0 + c0, rs1 + c1, slen)
}

/// Whether a buffer with the text `text`, the table `bk` and the encoding
/// `encoding` takes `change` without panicking.
pub fn change_fits_exec(encoding: TextEncoding, text: &str, bk: &[usize], change: &ContentChange) -> (r: bool)
    ensures
        r == change_fits(encoding, encode_utf8(text@), bk@, *change),
{
    let b = text.as_bytes();
    let blen = b.len();
    let s = change.text.as_str().as_bytes();
    proof {
        assert(b@ == encode_utf8(text@));
        assert(s@ == encode_utf8(change.text@));
    }
    if bk.len() == 0 {
        return false;
    }
    match &change.range {
        None => {
            match row_start_exec(bk, bk.len() - 1) {
                Some(x) => x <= b.len(),
                None => false,
            }
        },
        Some(r) => {
            if s.len() != 0 && r.start == r.end {
                match land_exec(encoding, b, bk, r.start) {
                    Landing::Panics => false,
                    Landing::Refused => true,
                    Landing::At(row, col) => positions_splice_ok(b, bk, row, col, row, col, s.len()),
                }
            } else {
                match land_exec(encoding, b, bk, r.start) {
                    Landing::Panics => false,
                    Landing::Refused => true,
                    Landing::At(sr, sc) => match land_exec(encoding, b, bk, r.end) {
                        Landing::Panics => false,
                        Landing::Refused => true,
                        Landing::At(er, ec) => {
                            if sr > er || (sr == er && sc > ec) {
                                if sc == usize::MAX || ec == usize::MAX {
                                    proof {
                                        assert(b@.len() == blen);
                                    }
                                    return false;
                                }
                                positions_splice_ok(b, bk, er, ec + 1, sr, sc + 1, s.len())
                            } else {
                                positions_splice_ok(b, bk, sr, sc, er, ec, s.len())
                            }
                        },
                    },
                }
            }
        },
    }
}

} // verus!
