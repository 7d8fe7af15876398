//! The repository chip: a per-repository identicon beside the name, and the
//! padlock.

use vstd::prelude::*;
use vstd::utf8::*;

use crate::icon;
use crate::theme::{fnv, hue_of, name_hash, Ink};

verus! {

/// The hash bit that decides a cell of the five by five grid; the two right
/// columns mirror the two left ones.
pub open spec fn cell_bit(col: int, row: int) -> int {
    9 + 5 * (if col <= 2 {
        col
    } else {
        4 - col
    }) + row
}

/// Whether a cell of a name's identicon is filled.
pub open spec fn cell_filled(name: Seq<char>, col: int, row: int) -> bool {
    (fnv(encode_utf8(name)) >> (cell_bit(col, row) as u32)) & 1 == 1
}

/// An identicon: its hue in degrees, and the filled cells as columns and rows.
pub struct Identicon {
    pub hue: u32,
    pub cells: Vec<(u32, u32)>,
}

/// The cells of the first `n` places of the grid, read column by column, that are
/// filled.
pub open spec fn filled_cells(name: Seq<char>, n: int) -> Seq<(u32, u32)>
    decreases n,
{
    if n <= 0 {
        Seq::empty()
    } else {
        let rest = filled_cells(name, n - 1);
        let col = (n - 1) / 5;
        let row = (n - 1) % 5;
        if cell_filled(name, col, row) {
            rest.push((col as u32, row as u32))
        } else {
            rest
        }
    }
}

/// The identicon of a name: the same name always has the same one.
pub fn identicon(name: &str) -> (r: Identicon)
    ensures
        r.hue == hue_of(name@),
        r.cells@ == filled_cells(name@, 25),
{
    let hash = name_hash(name);
    let mut cells: Vec<(u32, u32)> = Vec::new();
    let mut n: u32 = 0;
    while n < 25
        invariant
            n <= 25,
            hash == fnv(encode_utf8(name@)),
            cells@ == filled_cells(name@, n as int),
        decreases 25 - n,
    {
        let col: u32 = n / 5;
        let row: u32 = n % 5;
        let mirrored: u32 = if col <= 2 {
            col
        } else {
            4 - col
        };
        let bit: u32 = 9 + 5 * mirrored + row;
        if (hash >> bit) & 1 == 1 {
            cells.push((col, row));
        }
        n += 1;
    }
    Identicon { hue: hash % 360, cells }
}

/// An identicon is symmetric: a cell and its mirror image are both filled or both
/// empty.
pub proof fn law_identicon_is_symmetric(name: Seq<char>, col: int, row: int)
    requires
        0 <= col < 5,
        0 <= row < 5,
    ensures
        cell_filled(name, col, row) == cell_filled(name, 4 - col, row),
{
    assert(cell_bit(col, row) == cell_bit(4 - col, row));
}

/// A padlock: closed and filled blue where the repository is protected, open
/// otherwise. The glyph, its fill and its ink.
pub fn lock_badge(read_only: bool) -> (r: (&'static str, Ink, Ink))
    ensures
        read_only ==> r.0@ == icon::LOCK@ && r.1 == Ink::Blue && r.2 == Ink::Black,
        !read_only ==> r.0@ == icon::LOCK_OPEN@ && r.1 == Ink::Panel && r.2 == Ink::Blue,
{
    if read_only {
        (icon::LOCK, Ink::Blue, Ink::Black)
    } else {
        (icon::LOCK_OPEN, Ink::Panel, Ink::Blue)
    }
}

/// The left half of the grid and its middle have a bit of the hash each, none twice,
/// all of them bits of a 32-bit number past those of the hue.
pub proof fn law_each_cell_has_its_bit(col: int, row: int, col2: int, row2: int)
    requires
        0 <= col <= 2,
        0 <= row < 5,
        0 <= col2 <= 2,
        0 <= row2 < 5,
    ensures
        9 <= cell_bit(col, row) < 32,
        cell_bit(col, row) == cell_bit(col2, row2) ==> col == col2 && row == row2,
        cell_bit(4 - col, row) == cell_bit(col, row),
{
}

/// The drawn cells are exactly the filled ones.
pub proof fn law_filled_cells_are_drawn(name: Seq<char>, n: int, col: u32, row: u32)
    requires
        0 <= n <= 25,
        row < 5,
        col < 5,
    ensures
        filled_cells(name, n).contains((col, row)) <==> 5 * col + row < n && cell_filled(
            name,
            col as int,
            row as int,
        ),
    decreases n,
{
    let all = filled_cells(name, n);
    if n > 0 {
        law_filled_cells_are_drawn(name, n - 1, col, row);
        let rest = filled_cells(name, n - 1);
        let c = (n - 1) / 5;
        let r = (n - 1) % 5;
        if rest.contains((col, row)) {
            let k = rest.index_of((col, row));
            assert(all[k] == (col, row));
        }
        if 5 * col + row == n - 1 {
            assert(c == col && r == row);
            if cell_filled(name, c, r) {
                assert(all[rest.len() as int] == (col, row));
            }
        }
        if all.contains((col, row)) {
            let k = all.index_of((col, row));
            if k < rest.len() {
                assert(rest[k] == (col, row));
                assert(rest.contains((col, row)));
            } else {
                assert(col == c && row == r);
            }
        }
    }
}

/// A cell is filled where its bit of the name's hash is set.
pub proof fn law_a_cell_shows_its_bit(name: Seq<char>, col: int, row: int)
    requires
        0 <= col < 5,
        0 <= row < 5,
    ensures
        ({
            let hash = fnv(encode_utf8(name));
            let bit = cell_bit(col, row) as u32;
            &&& cell_filled(name, col, row) ==> hash & (1u32 << bit) != 0
            &&& !cell_filled(name, col, row) ==> hash & (1u32 << bit) == 0
        }),
{
    let hash = fnv(encode_utf8(name));
    let bit = cell_bit(col, row) as u32;
    assert(bit < 32);
    assert((hash >> bit) & 1 == 1 ==> hash & (1u32 << bit) != 0) by (bit_vector)
        requires
            bit < 32,
    ;
    assert(!((hash >> bit) & 1 == 1) ==> hash & (1u32 << bit) == 0) by (bit_vector)
        requires
            bit < 32,
    ;
}

} // verus!
