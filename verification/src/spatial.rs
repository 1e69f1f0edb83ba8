//! The 2-D table: `(row, col)` of every patch, in 2×2 merge-block order.

use vstd::prelude::*;
use vstd::arithmetic::div_mod::{lemma_fundamental_div_mod, lemma_fundamental_div_mod_converse};
use crate::error::PosIdsError;
use crate::table::{lemma_positions_fix_table, max_table_len, positions, table_len_limit};

verus! {

/// Number of whole patches of edge `d_patch` along `extent` pixels.
pub open spec fn patches(extent: int, d_patch: int) -> int {
    extent / d_patch
}

/// Token index of the patch at `(row, col)` in a grid `wp` patches wide:
/// merge blocks run row-major over the grid, and the four patches of a
/// block run row-major inside it.
pub open spec fn token_index(wp: int, row: int, col: int) -> int {
    4 * ((row / 2) * (wp / 2) + col / 2) + 2 * (row % 2) + col % 2
}

/// Row of the patch that token `k` stands for, in a grid `wp` patches wide.
pub open spec fn token_row(wp: int, k: int) -> int {
    2 * ((k / 4) / (wp / 2)) + (k % 4) / 2
}

/// Column of the patch that token `k` stands for, in a grid `wp` patches wide.
pub open spec fn token_col(wp: int, k: int) -> int {
    2 * ((k / 4) % (wp / 2)) + (k % 4) % 2
}

/// The table of a grid of `hp` by `wp` patches: for each token its row, then
/// its column.
pub open spec fn spatial_table(hp: int, wp: int) -> Seq<int> {
    Seq::new(
        (hp * wp * 2) as nat,
        |i: int| if i % 2 == 0 { token_row(wp, i / 2) } else { token_col(wp, i / 2) },
    )
}

/// The table of the grid is no longer than a table can be, and each
/// coordinate in it fits in 32 bits.
pub open spec fn spatial_fits(hp: int, wp: int) -> bool {
    &&& hp * wp * 2 <= max_table_len()
    &&& hp > 0 && wp > 0 ==> hp - 1 <= u32::MAX && wp - 1 <= u32::MAX
}

/// The grid has a table: it splits into 2×2 blocks, and the table fits.
pub open spec fn spatial_grid_ok(hp: int, wp: int) -> bool {
    &&& 0 <= hp && hp % 2 == 0
    &&& 0 <= wp && wp % 2 == 0
    &&& spatial_fits(hp, wp)
}

/// Why an image of `h` by `w` pixels with patches of edge `d_patch` has no
/// table, or `None` where it has one. The first rule that fails decides.
pub open spec fn spatial_rejection(h: int, w: int, d_patch: int) -> Option<PosIdsError> {
    if d_patch == 0 {
        Some(PosIdsError::ZeroPatchSize)
    } else if h % d_patch != 0 || w % d_patch != 0 {
        Some(PosIdsError::NonDivisible)
    } else if patches(h, d_patch) % 2 != 0 || patches(w, d_patch) % 2 != 0 {
        Some(PosIdsError::OddPatchGrid)
    } else if !spatial_fits(patches(h, d_patch), patches(w, d_patch)) {
        Some(PosIdsError::TooLarge)
    } else {
        None
    }
}

/// In a grid of `w2` blocks per row, the patch at offset `(dy, dx)` of block
/// `(by, bx)` is token `4 * (by * w2 + bx) + 2 * dy + dx`.
pub proof fn lemma_block_token(w2: int, by: int, bx: int, dy: int, dx: int)
    requires
        0 <= by,
        0 <= bx < w2,
        0 <= dy < 2,
        0 <= dx < 2,
    ensures
        token_row(2 * w2, 4 * (by * w2 + bx) + 2 * dy + dx) == 2 * by + dy,
        token_col(2 * w2, 4 * (by * w2 + bx) + 2 * dy + dx) == 2 * bx + dx,
        token_index(2 * w2, 2 * by + dy, 2 * bx + dx) == 4 * (by * w2 + bx) + 2 * dy + dx,
{
    let b: int = by * w2 + bx;
    let k: int = 4 * b + 2 * dy + dx;
    lemma_fundamental_div_mod_converse(k, 4, b, 2 * dy + dx);
    lemma_fundamental_div_mod_converse(b, w2, by, bx);
    assert((2 * w2) / 2 == w2);
}

/// The `(row, col)` pair that a table holds for token `k`.
pub open spec fn pair_at(table: Seq<int>, k: int) -> (int, int) {
    (table[2 * k], table[2 * k + 1])
}

/// The set of pairs that occur in a table.
pub open spec fn emitted_pairs(table: Seq<int>) -> Set<(int, int)> {
    Set::new(|p: (int, int)| exists|k: int| 0 <= 2 * k < table.len() && p == pair_at(table, k))
}

/// The patches of a grid of `hp` rows and `wp` columns.
pub open spec fn grid_patches(hp: int, wp: int) -> Set<(int, int)> {
    Set::new(|p: (int, int)| 0 <= p.0 < hp && 0 <= p.1 < wp)
}

/// Every token of a grid with even sides stands for a patch inside the grid,
/// and that patch leads back to the token.
pub proof fn lemma_token_in_grid(hp: int, wp: int, k: int)
    requires
        0 <= hp && hp % 2 == 0,
        0 <= wp && wp % 2 == 0,
        0 <= k < hp * wp,
    ensures
        0 <= token_row(wp, k) < hp,
        0 <= token_col(wp, k) < wp,
        token_index(wp, token_row(wp, k), token_col(wp, k)) == k,
{
    let h2: int = hp / 2;
    let w2: int = wp / 2;
    let b: int = k / 4;
    let s: int = k % 4;
    assert(hp * wp == 4 * (h2 * w2)) by (nonlinear_arith)
        requires
            hp == 2 * h2,
            wp == 2 * w2,
    ;
    assert(w2 > 0) by (nonlinear_arith)
        requires
            0 <= b < h2 * w2,
            0 <= w2,
    ;
    let by: int = b / w2;
    let bx: int = b % w2;
    lemma_fundamental_div_mod(b, w2);
    assert(0 <= by < h2) by (nonlinear_arith)
        requires
            b == w2 * by + bx,
            0 <= bx < w2,
            0 <= b < h2 * w2,
    ;
    assert(w2 * by == by * w2) by (nonlinear_arith);
    lemma_block_token(w2, by, bx, s / 2, s % 2);
}

/// Every patch of a grid with even sides has a token in the table, and that
/// token stands for the patch.
pub proof fn lemma_patch_has_token(hp: int, wp: int, row: int, col: int)
    requires
        hp % 2 == 0,
        wp % 2 == 0,
        0 <= row < hp,
        0 <= col < wp,
    ensures
        0 <= token_index(wp, row, col) < hp * wp,
        token_row(wp, token_index(wp, row, col)) == row,
        token_col(wp, token_index(wp, row, col)) == col,
{
    let h2: int = hp / 2;
    let w2: int = wp / 2;
    let by: int = row / 2;
    let bx: int = col / 2;
    lemma_block_token(w2, by, bx, row % 2, col % 2);
    assert(0 <= by * w2 + bx < h2 * w2) by (nonlinear_arith)
        requires
            0 <= by < h2,
            0 <= bx < w2,
    ;
    assert(hp * wp == 4 * (h2 * w2)) by (nonlinear_arith)
        requires
            hp == 2 * h2,
            wp == 2 * w2,
    ;
}

/// The table holds the four patches of block `(by, bx)` one after the other,
/// in the order `(0,0), (0,1), (1,0), (1,1)` of their offsets `(dy, dx)`, after
/// the blocks above it and the blocks to its left.
pub proof fn lemma_table_block(hp: int, wp: int, by: int, bx: int, dy: int, dx: int)
    requires
        hp % 2 == 0,
        wp % 2 == 0,
        0 <= by < hp / 2,
        0 <= bx < wp / 2,
        0 <= dy < 2,
        0 <= dx < 2,
    ensures
        0 <= 4 * (by * (wp / 2) + bx) + 2 * dy + dx < hp * wp,
        pair_at(spatial_table(hp, wp), 4 * (by * (wp / 2) + bx) + 2 * dy + dx) == (
            2 * by + dy,
            2 * bx + dx,
        ),
{
    let k: int = 4 * (by * (wp / 2) + bx) + 2 * dy + dx;
    lemma_block_token(wp / 2, by, bx, dy, dx);
    lemma_patch_has_token(hp, wp, 2 * by + dy, 2 * bx + dx);
    assert((2 * k) % 2 == 0 && (2 * k) / 2 == k);
    assert((2 * k + 1) % 2 == 1 && (2 * k + 1) / 2 == k);
}

/// The table of a grid with even sides names every patch of the grid, names
/// no other pair, and names no patch twice.
pub proof fn lemma_table_covers_grid(hp: int, wp: int)
    requires
        0 <= hp && hp % 2 == 0,
        0 <= wp && wp % 2 == 0,
    ensures
        spatial_table(hp, wp).len() == hp * wp * 2,
        emitted_pairs(spatial_table(hp, wp)) == grid_patches(hp, wp),
        forall|j: int, k: int|
            0 <= j < hp * wp && 0 <= k < hp * wp && j != k ==> pair_at(spatial_table(hp, wp), j)
                != pair_at(spatial_table(hp, wp), k),
{
    let table: Seq<int> = spatial_table(hp, wp);
    assert(0 <= hp * wp) by (nonlinear_arith)
        requires
            0 <= hp,
            0 <= wp,
    ;
    assert forall|k: int| 0 <= k < hp * wp implies pair_at(table, k) == (
        token_row(wp, k),
        token_col(wp, k),
    ) by {
        assert((2 * k) % 2 == 0 && (2 * k) / 2 == k);
        assert((2 * k + 1) % 2 == 1 && (2 * k + 1) / 2 == k);
    }
    assert forall|p: (int, int)| emitted_pairs(table).contains(p) implies grid_patches(
        hp,
        wp,
    ).contains(p) by {
        let k: int = choose|k: int| 0 <= 2 * k < table.len() && p == pair_at(table, k);
        lemma_token_in_grid(hp, wp, k);
    }
    assert forall|p: (int, int)| grid_patches(hp, wp).contains(p) implies emitted_pairs(
        table,
    ).contains(p) by {
        let k: int = token_index(wp, p.0, p.1);
        lemma_patch_has_token(hp, wp, p.0, p.1);
        assert(0 <= 2 * k < table.len() && p == pair_at(table, k));
    }
    assert(emitted_pairs(table) =~= grid_patches(hp, wp));
    assert forall|j: int, k: int|
        0 <= j < hp * wp && 0 <= k < hp * wp && j != k implies pair_at(table, j) != pair_at(
        table,
        k,
    ) by {
        lemma_token_in_grid(hp, wp, j);
        lemma_token_in_grid(hp, wp, k);
    }
}

/// One grid has one table: two tables whose positions are those of the same
/// grid are equal, element for element.
pub proof fn lemma_spatial_table_unique(a: Seq<u32>, b: Seq<u32>, hp: int, wp: int)
    requires
        positions(a) == spatial_table(hp, wp),
        positions(b) == spatial_table(hp, wp),
    ensures
        a == b,
{
    lemma_positions_fix_table(a, b);
}

/// Builds the table of `(row, col)` pairs for an image of `h` by `w` pixels
/// cut into patches of edge `d_patch`.
///
/// The grid of `h / d_patch` by `w / d_patch` patches is walked block by
/// block: block rows top to bottom, blocks left to right, and inside a block
/// `(0,0), (0,1), (1,0), (1,1)`. A grid without rows or without columns gives
/// the empty table.
///
/// The patch size must not be zero, the grid must have even sides, and the
/// table must fit; [`try_build_pos_ids`] tests this first.
pub fn build_pos_ids(h: usize, w: usize, d_patch: usize) -> (pos: Vec<u32>)
    requires
        d_patch > 0,
        spatial_grid_ok(patches(h as int, d_patch as int), patches(w as int, d_patch as int)),
    ensures
        pos@.len() == patches(h as int, d_patch as int) * patches(w as int, d_patch as int) * 2,
        positions(pos@) == spatial_table(
            patches(h as int, d_patch as int),
            patches(w as int, d_patch as int),
        ),
{
    let hp: usize = h / d_patch;
    let wp: usize = w / d_patch;
    let h2: usize = hp / 2;
    let w2: usize = wp / 2;
    let ghost table: Seq<int> = spatial_table(hp as int, wp as int);
    assert(hp * wp * 2 == 8 * (h2 * w2) && 0 <= hp * wp <= hp * wp * 2) by (nonlinear_arith)
        requires
            hp == 2 * h2,
            wp == 2 * w2,
            0 <= h2,
            0 <= w2,
    ;
    let mut pos: Vec<u32> = Vec::with_capacity(hp * wp * 2);
    let mut by: usize = 0;
    while by < h2
        invariant
            by <= h2,
            hp == 2 * h2,
            wp == 2 * w2,
            hp > 0 && wp > 0 ==> hp - 1 <= u32::MAX && wp - 1 <= u32::MAX,
            table == spatial_table(hp as int, wp as int),
            table.len() == 8 * (h2 * w2),
            pos.len() == 8 * (by * w2),
            forall|i: int| 0 <= i < pos.len() ==> pos[i] as int == table[i],
        decreases h2 - by,
    {
        let mut bx: usize = 0;
        while bx < w2
            invariant
                by < h2,
                bx <= w2,
                hp == 2 * h2,
                wp == 2 * w2,
                hp > 0 && wp > 0 ==> hp - 1 <= u32::MAX && wp - 1 <= u32::MAX,
                table == spatial_table(hp as int, wp as int),
                table.len() == 8 * (h2 * w2),
                pos.len() == 8 * (by * w2 + bx),
                forall|i: int| 0 <= i < pos.len() ==> pos[i] as int == table[i],
            decreases w2 - bx,
        {
            let ghost base: int = 8 * (by * w2 + bx);
            proof {
                assert(by * w2 + bx < h2 * w2) by (nonlinear_arith)
                    requires
                        0 <= by < h2,
                        0 <= bx < w2,
                ;
                lemma_block_token(w2 as int, by as int, bx as int, 0, 0);
                lemma_block_token(w2 as int, by as int, bx as int, 0, 1);
                lemma_block_token(w2 as int, by as int, bx as int, 1, 0);
                lemma_block_token(w2 as int, by as int, bx as int, 1, 1);
            }
            let y: u32 = (2 * by) as u32;
            let x: u32 = (2 * bx) as u32;
            pos.push(y);
            pos.push(x);
            pos.push(y);
            pos.push(x + 1);
            pos.push(y + 1);
            pos.push(x);
            pos.push(y + 1);
            pos.push(x + 1);
            assert forall|i: int| base <= i < base + 8 implies pos[i] as int == table[i] by {
                let k: int = i / 2;
                assert(k == 4 * (by * w2 + bx) + (i - base) / 2);
            }
            bx += 1;
        }
        assert(8 * (by * w2 + w2) == 8 * ((by + 1) * w2)) by (nonlinear_arith);
        by += 1;
    }
    assert(positions(pos@) =~= table);
    pos
}

/// Whether the table of a grid of `hp` by `wp` patches fits.
fn grid_fits(hp: usize, wp: usize) -> (fits: bool)
    ensures
        fits == spatial_fits(hp as int, wp as int),
{
    if hp == 0 || wp == 0 {
        assert(hp * wp * 2 == 0) by (nonlinear_arith)
            requires
                hp == 0 || wp == 0,
        ;
        return true;
    }
    if hp - 1 > u32::MAX as usize || wp - 1 > u32::MAX as usize {
        return false;
    }
    match hp.checked_mul(wp) {
        Some(patch_count) => patch_count <= table_len_limit() / 2,
        None => false,
    }
}

/// Tests the inputs of the 2-D table against its rules, in their order: the
/// patch size is not zero, height and width are whole numbers of patches, the
/// patch grid has even sides, and the table fits.
pub fn check_spatial_inputs(h: usize, w: usize, d_patch: usize) -> (verdict: Option<PosIdsError>)
    ensures
        verdict == spatial_rejection(h as int, w as int, d_patch as int),
{
    if d_patch == 0 {
        return Some(PosIdsError::ZeroPatchSize);
    }
    if h % d_patch != 0 || w % d_patch != 0 {
        return Some(PosIdsError::NonDivisible);
    }
    let hp: usize = h / d_patch;
    let wp: usize = w / d_patch;
    if hp % 2 != 0 || wp % 2 != 0 {
        return Some(PosIdsError::OddPatchGrid);
    }
    if !grid_fits(hp, wp) {
        return Some(PosIdsError::TooLarge);
    }
    None
}

/// Builds the 2-D table where the inputs meet its rules, and says which rule
/// fails where they do not.
pub fn try_build_pos_ids(h: usize, w: usize, d_patch: usize) -> (result: Result<Vec<u32>, PosIdsError>)
    ensures
        (match result {
            Ok(pos) => {
                &&& spatial_rejection(h as int, w as int, d_patch as int).is_none()
                &&& pos@.len() == patches(h as int, d_patch as int) * patches(
                    w as int,
                    d_patch as int,
                ) * 2
                &&& positions(pos@) == spatial_table(
                    patches(h as int, d_patch as int),
                    patches(w as int, d_patch as int),
                )
            },
            Err(e) => spatial_rejection(h as int, w as int, d_patch as int) == Some(e),
        }),
{
    match check_spatial_inputs(h, w, d_patch) {
        Some(e) => Err(e),
        None => Ok(build_pos_ids(h, w, d_patch)),
    }
}

} // verus!
