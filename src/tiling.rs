//! Partitioning of a row-major frame into a grid of square tiles.
//!
//! The frame is centred in the smallest grid of whole tiles that covers it;
//! tile positions that no sample reaches hold the background palette index.
use vstd::arithmetic::div_mod::{lemma_fundamental_div_mod, lemma_fundamental_div_mod_converse};
use vstd::prelude::*;

verus! {

/// Side of a tile, in pixels.
pub const TILE_SIDE: u32 = 128;

/// Number of bytes in one tile.
pub const TILE_LEN: usize = 16384;

/// Palette index of the screen background, used for padding.
pub const BACKGROUND: u8 = 119;

/// One tile: row-major palette indices.
pub type Tile = [u8; 16384];

/// Smallest number of tiles that covers `len` pixels along one axis.
pub open spec fn grid_len(len: nat) -> nat {
    ((len + 127) / 128) as nat
}

/// Margin placed before the frame along one axis so that it sits centred in its
/// tiles (rounded down when the padding is odd).
pub open spec fn margin(len: nat) -> nat {
    ((grid_len(len) * 128 - len) / 2) as nat
}

/// Number of tiles for a `width` by `height` frame.
pub open spec fn tile_count(width: nat, height: nat) -> nat {
    grid_len(width) * grid_len(height)
}

/// Relies on num_integer::div_ceil for unsigned integers: the quotient rounded
/// up (`x / y`, plus one when the division leaves a remainder).
#[verifier::external_body]
fn div_ceil(x: u32, y: u32) -> (r: u32)
    requires
        y > 0,
    ensures
        r == x / y + (if x % y != 0 { 1int } else { 0int }),
{
    num_integer::div_ceil(x, y)
}

/// Number of tiles needed to cover `len` pixels along one axis.
pub fn tile_grid_len(len: u32) -> (r: u32)
    ensures
        r == grid_len(len as nat),
        r <= 33554432,
{
    let r = div_ceil(len, TILE_SIDE);
    assert(r == grid_len(len as nat)) by {
        assert((len + 127) / 128 == len / 128 + (if len % 128 != 0 { 1int } else { 0int }));
    }
    r
}

/// Centring margin along one axis: half of the padding, rounded down.
pub fn centring_margin(len: u32) -> (r: u32)
    ensures
        r == margin(len as nat),
        r < 64,
{
    let g = tile_grid_len(len) as u64;
    assert(g * 128 >= len && g * 128 - len < 128);
    ((g * 128 - len as u64) / 2) as u32
}

/// Palette index at position `j` of tile `t`: the sample whose centred
/// coordinate falls there, or the background where none does.
pub open spec fn cell_value(raw: Seq<u8>, width: nat, height: nat, t: nat, j: nat) -> u8 {
    let gw = grid_len(width);
    let x = (t % gw) * 128 + j % 128 - margin(width);
    let y = (t / gw) * 128 + j / 128 - margin(height);
    if 0 <= x < width && 0 <= y < height {
        raw[y * width + x]
    } else {
        BACKGROUND
    }
}

/// Contents of tile `t`.
pub open spec fn tile_view(raw: Seq<u8>, width: nat, height: nat, t: nat) -> Seq<u8> {
    Seq::new(16384, |j: int| cell_value(raw, width, height, t, j as nat))
}

/// All tiles of a frame, in row-major grid order.
pub open spec fn tiles_of(raw: Seq<u8>, width: nat, height: nat) -> Seq<Seq<u8>> {
    Seq::new(tile_count(width, height), |t: int| tile_view(raw, width, height, t as nat))
}

/// The bytes of each tile.
pub open spec fn view_tiles(tiles: Seq<Tile>) -> Seq<Seq<u8>> {
    tiles.map_values(|a: Tile| a@)
}

proof fn lemma_grid_len_le(len: nat)
    ensures
        grid_len(len) <= len,
        len > 0 ==> grid_len(len) > 0,
        grid_len(len) * 128 >= len,
        grid_len(len) * 128 < len + 128,
{
}

/// The tiles never outnumber the samples.
proof fn lemma_tile_count_le(width: nat, height: nat)
    ensures
        tile_count(width, height) <= width * height,
{
    let gw = grid_len(width);
    let gh = grid_len(height);
    lemma_grid_len_le(width);
    lemma_grid_len_le(height);
    assert(gw * gh <= width * height) by (nonlinear_arith)
        requires
            gw <= width,
            gh <= height,
    ;
}

/// Fills tile `t` of the grid.
fn fill_tile(raw: &[u8], width: u32, height: u32, gw: u64, mx: u64, my: u64, t: u64) -> (tile: Tile)
    requires
        raw@.len() == width as nat * height as nat,
        raw@.len() <= usize::MAX,
        gw == grid_len(width as nat),
        mx == margin(width as nat),
        my == margin(height as nat),
        t < tile_count(width as nat, height as nat),
    ensures
        tile@ == tile_view(raw@, width as nat, height as nat, t as nat),
{
    let ghost w = width as nat;
    let ghost h = height as nat;
    let ghost gh = grid_len(h);
    proof {
        lemma_grid_len_le(w);
        lemma_grid_len_le(h);
        assert(gw > 0) by (nonlinear_arith)
            requires
                t < gw * gh,
        ;
        assert(t / gw < gh) by (nonlinear_arith)
            requires
                t < gw * gh,
                gw > 0,
        ;
    }
    let tr = t / gw;
    let tc = t % gw;
    let mut tile: Tile = [BACKGROUND; 16384];
    let mut j: u64 = 0;
    while j < 16384
        invariant
            0 <= j <= 16384,
            raw@.len() == w * h,
            raw@.len() <= usize::MAX,
            w == width,
            h == height,
            gw == grid_len(w),
            gh == grid_len(h),
            gw > 0,
            gw * 128 < w + 128,
            gh * 128 < h + 128,
            mx == margin(w),
            my == margin(h),
            tr == t / gw,
            tc == t % gw,
            tr < gh,
            tile@.len() == 16384,
            forall|k: int| 0 <= k < j ==> tile@[k] == cell_value(raw@, w, h, t as nat, k as nat),
        decreases 16384 - j,
    {
        let x = tc * 128 + j % 128;
        let y = tr * 128 + j / 128;
        let v = if x >= mx && x - mx < width as u64 && y >= my && y - my < height as u64 {
            let col = x - mx;
            let row = y - my;
            assert(row * w + col < w * h) by (nonlinear_arith)
                requires
                    row < h,
                    col < w,
            ;
            raw[(row * width as u64 + col) as usize]
        } else {
            BACKGROUND
        };
        tile[j as usize] = v;
        j = j + 1;
    }
    assert(tile@ =~= tile_view(raw@, w, h, t as nat));
    tile
}

/// Splits a `width` by `height` row-major frame into tiles, in row-major grid
/// order. The frame is centred in the grid; uncovered positions hold
/// `BACKGROUND`. A frame with no pixels gives no tiles.
pub fn partition(raw: &[u8], width: u32, height: u32) -> (tiles: Vec<Tile>)
    requires
        raw@.len() == width as nat * height as nat,
    ensures
        tiles@.len() == tile_count(width as nat, height as nat),
        width == 0 || height == 0 ==> tiles@.len() == 0,
        view_tiles(tiles@) == tiles_of(raw@, width as nat, height as nat),
{
    let ghost w = width as nat;
    let ghost h = height as nat;
    let len = raw.len();
    proof {
        lemma_tile_count_le(w, h);
        assert(grid_len(w) * grid_len(h) <= len);
    }
    let gw = tile_grid_len(width) as u64;
    let gh = tile_grid_len(height) as u64;
    let mx = centring_margin(width) as u64;
    let my = centring_margin(height) as u64;
    let n = gw * gh;
    let mut tiles: Vec<Tile> = Vec::new();
    let mut t: u64 = 0;
    while t < n
        invariant
            t <= n,
            n == tile_count(w, h),
            n <= raw@.len(),
            raw@.len() == w * h,
            raw@.len() == len,
            w == width,
            h == height,
            gw == grid_len(w),
            mx == margin(w),
            my == margin(h),
            tiles@.len() == t,
            forall|k: int| 0 <= k < t ==> tiles@[k]@ == tile_view(raw@, w, h, k as nat),
        decreases n - t,
    {
        let tile = fill_tile(raw, width, height, gw, mx, my, t);
        tiles.push(tile);
        t = t + 1;
    }
    assert(view_tiles(tiles@) =~= tiles_of(raw@, w, h));
    tiles
}

/// Column at which sample `i` is placed in the padded grid area.
pub open spec fn placed_x(width: nat, i: nat) -> nat {
    i % width + margin(width)
}

/// Row at which sample `i` is placed in the padded grid area.
pub open spec fn placed_y(width: nat, height: nat, i: nat) -> nat {
    i / width + margin(height)
}

/// Tile that receives sample `i`.
pub open spec fn sample_tile(width: nat, height: nat, i: nat) -> nat {
    (placed_y(width, height, i) / 128) * grid_len(width) + placed_x(width, i) / 128
}

/// Position inside its tile that receives sample `i`.
pub open spec fn sample_cell(width: nat, height: nat, i: nat) -> nat {
    (placed_y(width, height, i) % 128) * 128 + placed_x(width, i) % 128
}

/// Every sample of the frame lands in exactly one tile, at its centred
/// position: tile `(y / 128) * grid_width + x / 128`, cell
/// `(y % 128) * 128 + x % 128`, where `(x, y)` is the sample's column and row
/// shifted by the centring margins.
pub proof fn lemma_sample_lands(raw: Seq<u8>, width: nat, height: nat, i: nat)
    requires
        raw.len() == width * height,
        i < width * height,
    ensures
        sample_tile(width, height, i) < tile_count(width, height),
        sample_cell(width, height, i) < 16384,
        tiles_of(raw, width, height)[sample_tile(width, height, i) as int][sample_cell(width, height, i) as int]
            == raw[i as int],
{
    let w = width;
    let h = height;
    let gw = grid_len(w);
    let gh = grid_len(h);
    lemma_grid_len_le(w);
    lemma_grid_len_le(h);
    assert(w > 0) by (nonlinear_arith)
        requires
            i < w * h,
    ;
    let col = i % w;
    let row = i / w;
    assert(row < h) by (nonlinear_arith)
        requires
            i < w * h,
            w > 0,
            row == i / w,
    ;
    lemma_fundamental_div_mod(i as int, w as int);
    let x = placed_x(w, i);
    let y = placed_y(w, h, i);
    assert(x / 128 < gw && y / 128 < gh);
    let t = sample_tile(w, h, i);
    let j = sample_cell(w, h, i);
    assert(t < gw * gh) by (nonlinear_arith)
        requires
            t == (y / 128) * gw + x / 128,
            x / 128 < gw,
            y / 128 < gh,
    ;
    lemma_fundamental_div_mod_converse(t as int, gw as int, (y / 128) as int, (x / 128) as int);
    lemma_fundamental_div_mod_converse(j as int, 128, (y % 128) as int, (x % 128) as int);
    assert(i == row * w + col) by (nonlinear_arith)
        requires
            i == w * (i / w) + i % w,
            row == i / w,
            col == i % w,
    ;
    assert(tiles_of(raw, w, h)[t as int] == tile_view(raw, w, h, t));
}

/// Every tile position that no sample reaches (the centring margin) holds the
/// background palette index.
pub proof fn lemma_padding_is_background(raw: Seq<u8>, width: nat, height: nat, t: nat, j: nat)
    requires
        raw.len() == width * height,
        t < tile_count(width, height),
        j < 16384,
        forall|i: nat|
            i < width * height ==> !(#[trigger] sample_tile(width, height, i) == t && sample_cell(
                width,
                height,
                i,
            ) == j),
    ensures
        tiles_of(raw, width, height)[t as int][j as int] == BACKGROUND,
{
    let w = width;
    let h = height;
    let gw = grid_len(w);
    let gh = grid_len(h);
    assert(tiles_of(raw, w, h)[t as int] == tile_view(raw, w, h, t));
    assert(gw > 0) by (nonlinear_arith)
        requires
            t < gw * gh,
    ;
    let x = (t % gw) * 128 + j % 128 - margin(w);
    let y = (t / gw) * 128 + j / 128 - margin(h);
    if 0 <= x < w && 0 <= y < h {
        let i = (y * w + x) as nat;
        assert(i < w * h) by (nonlinear_arith)
            requires
                0 <= y < h,
                0 <= x < w,
                i == y * w + x,
        ;
        lemma_fundamental_div_mod_converse(i as int, w as int, y, x);
        lemma_fundamental_div_mod(t as int, gw as int);
        lemma_fundamental_div_mod(j as int, 128);
        assert(placed_x(w, i) == (t % gw) * 128 + j % 128);
        assert(placed_y(w, h, i) == (t / gw) * 128 + j / 128);
        lemma_fundamental_div_mod_converse(
            placed_x(w, i) as int,
            128,
            (t % gw) as int,
            (j % 128) as int,
        );
        lemma_fundamental_div_mod_converse(
            placed_y(w, h, i) as int,
            128,
            (t / gw) as int,
            (j / 128) as int,
        );
        assert((t / gw) * gw + t % gw == t) by (nonlinear_arith)
            requires
                t == gw * (t / gw) + t % gw,
        ;
        assert(sample_tile(w, h, i) == t);
        assert(sample_cell(w, h, i) == j);
        assert(false);
    }
}

/// A frame of exactly one tile has no margins and becomes that tile unchanged.
pub proof fn lemma_single_tile_is_copy(raw: Seq<u8>)
    requires
        raw.len() == 16384,
    ensures
        margin(128) == 0,
        tiles_of(raw, 128, 128) == seq![raw],
{
    let tiles = tiles_of(raw, 128, 128);
    let g = grid_len(128);
    assert(g * g == 1) by (nonlinear_arith)
        requires
            g == 1,
    ;
    assert forall|j: int| 0 <= j < 16384 implies #[trigger] tile_view(raw, 128, 128, 0)[j] == raw[j] by {
        lemma_fundamental_div_mod(j, 128);
    }
    assert(tile_view(raw, 128, 128, 0) =~= raw);
    assert(tiles =~= seq![raw]);
}

/// Partitioning depends on the frame and its dimensions alone: the same input
/// gives byte-identical tiles.
pub proof fn lemma_partition_deterministic(raw1: Seq<u8>, raw2: Seq<u8>, width: nat, height: nat)
    requires
        raw1 == raw2,
    ensures
        tiles_of(raw1, width, height) == tiles_of(raw2, width, height),
{
}

} // verus!
