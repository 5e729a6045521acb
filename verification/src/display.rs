//! Fixed-size monochrome framebuffer with clear and XOR-blit operations.
//! Every pixel holds 0 or 1; sprite bits are XOR-ed in, and both axes wrap
//! modulo the framebuffer width and height, so no out-of-bounds pixel ever
//! exists.

use vstd::prelude::*;
use vstd::arithmetic::div_mod::{
    lemma_add_mod_noop, lemma_fundamental_div_mod, lemma_fundamental_div_mod_converse_div,
    lemma_fundamental_div_mod_converse_mod, lemma_mod_division_less_than_divisor,
    lemma_mod_multiples_vanish, lemma_small_mod, lemma_sub_mod_noop_right,
};

verus! {

/// Width of the pixel grid.
pub const COLUMNS: usize = 64;

/// Height of the pixel grid.
pub const ROWS: usize = 32;

/// Number of pixels, one byte per pixel, stored row-major.
pub const DISPLAY_MEMORY_SIZE: usize = COLUMNS * ROWS;

/// The bit of `byte` blitted into the pixel `j` places right of a sprite
/// row's origin: bit 7 lands leftmost.
pub open spec fn sprite_bit(byte: u8, j: int) -> u8
    recommends
        0 <= j < 8,
{
    (byte >> ((7 - j) as u8)) & 1
}

/// The value a 0/1 pixel takes when `b` is XOR-ed into it.
pub open spec fn pixel_toggle(p: u8, b: u8) -> u8 {
    if p != b {
        1u8
    } else {
        0u8
    }
}

/// Which sprite row reaches pixel index `p` when the sprite's top row lands
/// on row `y % ROWS`: the distance, wrapped modulo the height.
pub open spec fn row_offset(y: int, p: int) -> int {
    (p / (COLUMNS as int) - y) % (ROWS as int)
}

/// Which bit position of a sprite row reaches pixel index `p` when the
/// row's leftmost bit lands on column `x % COLUMNS`.
pub open spec fn col_offset(x: int, p: int) -> int {
    (p % (COLUMNS as int) - x) % (COLUMNS as int)
}

/// The sprite bit that lands on pixel index `p`.
pub open spec fn bit_at(sprite: Seq<u8>, x: int, y: int, p: int) -> u8 {
    sprite_bit(sprite[row_offset(y, p)], col_offset(x, p))
}

/// Whether pixel index `p` is written by one of the first `k` sprite cells,
/// counting the sprite's cells row-major, eight per row.
pub open spec fn touched_upto(x: int, y: int, n: int, k: int, p: int) -> bool {
    &&& row_offset(y, p) < n
    &&& col_offset(x, p) < 8
    &&& 8 * row_offset(y, p) + col_offset(x, p) < k
}

/// The framebuffer after the first `k` cells of `sprite` have been XOR-ed
/// in at origin `(x, y)`.
pub open spec fn blit_upto(disp: Seq<u8>, sprite: Seq<u8>, x: int, y: int, k: int) -> Seq<u8> {
    Seq::new(
        disp.len(),
        |p: int|
            if touched_upto(x, y, sprite.len() as int, k, p) {
                pixel_toggle(disp[p], bit_at(sprite, x, y, p))
            } else {
                disp[p]
            },
    )
}

/// The framebuffer after `sprite` has been XOR-ed in at origin `(x, y)`.
pub open spec fn blit(disp: Seq<u8>, sprite: Seq<u8>, x: int, y: int) -> Seq<u8> {
    blit_upto(disp, sprite, x, y, 8 * sprite.len() as int)
}

/// Whether one of the first `k` cells erases a pixel: the pixel held 1 and
/// the incoming bit is 1, so the XOR clears it.
pub open spec fn erased_upto(disp: Seq<u8>, sprite: Seq<u8>, x: int, y: int, k: int) -> bool {
    exists|p: int|
        0 <= p < disp.len() && #[trigger] touched_upto(x, y, sprite.len() as int, k, p)
            && disp[p] == 1 && bit_at(sprite, x, y, p) == 1
}

/// Whether blitting `sprite` at `(x, y)` erases any pixel.
pub open spec fn blit_erases(disp: Seq<u8>, sprite: Seq<u8>, x: int, y: int) -> bool {
    erased_upto(disp, sprite, x, y, 8 * sprite.len() as int)
}

/// An all-zero framebuffer.
pub open spec fn blank_display() -> Seq<u8> {
    Seq::new(DISPLAY_MEMORY_SIZE as nat, |p: int| 0u8)
}

/// A framebuffer is well formed when every pixel holds 0 or 1.
pub open spec fn pixels_binary(disp: Seq<u8>) -> bool {
    forall|p: int| 0 <= p < disp.len() ==> disp[p] == 0 || disp[p] == 1
}

/// The pixel grid, one byte per pixel valued 0 or 1, row-major.
pub struct Display {
    pub memory: [u8; DISPLAY_MEMORY_SIZE],
}

impl View for Display {
    type V = Seq<u8>;

    open spec fn view(&self) -> Seq<u8> {
        self.memory@
    }
}

/// The sprite row `i` and bit position `j` land on the pixel index
/// `COLUMNS * ((y + i) % ROWS) + (x + j) % COLUMNS`, and no other pixel;
/// blitting one more cell updates exactly that pixel.
proof fn lemma_blit_step(disp: Seq<u8>, sprite: Seq<u8>, x: int, y: int, i: int, j: int)
    requires
        disp.len() == DISPLAY_MEMORY_SIZE,
        sprite.len() <= ROWS,
        0 <= i < sprite.len(),
        0 <= j < 8,
    ensures
        ({
            let r = (y + i) % (ROWS as int);
            let c = (x + j) % (COLUMNS as int);
            let p = (COLUMNS as int) * r + c;
            let k = 8 * i + j;
            &&& 0 <= r < ROWS
            &&& 0 <= c < COLUMNS
            &&& 0 <= p < DISPLAY_MEMORY_SIZE
            &&& row_offset(y, p) == i
            &&& col_offset(x, p) == j
            &&& blit_upto(disp, sprite, x, y, k)[p] == disp[p]
            &&& blit_upto(disp, sprite, x, y, k + 1) == blit_upto(disp, sprite, x, y, k).update(
                p,
                pixel_toggle(disp[p], sprite_bit(sprite[i], j)),
            )
            &&& (erased_upto(disp, sprite, x, y, k + 1) <==> erased_upto(disp, sprite, x, y, k)
                || (disp[p] == 1 && sprite_bit(sprite[i], j) == 1))
        }),
{
    let rows = ROWS as int;
    let cols = COLUMNS as int;
    let r = (y + i) % rows;
    let c = (x + j) % cols;
    let p = cols * r + c;
    let k = 8 * i + j;
    let n = sprite.len() as int;
    lemma_mod_division_less_than_divisor(y + i, rows);
    lemma_mod_division_less_than_divisor(x + j, cols);
    lemma_fundamental_div_mod_converse_div(p, cols, r, c);
    lemma_fundamental_div_mod_converse_mod(p, cols, r, c);
    assert(p / cols == r && p % cols == c);
    // row_offset(y, p) == i
    lemma_fundamental_div_mod(y + i, rows);
    let qy = (y + i) / rows;
    assert(r - y == rows * (-qy) + i) by {
        assert(y + i == rows * qy + r);
    }
    lemma_mod_multiples_vanish(-qy, i, rows);
    lemma_small_mod(i as nat, rows as nat);
    assert(row_offset(y, p) == i);
    // col_offset(x, p) == j
    lemma_fundamental_div_mod(x + j, cols);
    let qx = (x + j) / cols;
    assert(c - x == cols * (-qx) + j) by {
        assert(x + j == cols * qx + c);
    }
    lemma_mod_multiples_vanish(-qx, j, cols);
    lemma_small_mod(j as nat, cols as nat);
    assert(col_offset(x, p) == j);
    // The cell ranked k is not among the first k, so the pixel is untouched.
    assert(!touched_upto(x, y, n, k, p));
    // Any other pixel with the same offsets would be the same pixel.
    assert forall|p2: int|
        0 <= p2 < disp.len() && row_offset(y, p2) == i && col_offset(x, p2) == j implies p2
        == p by {
        let r2 = p2 / cols;
        let c2 = p2 % cols;
        lemma_fundamental_div_mod(p2, cols);
        lemma_mod_division_less_than_divisor(p2, cols);
        assert(0 <= c2 < cols);
        assert(0 <= r2 < rows) by {
            assert(p2 == cols * r2 + c2);
        }
        // (r2 - y) % rows == i and (r - y) % rows == i force r2 == r.
        lemma_fundamental_div_mod(r2 - y, rows);
        lemma_fundamental_div_mod(r - y, rows);
        let a = (r2 - y) / rows;
        let b = (r - y) / rows;
        assert(r2 - r == rows * (a - b)) by {
            assert(r2 - y == rows * a + i);
            assert(r - y == rows * b + i);
        }
        assert(a == b) by {
            assert(rows * (a - b) == r2 - r);
            assert(-rows < r2 - r < rows);
            assert(a - b == 0) by (nonlinear_arith)
                requires
                    rows * (a - b) == r2 - r,
                    -rows < r2 - r < rows,
                    rows > 0,
            ;
        }
        assert(r2 == r);
        // (c2 - x) % cols == j and (c - x) % cols == j force c2 == c.
        lemma_fundamental_div_mod(c2 - x, cols);
        lemma_fundamental_div_mod(c - x, cols);
        let a2 = (c2 - x) / cols;
        let b2 = (c - x) / cols;
        assert(c2 - c == cols * (a2 - b2)) by {
            assert(c2 - x == cols * a2 + j);
            assert(c - x == cols * b2 + j);
        }
        assert(a2 == b2) by {
            assert(cols * (a2 - b2) == c2 - c);
            assert(-cols < c2 - c < cols);
            assert(a2 - b2 == 0) by (nonlinear_arith)
                requires
                    cols * (a2 - b2) == c2 - c,
                    -cols < c2 - c < cols,
                    cols > 0,
            ;
        }
        assert(c2 == c);
        assert(p2 == cols * r2 + c2);
    }
    // Pixels other than p are touched by the first k + 1 cells exactly when
    // they are touched by the first k.
    assert forall|p2: int|
        0 <= p2 < disp.len() && p2 != p implies (touched_upto(x, y, n, k + 1, p2) <==> touched_upto(
        x,
        y,
        n,
        k,
        p2,
    )) by {
        if touched_upto(x, y, n, k + 1, p2) {
            let ro = row_offset(y, p2);
            let co = col_offset(x, p2);
            if 8 * ro + co == k {
                assert(ro == i && co == j) by {
                    assert(8 * ro + co == 8 * i + j);
                    assert(0 <= co < 8 && 0 <= j < 8);
                    lemma_fundamental_div_mod_converse_div(k, 8, ro, co);
                    lemma_fundamental_div_mod_converse_mod(k, 8, ro, co);
                    lemma_fundamental_div_mod_converse_div(k, 8, i, j);
                    lemma_fundamental_div_mod_converse_mod(k, 8, i, j);
                }
                assert(p2 == p);
            }
        }
    }
    assert(touched_upto(x, y, n, k + 1, p));
    assert(blit_upto(disp, sprite, x, y, k + 1) =~= blit_upto(disp, sprite, x, y, k).update(
        p,
        pixel_toggle(disp[p], sprite_bit(sprite[i], j)),
    ));
    // The erase report grows by exactly the new cell's erase event.
    if erased_upto(disp, sprite, x, y, k) {
        let w = choose|w: int|
            0 <= w < disp.len() && #[trigger] touched_upto(x, y, n, k, w) && disp[w] == 1 && bit_at(
                sprite,
                x,
                y,
                w,
            ) == 1;
        assert(touched_upto(x, y, n, k + 1, w));
        assert(erased_upto(disp, sprite, x, y, k + 1));
    }
    if disp[p] == 1 && sprite_bit(sprite[i], j) == 1 {
        assert(touched_upto(x, y, n, k + 1, p) && disp[p] == 1 && bit_at(sprite, x, y, p) == 1);
        assert(erased_upto(disp, sprite, x, y, k + 1));
    }
    if erased_upto(disp, sprite, x, y, k + 1) {
        let w = choose|w: int|
            0 <= w < disp.len() && #[trigger] touched_upto(x, y, n, k + 1, w) && disp[w] == 1
                && bit_at(sprite, x, y, w) == 1;
        if w != p {
            assert(touched_upto(x, y, n, k, w));
            assert(erased_upto(disp, sprite, x, y, k));
        }
    }
}

/// Every sprite bit is 0 or 1.
proof fn lemma_sprite_bit_binary(byte: u8, j: int)
    requires
        0 <= j < 8,
    ensures
        sprite_bit(byte, j) == 0 || sprite_bit(byte, j) == 1,
{
    let s = (7 - j) as u8;
    assert(s < 8 ==> ((byte >> s) & 1) == 0 || ((byte >> s) & 1) == 1) by (bit_vector);
}

/// Law: blitting the same sprite at the same origin twice in succession
/// restores every pixel of a well-formed framebuffer to its pre-blit value,
/// and the second blit reports an erase event exactly when the first blit
/// set some pixel (toggled it from 0 to 1).
pub proof fn lemma_double_blit_restores(disp: Seq<u8>, sprite: Seq<u8>, x: int, y: int)
    requires
        pixels_binary(disp),
        disp.len() == DISPLAY_MEMORY_SIZE,
        sprite.len() <= ROWS,
    ensures
        blit(blit(disp, sprite, x, y), sprite, x, y) == disp,
        blit_erases(blit(disp, sprite, x, y), sprite, x, y) <==> (exists|p: int|
            0 <= p < disp.len() && #[trigger] touched_upto(
                x,
                y,
                sprite.len() as int,
                8 * sprite.len() as int,
                p,
            ) && disp[p] == 0 && bit_at(sprite, x, y, p) == 1),
{
    let n = sprite.len() as int;
    let k = 8 * n;
    let d1 = blit(disp, sprite, x, y);
    let d2 = blit(d1, sprite, x, y);
    assert forall|p: int| 0 <= p < disp.len() implies d2[p] == disp[p] by {
        if touched_upto(x, y, n, k, p) {
            lemma_mod_division_less_than_divisor(p / (COLUMNS as int) - y, ROWS as int);
            lemma_mod_division_less_than_divisor(p % (COLUMNS as int) - x, COLUMNS as int);
            lemma_sprite_bit_binary(sprite[row_offset(y, p)], col_offset(x, p));
        }
    }
    assert(d2 =~= disp);
    // An erase in the second blit happens at p exactly when the first blit
    // set p: the first blit left 1 there and the incoming bit is 1.
    assert forall|p: int|
        0 <= p < disp.len() && touched_upto(x, y, n, k, p) implies (d1[p] == 1 && bit_at(
        sprite,
        x,
        y,
        p,
    ) == 1 <==> disp[p] == 0 && bit_at(sprite, x, y, p) == 1) by {
        lemma_mod_division_less_than_divisor(p / (COLUMNS as int) - y, ROWS as int);
        lemma_mod_division_less_than_divisor(p % (COLUMNS as int) - x, COLUMNS as int);
        lemma_sprite_bit_binary(sprite[row_offset(y, p)], col_offset(x, p));
    }
}

/// Law: blit origins are taken modulo the framebuffer axes, so blitting at
/// any coordinate equals blitting at that coordinate reduced modulo the
/// width and height (for example, column 70 on the 64-wide grid behaves as
/// column 6).
pub proof fn lemma_blit_origin_wraps(disp: Seq<u8>, sprite: Seq<u8>, x: int, y: int)
    ensures
        blit(disp, sprite, x % (COLUMNS as int), y % (ROWS as int)) == blit(disp, sprite, x, y),
        blit_erases(disp, sprite, x % (COLUMNS as int), y % (ROWS as int)) == blit_erases(
            disp,
            sprite,
            x,
            y,
        ),
{
    let cols = COLUMNS as int;
    let rows = ROWS as int;
    let n = sprite.len() as int;
    let k = 8 * n;
    assert forall|p: int| true implies col_offset(x % cols, p) == col_offset(x, p) by {
        lemma_sub_mod_noop_right(p % cols, x, cols);
    }
    assert forall|p: int| true implies row_offset(y % rows, p) == row_offset(y, p) by {
        lemma_sub_mod_noop_right(p / cols, y, rows);
    }
    assert(blit(disp, sprite, x % cols, y % rows) =~= blit(disp, sprite, x, y));
    assert(blit_erases(disp, sprite, x % cols, y % rows) == blit_erases(disp, sprite, x, y)) by {
        if blit_erases(disp, sprite, x, y) {
            let w = choose|w: int|
                0 <= w < disp.len() && #[trigger] touched_upto(x, y, n, k, w) && disp[w] == 1
                    && bit_at(sprite, x, y, w) == 1;
            assert(touched_upto(x % cols, y % rows, n, k, w));
            assert(bit_at(sprite, x % cols, y % rows, w) == 1);
        }
        if blit_erases(disp, sprite, x % cols, y % rows) {
            let w = choose|w: int|
                0 <= w < disp.len() && #[trigger] touched_upto(x % cols, y % rows, n, k, w)
                    && disp[w] == 1 && bit_at(sprite, x % cols, y % rows, w) == 1;
            assert(touched_upto(x, y, n, k, w));
            assert(bit_at(sprite, x, y, w) == 1);
        }
    }
}

impl Display {
    /// Creates an all-zero framebuffer.
    pub fn new() -> (d: Self)
        ensures
            d@ == blank_display(),
    {
        let d = Display { memory: [0; DISPLAY_MEMORY_SIZE] };
        proof {
            assert(d@ =~= blank_display());
        }
        d
    }

    /// Sets every pixel to 0.
    pub fn clear(&mut self)
        ensures
            final(self)@ == blank_display(),
    {
        self.memory = [0; DISPLAY_MEMORY_SIZE];
        proof {
            assert(self@ =~= blank_display());
        }
    }

    /// Reduces a coordinate modulo an axis length.
    pub fn wrap(&self, value: usize, max_value: usize) -> (r: usize)
        requires
            max_value > 0,
        ensures
            r == value % max_value,
    {
        value % max_value
    }

    /// XOR-blits `sprite` at `location`, wrapping both axes, and reports
    /// whether any pixel was erased (toggled from 1 to 0) by the blit.
    /// A sprite holds at most one row per grid row; the architecture's
    /// draw instruction provides at most fifteen (its height nibble).
    pub fn draw(&mut self, sprite: &[u8], location: (usize, usize)) -> (erased: bool)
        requires
            sprite@.len() <= ROWS,
        ensures
            final(self)@ == blit(old(self)@, sprite@, location.0 as int, location.1 as int),
            erased == blit_erases(old(self)@, sprite@, location.0 as int, location.1 as int),
    {
        let ghost x_raw = location.0 as int;
        let ghost y_raw = location.1 as int;
        let ghost disp0 = self@;
        let (x, y) = location;
        let x = self.wrap(x, COLUMNS);
        let y = self.wrap(y, ROWS);
        let mut is_pixel_erased = false;
        let n = sprite.len();
        let mut i: usize = 0;
        while i < n
            invariant
                n == sprite@.len() <= ROWS,
                i <= n,
                x == x_raw % (COLUMNS as int),
                y == y_raw % (ROWS as int),
                x < COLUMNS,
                y < ROWS,
                disp0.len() == DISPLAY_MEMORY_SIZE,
                self@ == blit_upto(disp0, sprite@, x_raw, y_raw, 8 * i),
                is_pixel_erased == erased_upto(disp0, sprite@, x_raw, y_raw, 8 * i),
            decreases n - i,
        {
            let byte = sprite[i];
            let yi = self.wrap(y + i, ROWS);
            proof {
                lemma_small_mod(i as nat, ROWS as nat);
                lemma_add_mod_noop(y_raw, i as int, ROWS as int);
                assert(yi == (y_raw + i) % (ROWS as int));
            }
            let mut j: usize = 0;
            while j < 8
                invariant
                    n == sprite@.len() <= ROWS,
                    i < n,
                    j <= 8,
                    x == x_raw % (COLUMNS as int),
                    x < COLUMNS,
                    yi == (y_raw + i) % (ROWS as int),
                    yi < ROWS,
                    byte == sprite@[i as int],
                    disp0.len() == DISPLAY_MEMORY_SIZE,
                    self@ == blit_upto(disp0, sprite@, x_raw, y_raw, 8 * i + j),
                    is_pixel_erased == erased_upto(disp0, sprite@, x_raw, y_raw, 8 * i + j),
                decreases 8 - j,
            {
                let xi = self.wrap(x + j, COLUMNS);
                proof {
                    lemma_small_mod(j as nat, COLUMNS as nat);
                    lemma_add_mod_noop(x_raw, j as int, COLUMNS as int);
                    assert(xi == (x_raw + j) % (COLUMNS as int));
                }
                let insert_location = COLUMNS * yi + xi;
                let bit = (byte >> ((7 - j) as u8)) & 1;
                proof {
                    assert(bit <= 1) by (bit_vector)
                        requires
                            bit == (byte >> ((7 - j) as u8)) & 1,
                    ;
                    lemma_blit_step(disp0, sprite@, x_raw, y_raw, i as int, j as int);
                    assert(insert_location == (COLUMNS as int) * ((y_raw + i) % (ROWS as int)) + (
                    x_raw + j) % (COLUMNS as int));
                    assert(self@[insert_location as int] == disp0[insert_location as int]);
                }
                let ghost cell = disp0[insert_location as int];
                if self.memory[insert_location] != bit {
                    self.memory[insert_location] = 1;
                } else {
                    if self.memory[insert_location] == 1 {
                        self.memory[insert_location] = 0;
                        is_pixel_erased = true;
                    }
                }
                proof {
                    assert(self@ =~= blit_upto(disp0, sprite@, x_raw, y_raw, 8 * i + j).update(
                        insert_location as int,
                        pixel_toggle(cell, sprite_bit(sprite@[i as int], j as int)),
                    ));
                    assert(self@ == blit_upto(disp0, sprite@, x_raw, y_raw, 8 * i + j + 1));
                }
                j = j + 1;
            }
            i = i + 1;
        }
        is_pixel_erased
    }
}

} // verus!
