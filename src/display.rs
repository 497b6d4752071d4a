use vstd::arithmetic::div_mod::{lemma_add_mod_noop, lemma_fundamental_div_mod};
use vstd::prelude::*;

verus! {

/// Width of the framebuffer in pixels.
pub const WIDTH: usize = 64;

/// Height of the framebuffer in pixels.
pub const HEIGHT: usize = 32;

/// Monochrome 64x32 framebuffer, stored row-major: pixel `(x, y)` is `fb[x + y * WIDTH]`.
pub struct Display {
    pub need_redraw: bool,
    pub fb: [bool; 2048],
}

/// Whether column `i` (0 = leftmost) of a sprite row is set.
pub open spec fn sprite_bit(row: u8, i: int) -> bool {
    0 <= i < 8 && (row >> ((7 - i) as u8)) & 1u8 == 1u8
}

/// Horizontal offset, within a sprite row drawn at `x`, of screen column `c`.
pub open spec fn col_offset(x: int, c: int) -> int {
    (c - x) % (WIDTH as int)
}

/// Whether drawing the first `k` columns of `row` at column `x` on screen row `ry`
/// toggles pixel index `p`.
pub open spec fn row_toggles(x: int, ry: int, row: u8, k: int, p: int) -> bool {
    &&& p / (WIDTH as int) == ry
    &&& col_offset(x, p % (WIDTH as int)) < k
    &&& sprite_bit(row, col_offset(x, p % (WIDTH as int)))
}

/// The framebuffer after XOR-ing the first `k` columns of one sprite row into screen row `ry`.
pub open spec fn apply_row(fb: Seq<bool>, x: int, ry: int, row: u8, k: int) -> Seq<bool> {
    Seq::new(fb.len(), |p: int| fb[p] != row_toggles(x, ry, row, k, p))
}

/// Whether one of the first `k` set columns of `row`, drawn at `(x, ry)`, lands on a lit pixel.
pub open spec fn row_hits(fb: Seq<bool>, x: int, ry: int, row: u8, k: int) -> bool
    decreases k,
{
    if k <= 0 {
        false
    } else {
        row_hits(fb, x, ry, row, k - 1) || (sprite_bit(row, k - 1) && fb[ry * (WIDTH as int)
            + (x + k - 1) % (WIDTH as int)])
    }
}

/// Screen row on which sprite row `j` lands when the sprite is drawn at row `y`.
pub open spec fn wrap_row(y: int, j: int) -> int {
    (y + j) % (HEIGHT as int)
}

/// The framebuffer after drawing `sprite` at `(x, y)`, one row after another.
pub open spec fn draw_fb(fb: Seq<bool>, x: int, y: int, sprite: Seq<u8>) -> Seq<bool>
    decreases sprite.len(),
{
    if sprite.len() == 0 {
        fb
    } else {
        let j = sprite.len() - 1;
        apply_row(draw_fb(fb, x, y, sprite.drop_last()), x, wrap_row(y, j), sprite.last(), 8)
    }
}

/// Whether drawing `sprite` at `(x, y)` ever turns off a lit pixel.
pub open spec fn draw_collides(fb: Seq<bool>, x: int, y: int, sprite: Seq<u8>) -> bool
    decreases sprite.len(),
{
    if sprite.len() == 0 {
        false
    } else {
        let j = sprite.len() - 1;
        draw_collides(fb, x, y, sprite.drop_last()) || row_hits(
            draw_fb(fb, x, y, sprite.drop_last()),
            x,
            wrap_row(y, j),
            sprite.last(),
            8,
        )
    }
}

/// Pixel index of screen coordinates.
pub open spec fn pixel_index(x: int, y: int) -> int {
    x + y * (WIDTH as int)
}

pub(crate) proof fn lemma_row_step(x: int, ry: int, row: u8, i: int, xc: int)
    requires
        0 <= ry < HEIGHT,
        0 <= i < 8,
        xc == (x + i) % (WIDTH as int),
    ensures
        0 <= ry * 64 + xc < 2048,
        (ry * 64 + xc) / 64 == ry,
        (ry * 64 + xc) % 64 == xc,
        col_offset(x, xc) == i,
        forall|p: int|
            #![trigger p / 64, p % 64]
            0 <= p && p / 64 == ry && col_offset(x, p % 64) == i ==> p == ry * 64 + xc,
{
    assert(0 <= ry * 64 + xc < 2048) by (nonlinear_arith)
        requires
            0 <= ry < 32,
            0 <= xc < 64,
    ;
    assert((ry * 64 + xc) / 64 == ry && (ry * 64 + xc) % 64 == xc) by (nonlinear_arith)
        requires
            0 <= ry < 32,
            0 <= xc < 64,
    ;
    assert(col_offset(x, xc) == i) by {
        lemma_add_mod_noop(x + i, -x, 64);
        assert((x + i) % 64 + (-x) % 64 == xc + (-x) % 64);
        lemma_add_mod_noop(xc, -x, 64);
    }
    assert forall|p: int|
        #![trigger p / 64, p % 64]
        0 <= p && p / 64 == ry && col_offset(x, p % 64) == i implies p == ry * 64 + xc by {
        lemma_fundamental_div_mod(p, 64);
        let c = p % 64;
        lemma_add_mod_noop(c - x, x, 64);
        lemma_add_mod_noop(i, x, 64);
    }
}

impl Display {
    pub fn new() -> (r: Self)
        ensures
            !r.need_redraw,
            forall|p: int| 0 <= p < 2048 ==> !r.fb@[p],
    {
        Display { need_redraw: false, fb: [false; 2048] }
    }

    pub fn clear(&mut self)
        ensures
            final(self).need_redraw,
            forall|p: int| 0 <= p < 2048 ==> !final(self).fb@[p],
    {
        self.need_redraw = true;
        self.fb = [false; 2048];
    }

    pub fn set_pixel(&mut self, x: usize, y: usize, val: bool)
        requires
            x < WIDTH,
            y < HEIGHT,
        ensures
            final(self).fb@ == old(self).fb@.update(pixel_index(x as int, y as int), val),
            final(self).need_redraw == old(self).need_redraw,
    {
        self.fb[x + y * WIDTH] = val;
    }

    pub fn get_pixel(&self, x: usize, y: usize) -> (r: bool)
        requires
            x < WIDTH,
            y < HEIGHT,
        ensures
            r == self.fb@[pixel_index(x as int, y as int)],
    {
        self.fb[x + y * WIDTH]
    }

    /// XOR-draws `sprite` (one byte per row, most significant bit leftmost) with its
    /// top-left corner at `(x, y)`, wrapping around the screen edges. Returns whether
    /// a lit pixel was turned off.
    pub fn draw_sprite(&mut self, x: usize, y: usize, sprite: &[u8]) -> (collision: bool)
        ensures
            final(self).fb@ == draw_fb(old(self).fb@, x as int, y as int, sprite@),
            collision == draw_collides(old(self).fb@, x as int, y as int, sprite@),
            final(self).need_redraw,
    {
        let ghost fb0 = self.fb@;
        let xm: usize = x % WIDTH;
        let ym: usize = y % HEIGHT;
        let rows: usize = sprite.len();
        let mut collision: bool = false;
        let mut j: usize = 0;
        while j < rows
            invariant
                rows == sprite@.len(),
                xm == x % 64,
                ym == y % 32,
                j <= rows,
                self.fb@ == draw_fb(fb0, x as int, y as int, sprite@.take(j as int)),
                collision == draw_collides(fb0, x as int, y as int, sprite@.take(j as int)),
            decreases rows - j,
        {
            let row: u8 = sprite[j];
            let yj: usize = (ym + j % HEIGHT) % HEIGHT;
            proof {
                lemma_add_mod_noop(y as int, j as int, 32);
                assert(sprite@.take(j + 1).drop_last() =~= sprite@.take(j as int));
                assert(sprite@.take(j + 1).last() == row);
            }
            let ghost fb_r = self.fb@;
            let mut i: u8 = 0;
            while i < 8
                invariant
                    xm == x % 64,
                    yj < 32,
                    i <= 8,
                    fb_r.len() == 2048,
                    self.fb@ == apply_row(fb_r, x as int, yj as int, row, i as int),
                    collision == (draw_collides(fb0, x as int, y as int, sprite@.take(j as int))
                        || row_hits(fb_r, x as int, yj as int, row, i as int)),
                decreases 8 - i,
            {
                let bit: u8 = (row >> (7 - i)) & 0x01;
                let xc: usize = (xm + i as usize) % WIDTH;
                proof {
                    lemma_add_mod_noop(x as int, i as int, 64);
                    lemma_row_step(x as int, yj as int, row, i as int, xc as int);
                }
                if bit == 1 {
                    let old_value: bool = self.get_pixel(xc, yj);
                    if old_value {
                        collision = true;
                    }
                    self.set_pixel(xc, yj, !old_value);
                }
                proof {
                    assert(self.fb@ =~= apply_row(fb_r, x as int, yj as int, row, i + 1));
                }
                i = i + 1;
            }
            j = j + 1;
        }
        proof {
            assert(sprite@.take(rows as int) =~= sprite@);
        }
        self.need_redraw = true;
        collision
    }
}

} // verus!
