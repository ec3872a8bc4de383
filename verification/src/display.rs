//! The 64x32 monochrome framebuffer with XOR sprite drawing.
//!
//! A sprite is a sequence of row bytes; each set bit toggles one pixel.
//! Columns wrap around the right edge modulo the width; rows that would
//! fall past the bottom edge are clipped, not wrapped. A draw reports a
//! collision when some toggled pixel was already on.

use vstd::prelude::*;
use vstd::arithmetic::div_mod::lemma_fundamental_div_mod;
use vstd::arithmetic::div_mod::lemma_fundamental_div_mod_converse;

verus! {

/// Number of pixel columns.
pub const WIDTH: usize = 64;

/// Number of pixel rows.
pub const HEIGHT: usize = 32;

/// Row-major index of the pixel at column `x`, row `y`.
pub open spec fn px(x: int, y: int) -> int {
    x + y * 64
}

/// The all-off pixel grid.
pub open spec fn blank_grid() -> Seq<bool> {
    Seq::new(2048, |i: int| false)
}

/// Bit `b` of a sprite row byte, counting the most significant bit as bit 0.
pub open spec fn sprite_bit(byte: u8, b: int) -> bool {
    (byte >> ((7 - b) as u8)) & 1 == 1
}

/// How many columns `col` lies to the right of `x0`, walking rightward
/// with wraparound at the width.
pub open spec fn col_offset(x0: int, col: int) -> int {
    if col >= x0 {
        col - x0
    } else {
        col + 64 - x0
    }
}

/// Whether drawing `sprite` anchored at the wrapped position (x0, y0)
/// toggles the pixel at (col, row): the pixel lies under sprite row
/// `row - y0` and bit `col_offset(x0, col)`, and that bit is set.
pub open spec fn draw_flips(sprite: Seq<u8>, x0: int, y0: int, col: int, row: int) -> bool {
    let r = row - y0;
    let b = col_offset(x0, col);
    0 <= r && r < sprite.len() && b < 8 && sprite_bit(sprite[r], b)
}

/// The grid after XOR-drawing `sprite` at (x, y): every pixel covered by a
/// set sprite bit is toggled. Rows past the bottom edge toggle nothing,
/// since only rows `y % 32` and below up to the edge are covered.
pub open spec fn spec_draw(g: Seq<bool>, x: int, y: int, sprite: Seq<u8>) -> Seq<bool> {
    Seq::new(
        2048,
        |i: int|
            if draw_flips(sprite, x % 64, y % 32, i % 64, i / 64) {
                !g[i]
            } else {
                g[i]
            },
    )
}

/// Whether XOR-drawing `sprite` at (x, y) toggles some pixel that is on in `g`.
pub open spec fn spec_collision(g: Seq<bool>, x: int, y: int, sprite: Seq<u8>) -> bool {
    exists|col: int, row: int|
        0 <= col < 64 && 0 <= row < 32 && draw_flips(sprite, x % 64, y % 32, col, row) && g[px(
            col,
            row,
        )]
}

/// Which pixels have been toggled after the draw loop has fully processed
/// sprite rows before `rr` and, within row `rr`, bits before `bb`.
spec fn part_flips(
    sprite: Seq<u8>,
    x0: int,
    y0: int,
    col: int,
    row: int,
    rr: int,
    bb: int,
) -> bool {
    let r = row - y0;
    let b = col_offset(x0, col);
    draw_flips(sprite, x0, y0, col, row) && (r < rr || (r == rr && b < bb))
}

/// The collision flag accumulated so far by a partial draw.
spec fn part_collision(
    g: Seq<bool>,
    sprite: Seq<u8>,
    x0: int,
    y0: int,
    rr: int,
    bb: int,
) -> bool {
    exists|col: int, row: int|
        0 <= col < 64 && 0 <= row < 32 && part_flips(sprite, x0, y0, col, row, rr, bb) && g[px(
            col,
            row,
        )]
}

/// A pixel index splits uniquely into its column and row.
pub proof fn lemma_px(col: int, row: int)
    requires
        0 <= col < 64,
        0 <= row < 32,
    ensures
        0 <= px(col, row) < 2048,
        px(col, row) % 64 == col,
        px(col, row) / 64 == row,
{
    lemma_fundamental_div_mod_converse(px(col, row), 64, row, col);
}

/// Two partial draws that toggle the same pixels report the same collision.
proof fn lemma_part_collision_congruence(
    g: Seq<bool>,
    sprite: Seq<u8>,
    x0: int,
    y0: int,
    rr1: int,
    bb1: int,
    rr2: int,
    bb2: int,
)
    requires
        forall|col: int, row: int|
            0 <= col < 64 && 0 <= row < 32 ==> part_flips(sprite, x0, y0, col, row, rr1, bb1)
                == part_flips(sprite, x0, y0, col, row, rr2, bb2),
    ensures
        part_collision(g, sprite, x0, y0, rr1, bb1) == part_collision(g, sprite, x0, y0, rr2, bb2),
{
    if part_collision(g, sprite, x0, y0, rr1, bb1) {
        let (col, row) = choose|col: int, row: int|
            0 <= col < 64 && 0 <= row < 32 && part_flips(sprite, x0, y0, col, row, rr1, bb1) && g[px(
                col,
                row,
            )];
        assert(part_flips(sprite, x0, y0, col, row, rr2, bb2));
        assert(part_collision(g, sprite, x0, y0, rr2, bb2));
    }
    if part_collision(g, sprite, x0, y0, rr2, bb2) {
        let (col, row) = choose|col: int, row: int|
            0 <= col < 64 && 0 <= row < 32 && part_flips(sprite, x0, y0, col, row, rr2, bb2) && g[px(
                col,
                row,
            )];
        assert(part_flips(sprite, x0, y0, col, row, rr1, bb1));
        assert(part_collision(g, sprite, x0, y0, rr1, bb1));
    }
}

/// The 64x32 monochrome framebuffer, stored row-major.
pub struct Display {
    pub data: Vec<bool>,
}

impl View for Display {
    type V = Seq<bool>;

    open spec fn view(&self) -> Seq<bool> {
        self.data@
    }
}

impl Display {
    /// The grid always holds exactly one flag per pixel.
    pub open spec fn wf(&self) -> bool {
        self.data.len() == 2048
    }

    pub fn new() -> (d: Display)
        ensures
            d.wf(),
            d@ == blank_grid(),
    {
        let mut data: Vec<bool> = Vec::new();
        let mut i: usize = 0;
        while i < 2048
            invariant
                i <= 2048,
                data.len() == i,
                forall|j: int| 0 <= j < i ==> !data@[j],
            decreases 2048 - i,
        {
            data.push(false);
            i += 1;
        }
        Display { data }
    }

    pub fn set_pixel(&mut self, x: usize, y: usize, state: bool)
        requires
            old(self).wf(),
            x < 64,
            y < 32,
        ensures
            final(self).wf(),
            final(self)@ == old(self)@.update(px(x as int, y as int), state),
    {
        let i = xy_to_idx(x, y);
        self.data.set(i, state);
    }

    pub fn get_pixel(&self, x: usize, y: usize) -> (on: bool)
        requires
            self.wf(),
            x < 64,
            y < 32,
        ensures
            on == self@[px(x as int, y as int)],
    {
        let i = xy_to_idx(x, y);
        self.data[i]
    }

    /// Toggles one pixel and reports whether it was on before the toggle.
    fn flip_pixel(&mut self, x: usize, y: usize) -> (was: bool)
        requires
            old(self).wf(),
            x < 64,
            y < 32,
        ensures
            final(self).wf(),
            final(self)@ == old(self)@.update(
                px(x as int, y as int),
                !old(self)@[px(x as int, y as int)],
            ),
            was == old(self)@[px(x as int, y as int)],
    {
        let prev = self.get_pixel(x, y);
        self.set_pixel(x, y, !prev);
        prev
    }

    /// XOR-draws `sprite` at (x, y) and reports whether any toggled pixel
    /// was already on.
    pub fn draw(&mut self, x: usize, y: usize, sprite: &[u8]) -> (collision: bool)
        requires
            old(self).wf(),
        ensures
            final(self).wf(),
            final(self)@ == spec_draw(old(self)@, x as int, y as int, sprite@),
            collision == spec_collision(old(self)@, x as int, y as int, sprite@),
    {
        let ghost g = old(self)@;
        let x0 = x % WIDTH;
        let y0 = y % HEIGHT;
        let mut collision = false;
        let mut r: usize = 0;
        while r < sprite.len() && y0 + r < 32
            invariant
                self.wf(),
                g.len() == 2048,
                g == old(self)@,
                x0 == x as int % 64,
                y0 == y as int % 32,
                x0 < 64,
                y0 < 32,
                r <= sprite.len(),
                y0 + r <= 32,
                forall|col: int, row: int|
                    0 <= col < 64 && 0 <= row < 32 ==> self@[px(col, row)] == (if part_flips(
                        sprite@,
                        x0 as int,
                        y0 as int,
                        col,
                        row,
                        r as int,
                        0,
                    ) {
                        !g[px(col, row)]
                    } else {
                        g[px(col, row)]
                    }),
                collision == part_collision(g, sprite@, x0 as int, y0 as int, r as int, 0),
            decreases sprite.len() - r,
        {
            let byte = sprite[r];
            let rowy = y0 + r;
            let mut b: usize = 0;
            while b < 8
                invariant
                    self.wf(),
                    g.len() == 2048,
                    g == old(self)@,
                    x0 < 64,
                    y0 < 32,
                    r < sprite.len(),
                    rowy == y0 + r,
                    rowy < 32,
                    byte == sprite@[r as int],
                    b <= 8,
                    forall|col: int, row: int|
                        0 <= col < 64 && 0 <= row < 32 ==> self@[px(col, row)] == (if part_flips(
                            sprite@,
                            x0 as int,
                            y0 as int,
                            col,
                            row,
                            r as int,
                            b as int,
                        ) {
                            !g[px(col, row)]
                        } else {
                            g[px(col, row)]
                        }),
                    collision == part_collision(g, sprite@, x0 as int, y0 as int, r as int, b as int),
                decreases 8 - b,
            {
                let shift: u8 = (7 - b) as u8;
                let bit = (byte >> shift) & 1 == 1;
                let ghost x0i = x0 as int;
                let ghost y0i = y0 as int;
                let ghost ri = r as int;
                let ghost bi = b as int;
                if bit {
                    let col = if x0 + b < WIDTH {
                        x0 + b
                    } else {
                        x0 + b - WIDTH
                    };
                    let was = self.flip_pixel(col, rowy);
                    if was {
                        collision = true;
                    }
                    proof {
                        let ci = col as int;
                        let rowi = rowy as int;
                        lemma_px(ci, rowi);
                        assert(col_offset(x0i, ci) == bi);
                        assert(sprite_bit(sprite@[ri], bi));
                        assert(draw_flips(sprite@, x0i, y0i, ci, rowi));
                        // the pixel's own bit had not been processed yet
                        assert(!part_flips(sprite@, x0i, y0i, ci, rowi, ri, bi));
                        assert(was == g[px(ci, rowi)]);
                        assert forall|col2: int, row2: int| 0 <= col2 < 64 && 0 <= row2 < 32 implies
                            self@[px(col2, row2)] == (if part_flips(
                                sprite@,
                                x0i,
                                y0i,
                                col2,
                                row2,
                                ri,
                                bi + 1,
                            ) {
                                !g[px(col2, row2)]
                            } else {
                                g[px(col2, row2)]
                            }) by {
                            lemma_px(col2, row2);
                            if px(col2, row2) == px(ci, rowi) {
                                assert(col2 == ci && row2 == rowi);
                            } else {
                                // a different pixel recovers a different (row, bit) pair
                                assert(!(row2 - y0i == ri && col_offset(x0i, col2) == bi));
                            }
                        }
                        // collision flag: the newly processed bit contributes g[px(ci, rowi)]
                        if collision {
                            if was {
                                assert(part_flips(sprite@, x0i, y0i, ci, rowi, ri, bi + 1));
                                assert(part_collision(g, sprite@, x0i, y0i, ri, bi + 1));
                            } else {
                                let (c3, r3) = choose|c3: int, r3: int|
                                    0 <= c3 < 64 && 0 <= r3 < 32 && part_flips(
                                        sprite@,
                                        x0i,
                                        y0i,
                                        c3,
                                        r3,
                                        ri,
                                        bi,
                                    ) && g[px(c3, r3)];
                                assert(part_flips(sprite@, x0i, y0i, c3, r3, ri, bi + 1));
                                assert(part_collision(g, sprite@, x0i, y0i, ri, bi + 1));
                            }
                        } else {
                            assert(!part_collision(g, sprite@, x0i, y0i, ri, bi));
                            if part_collision(g, sprite@, x0i, y0i, ri, bi + 1) {
                                let (c3, r3) = choose|c3: int, r3: int|
                                    0 <= c3 < 64 && 0 <= r3 < 32 && part_flips(
                                        sprite@,
                                        x0i,
                                        y0i,
                                        c3,
                                        r3,
                                        ri,
                                        bi + 1,
                                    ) && g[px(c3, r3)];
                                lemma_px(c3, r3);
                                if r3 - y0i == ri && col_offset(x0i, c3) == bi {
                                    assert(c3 == ci && r3 == rowi);
                                    assert(g[px(ci, rowi)]);
                                    assert(false);
                                } else {
                                    assert(part_flips(sprite@, x0i, y0i, c3, r3, ri, bi));
                                    assert(part_collision(g, sprite@, x0i, y0i, ri, bi));
                                    assert(false);
                                }
                            }
                        }
                    }
                } else {
                    proof {
                        assert forall|col2: int, row2: int| 0 <= col2 < 64 && 0 <= row2 < 32 implies
                            part_flips(sprite@, x0i, y0i, col2, row2, ri, bi + 1) == part_flips(
                                sprite@,
                                x0i,
                                y0i,
                                col2,
                                row2,
                                ri,
                                bi,
                            ) by {
                            if row2 - y0i == ri && col_offset(x0i, col2) == bi {
                                // this bit of the sprite row is clear, so neither bound flips it
                                assert(!sprite_bit(sprite@[ri], bi));
                            }
                        }
                        lemma_part_collision_congruence(g, sprite@, x0i, y0i, ri, bi + 1, ri, bi);
                    }
                }
                b += 1;
            }
            proof {
                let x0i = x0 as int;
                let y0i = y0 as int;
                let ri = r as int;
                assert forall|col2: int, row2: int| 0 <= col2 < 64 && 0 <= row2 < 32 implies
                    part_flips(sprite@, x0i, y0i, col2, row2, ri + 1, 0) == part_flips(
                        sprite@,
                        x0i,
                        y0i,
                        col2,
                        row2,
                        ri,
                        8,
                    ) by {
                    assert(col_offset(x0i, col2) < 8 || !draw_flips(sprite@, x0i, y0i, col2, row2));
                }
                lemma_part_collision_congruence(g, sprite@, x0i, y0i, ri + 1, 0, ri, 8);
            }
            r += 1;
        }
        proof {
            let x0i = x0 as int;
            let y0i = y0 as int;
            let ri = r as int;
            // past the loop every covered row is processed: either the whole
            // sprite was drawn or the remaining rows fall below the bottom edge
            assert forall|col2: int, row2: int| 0 <= col2 < 64 && 0 <= row2 < 32 implies
                part_flips(sprite@, x0i, y0i, col2, row2, ri, 0) == draw_flips(
                    sprite@,
                    x0i,
                    y0i,
                    col2,
                    row2,
                ) by {}
            assert forall|i: int| 0 <= i < 2048 implies self@[i] == spec_draw(
                g,
                x as int,
                y as int,
                sprite@,
            )[i] by {
                lemma_px_inv(i);
            }
            assert(self@ =~= spec_draw(g, x as int, y as int, sprite@));
            if collision {
                let (c3, r3) = choose|c3: int, r3: int|
                    0 <= c3 < 64 && 0 <= r3 < 32 && part_flips(sprite@, x0i, y0i, c3, r3, ri, 0)
                        && g[px(c3, r3)];
                assert(draw_flips(sprite@, x0i, y0i, c3, r3));
                assert(spec_collision(g, x as int, y as int, sprite@));
            } else {
                if spec_collision(g, x as int, y as int, sprite@) {
                    let (c3, r3) = choose|c3: int, r3: int|
                        0 <= c3 < 64 && 0 <= r3 < 32 && draw_flips(sprite@, x0i, y0i, c3, r3)
                            && g[px(c3, r3)];
                    assert(part_flips(sprite@, x0i, y0i, c3, r3, ri, 0));
                    assert(part_collision(g, sprite@, x0i, y0i, ri, 0));
                    assert(false);
                }
            }
        }
        collision
    }

    /// Turns every pixel off.
    pub fn clear(&mut self)
        requires
            old(self).wf(),
        ensures
            final(self).wf(),
            final(self)@ == blank_grid(),
    {
        let mut i: usize = 0;
        while i < 2048
            invariant
                self.wf(),
                i <= 2048,
                forall|j: int| 0 <= j < i ==> !self@[j],
            decreases 2048 - i,
        {
            let ghost prev = self@;
            self.data.set(i, false);
            proof {
                assert forall|j: int| 0 <= j < i + 1 implies !self@[j] by {
                    if j < i {
                        assert(!prev[j]);
                    }
                }
            }
            i += 1;
        }
        assert(self@ =~= blank_grid());
    }
}

/// A pixel index recovers its column and row.
pub proof fn lemma_px_inv(i: int)
    requires
        0 <= i < 2048,
    ensures
        0 <= i % 64 < 64,
        0 <= i / 64 < 32,
        px(i % 64, i / 64) == i,
{
    lemma_fundamental_div_mod(i, 64);
}

/// Law: drawing an all-zero sprite leaves the grid unchanged and reports
/// no collision.
pub proof fn lemma_draw_zero_sprite(g: Seq<bool>, x: int, y: int, sprite: Seq<u8>)
    requires
        g.len() == 2048,
        forall|r: int| 0 <= r < sprite.len() ==> sprite[r] == 0,
    ensures
        spec_draw(g, x, y, sprite) == g,
        !spec_collision(g, x, y, sprite),
{
    assert(forall|k: u8| (0u8 >> k) & 1 == 0) by (bit_vector);
    assert forall|col: int, row: int| 0 <= col < 64 && 0 <= row < 32 implies !(#[trigger] draw_flips(
        sprite,
        x % 64,
        y % 32,
        col,
        row,
    )) by {
        let r = row - y % 32;
        if 0 <= r && r < sprite.len() {
            assert(sprite[r] == 0);
        }
    }
    assert forall|i: int| 0 <= i < 2048 implies spec_draw(g, x, y, sprite)[i] == g[i] by {
        lemma_px_inv(i);
    }
    assert(spec_draw(g, x, y, sprite) =~= g);
}

/// Law: XOR drawing is self-inverting, so drawing the same sprite twice at
/// the same position restores the original grid.
pub proof fn lemma_draw_involutive(g: Seq<bool>, x: int, y: int, sprite: Seq<u8>)
    requires
        g.len() == 2048,
    ensures
        spec_draw(spec_draw(g, x, y, sprite), x, y, sprite) == g,
{
    let g1 = spec_draw(g, x, y, sprite);
    assert forall|i: int| 0 <= i < 2048 implies spec_draw(g1, x, y, sprite)[i] == g[i] by {}
    assert(spec_draw(g1, x, y, sprite) =~= g);
}

/// Law: after a first draw has toggled every covered pixel, a second draw of
/// the same sprite at the same position collides exactly when some covered
/// pixel was off before the first draw.
pub proof fn lemma_second_draw_collision(g: Seq<bool>, x: int, y: int, sprite: Seq<u8>)
    requires
        g.len() == 2048,
    ensures
        spec_collision(spec_draw(g, x, y, sprite), x, y, sprite) == exists|col: int, row: int|
            0 <= col < 64 && 0 <= row < 32 && draw_flips(sprite, x % 64, y % 32, col, row)
                && !g[px(col, row)],
{
    let g1 = spec_draw(g, x, y, sprite);
    if spec_collision(g1, x, y, sprite) {
        let (col, row) = choose|col: int, row: int|
            0 <= col < 64 && 0 <= row < 32 && draw_flips(sprite, x % 64, y % 32, col, row) && g1[px(
                col,
                row,
            )];
        lemma_px(col, row);
        assert(g1[px(col, row)] == !g[px(col, row)]);
        assert(exists|col: int, row: int|
            0 <= col < 64 && 0 <= row < 32 && draw_flips(sprite, x % 64, y % 32, col, row) && !g[px(
                col,
                row,
            )]);
    }
    if exists|col: int, row: int|
        0 <= col < 64 && 0 <= row < 32 && draw_flips(sprite, x % 64, y % 32, col, row) && !g[px(
            col,
            row,
        )] {
        let (col, row) = choose|col: int, row: int|
            0 <= col < 64 && 0 <= row < 32 && draw_flips(sprite, x % 64, y % 32, col, row) && !g[px(
                col,
                row,
            )];
        lemma_px(col, row);
        assert(g1[px(col, row)]);
        assert(spec_collision(g1, x, y, sprite));
    }
}

/// Law: a sprite byte drawn at the rightmost column wraps around: bit 0
/// lands on column 63 and every later bit `b` wraps to column `b - 1`.
pub proof fn lemma_column_wraparound(g: Seq<bool>, y: int, byte: u8, b: int)
    requires
        g.len() == 2048,
        0 <= y < 32,
        1 <= b < 8,
    ensures
        spec_draw(g, 63, y, seq![byte])[px(b - 1, y)] == (if sprite_bit(byte, b) {
            !g[px(b - 1, y)]
        } else {
            g[px(b - 1, y)]
        }),
        spec_draw(g, 63, y, seq![byte])[px(63, y)] == (if sprite_bit(byte, 0) {
            !g[px(63, y)]
        } else {
            g[px(63, y)]
        }),
{
    lemma_px(b - 1, y);
    lemma_px(63, y);
    assert(col_offset(63, b - 1) == b);
    assert(col_offset(63, 63) == 0);
}

/// Law: rows above the anchor row are never touched, since rows clip at the
/// bottom edge instead of wrapping back to the top.
pub proof fn lemma_no_vertical_wraparound(
    g: Seq<bool>,
    x: int,
    y: int,
    sprite: Seq<u8>,
    col: int,
    row: int,
)
    requires
        g.len() == 2048,
        0 <= col < 64,
        0 <= row < 32,
        row < y % 32,
    ensures
        spec_draw(g, x, y, sprite)[px(col, row)] == g[px(col, row)],
{
    lemma_px(col, row);
}

/// Law: sprite rows that would fall past the bottom edge are clipped:
/// drawing a tall sprite equals drawing just its rows that fit on screen.
pub proof fn lemma_bottom_clipping(g: Seq<bool>, x: int, y: int, sprite: Seq<u8>)
    requires
        g.len() == 2048,
        sprite.len() >= 32 - y % 32,
    ensures
        spec_draw(g, x, y, sprite) == spec_draw(g, x, y, sprite.subrange(0, 32 - y % 32)),
        spec_collision(g, x, y, sprite) == spec_collision(
            g,
            x,
            y,
            sprite.subrange(0, 32 - y % 32),
        ),
{
    let pre = sprite.subrange(0, 32 - y % 32);
    assert forall|col: int, row: int| 0 <= col < 64 && 0 <= row < 32 implies (#[trigger] draw_flips(
        sprite,
        x % 64,
        y % 32,
        col,
        row,
    )) == draw_flips(pre, x % 64, y % 32, col, row) by {
        let r = row - y % 32;
        if 0 <= r && r < pre.len() {
            assert(pre[r] == sprite[r]);
        }
    }
    assert forall|i: int| 0 <= i < 2048 implies spec_draw(g, x, y, sprite)[i] == spec_draw(
        g,
        x,
        y,
        pre,
    )[i] by {
        lemma_px_inv(i);
    }
    assert(spec_draw(g, x, y, sprite) =~= spec_draw(g, x, y, pre));
    if spec_collision(g, x, y, sprite) {
        let (col, row) = choose|col: int, row: int|
            0 <= col < 64 && 0 <= row < 32 && draw_flips(sprite, x % 64, y % 32, col, row) && g[px(
                col,
                row,
            )];
        assert(draw_flips(pre, x % 64, y % 32, col, row));
        assert(spec_collision(g, x, y, pre));
    }
    if spec_collision(g, x, y, pre) {
        let (col, row) = choose|col: int, row: int|
            0 <= col < 64 && 0 <= row < 32 && draw_flips(pre, x % 64, y % 32, col, row) && g[px(
                col,
                row,
            )];
        assert(draw_flips(sprite, x % 64, y % 32, col, row));
        assert(spec_collision(g, x, y, sprite));
    }
}

fn xy_to_idx(x: usize, y: usize) -> (i: usize)
    requires
        x < 64,
        y < 32,
    ensures
        i == px(x as int, y as int),
        i < 2048,
{
    x + y * 64
}

} // verus!
