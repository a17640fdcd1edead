//! The sprite-draw instruction's mathematics: an XOR blit with collision
//! detection, toroidal wraparound, and its characterization pixel by pixel.

use vstd::prelude::*;
use crate::state::Chip8View;

verus! {

/// Framebuffer plus collision flag while a sprite is being drawn.
#[verifier::ext_equal]
pub ghost struct DrawState {
    /// The framebuffer being mutated.
    pub video: Seq<u8>,
    /// The collision flag accumulated so far: raised to 1, never lowered.
    pub flag: u8,
}

/// Whether bit `col` (most significant first) of a sprite byte is set.
pub open spec fn sprite_on(sprite: u8, col: int) -> bool {
    sprite & (0x80u8 >> (col as u8)) != 0
}

/// A pixel flipped by the XOR blit.
pub open spec fn flip(b: u8) -> u8 {
    b ^ 0xFF
}

/// The framebuffer cell hit by sprite bit `col` of sprite row `row` when the
/// sprite's top-left corner is at `(x0, y0)`: both coordinates wrap.
pub open spec fn target_px(x0: int, y0: int, row: int, col: int) -> int {
    ((y0 + row) % 32) * 64 + ((x0 + col) % 64)
}

/// One sprite bit applied to the framebuffer: a set bit flips its target
/// pixel and raises the collision flag if that pixel was fully on.
pub open spec fn draw_cell(ds: DrawState, sprite: u8, x0: int, y0: int, col: int, row: int) -> DrawState {
    if sprite_on(sprite, col) {
        let p = target_px(x0, y0, row, col);
        DrawState {
            video: ds.video.update(p, flip(ds.video[p])),
            flag: if ds.video[p] == 0xFF { 1 } else { ds.flag },
        }
    } else {
        ds
    }
}

/// The first `c` bits of one sprite row applied in order.
pub open spec fn draw_row(ds: DrawState, sprite: u8, x0: int, y0: int, row: int, c: int) -> DrawState
    decreases c,
{
    if c <= 0 {
        ds
    } else {
        draw_cell(draw_row(ds, sprite, x0, y0, row, c - 1), sprite, x0, y0, c - 1, row)
    }
}

/// The first `r` rows of a sprite read from `mem[index..]` applied in order.
pub open spec fn draw_sprite(ds: DrawState, mem: Seq<u8>, index: int, x0: int, y0: int, r: int) -> DrawState
    decreases r,
{
    if r <= 0 {
        ds
    } else {
        draw_row(draw_sprite(ds, mem, index, x0, y0, r - 1), mem[index + r - 1], x0, y0, r - 1, 8)
    }
}

/// Whether some set bit among the first `c` of sprite row `row` targets pixel `p`.
pub open spec fn row_covers(sprite: u8, x0: int, y0: int, row: int, c: int, p: int) -> bool {
    exists|col: int|
        #![trigger target_px(x0, y0, row, col)]
        0 <= col < c && sprite_on(sprite, col) && target_px(x0, y0, row, col) == p
}

/// Whether some set bit among the first `c` of sprite row `row` targets a
/// pixel of `video` that is fully on.
pub open spec fn row_collides(video: Seq<u8>, sprite: u8, x0: int, y0: int, row: int, c: int) -> bool {
    exists|col: int|
        #![trigger target_px(x0, y0, row, col)]
        0 <= col < c && sprite_on(sprite, col) && video[target_px(x0, y0, row, col)] == 0xFF
}

/// Whether some set bit of the `n`-row sprite at `mem[index..]` targets pixel `p`.
pub open spec fn sprite_covers(mem: Seq<u8>, index: int, x0: int, y0: int, n: int, p: int) -> bool {
    exists|row: int, col: int|
        #![trigger target_px(x0, y0, row, col)]
        0 <= row < n && 0 <= col < 8 && sprite_on(mem[index + row], col)
            && target_px(x0, y0, row, col) == p
}

/// Whether some set bit of the sprite targets a fully-on pixel of `video`.
pub open spec fn sprite_collides(video: Seq<u8>, mem: Seq<u8>, index: int, x0: int, y0: int, n: int) -> bool {
    exists|row: int, col: int|
        #![trigger target_px(x0, y0, row, col)]
        0 <= row < n && 0 <= col < 8 && sprite_on(mem[index + row], col)
            && video[target_px(x0, y0, row, col)] == 0xFF
}

/// Every target cell lies inside the 64x32 framebuffer.
pub proof fn lemma_target_in_range(x0: int, y0: int, row: int, col: int)
    ensures
        0 <= target_px(x0, y0, row, col) < 2048,
{
}

/// Reduction of a wrapped coordinate that overshoots by less than one full
/// turn: the modulus subtracts the period at most once.
pub proof fn lemma_mod_halfopen(a: int, m: int)
    requires
        0 < m,
        0 <= a < 2 * m,
    ensures
        a % m == if a < m { a } else { a - m },
{
    if a < m {
        assert(a % m == a) by (nonlinear_arith)
            requires 0 <= a < m;
    } else {
        assert(a % m == a - m) by (nonlinear_arith)
            requires m <= a < 2 * m, 0 < m;
    }
}

/// Distinct sprite bits of one draw hit distinct framebuffer cells: rows that
/// differ by less than the screen height stay distinct under wraparound, and
/// so do columns that differ by less than the screen width.
pub proof fn lemma_target_injective(x0: int, y0: int, row1: int, col1: int, row2: int, col2: int)
    requires
        0 <= x0 < 64,
        0 <= y0 < 32,
        0 <= row1 < 32,
        0 <= row2 < 32,
        0 <= col1 < 8,
        0 <= col2 < 8,
        row1 != row2 || col1 != col2,
    ensures
        target_px(x0, y0, row1, col1) != target_px(x0, y0, row2, col2),
{
    let a1 = (y0 + row1) % 32;
    let a2 = (y0 + row2) % 32;
    let b1 = (x0 + col1) % 64;
    let b2 = (x0 + col2) % 64;
    lemma_mod_halfopen(y0 + row1, 32);
    lemma_mod_halfopen(y0 + row2, 32);
    lemma_mod_halfopen(x0 + col1, 64);
    lemma_mod_halfopen(x0 + col2, 64);
    assert(0 <= a1 < 32 && 0 <= a2 < 32 && 0 <= b1 < 64 && 0 <= b2 < 64);
    if row1 != row2 {
        assert(a1 != a2);
    } else {
        assert(b1 != b2);
    }
}

/// A set of fewer bits covers nothing extra: unrolling the column count by
/// one adds exactly the cell of the newly counted bit.
pub proof fn lemma_row_covers_step(sprite: u8, x0: int, y0: int, row: int, c: int, p: int)
    requires
        c > 0,
    ensures
        row_covers(sprite, x0, y0, row, c, p) <==> (row_covers(sprite, x0, y0, row, c - 1, p)
            || (sprite_on(sprite, c - 1) && target_px(x0, y0, row, c - 1) == p)),
{
    if row_covers(sprite, x0, y0, row, c, p) {
        let col = choose|col: int|
            0 <= col < c && sprite_on(sprite, col) && target_px(x0, y0, row, col) == p;
        if col < c - 1 {
            assert(row_covers(sprite, x0, y0, row, c - 1, p));
        }
    }
    if row_covers(sprite, x0, y0, row, c - 1, p) {
        let col = choose|col: int|
            0 <= col < c - 1 && sprite_on(sprite, col) && target_px(x0, y0, row, col) == p;
        assert(0 <= col < c && sprite_on(sprite, col) && target_px(x0, y0, row, col) == p);
        assert(row_covers(sprite, x0, y0, row, c, p));
    }
    if sprite_on(sprite, c - 1) && target_px(x0, y0, row, c - 1) == p {
        assert(row_covers(sprite, x0, y0, row, c, p));
    }
}

/// The column-count unrolling of `row_collides`, like `lemma_row_covers_step`.
pub proof fn lemma_row_collides_step(video: Seq<u8>, sprite: u8, x0: int, y0: int, row: int, c: int)
    requires
        c > 0,
    ensures
        row_collides(video, sprite, x0, y0, row, c) <==> (row_collides(video, sprite, x0, y0, row, c - 1)
            || (sprite_on(sprite, c - 1) && video[target_px(x0, y0, row, c - 1)] == 0xFF)),
{
    if row_collides(video, sprite, x0, y0, row, c) {
        let col = choose|col: int|
            0 <= col < c && sprite_on(sprite, col) && video[target_px(x0, y0, row, col)] == 0xFF;
        if col < c - 1 {
            assert(row_collides(video, sprite, x0, y0, row, c - 1));
        }
    }
    if row_collides(video, sprite, x0, y0, row, c - 1) {
        let col = choose|col: int|
            0 <= col < c - 1 && sprite_on(sprite, col) && video[target_px(x0, y0, row, col)] == 0xFF;
        assert(0 <= col < c && sprite_on(sprite, col) && video[target_px(x0, y0, row, col)] == 0xFF);
        assert(row_collides(video, sprite, x0, y0, row, c));
    }
    if sprite_on(sprite, c - 1) && video[target_px(x0, y0, row, c - 1)] == 0xFF {
        assert(row_collides(video, sprite, x0, y0, row, c));
    }
}

/// Drawing the first `c` bits of one row changes exactly the covered pixels,
/// flipping each, and raises the flag exactly when a set bit meets a fully-on
/// pixel of the starting framebuffer.
pub proof fn lemma_draw_row_pointwise(ds: DrawState, sprite: u8, x0: int, y0: int, row: int, c: int)
    requires
        0 <= x0 < 64,
        0 <= y0 < 32,
        0 <= row < 32,
        0 <= c <= 8,
        ds.video.len() == 2048,
    ensures
        ({
            let d = draw_row(ds, sprite, x0, y0, row, c);
            &&& d.video.len() == 2048
            &&& forall|p: int| 0 <= p < 2048 ==> d.video[p] == (if row_covers(sprite, x0, y0, row, c, p) {
                flip(ds.video[p])
            } else {
                ds.video[p]
            })
            &&& d.flag == (if row_collides(ds.video, sprite, x0, y0, row, c) { 1u8 } else { ds.flag })
        }),
    decreases c,
{
    let d = draw_row(ds, sprite, x0, y0, row, c);
    if c == 0 {
        assert forall|p: int| 0 <= p < 2048 implies !row_covers(sprite, x0, y0, row, 0, p) by {
            if row_covers(sprite, x0, y0, row, 0, p) {
                let col = choose|col: int|
                    0 <= col < 0 && sprite_on(sprite, col) && target_px(x0, y0, row, col) == p;
            }
        }
        if row_collides(ds.video, sprite, x0, y0, row, 0) {
            let col = choose|col: int|
                0 <= col < 0 && sprite_on(sprite, col) && ds.video[target_px(x0, y0, row, col)] == 0xFF;
        }
    } else {
        lemma_draw_row_pointwise(ds, sprite, x0, y0, row, c - 1);
        let d1 = draw_row(ds, sprite, x0, y0, row, c - 1);
        let col0 = c - 1;
        assert(d == draw_cell(d1, sprite, x0, y0, col0, row));
        lemma_row_collides_step(ds.video, sprite, x0, y0, row, c);
        if sprite_on(sprite, col0) {
            let p0 = target_px(x0, y0, row, col0);
            lemma_target_in_range(x0, y0, row, col0);
            assert(!row_covers(sprite, x0, y0, row, c - 1, p0)) by {
                if row_covers(sprite, x0, y0, row, c - 1, p0) {
                    let col = choose|col: int|
                        0 <= col < c - 1 && sprite_on(sprite, col) && target_px(x0, y0, row, col) == p0;
                    lemma_target_injective(x0, y0, row, col, row, col0);
                }
            }
            assert(d1.video[p0] == ds.video[p0]);
            assert forall|p: int| 0 <= p < 2048 implies d.video[p] == (if row_covers(sprite, x0, y0, row, c, p) {
                flip(ds.video[p])
            } else {
                ds.video[p]
            }) by {
                lemma_row_covers_step(sprite, x0, y0, row, c, p);
                if p == p0 {
                    assert(d.video[p] == flip(d1.video[p0]));
                } else {
                    assert(d.video[p] == d1.video[p]);
                }
            }
            assert(d.flag == (if ds.video[p0] == 0xFF { 1u8 } else { d1.flag }));
        } else {
            assert(d == d1);
            assert forall|p: int| 0 <= p < 2048 implies d.video[p] == (if row_covers(sprite, x0, y0, row, c, p) {
                flip(ds.video[p])
            } else {
                ds.video[p]
            }) by {
                lemma_row_covers_step(sprite, x0, y0, row, c, p);
            }
        }
    }
}

/// The row-count unrolling of `sprite_covers`.
pub proof fn lemma_sprite_covers_step(mem: Seq<u8>, index: int, x0: int, y0: int, n: int, p: int)
    requires
        n > 0,
    ensures
        sprite_covers(mem, index, x0, y0, n, p) <==> (sprite_covers(mem, index, x0, y0, n - 1, p)
            || row_covers(mem[index + n - 1], x0, y0, n - 1, 8, p)),
{
    if sprite_covers(mem, index, x0, y0, n, p) {
        let (row, col) = choose|row: int, col: int|
            0 <= row < n && 0 <= col < 8 && sprite_on(mem[index + row], col)
                && target_px(x0, y0, row, col) == p;
        if row < n - 1 {
            assert(sprite_covers(mem, index, x0, y0, n - 1, p));
        } else {
            assert(row_covers(mem[index + n - 1], x0, y0, n - 1, 8, p));
        }
    }
    if sprite_covers(mem, index, x0, y0, n - 1, p) {
        let (row, col) = choose|row: int, col: int|
            0 <= row < n - 1 && 0 <= col < 8 && sprite_on(mem[index + row], col)
                && target_px(x0, y0, row, col) == p;
        assert(0 <= row < n && 0 <= col < 8 && sprite_on(mem[index + row], col)
            && target_px(x0, y0, row, col) == p);
        assert(sprite_covers(mem, index, x0, y0, n, p));
    }
    if row_covers(mem[index + n - 1], x0, y0, n - 1, 8, p) {
        let col = choose|col: int|
            #![trigger target_px(x0, y0, n - 1, col)]
            0 <= col < 8 && sprite_on(mem[index + n - 1], col) && target_px(x0, y0, n - 1, col) == p;
        assert(sprite_covers(mem, index, x0, y0, n, p));
    }
}

/// The row-count unrolling of `sprite_collides`.
pub proof fn lemma_sprite_collides_step(video: Seq<u8>, mem: Seq<u8>, index: int, x0: int, y0: int, n: int)
    requires
        n > 0,
    ensures
        sprite_collides(video, mem, index, x0, y0, n) <==> (sprite_collides(video, mem, index, x0, y0, n - 1)
            || row_collides(video, mem[index + n - 1], x0, y0, n - 1, 8)),
{
    if sprite_collides(video, mem, index, x0, y0, n) {
        let (row, col) = choose|row: int, col: int|
            0 <= row < n && 0 <= col < 8 && sprite_on(mem[index + row], col)
                && video[target_px(x0, y0, row, col)] == 0xFF;
        if row < n - 1 {
            assert(sprite_collides(video, mem, index, x0, y0, n - 1));
        } else {
            assert(row_collides(video, mem[index + n - 1], x0, y0, n - 1, 8));
        }
    }
    if sprite_collides(video, mem, index, x0, y0, n - 1) {
        let (row, col) = choose|row: int, col: int|
            0 <= row < n - 1 && 0 <= col < 8 && sprite_on(mem[index + row], col)
                && video[target_px(x0, y0, row, col)] == 0xFF;
        assert(0 <= row < n && 0 <= col < 8 && sprite_on(mem[index + row], col)
            && video[target_px(x0, y0, row, col)] == 0xFF);
        assert(sprite_collides(video, mem, index, x0, y0, n));
    }
    if row_collides(video, mem[index + n - 1], x0, y0, n - 1, 8) {
        let col = choose|col: int|
            #![trigger target_px(x0, y0, n - 1, col)]
            0 <= col < 8 && sprite_on(mem[index + n - 1], col)
                && video[target_px(x0, y0, n - 1, col)] == 0xFF;
        assert(sprite_collides(video, mem, index, x0, y0, n));
    }
}

/// Drawing an `n`-row sprite changes exactly the covered pixels, flipping
/// each once, and raises the flag exactly when a set sprite bit meets a
/// fully-on pixel of the starting framebuffer.
pub proof fn lemma_draw_sprite_pointwise(ds: DrawState, mem: Seq<u8>, index: int, x0: int, y0: int, n: int)
    requires
        0 <= x0 < 64,
        0 <= y0 < 32,
        0 <= n <= 16,
        ds.video.len() == 2048,
    ensures
        ({
            let d = draw_sprite(ds, mem, index, x0, y0, n);
            &&& d.video.len() == 2048
            &&& forall|p: int| 0 <= p < 2048 ==> d.video[p] == (if sprite_covers(mem, index, x0, y0, n, p) {
                flip(ds.video[p])
            } else {
                ds.video[p]
            })
            &&& d.flag == (if sprite_collides(ds.video, mem, index, x0, y0, n) { 1u8 } else { ds.flag })
        }),
    decreases n,
{
    let d = draw_sprite(ds, mem, index, x0, y0, n);
    if n == 0 {
        assert forall|p: int| 0 <= p < 2048 implies !sprite_covers(mem, index, x0, y0, 0, p) by {
            if sprite_covers(mem, index, x0, y0, 0, p) {
                let (row, col) = choose|row: int, col: int|
                    0 <= row < 0 && 0 <= col < 8 && sprite_on(mem[index + row], col)
                        && target_px(x0, y0, row, col) == p;
            }
        }
        if sprite_collides(ds.video, mem, index, x0, y0, 0) {
            let (row, col) = choose|row: int, col: int|
                0 <= row < 0 && 0 <= col < 8 && sprite_on(mem[index + row], col)
                    && ds.video[target_px(x0, y0, row, col)] == 0xFF;
        }
    } else {
        lemma_draw_sprite_pointwise(ds, mem, index, x0, y0, n - 1);
        let d1 = draw_sprite(ds, mem, index, x0, y0, n - 1);
        let row0 = n - 1;
        let sprite = mem[index + row0];
        assert(d == draw_row(d1, sprite, x0, y0, row0, 8));
        lemma_draw_row_pointwise(d1, sprite, x0, y0, row0, 8);
        lemma_sprite_collides_step(ds.video, mem, index, x0, y0, n);

        // No pixel of the new row was touched by the earlier rows, so the new
        // row sees the starting framebuffer at each of its targets.
        assert forall|col: int| 0 <= col < 8 implies d1.video[target_px(x0, y0, row0, col)]
            == ds.video[target_px(x0, y0, row0, col)] by {
            let p = target_px(x0, y0, row0, col);
            lemma_target_in_range(x0, y0, row0, col);
            assert(!sprite_covers(mem, index, x0, y0, n - 1, p)) by {
                if sprite_covers(mem, index, x0, y0, n - 1, p) {
                    let (row, c2) = choose|row: int, c2: int|
                        0 <= row < n - 1 && 0 <= c2 < 8 && sprite_on(mem[index + row], c2)
                            && target_px(x0, y0, row, c2) == p;
                    lemma_target_injective(x0, y0, row, c2, row0, col);
                }
            }
        }

        // Collision over the partially drawn framebuffer equals collision
        // over the starting one for this row.
        assert(row_collides(d1.video, sprite, x0, y0, row0, 8)
            == row_collides(ds.video, sprite, x0, y0, row0, 8)) by {
            if row_collides(d1.video, sprite, x0, y0, row0, 8) {
                let col = choose|col: int|
                    0 <= col < 8 && sprite_on(sprite, col)
                        && d1.video[target_px(x0, y0, row0, col)] == 0xFF;
                assert(ds.video[target_px(x0, y0, row0, col)] == 0xFF);
                assert(row_collides(ds.video, sprite, x0, y0, row0, 8));
            }
            if row_collides(ds.video, sprite, x0, y0, row0, 8) {
                let col = choose|col: int|
                    0 <= col < 8 && sprite_on(sprite, col)
                        && ds.video[target_px(x0, y0, row0, col)] == 0xFF;
                assert(d1.video[target_px(x0, y0, row0, col)] == 0xFF);
                assert(row_collides(d1.video, sprite, x0, y0, row0, 8));
            }
        }

        assert forall|p: int| 0 <= p < 2048 implies d.video[p] == (if sprite_covers(mem, index, x0, y0, n, p) {
            flip(ds.video[p])
        } else {
            ds.video[p]
        }) by {
            lemma_sprite_covers_step(mem, index, x0, y0, n, p);
            if row_covers(sprite, x0, y0, row0, 8, p) {
                let col = choose|col: int|
                    0 <= col < 8 && sprite_on(sprite, col) && target_px(x0, y0, row0, col) == p;
                assert(d1.video[p] == ds.video[p]);
                assert(!sprite_covers(mem, index, x0, y0, n - 1, p)) by {
                    if sprite_covers(mem, index, x0, y0, n - 1, p) {
                        let (row, c2) = choose|row: int, c2: int|
                            0 <= row < n - 1 && 0 <= c2 < 8 && sprite_on(mem[index + row], c2)
                                && target_px(x0, y0, row, c2) == p;
                        lemma_target_injective(x0, y0, row, c2, row0, col);
                    }
                }
            }
        }
    }
}

/// Each pixel flipped twice is restored.
pub proof fn lemma_flip_involution()
    ensures
        forall|b: u8| #[trigger] flip(flip(b)) == b,
{
    assert forall|b: u8| #[trigger] flip(flip(b)) == b by {
        assert((b ^ 0xFF) ^ 0xFF == b) by (bit_vector);
    }
}

/// Drawing the same sprite at the same position twice in succession restores
/// the framebuffer exactly: the blit is an XOR, so the second pass undoes the
/// first pixel by pixel.
pub proof fn lemma_draw_twice_restores(video: Seq<u8>, mem: Seq<u8>, index: int, x0: int, y0: int, n: int)
    requires
        0 <= x0 < 64,
        0 <= y0 < 32,
        0 <= n <= 16,
        video.len() == 2048,
    ensures
        ({
            let d1 = draw_sprite(DrawState { video: video, flag: 0 }, mem, index, x0, y0, n);
            let d2 = draw_sprite(DrawState { video: d1.video, flag: 0 }, mem, index, x0, y0, n);
            d2.video == video
        }),
{
    let ds1 = DrawState { video: video, flag: 0 };
    let d1 = draw_sprite(ds1, mem, index, x0, y0, n);
    let ds2 = DrawState { video: d1.video, flag: 0 };
    let d2 = draw_sprite(ds2, mem, index, x0, y0, n);
    lemma_draw_sprite_pointwise(ds1, mem, index, x0, y0, n);
    lemma_draw_sprite_pointwise(ds2, mem, index, x0, y0, n);
    lemma_flip_involution();
    assert forall|p: int| 0 <= p < 2048 implies d2.video[p] == video[p] by {
        if sprite_covers(mem, index, x0, y0, n, p) {
            assert(d2.video[p] == flip(d1.video[p]));
            assert(d1.video[p] == flip(video[p]));
        }
    }
    assert(d2.video =~= video);
}

} // verus!
