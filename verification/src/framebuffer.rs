//! # Frame buffer drawing
//!
//! The pixel games draw into a frame of `WIDTH` x `HEIGHT` pixels, four bytes (red, green,
//! blue, alpha) per pixel, row after row.

use vstd::prelude::*;

verus! {

use vstd::arithmetic::div_mod::lemma_fundamental_div_mod_converse;

/// Width of the frame, in pixels.
pub const WIDTH: u8 = 255;

/// Height of the frame, in pixels.
pub const HEIGHT: u8 = 255;

/// The rectangle that `draw_rect` fills: its left column, top row, width and height, cut to
/// the frame.
pub open spec fn clipped(x: u8, y: u8, w: u8, h: u8) -> (int, int, int, int) {
    let cx: int = if x < WIDTH - 1 { x as int } else { WIDTH - 1 };
    let cw: int = if w < WIDTH - cx { w as int } else { WIDTH - cx };
    let cy: int = if y < HEIGHT - 1 { y as int } else { HEIGHT - 1 };
    let ch: int = if h < HEIGHT - cy { h as int } else { HEIGHT - cy };
    (cx, cy, cw, ch)
}

/// Pixel `p` (counted row after row) lies in the rectangle at column `x`, row `y`, of width
/// `w` and height `h`.
pub open spec fn pixel_in(p: int, x: int, y: int, w: int, h: int) -> bool {
    let row = p / (WIDTH as int);
    let col = p % (WIDTH as int);
    &&& y <= row < y + h
    &&& x <= col < x + w
}

/// The frame after the pixels of the rectangle at column `x`, row `y`, of width `w` and
/// height `h` take `color`; every other byte is kept.
pub open spec fn painted(frame: Seq<u8>, color: [u8; 4], x: int, y: int, w: int, h: int) -> Seq<u8> {
    Seq::new(frame.len(), |k: int| if pixel_in(k / 4, x, y, w, h) { color@[k % 4] } else { frame[k] })
}

/// The byte index `4 * (WIDTH * r + c) + ch` is channel `ch` of the pixel at row `r`, column `c`.
pub proof fn lemma_pixel_index(r: int, c: int, ch: int)
    requires
        0 <= r,
        0 <= c < WIDTH,
        0 <= ch < 4,
    ensures
        (4 * (WIDTH * r + c) + ch) / 4 == WIDTH * r + c,
        (4 * (WIDTH * r + c) + ch) % 4 == ch,
        (WIDTH * r + c) / (WIDTH as int) == r,
        (WIDTH * r + c) % (WIDTH as int) == c,
{
    lemma_fundamental_div_mod_converse(4 * (WIDTH * r + c) + ch, 4, WIDTH * r + c, ch);
    lemma_fundamental_div_mod_converse(WIDTH * r + c, WIDTH as int, r, c);
}

/// Filling a rectangle twice with one colour is filling it once.
pub proof fn law_painting_twice_is_once(frame: Seq<u8>, color: [u8; 4], x: int, y: int, w: int, h: int)
    ensures
        painted(painted(frame, color, x, y, w, h), color, x, y, w, h) == painted(frame, color, x, y, w, h),
{
    assert(painted(painted(frame, color, x, y, w, h), color, x, y, w, h) =~= painted(frame, color, x, y, w, h));
}

/// Fills a rectangle of the frame with `color`. The rectangle starts at column `x`, row `y`
/// (each at most one less than the frame's size) and is cut to the frame.
pub fn draw_rect(x: u8, y: u8, w: u8, h: u8, color: [u8; 4], frame: &mut [u8])
    requires
        ({
            let (cx, cy, cw, ch) = clipped(x, y, w, h);
            ch > 0 ==> 4 * ((WIDTH as int) * (cy + ch - 1) + cx + cw) <= old(frame)@.len()
        }),
    ensures
        ({
            let (cx, cy, cw, ch) = clipped(x, y, w, h);
            final(frame)@ == painted(old(frame)@, color, cx, cy, cw, ch)
        }),
{
    let x: usize = if x < WIDTH - 1 { x as usize } else { (WIDTH - 1) as usize };
    let w: usize = if (w as usize) < (WIDTH as usize) - x { w as usize } else { (WIDTH as usize) - x };
    let y: usize = if y < HEIGHT - 1 { y as usize } else { (HEIGHT - 1) as usize };
    let h: usize = if (h as usize) < (HEIGHT as usize) - y { h as usize } else { (HEIGHT as usize) - y };
    let ghost start = frame@;
    let mut row: usize = 0;
    while row < h
        invariant
            x + w <= WIDTH,
            y + h <= HEIGHT,
            row <= h,
            h > 0 ==> 4 * ((WIDTH as int) * (y + h - 1) + x + w) <= start.len(),
            frame@ == painted(start, color, x as int, y as int, w as int, row as int),
        decreases h - row,
    {
        let mut col: usize = x;
        while col < x + w
            invariant
                x + w <= WIDTH,
                y + h <= HEIGHT,
                row < h,
                x <= col <= x + w,
                4 * ((WIDTH as int) * (y + h - 1) + x + w) <= start.len(),
                frame@.len() == start.len(),
                forall|k: int| 0 <= k < start.len() ==> #[trigger] frame@[k] == {
                    let p = k / 4;
                    let r = p / (WIDTH as int);
                    let c = p % (WIDTH as int);
                    if pixel_in(p, x as int, y as int, w as int, row as int) || (r == y + row && x <= c < col) {
                        color@[k % 4]
                    } else {
                        start[k]
                    }
                },
            decreases x + w - col,
        {
            let base: usize = 4 * ((WIDTH as usize) * (y + row) + col);
            proof {
                assert((WIDTH as int) * (y + row) + col <= (WIDTH as int) * (y + h - 1) + x + w - 1) by (nonlinear_arith)
                    requires
                        row < h,
                        col < x + w,
                ;
            }
            let ghost before = frame@;
            frame[base] = color[0];
            frame[base + 1] = color[1];
            frame[base + 2] = color[2];
            frame[base + 3] = color[3];
            proof {
                let r0 = (y + row) as int;
                let c0 = col as int;
                assert forall|ch: int| 0 <= ch < 4 implies #[trigger] frame@[base + ch] == color@[ch] by {
                    lemma_pixel_index(r0, c0, ch);
                }
                assert forall|k: int| 0 <= k < start.len() implies #[trigger] frame@[k] == {
                    let p = k / 4;
                    let r = p / (WIDTH as int);
                    let c = p % (WIDTH as int);
                    if pixel_in(p, x as int, y as int, w as int, row as int) || (r == y + row && x <= c < col + 1) {
                        color@[k % 4]
                    } else {
                        start[k]
                    }
                } by {
                    let p = k / 4;
                    let r = p / (WIDTH as int);
                    let c = p % (WIDTH as int);
                    if base <= k < base + 4 {
                        lemma_pixel_index(r0, c0, k - base);
                    } else {
                        assert(frame@[k] == before[k]);
                        lemma_fundamental_div_mod_converse(k, 4, p, k % 4);
                        lemma_fundamental_div_mod_converse(p, WIDTH as int, r, c);
                        assert(!(r == r0 && c == c0)) by (nonlinear_arith)
                            requires
                                k == 4 * p + k % 4,
                                0 <= k % 4 < 4,
                                p == (WIDTH as int) * r + c,
                                base == 4 * ((WIDTH as int) * r0 + c0),
                                !(base <= k < base + 4),
                        ;
                    }
                }
            }
            col = col + 1;
        }
        row = row + 1;
        proof {
            assert forall|k: int| 0 <= k < start.len() implies #[trigger] frame@[k] == painted(start, color, x as int, y as int, w as int, row as int)[k] by {
            }
            assert(frame@ =~= painted(start, color, x as int, y as int, w as int, row as int));
        }
    }
}

} // verus!
