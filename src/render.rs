use vstd::prelude::*;

use crate::cell::Color;
use crate::grid::{lemma_index_injective, Grid, LatticeView};

verus! {

/// Writes one pixel of a 32-bit frame buffer whose bytes run, per pixel,
/// padding, blue, green, red: the padding byte is cleared and the three
/// colour channels written from `pos` on.
pub fn set_pixel(buffer: &mut [u8], pos: usize, r: u8, g: u8, b: u8)
    requires
        pos + 3 < old(buffer)@.len(),
    ensures
        final(buffer)@ == old(buffer)@.update(pos as int, 0).update(pos + 1, b).update(pos + 2, g).update(
            pos + 3,
            r,
        ),
{
    buffer[pos] = 0;
    buffer[pos + 1] = b;
    buffer[pos + 2] = g;
    buffer[pos + 3] = r;
}

/// Index of byte `k` of the pixel of lattice cell `(x, y)` in a frame buffer
/// with `pitch` bytes per row.
pub open spec fn pixel_index(pitch: int, x: int, y: int, k: int) -> int {
    pitch * y + 4 * x + k
}

/// Byte `k` of a pixel showing `c`, black when `c` is none.
pub open spec fn pixel_byte(c: Option<Color>, k: int) -> u8 {
    match c {
        None => 0,
        Some(c) => if k == 1 {
            c.b
        } else if k == 2 {
            c.g
        } else if k == 3 {
            c.r
        } else {
            0
        },
    }
}

/// Byte `i` belongs to the pixel of some cell of the lattice.
pub open spec fn in_pixel(v: LatticeView, pitch: int, i: int) -> bool {
    exists|x: int, y: int, k: int|
        v.in_bounds(x, y) && 0 <= k < 4 && #[trigger] pixel_index(pitch, x, y, k) == i
}

/// Each cell's pixel in `buf` shows `colors` of that cell, and every byte
/// outside the lattice's pixels is zero.
pub open spec fn painted(
    buf: Seq<u8>,
    v: LatticeView,
    pitch: int,
    colors: spec_fn(int, int) -> Option<Color>,
) -> bool {
    &&& forall|x: int, y: int, k: int|
        v.in_bounds(x, y) && 0 <= k < 4 ==> buf[#[trigger] pixel_index(pitch, x, y, k)] == pixel_byte(
            colors(x, y),
            k,
        )
    &&& forall|i: int| 0 <= i < buf.len() && !in_pixel(v, pitch, i) ==> #[trigger] buf[i] == 0
}

/// The colour of the frozen particle at `(x, y)`, if any.
pub open spec fn frozen_color(v: LatticeView, x: int, y: int) -> Option<Color> {
    match v.occupant(x, y) {
        Some(c) => Some(c.color),
        None => None,
    }
}

/// The colour shown at `(x, y)` once the first `n` active particles are
/// drawn over the frozen ones: the last of them standing there, else the
/// frozen particle.
pub open spec fn shown_upto(v: LatticeView, x: int, y: int, n: nat) -> Option<Color>
    decreases n,
{
    if n == 0 {
        frozen_color(v, x, y)
    } else if v.active[n - 1].x == x && v.active[n - 1].y == y {
        Some(v.active[n - 1].color)
    } else {
        shown_upto(v, x, y, (n - 1) as nat)
    }
}

/// The colour shown at `(x, y)`: that of the last active particle standing
/// there, else that of the frozen particle, else none.
pub open spec fn shown(v: LatticeView, x: int, y: int) -> Option<Color> {
    shown_upto(v, x, y, v.active.len())
}

/// Every cell's four bytes fit in a buffer of `len` bytes with rows of
/// `pitch` bytes.
pub open spec fn fits(v: LatticeView, pitch: int, len: int) -> bool {
    4 * v.width <= pitch && pitch * v.height <= len
}

proof fn lemma_pixel_in_buffer(v: LatticeView, pitch: int, len: int, x: int, y: int, k: int)
    requires
        fits(v, pitch, len),
        v.in_bounds(x, y),
        0 <= k < 4,
    ensures
        0 <= pitch * y <= pixel_index(pitch, x, y, k) < len,
{
    let h = v.height as int;
    assert(0 <= pitch * y && pitch * y + pitch <= pitch * h) by (nonlinear_arith)
        requires
            0 <= y < h,
            0 <= pitch,
    ;
}

proof fn lemma_pixel_unique(v: LatticeView, pitch: int, x1: int, y1: int, k1: int, x2: int, y2: int, k2: int)
    requires
        4 * v.width <= pitch,
        v.in_bounds(x1, y1),
        v.in_bounds(x2, y2),
        0 <= k1 < 4,
        0 <= k2 < 4,
        pixel_index(pitch, x1, y1, k1) == pixel_index(pitch, x2, y2, k2),
    ensures
        x1 == x2,
        y1 == y2,
        k1 == k2,
{
    assert(y1 * pitch == pitch * y1 && y2 * pitch == pitch * y2) by (nonlinear_arith);
    lemma_index_injective(pitch, y1, 4 * x1 + k1, y2, 4 * x2 + k2);
    lemma_index_injective(4, x1, k1, x2, k2);
}

proof fn lemma_painted_ext(
    buf: Seq<u8>,
    v: LatticeView,
    pitch: int,
    f: spec_fn(int, int) -> Option<Color>,
    g: spec_fn(int, int) -> Option<Color>,
)
    requires
        painted(buf, v, pitch, f),
        forall|x: int, y: int| v.in_bounds(x, y) ==> f(x, y) == g(x, y),
    ensures
        painted(buf, v, pitch, g),
{
    assert forall|x: int, y: int, k: int| v.in_bounds(x, y) && 0 <= k < 4 implies buf[#[trigger] pixel_index(
        pitch,
        x,
        y,
        k,
    )] == pixel_byte(g(x, y), k) by {
        assert(f(x, y) == g(x, y));
    }
}

proof fn lemma_paint(
    buf: Seq<u8>,
    v: LatticeView,
    pitch: int,
    colors: spec_fn(int, int) -> Option<Color>,
    x: int,
    y: int,
    c: Color,
)
    requires
        painted(buf, v, pitch, colors),
        fits(v, pitch, buf.len() as int),
        v.in_bounds(x, y),
    ensures
        painted(
            buf.update(pixel_index(pitch, x, y, 0), 0).update(pixel_index(pitch, x, y, 1), c.b).update(
                pixel_index(pitch, x, y, 2),
                c.g,
            ).update(pixel_index(pitch, x, y, 3), c.r),
            v,
            pitch,
            |a: int, b: int|
                if a == x && b == y {
                    Some(c)
                } else {
                    colors(a, b)
                },
        ),
{
    let p = pixel_index(pitch, x, y, 0);
    let nb = buf.update(p, 0).update(p + 1, c.b).update(p + 2, c.g).update(p + 3, c.r);
    let g = |a: int, b: int|
        if a == x && b == y {
            Some(c)
        } else {
            colors(a, b)
        };
    lemma_pixel_in_buffer(v, pitch, buf.len() as int, x, y, 0);
    lemma_pixel_in_buffer(v, pitch, buf.len() as int, x, y, 3);
    assert forall|a: int, b: int, k: int| v.in_bounds(a, b) && 0 <= k < 4 implies nb[#[trigger] pixel_index(
        pitch,
        a,
        b,
        k,
    )] == pixel_byte(g(a, b), k) by {
        lemma_pixel_in_buffer(v, pitch, buf.len() as int, a, b, k);
        let i = pixel_index(pitch, a, b, k);
        if p <= i < p + 4 {
            lemma_pixel_unique(v, pitch, a, b, k, x, y, i - p);
        }
    }
    assert forall|i: int| 0 <= i < nb.len() && !in_pixel(v, pitch, i) implies #[trigger] nb[i] == 0 by {
        if p <= i < p + 4 {
            assert(pixel_index(pitch, x, y, i - p) == i);
        }
    }
}

/// Draws the lattice into a frame buffer of `pitch` bytes per row, one
/// four-byte pixel per cell laid out as [`set_pixel`] writes it: the buffer
/// is cleared, every frozen particle is drawn, then every active particle
/// over it.
pub fn draw(grid: &Grid, buffer: &mut [u8], pitch: usize)
    requires
        grid.wf(),
        fits(grid@, pitch as int, old(buffer)@.len() as int),
    ensures
        final(buffer)@.len() == old(buffer)@.len(),
        painted(final(buffer)@, grid@, pitch as int, |x: int, y: int| shown(grid@, x, y)),
{
    let ghost v = grid@;
    let ghost pt = pitch as int;
    let len = buffer.len();
    for i in 0..len
        invariant
            buffer@.len() == len,
            forall|j: int| 0 <= j < i ==> #[trigger] buffer@[j] == 0,
    {
        buffer[i] = 0;
    }
    assert forall|x: int, y: int, k: int| v.in_bounds(x, y) && 0 <= k < 4 implies buffer@[#[trigger] pixel_index(
        pt,
        x,
        y,
        k,
    )] == pixel_byte(None, k) by {
        lemma_pixel_in_buffer(v, pt, len as int, x, y, k);
    }
    assert(painted(buffer@, v, pt, |a: int, b: int| None::<Color>));
    let width = grid.width() as usize;
    let height = grid.height() as usize;
    for y in 0..height
        invariant
            grid.wf(),
            v == grid@,
            pt == pitch as int,
            width == v.width,
            height == v.height,
            buffer@.len() == len,
            fits(v, pt, len as int),
            painted(
                buffer@,
                v,
                pt,
                |a: int, b: int|
                    if b < y {
                        frozen_color(v, a, b)
                    } else {
                        None
                    },
            ),
    {
        let ghost row_start = |a: int, b: int|
            if b < y {
                frozen_color(v, a, b)
            } else {
                None
            };
        proof {
            lemma_painted_ext(
                buffer@,
                v,
                pt,
                row_start,
                |a: int, b: int|
                    if b < y || (b == y && a < 0) {
                        frozen_color(v, a, b)
                    } else {
                        None
                    },
            );
        }
        for x in 0..width
            invariant
                grid.wf(),
                v == grid@,
                pt == pitch as int,
            pt == pitch as int,
                width == v.width,
                height == v.height,
                y < height,
                buffer@.len() == len,
                fits(v, pt, len as int),
                painted(
                    buffer@,
                    v,
                    pt,
                    |a: int, b: int|
                        if b < y || (b == y && a < x) {
                            frozen_color(v, a, b)
                        } else {
                            None
                        },
                ),
        {
            let ghost before = |a: int, b: int|
                if b < y || (b == y && a < x) {
                    frozen_color(v, a, b)
                } else {
                    None
                };
            let ghost after = |a: int, b: int|
                if b < y || (b == y && a < x + 1) {
                    frozen_color(v, a, b)
                } else {
                    None
                };
            match grid.cell(x, y) {
                Some(cell) => {
                    proof {
                        lemma_pixel_in_buffer(v, pt, len as int, x as int, y as int, 3);
                        lemma_paint(buffer@, v, pt, before, x as int, y as int, cell.color);
                    }
                    set_pixel(buffer, pitch * y + x * 4, cell.color.r, cell.color.g, cell.color.b);
                    proof {
                        let c = cell.color;
                        lemma_painted_ext(
                            buffer@,
                            v,
                            pt,
                            |a: int, b: int|
                                if a == x && b == y {
                                    Some(c)
                                } else {
                                    before(a, b)
                                },
                            after,
                        );
                    }
                },
                None => {
                    proof {
                        lemma_painted_ext(buffer@, v, pt, before, after);
                    }
                },
            }
        }
        proof {
            lemma_painted_ext(
                buffer@,
                v,
                pt,
                |a: int, b: int|
                    if b < y || (b == y && a < width) {
                        frozen_color(v, a, b)
                    } else {
                        None
                    },
                |a: int, b: int|
                    if b < y + 1 {
                        frozen_color(v, a, b)
                    } else {
                        None
                    },
            );
        }
    }
    proof {
        lemma_painted_ext(
            buffer@,
            v,
            pt,
            |a: int, b: int|
                if b < height {
                    frozen_color(v, a, b)
                } else {
                    None
                },
            |a: int, b: int| shown_upto(v, a, b, 0),
        );
    }
    let active = grid.active_cells();
    let n = active.len();
    for i in 0..n
        invariant
            grid.wf(),
            v == grid@,
            pt == pitch as int,
            active@ == v.active,
            n == v.active.len(),
            buffer@.len() == len,
            fits(v, pt, len as int),
            painted(buffer@, v, pt, |a: int, b: int| shown_upto(v, a, b, i as nat)),
    {
        let p = active[i];
        proof {
            lemma_pixel_in_buffer(v, pt, len as int, p.x as int, p.y as int, 3);
            lemma_paint(
                buffer@,
                v,
                pt,
                |a: int, b: int| shown_upto(v, a, b, i as nat),
                p.x as int,
                p.y as int,
                p.color,
            );
        }
        set_pixel(buffer, pitch * p.y + p.x * 4, p.color.r, p.color.g, p.color.b);
        proof {
            let c = p.color;
            lemma_painted_ext(
                buffer@,
                v,
                pt,
                |a: int, b: int|
                    if a == p.x && b == p.y {
                        Some(c)
                    } else {
                        shown_upto(v, a, b, i as nat)
                    },
                |a: int, b: int| shown_upto(v, a, b, (i + 1) as nat),
            );
        }
    }
    proof {
        lemma_painted_ext(
            buffer@,
            v,
            pt,
            |a: int, b: int| shown_upto(v, a, b, n as nat),
            |a: int, b: int| shown(v, a, b),
        );
    }
}

} // verus!
