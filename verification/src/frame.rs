use vstd::prelude::*;
use crate::color::Color;
use vstd::arithmetic::div_mod::{
    lemma_fundamental_div_mod,
    lemma_fundamental_div_mod_converse,
    lemma_mod_bound,
    lemma_multiply_divide_lt,
};
use vstd::arithmetic::mul::lemma_mul_inequality;

verus! {

/// Index of pixel `(x, y)` in the column-major emission order of a frame
/// whose columns hold `height` pixels each.
pub open spec fn emit_index(x: int, y: int, height: int) -> int {
    x * height + y
}

/// Enumerates every pixel of a `width` by `height` frame, outer loop over
/// `x`, inner over `y`: the entry at index `i` is `(i / height, i % height)`.
pub fn pixel_pairs(width: usize, height: usize) -> (pts: Vec<(usize, usize)>)
    requires
        width * height <= usize::MAX,
    ensures
        pts@.len() == width * height,
        forall|i: int| 0 <= i < pts@.len() ==> (#[trigger] pts@[i]).0 == i / (height as int)
            && pts@[i].1 == i % (height as int),
{
    let mut pts: Vec<(usize, usize)> = Vec::new();
    let mut x: usize = 0;
    while x < width
        invariant
            x <= width,
            width * height <= usize::MAX,
            pts@.len() == x * height,
            forall|i: int| 0 <= i < pts@.len() ==> (#[trigger] pts@[i]).0 == i / (height as int)
                && pts@[i].1 == i % (height as int),
        decreases width - x,
    {
        let mut y: usize = 0;
        while y < height
            invariant
                x < width,
                y <= height,
                width * height <= usize::MAX,
                pts@.len() == x * height + y,
                forall|i: int| 0 <= i < pts@.len() ==> (#[trigger] pts@[i]).0 == i / (height as int)
                    && pts@[i].1 == i % (height as int),
            decreases height - y,
        {
            proof {
                assert(x * height + y < width * height) by (nonlinear_arith)
                    requires
                        x < width,
                        y < height,
                ;
                lemma_fundamental_div_mod_converse(
                    x as int * height as int + y as int,
                    height as int,
                    x as int,
                    y as int,
                );
            }
            pts.push((x, y));
            y = y + 1;
        }
        proof {
            assert(x * height + height == (x + 1) * height) by (nonlinear_arith);
        }
        x = x + 1;
    }
    pts
}

/// Law: a sequence laid out in column-major emission order covers every
/// pixel of the frame exactly once: each `(x, y)` with `x < width` and
/// `y < height` stands at index `emit_index(x, y, height)` and at no other.
pub proof fn lemma_pixel_cover(width: usize, height: usize, pts: Seq<(usize, usize)>)
    requires
        pts.len() == width * height,
        forall|i: int| 0 <= i < pts.len() ==> (#[trigger] pts[i]).0 == i / (height as int)
            && pts[i].1 == i % (height as int),
    ensures
        forall|x: usize, y: usize| x < width && y < height ==> {
            let i = #[trigger] emit_index(x as int, y as int, height as int);
            0 <= i < pts.len() && pts[i] == (x, y)
        },
        forall|i: int, j: int|
            0 <= i < pts.len() && 0 <= j < pts.len() && #[trigger] pts[i] == #[trigger] pts[j]
                ==> i == j,
{
    assert forall|x: usize, y: usize| x < width && y < height implies {
        let i = #[trigger] emit_index(x as int, y as int, height as int);
        0 <= i < pts.len() && pts[i] == (x, y)
    } by {
        let i = emit_index(x as int, y as int, height as int);
        lemma_mul_inequality(x as int + 1, width as int, height as int);
        assert((x as int + 1) * (height as int) == x as int * height as int + height as int)
            by (nonlinear_arith);
        lemma_fundamental_div_mod_converse(i, height as int, x as int, y as int);
    }
    assert forall|i: int, j: int|
        0 <= i < pts.len() && 0 <= j < pts.len() && #[trigger] pts[i] == #[trigger] pts[j]
            implies i == j by {
        assert(height as int > 0) by (nonlinear_arith)
            requires
                (width as int) * (height as int) > 0,
        ;
        lemma_fundamental_div_mod(i, height as int);
        lemma_fundamental_div_mod(j, height as int);
    }
}

/// Row-major position of pixel `(x, y)` in a frame `width` pixels wide.
pub open spec fn row_major_pos(x: int, y: int, width: int) -> int {
    y * width + x
}

/// The four bytes of pixel `e` stand at byte offset `4 * row_major_pos`,
/// in channel order R, G, B, A, with A always `0xFF`.
pub open spec fn pixel_written(buf: Seq<u8>, e: (usize, usize, Color), width: int) -> bool {
    let p = 4 * row_major_pos(e.0 as int, e.1 as int, width);
    &&& buf[p] == e.2.r
    &&& buf[p + 1] == e.2.g
    &&& buf[p + 2] == e.2.b
    &&& buf[p + 3] == 0xFF
}

/// Some entry among the first `n` of `pixels` covers byte `k` of the buffer.
pub open spec fn byte_covered(pixels: Seq<(usize, usize, Color)>, n: int, k: int, width: int) -> bool {
    exists|i: int|
        0 <= i < n && {
            let p = 4 * row_major_pos((#[trigger] pixels[i]).0 as int, pixels[i].1 as int, width);
            p <= k < p + 4
        }
}

proof fn lemma_row_major_injective(x1: int, y1: int, x2: int, y2: int, width: int)
    requires
        0 <= x1 < width,
        0 <= x2 < width,
        0 <= y1,
        0 <= y2,
        row_major_pos(x1, y1, width) == row_major_pos(x2, y2, width),
    ensures
        x1 == x2 && y1 == y2,
{
    lemma_fundamental_div_mod_converse(y1 * width + x1, width, y1, x1);
    lemma_fundamental_div_mod_converse(y2 * width + x2, width, y2, x2);
}

/// Materializes a pixel stream into a `width` by `height` RGBA byte buffer:
/// pixel `(x, y)` occupies the four bytes starting at `4 * (y * width + x)`,
/// channel order R, G, B, A with A always `0xFF`; bytes no pixel covers are 0.
#[verifier::loop_isolation(false)]
pub fn assemble_rgba(width: usize, height: usize, pixels: &Vec<(usize, usize, Color)>) -> (buf: Vec<u8>)
    requires
        4 * (width * height) <= usize::MAX,
        forall|i: int| 0 <= i < pixels@.len() ==> (#[trigger] pixels@[i]).0 < width
            && pixels@[i].1 < height,
        forall|i: int, j: int|
            0 <= i < pixels@.len() && 0 <= j < pixels@.len()
                && (#[trigger] pixels@[i]).0 == (#[trigger] pixels@[j]).0
                && pixels@[i].1 == pixels@[j].1 ==> i == j,
    ensures
        buf@.len() == 4 * (width * height),
        forall|i: int| 0 <= i < pixels@.len()
            ==> #[trigger] pixel_written(buf@, pixels@[i], width as int),
        forall|k: int|
            0 <= k < buf@.len() && !byte_covered(pixels@, pixels@.len() as int, k, width as int)
                ==> #[trigger] buf@[k] == 0,
{
    let total: usize = 4 * (width * height);
    let mut buf: Vec<u8> = Vec::new();
    while buf.len() < total
        invariant
            buf@.len() <= total,
            forall|k: int| 0 <= k < buf@.len() ==> #[trigger] buf@[k] == 0,
        decreases total - buf@.len(),
    {
        buf.push(0u8);
    }
    let mut idx: usize = 0;
    while idx < pixels.len()
        invariant
            idx <= pixels@.len(),
            buf@.len() == total,
            forall|i: int| 0 <= i < idx
                ==> #[trigger] pixel_written(buf@, pixels@[i], width as int),
            forall|k: int|
                0 <= k < buf@.len() && !byte_covered(pixels@, idx as int, k, width as int)
                    ==> #[trigger] buf@[k] == 0,
        decreases pixels@.len() - idx,
    {
        let (x, y, c) = pixels[idx];
        proof {
            assert(y * width + x < width * height) by (nonlinear_arith)
                requires
                    x < width,
                    y < height,
            ;
        }
        let pos: usize = y * width + x;
        let off: usize = 4 * pos;
        let ghost b0 = buf@;
        buf.set(off, c.r);
        buf.set(off + 1, c.g);
        buf.set(off + 2, c.b);
        buf.set(off + 3, 0xFF);
        proof {
            assert(pixels@[idx as int] == (x, y, c));
            assert(off == 4 * row_major_pos(x as int, y as int, width as int));
            assert forall|i: int| 0 <= i < idx + 1 implies #[trigger] pixel_written(
                buf@,
                pixels@[i],
                width as int,
            ) by {
                if i < idx {
                    assert(pixel_written(b0, pixels@[i], width as int));
                    let xi = pixels@[i].0;
                    let yi = pixels@[i].1;
                    let pi = row_major_pos(xi as int, yi as int, width as int);
                    if pi == pos {
                        lemma_row_major_injective(
                            xi as int,
                            yi as int,
                            x as int,
                            y as int,
                            width as int,
                        );
                        assert(i == idx);
                    }
                    assert(4 * pi + 3 < 4 * pos || 4 * pos + 3 < 4 * pi);
                    assert((yi as int) * (width as int) + (xi as int) < (width as int) * (height as int))
                        by (nonlinear_arith)
                        requires
                            xi < width,
                            yi < height,
                    ;
                }
            }
            assert forall|k: int|
                0 <= k < buf@.len() && !byte_covered(pixels@, idx as int + 1, k, width as int)
                    implies #[trigger] buf@[k] == 0 by {
                if off <= k < off + 4 {
                    assert(4 * row_major_pos(
                        pixels@[idx as int].0 as int,
                        pixels@[idx as int].1 as int,
                        width as int,
                    ) == off);
                    assert(byte_covered(pixels@, idx as int + 1, k, width as int));
                }
                if byte_covered(pixels@, idx as int, k, width as int) {
                    let i = choose|i: int|
                        0 <= i < idx as int && {
                            let p = 4 * row_major_pos(
                                (#[trigger] pixels@[i]).0 as int,
                                pixels@[i].1 as int,
                                width as int,
                            );
                            p <= k < p + 4
                        };
                    assert(0 <= i < idx as int + 1);
                    assert(byte_covered(pixels@, idx as int + 1, k, width as int));
                }
                assert(b0[k] == 0);
            }
        }
        idx = idx + 1;
    }
    buf
}

/// Materializes a finished frame: `pts` is the column-major pixel
/// enumeration of `pixel_pairs`, `colors` holds the resolved color of each
/// of those pixels in the same order, and the result is the RGBA buffer of
/// `assemble_rgba`: the color of pixel `(x, y)` stands at byte offset
/// `4 * (y * width + x)`, with alpha `0xFF`.
#[verifier::loop_isolation(false)]
pub fn compose_frame(
    width: usize,
    height: usize,
    pts: &Vec<(usize, usize)>,
    colors: &Vec<Color>,
) -> (buf: Vec<u8>)
    requires
        4 * (width * height) <= usize::MAX,
        pts@.len() == width * height,
        colors@.len() == width * height,
        forall|i: int| 0 <= i < pts@.len() ==> (#[trigger] pts@[i]).0 == i / (height as int)
            && pts@[i].1 == i % (height as int),
    ensures
        buf@.len() == 4 * (width * height),
        forall|i: int| 0 <= i < pts@.len()
            ==> #[trigger] pixel_written(
                buf@,
                (pts@[i].0, pts@[i].1, colors@[i]),
                width as int,
            ),
{
    let mut pixels: Vec<(usize, usize, Color)> = Vec::new();
    let mut i: usize = 0;
    while i < pts.len()
        invariant
            i <= pts@.len(),
            pixels@.len() == i,
            forall|j: int| 0 <= j < i
                ==> #[trigger] pixels@[j] == (pts@[j].0, pts@[j].1, colors@[j]),
        decreases pts@.len() - i,
    {
        let (x, y) = pts[i];
        pixels.push((x, y, colors[i]));
        i = i + 1;
    }
    proof {
        assert forall|j: int| 0 <= j < pixels@.len() implies (#[trigger] pixels@[j]).0 < width
            && pixels@[j].1 < height by {
            assert((height as int) > 0) by (nonlinear_arith)
                requires
                    (width as int) * (height as int) > 0,
            ;
            assert(j < (height as int) * (width as int)) by (nonlinear_arith)
                requires
                    j < (width as int) * (height as int),
            ;
            lemma_multiply_divide_lt(j, height as int, width as int);
            lemma_mod_bound(j, height as int);
        }
        assert forall|j: int, k: int|
            0 <= j < pixels@.len() && 0 <= k < pixels@.len()
                && (#[trigger] pixels@[j]).0 == (#[trigger] pixels@[k]).0
                && pixels@[j].1 == pixels@[k].1 implies j == k by {
            assert((height as int) > 0) by (nonlinear_arith)
                requires
                    (width as int) * (height as int) > 0,
            ;
            lemma_fundamental_div_mod(j, height as int);
            lemma_fundamental_div_mod(k, height as int);
        }
    }
    let buf = assemble_rgba(width, height, &pixels);
    proof {
        assert forall|j: int| 0 <= j < pts@.len() implies #[trigger] pixel_written(
            buf@,
            (pts@[j].0, pts@[j].1, colors@[j]),
            width as int,
        ) by {
            assert(pixel_written(buf@, pixels@[j], width as int));
        }
    }
    buf
}

} // verus!

