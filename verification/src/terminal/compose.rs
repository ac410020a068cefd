//! Composition of animation frames (Kitty graphics `a=c`): a rectangle of
//! one frame is copied onto another, either overwriting it or blended over
//! it by its alpha channel.

use vstd::prelude::*;

use crate::terminal::images::TerminalImage;

verus! {

/// Largest buffer a composition may copy (256 MiB).
pub const MAX_COMPOSE_BYTES: usize = 268435456;

/// Why a composition was refused.
#[derive(Debug, Clone, Copy, PartialEq, Eq, Structural)]
pub enum ComposeError {
    /// The source frame does not exist.
    SourceMissing(u32),
    /// The destination frame does not exist.
    DestinationMissing(u32),
    /// The rectangle would need a copy buffer of this many bytes.
    TooLarge(usize),
}

/// The RGBA bytes of frame `frame` of `image`: frame 1 is the root image,
/// frame `k >= 2` the extra frame `k - 2`.
pub open spec fn frame_bytes(image: TerminalImage, frame: u32) -> Option<Seq<u8>> {
    if frame == 1 {
        Some(image.data@)
    } else if frame >= 2 && frame - 2 < image.frames@.len() {
        Some(image.frames@[frame - 2].data@)
    } else {
        None
    }
}

/// `new` is `old` with the bytes of frame `frame` replaced by `bytes`.
pub open spec fn frame_replaced(old: TerminalImage, new: TerminalImage, frame: u32, bytes: Seq<u8>) -> bool {
    &&& new.id == old.id
    &&& new.width == old.width
    &&& new.height == old.height
    &&& new.animation_state == old.animation_state
    &&& new.current_frame == old.current_frame
    &&& new.loop_count == old.loop_count
    &&& new.current_loop == old.current_loop
    &&& if frame == 1 {
        new.data@ == bytes && new.frames == old.frames
    } else {
        let k = frame - 2;
        &&& new.data == old.data
        &&& new.frames@.len() == old.frames@.len()
        &&& forall|j: int|
            0 <= j < old.frames@.len() && j != k ==> #[trigger] new.frames@[j] == old.frames@[j]
        &&& new.frames@[k].data@ == bytes
        &&& new.frames@[k].number == old.frames@[k].number
        &&& new.frames@[k].width == old.frames@[k].width
        &&& new.frames@[k].height == old.frames@[k].height
        &&& new.frames@[k].x == old.frames@[k].x
        &&& new.frames@[k].y == old.frames@[k].y
        &&& new.frames@[k].gap == old.frames@[k].gap
    }
}

/// How many pixels of a `want`-pixel run fit from offset `from` and from
/// offset `to` in a line of `size` pixels.
pub open spec fn fit_extent(want: u32, size: u32, from: u32, to: u32) -> int {
    let a = if want <= size - from {
        want as int
    } else {
        size - from
    };
    if a <= size - to {
        a
    } else {
        size - to
    }
}

/// Offset of pixel (`x`, `y`) in RGBA bytes of an image `w` pixels wide.
pub open spec fn pixel_offset(w: int, x: int, y: int) -> int {
    (y * w + x) * 4
}

/// A `cw` by `ch` rectangle at (`x`, `y`) lies inside RGBA bytes of length
/// `len` of an image `w` pixels wide.
pub open spec fn rect_fits(len: int, w: int, x: int, y: int, cw: int, ch: int) -> bool {
    cw == 0 || ch == 0 || pixel_offset(w, x + cw - 1, y + ch - 1) + 4 <= len
}

/// The `cw` by `ch` rectangle at (`x`, `y`) of `src`, row by row.
pub open spec fn copied_rect(src: Seq<u8>, w: int, x: int, y: int, cw: int, ch: int) -> Seq<u8> {
    Seq::new(
        (cw * ch * 4) as nat,
        |k: int| src[pixel_offset(w, x, y + k / (cw * 4)) + k % (cw * 4)],
    )
}

/// Channel `c` of source pixel `s` put on destination pixel `d`: overwrite
/// (mode 1 or an opaque source), keep (transparent source), or the
/// integer "over" blend.
pub open spec fn blend_byte(s: Seq<u8>, d: Seq<u8>, c: int, mode: u8) -> u8 {
    if mode == 1 || s[3] == 255 {
        s[c]
    } else if s[3] == 0 {
        d[c]
    } else {
        let sa = s[3] as int;
        let da = d[3] as int;
        let out_a = sa + da * (255 - sa) / 255;
        if c == 3 {
            out_a as u8
        } else {
            ((s[c] * sa + d[c] * da * (255 - sa) / 255) / out_a) as u8
        }
    }
}

/// `dst` with the first `n` pixels (row by row) of the copied rectangle
/// `cp` put at (`x`, `y`) by `blend_byte`.
pub open spec fn composed(
    dst: Seq<u8>,
    cp: Seq<u8>,
    w: int,
    x: int,
    y: int,
    cw: int,
    ch: int,
    mode: u8,
    n: int,
) -> Seq<u8> {
    Seq::new(
        dst.len(),
        |i: int|
            {
                let p = i / 4;
                let py = p / w;
                let px = p % w;
                let k = (py - y) * cw + (px - x);
                if y <= py < y + ch && x <= px < x + cw && k < n {
                    blend_byte(cp.subrange(4 * k, 4 * k + 4), dst.subrange(4 * p, 4 * p + 4), i % 4, mode)
                } else {
                    dst[i]
                }
            },
    )
}

/// The buffer size that the copy needs, as the saturating product
/// `cw * ch * 4` in `usize`.
pub open spec fn alloc_size(cw: int, ch: int) -> int {
    let a = if cw * ch <= usize::MAX {
        cw * ch
    } else {
        usize::MAX as int
    };
    if a * 4 <= usize::MAX {
        a * 4
    } else {
        usize::MAX as int
    }
}

/// The frames of `image` are large enough for the rectangles that a
/// composition with these arguments reads and writes.
pub open spec fn compose_fits(
    image: TerminalImage,
    src_frame: u32,
    dst_frame: u32,
    src_x: u32,
    src_y: u32,
    dst_x: u32,
    dst_y: u32,
    width: u32,
    height: u32,
) -> bool {
    let w = image.width;
    let h = image.height;
    src_x < w && src_y < h && dst_x < w && dst_y < h ==> {
        let cw = fit_extent(width, w, src_x, dst_x);
        let ch = fit_extent(height, h, src_y, dst_y);
        &&& (frame_bytes(image, src_frame) matches Some(s) ==> rect_fits(
            s.len() as int,
            w as int,
            src_x as int,
            src_y as int,
            cw,
            ch,
        ))
        &&& (frame_bytes(image, dst_frame) matches Some(d) ==> rect_fits(
            d.len() as int,
            w as int,
            dst_x as int,
            dst_y as int,
            cw,
            ch,
        ))
    }
}

/// What a composition does to `old`, giving `new` and `r`.
pub open spec fn compose_outcome(
    old: TerminalImage,
    new: TerminalImage,
    r: Result<(), ComposeError>,
    src_frame: u32,
    dst_frame: u32,
    src_x: u32,
    src_y: u32,
    dst_x: u32,
    dst_y: u32,
    width: u32,
    height: u32,
    mode: u8,
) -> bool {
    let w = old.width;
    let h = old.height;
    match frame_bytes(old, src_frame) {
        None => r == Err::<(), ComposeError>(ComposeError::SourceMissing(src_frame)) && new == old,
        Some(src) => if !(src_x < w && src_y < h && dst_x < w && dst_y < h) {
            r == Ok::<(), ComposeError>(()) && new == old
        } else {
            let cw = fit_extent(width, w, src_x, dst_x);
            let ch = fit_extent(height, h, src_y, dst_y);
            if alloc_size(cw, ch) > MAX_COMPOSE_BYTES {
                r == Err::<(), ComposeError>(ComposeError::TooLarge(alloc_size(cw, ch) as usize))
                    && new == old
            } else {
                match frame_bytes(old, dst_frame) {
                    None => r == Err::<(), ComposeError>(
                        ComposeError::DestinationMissing(dst_frame),
                    ) && new == old,
                    Some(dst) => r == Ok::<(), ComposeError>(()) && frame_replaced(
                        old,
                        new,
                        dst_frame,
                        composed(
                            dst,
                            copied_rect(src, w as int, src_x as int, src_y as int, cw, ch),
                            w as int,
                            dst_x as int,
                            dst_y as int,
                            cw,
                            ch,
                            mode,
                            cw * ch,
                        ),
                    ),
                }
            }
        },
    }
}

/// Pixel `n` (row by row) of a `cw` pixels wide rectangle at (`x`, `y`)
/// starts at byte `pixel_offset(w, x + n % cw, y + n / cw)`, and those are
/// the only bytes whose rectangle index is `n`.
proof fn lemma_rect_pixel(w: int, x: int, y: int, cw: int, ch: int, n: int, i: int)
    requires
        w > 0,
        0 <= x,
        0 <= y,
        0 < cw,
        x + cw <= w,
        0 <= n < cw * ch,
        0 <= i,
    ensures
        ({
            let b = pixel_offset(w, x + n % cw, y + n / cw);
            let p = i / 4;
            let py = p / w;
            let px = p % w;
            (y <= py < y + ch && x <= px < x + cw && (py - y) * cw + (px - x) == n) <==> (b <= i
                < b + 4)
        }),
{
    let row = n / cw;
    let col = n % cw;
    vstd::arithmetic::div_mod::lemma_fundamental_div_mod(n, cw);
    assert(n == row * cw + col) by (nonlinear_arith)
        requires
            n == cw * row + col,
    ;
    let pp = (y + row) * w + x + col;
    let b = pp * 4;
    assert(b == pixel_offset(w, x + n % cw, y + n / cw));
    let p = i / 4;
    vstd::arithmetic::div_mod::lemma_fundamental_div_mod(i, 4);
    vstd::arithmetic::div_mod::lemma_fundamental_div_mod(p, w);
    let py = p / w;
    let px = p % w;
    assert(p == py * w + px) by (nonlinear_arith)
        requires
            p == w * py + px,
    ;
    if b <= i < b + 4 {
        vstd::arithmetic::div_mod::lemma_fundamental_div_mod_converse(i, 4, pp, i - b);
        vstd::arithmetic::div_mod::lemma_fundamental_div_mod_converse(pp, w, y + row, x + col);
        assert(0 <= row);
        assert(row < ch) by (nonlinear_arith)
            requires
                n == row * cw + col,
                0 <= col,
                n < cw * ch,
                cw > 0,
        ;
        assert((py - y) * cw + (px - x) == n);
    }
    if y <= py < y + ch && x <= px < x + cw && (py - y) * cw + (px - x) == n {
        vstd::arithmetic::div_mod::lemma_fundamental_div_mod_converse(n, cw, py - y, px - x);
        assert(p == pp);
        assert(b <= i < b + 4);
    }
}

/// Appending pixel `n` of the blend to the first `n`.
proof fn lemma_composed_step(
    dst: Seq<u8>,
    cp: Seq<u8>,
    w: int,
    x: int,
    y: int,
    cw: int,
    ch: int,
    mode: u8,
    n: int,
)
    requires
        w > 0,
        0 <= x,
        0 <= y,
        0 < cw,
        x + cw <= w,
        0 <= n < cw * ch,
        cp.len() == cw * ch * 4,
        pixel_offset(w, x + n % cw, y + n / cw) + 4 <= dst.len(),
    ensures
        ({
            let b = pixel_offset(w, x + n % cw, y + n / cw);
            let s = cp.subrange(4 * n, 4 * n + 4);
            let d = dst.subrange(b, b + 4);
            composed(dst, cp, w, x, y, cw, ch, mode, n + 1) == composed(
                dst,
                cp,
                w,
                x,
                y,
                cw,
                ch,
                mode,
                n,
            ).update(b, blend_byte(s, d, 0, mode)).update(b + 1, blend_byte(s, d, 1, mode)).update(
                b + 2,
                blend_byte(s, d, 2, mode),
            ).update(b + 3, blend_byte(s, d, 3, mode))
        }),
{
    let b = pixel_offset(w, x + n % cw, y + n / cw);
    let s = cp.subrange(4 * n, 4 * n + 4);
    let d = dst.subrange(b, b + 4);
    let lhs = composed(dst, cp, w, x, y, cw, ch, mode, n + 1);
    let rhs = composed(dst, cp, w, x, y, cw, ch, mode, n).update(b, blend_byte(s, d, 0, mode)).update(
        b + 1,
        blend_byte(s, d, 1, mode),
    ).update(b + 2, blend_byte(s, d, 2, mode)).update(b + 3, blend_byte(s, d, 3, mode));
    assert forall|i: int| 0 <= i < dst.len() implies lhs[i] == rhs[i] by {
        lemma_rect_pixel(w, x, y, cw, ch, n, i);
        vstd::arithmetic::div_mod::lemma_fundamental_div_mod(i, 4);
        if b <= i < b + 4 {
            assert(i / 4 * 4 == b);
            assert(i % 4 == i - b);
        }
    }
    assert(lhs =~= rhs);
}

/// Byte `k` of the copied rectangle comes from row `k / (cw * 4)`.
proof fn lemma_copied_index(w: int, x: int, y: int, cw: int, row: int, j: int)
    requires
        0 < cw,
        0 <= row,
        0 <= j < cw * 4,
    ensures
        (row * (cw * 4) + j) / (cw * 4) == row,
        (row * (cw * 4) + j) % (cw * 4) == j,
{
    vstd::arithmetic::div_mod::lemma_fundamental_div_mod_converse(row * (cw * 4) + j, cw * 4, row, j);
}

/// Offsets inside a fitting rectangle stay inside the bytes.
proof fn lemma_rect_offset(len: int, w: int, x: int, y: int, cw: int, ch: int, row: int, col: int)
    requires
        rect_fits(len, w, x, y, cw, ch),
        w > 0,
        0 <= x,
        0 <= y,
        0 <= row < ch,
        0 <= col < cw,
    ensures
        pixel_offset(w, x + col, y + row) + 4 <= len,
        0 <= pixel_offset(w, x + col, y + row),
        y + row <= (y + row) * w,
{
    assert(y + row <= (y + row) * w) by (nonlinear_arith)
        requires
            0 <= y + row,
            w > 0,
    ;
    assert((y + row) * w <= (y + ch - 1) * w) by (nonlinear_arith)
        requires
            row <= ch - 1,
            w > 0,
    ;
    assert(0 <= (y + row) * w) by (nonlinear_arith)
        requires
            0 <= y + row,
            w > 0,
    ;
}

/// Copies the `cw` by `ch` rectangle at (`x`, `y`) out of `src`.
fn copy_rect(src: &Vec<u8>, w: usize, x: usize, y: usize, cw: usize, ch: usize) -> (r: Vec<u8>)
    requires
        w > 0,
        x + cw <= w,
        rect_fits(src.len() as int, w as int, x as int, y as int, cw as int, ch as int),
        cw * ch * 4 <= MAX_COMPOSE_BYTES,
    ensures
        r@ == copied_rect(src@, w as int, x as int, y as int, cw as int, ch as int),
{
    let mut out: Vec<u8> = Vec::new();
    if cw == 0 || ch == 0 {
        proof {
            assert(cw * ch == 0) by (nonlinear_arith)
                requires
                    cw == 0 || ch == 0,
            ;
            assert(out@ =~= copied_rect(src@, w as int, x as int, y as int, cw as int, ch as int));
        }
        return out;
    }
    proof {
        assert(cw * 4 <= cw * ch * 4) by (nonlinear_arith)
            requires
                ch >= 1,
                cw >= 0,
        ;
    }
    let line = cw * 4;
    let mut row: usize = 0;
    while row < ch
        invariant
            0 < cw,
            0 < ch,
            w > 0,
            x + cw <= w,
            line == cw * 4,
            cw * ch * 4 <= MAX_COMPOSE_BYTES,
            rect_fits(src.len() as int, w as int, x as int, y as int, cw as int, ch as int),
            0 <= row <= ch,
            out@ == copied_rect(src@, w as int, x as int, y as int, cw as int, ch as int).take(
                (row * line) as int,
            ),
        decreases ch - row,
    {
        proof {
            lemma_rect_offset(src.len() as int, w as int, x as int, y as int, cw as int, ch as int, row as int, 0);
            lemma_rect_offset(
                src.len() as int,
                w as int,
                x as int,
                y as int,
                cw as int,
                ch as int,
                row as int,
                (cw - 1) as int,
            );
            assert(row * line + line <= cw * ch * 4) by (nonlinear_arith)
                requires
                    row < ch,
                    line == cw * 4,
            ;
        }
        let start = ((y + row) * w + x) * 4;
        let mut j: usize = 0;
        while j < line
            invariant
                0 < cw,
                0 < ch,
                w > 0,
                line == cw * 4,
                0 <= row < ch,
                row * line + line <= cw * ch * 4,
                start == pixel_offset(w as int, x as int, (y + row) as int),
                start + line <= src.len(),
                0 <= j <= line,
                out@ == copied_rect(src@, w as int, x as int, y as int, cw as int, ch as int).take(
                    (row * line + j) as int,
                ),
            decreases line - j,
        {
            out.push(src[start + j]);
            proof {
                lemma_copied_index(w as int, x as int, y as int, cw as int, row as int, j as int);
                let full = copied_rect(src@, w as int, x as int, y as int, cw as int, ch as int);
                assert(full[(row * line + j) as int] == src@[start + j]);
                assert(out@ =~= full.take((row * line + j + 1) as int));
            }
            j = j + 1;
        }
        row = row + 1;
        proof {
            assert((row - 1) * line + line == row * line) by (nonlinear_arith);
        }
    }
    proof {
        assert(row * line == cw * ch * 4) by (nonlinear_arith)
            requires
                row == ch,
                line == cw * 4,
        ;
        assert(out@ =~= copied_rect(src@, w as int, x as int, y as int, cw as int, ch as int));
    }
    out
}

/// Channel `c` of `blend_byte`, computed.
fn blend_exec(s: &Vec<u8>, si: usize, d: &Vec<u8>, di: usize, c: usize, mode: u8) -> (r: u8)
    requires
        si + 4 <= s.len(),
        di + 4 <= d.len(),
        c < 4,
    ensures
        r == blend_byte(
            s@.subrange(si as int, si + 4),
            d@.subrange(di as int, di + 4),
            c as int,
            mode,
        ),
{
    let sa = s[si + 3] as u32;
    if mode == 1 || sa == 255 {
        s[si + c]
    } else if sa == 0 {
        d[di + c]
    } else {
        let da = d[di + 3] as u32;
        assert(da * (255 - sa) <= 255 * 255) by (nonlinear_arith)
            requires
                da <= 255,
                sa <= 255,
        ;
        let out_a = sa + da * (255 - sa) / 255;
        assert(out_a >= 1);
        if c == 3 {
            #[verifier::truncate]
            (out_a as u8)
        } else {
            let sc = s[si + c] as u32;
            let dc = d[di + c] as u32;
            assert(sc * sa <= 255 * 255) by (nonlinear_arith)
                requires
                    sc <= 255,
                    sa <= 255,
            ;
            assert(dc * da <= 255 * 255) by (nonlinear_arith)
                requires
                    dc <= 255,
                    da <= 255,
            ;
            assert(dc * da * (255 - sa) <= 255 * 255 * 255) by (nonlinear_arith)
                requires
                    dc * da <= 255 * 255,
                    sa <= 255,
            ;
            #[verifier::truncate]
            (((sc * sa + dc * da * (255 - sa) / 255) / out_a) as u8)
        }
    }
}

/// Puts the copied rectangle `cp` onto `dst` at (`x`, `y`).
fn blend_rect(dst: &mut Vec<u8>, cp: &Vec<u8>, w: usize, x: usize, y: usize, cw: usize, ch: usize, mode: u8)
    requires
        w > 0,
        x + cw <= w,
        cp@.len() == cw * ch * 4,
        rect_fits(old(dst).len() as int, w as int, x as int, y as int, cw as int, ch as int),
        cw * ch * 4 <= MAX_COMPOSE_BYTES,
    ensures
        final(dst)@ == composed(
            old(dst)@,
            cp@,
            w as int,
            x as int,
            y as int,
            cw as int,
            ch as int,
            mode,
            cw * ch,
        ),
{
    let ghost d0 = dst@;
    if cw == 0 || ch == 0 {
        proof {
            assert(cw * ch == 0) by (nonlinear_arith)
                requires
                    cw == 0 || ch == 0,
            ;
            assert(dst@ =~= composed(d0, cp@, w as int, x as int, y as int, cw as int, ch as int, mode, 0));
        }
        return;
    }
    proof {
        assert(dst@ =~= composed(d0, cp@, w as int, x as int, y as int, cw as int, ch as int, mode, 0));
    }
    let mut row: usize = 0;
    while row < ch
        invariant
            0 < cw,
            0 < ch,
            w > 0,
            x + cw <= w,
            cp@.len() == cw * ch * 4,
            cw * ch * 4 <= MAX_COMPOSE_BYTES,
            dst.len() == d0.len(),
            rect_fits(d0.len() as int, w as int, x as int, y as int, cw as int, ch as int),
            0 <= row <= ch,
            dst@ == composed(d0, cp@, w as int, x as int, y as int, cw as int, ch as int, mode, (row * cw) as int),
        decreases ch - row,
    {
        let mut col: usize = 0;
        while col < cw
            invariant
                0 < cw,
                0 < ch,
                w > 0,
                x + cw <= w,
                cp@.len() == cw * ch * 4,
                cw * ch * 4 <= MAX_COMPOSE_BYTES,
                dst.len() == d0.len(),
                rect_fits(d0.len() as int, w as int, x as int, y as int, cw as int, ch as int),
                0 <= row < ch,
                0 <= col <= cw,
                dst@ == composed(
                    d0,
                    cp@,
                    w as int,
                    x as int,
                    y as int,
                    cw as int,
                    ch as int,
                    mode,
                    (row * cw + col) as int,
                ),
            decreases cw - col,
        {
            let ghost n: int = (row * cw + col) as int;
            proof {
                lemma_rect_offset(d0.len() as int, w as int, x as int, y as int, cw as int, ch as int, row as int, col as int);
                assert(n < cw * ch) by (nonlinear_arith)
                    requires
                        n == row * cw + col,
                        row < ch,
                        col < cw,
                ;
                vstd::arithmetic::div_mod::lemma_fundamental_div_mod_converse(n, cw as int, row as int, col as int);
                assert(4 * n + 4 <= cw * ch * 4);
            }
            let di = ((y + row) * w + x + col) * 4;
            let si = (row * cw + col) * 4;
            let v0 = blend_exec(cp, si, &*dst, di, 0, mode);
            let v1 = blend_exec(cp, si, &*dst, di, 1, mode);
            let v2 = blend_exec(cp, si, &*dst, di, 2, mode);
            let v3 = blend_exec(cp, si, &*dst, di, 3, mode);
            proof {
                let cur = composed(d0, cp@, w as int, x as int, y as int, cw as int, ch as int, mode, n);
                assert(dst@.subrange(di as int, di + 4) =~= d0.subrange(di as int, di + 4)) by {
                    assert forall|i: int| di <= i < di + 4 implies dst@[i] == d0[i] by {
                        lemma_rect_pixel(w as int, x as int, y as int, cw as int, ch as int, n, i);
                        if (i / 4 / (w as int) - y) * cw + (i / 4 % (w as int) - x) < n
                            && y <= i / 4 / (w as int) && x <= i / 4 % (w as int) {
                            assert(false);
                        }
                    }
                }
                lemma_composed_step(d0, cp@, w as int, x as int, y as int, cw as int, ch as int, mode, n);
            }
            dst.set(di, v0);
            dst.set(di + 1, v1);
            dst.set(di + 2, v2);
            dst.set(di + 3, v3);
            col = col + 1;
        }
        row = row + 1;
        proof {
            assert((row - 1) * cw + cw == row * cw) by (nonlinear_arith);
        }
    }
    proof {
        assert(row * cw == cw * ch) by (nonlinear_arith)
            requires
                row == ch,
        ;
    }
}

/// `a * b`, or `usize::MAX` where the product does not fit.
pub(crate) fn sat_mul(a: usize, b: usize) -> (r: usize)
    ensures
        r == (if a * b <= usize::MAX {
            a * b
        } else {
            usize::MAX as int
        }),
{
    match a.checked_mul(b) {
        Some(v) => v,
        None => usize::MAX,
    }
}

/// Copies a rectangle of frame `src_frame` onto frame `dst_frame` (1 is
/// the root image): mode 1 overwrites, any other mode blends by alpha.
/// The rectangle is clipped to the image; offsets outside it leave the
/// image unchanged.
pub fn compose_frames(
    image: &mut TerminalImage,
    src_frame: u32,
    dst_frame: u32,
    src_x: u32,
    src_y: u32,
    dst_x: u32,
    dst_y: u32,
    width: u32,
    height: u32,
    compose_mode: u8,
) -> (r: Result<(), ComposeError>)
    requires
        compose_fits(*old(image), src_frame, dst_frame, src_x, src_y, dst_x, dst_y, width, height),
    ensures
        compose_outcome(
            *old(image),
            *final(image),
            r,
            src_frame,
            dst_frame,
            src_x,
            src_y,
            dst_x,
            dst_y,
            width,
            height,
            compose_mode,
        ),
{
    let nframes = image.frames.len();
    let src_ok = src_frame == 1 || (src_frame >= 2 && ((src_frame - 2) as usize) < nframes);
    if !src_ok {
        return Err(ComposeError::SourceMissing(src_frame));
    }
    let w = image.width;
    let h = image.height;
    if src_x >= w || src_y >= h || dst_x >= w || dst_y >= h {
        return Ok(());
    }
    let a = if width <= w - src_x {
        width
    } else {
        w - src_x
    };
    let cw = if a <= w - dst_x {
        a
    } else {
        w - dst_x
    };
    let b = if height <= h - src_y {
        height
    } else {
        h - src_y
    };
    let ch = if b <= h - dst_y {
        b
    } else {
        h - dst_y
    };
    let alloc = sat_mul(sat_mul(cw as usize, ch as usize), 4);
    if alloc > MAX_COMPOSE_BYTES {
        return Err(ComposeError::TooLarge(alloc));
    }
    proof {
        assert(alloc == alloc_size(cw as int, ch as int));
        assert(cw * ch <= usize::MAX) by (nonlinear_arith)
            requires
                alloc == alloc_size(cw as int, ch as int),
                alloc <= MAX_COMPOSE_BYTES,
        ;
    }
    let dst_ok = dst_frame == 1 || (dst_frame >= 2 && ((dst_frame - 2) as usize) < nframes);
    if !dst_ok {
        return Err(ComposeError::DestinationMissing(dst_frame));
    }
    let copied = if src_frame == 1 {
        copy_rect(&image.data, w as usize, src_x as usize, src_y as usize, cw as usize, ch as usize)
    } else {
        let k = (src_frame - 2) as usize;
        copy_rect(&image.frames[k].data, w as usize, src_x as usize, src_y as usize, cw as usize, ch as usize)
    };
    let ghost old_image = *image;
    if dst_frame == 1 {
        blend_rect(
            &mut image.data,
            &copied,
            w as usize,
            dst_x as usize,
            dst_y as usize,
            cw as usize,
            ch as usize,
            compose_mode,
        );
    } else {
        let k = (dst_frame - 2) as usize;
        let ghost fr = image.frames@[k as int];
        blend_rect(
            &mut image.frames[k].data,
            &copied,
            w as usize,
            dst_x as usize,
            dst_y as usize,
            cw as usize,
            ch as usize,
            compose_mode,
        );
        proof {
            assert forall|j: int| 0 <= j < old_image.frames@.len() && j != k implies #[trigger] image.frames@[j]
                == old_image.frames@[j] by {}
        }
    }
    Ok(())
}

} // verus!
