//! Box blur for lock-screen backgrounds, and the solid fallback background.
use vstd::prelude::*;
use vstd::arithmetic::div_mod::*;
use vstd::arithmetic::mul::*;
use crate::images::{decode_fill, filled_rgba};

verus! {

/// First index of the blur window centred on `i` (inclusive).
pub open spec fn win_lo(i: int, r: int) -> int {
    if i > r { i - r } else { 0 }
}

/// Last index of the blur window centred on `i` (inclusive), clamped to `len - 1`.
pub open spec fn win_hi(i: int, r: int, len: int) -> int {
    if i + r < len - 1 { i + r } else { len - 1 }
}

/// Sum of the channel-`c` bytes at positions `off + j * step + c` for `lo <= j < hi`.
pub open spec fn line_sum(s: Seq<u8>, off: int, step: int, c: int, lo: int, hi: int) -> int
    decreases hi - lo,
{
    if hi <= lo {
        0
    } else {
        line_sum(s, off, step, c, lo, hi - 1) + s[off + (hi - 1) * step + c] as int
    }
}

/// Average of the window around element `i` of a line of `len` elements.
pub open spec fn box_avg(s: Seq<u8>, off: int, step: int, len: int, r: int, i: int, c: int) -> int {
    line_sum(s, off, step, c, win_lo(i, r), win_hi(i, r, len) + 1) / (win_hi(i, r, len) + 1
        - win_lo(i, r))
}

/// Whether byte index `k` is the channel-`c` byte of one of the `len` elements of a line.
pub open spec fn on_line(k: int, off: int, step: int, len: int, c: int) -> bool {
    &&& off <= k
    &&& (k - off) % step == c
    &&& (k - off) / step < len
}

/// The horizontal pass: every pixel channel becomes the average of the
/// channel over the pixels of its row within distance `r`.
pub open spec fn hblur(s: Seq<u8>, w: int, h: int, r: int) -> Seq<u8> {
    Seq::new(
        s.len(),
        |k: int|
            if k < h * (w * 4) {
                box_avg(s, (k / (w * 4)) * (w * 4), 4, w, r, (k % (w * 4)) / 4, k % 4) as u8
            } else {
                s[k]
            },
    )
}

/// The vertical pass: every pixel channel becomes the average of the
/// channel over the pixels of its column within distance `r`.
pub open spec fn vblur(s: Seq<u8>, w: int, h: int, r: int) -> Seq<u8> {
    Seq::new(
        s.len(),
        |k: int|
            if k < h * (w * 4) {
                box_avg(s, ((k % (w * 4)) / 4) * 4, w * 4, h, r, k / (w * 4), k % 4) as u8
            } else {
                s[k]
            },
    )
}

/// Three rounds of horizontal then vertical box blur with radius `r`.
pub open spec fn blur3(s: Seq<u8>, w: int, h: int, r: int) -> Seq<u8> {
    let p1 = vblur(hblur(s, w, h, r), w, h, r);
    let p2 = vblur(hblur(p1, w, h, r), w, h, r);
    vblur(hblur(p2, w, h, r), w, h, r)
}

/// Byte index of channel `c` of pixel `(x, y)` in a `w`-pixel-wide BGRA image.
pub open spec fn pix(w: int, y: int, x: int, c: int) -> int {
    y * (w * 4) + x * 4 + c
}

/// Every pixel of the first `w * h` pixels has colour `col` (four channel bytes).
pub open spec fn is_solid(s: Seq<u8>, w: int, h: int, col: Seq<u8>) -> bool {
    &&& col.len() == 4
    &&& s.len() >= h * (w * 4)
    &&& forall|k: int| 0 <= k < h * (w * 4) ==> #[trigger] s[k] == col[k % 4]
}

proof fn lemma_line_sum_bounds(s: Seq<u8>, off: int, step: int, c: int, lo: int, hi: int)
    requires
        lo <= hi,
        forall|j: int| lo <= j < hi ==> 0 <= #[trigger] (off + j * step + c) < s.len(),
    ensures
        0 <= line_sum(s, off, step, c, lo, hi) <= 255 * (hi - lo),
    decreases hi - lo,
{
    if lo < hi {
        lemma_line_sum_bounds(s, off, step, c, lo, hi - 1);
        let k = off + (hi - 1) * step + c;
        assert(0 <= k < s.len());
    }
}

proof fn lemma_line_sum_drop_first(s: Seq<u8>, off: int, step: int, c: int, lo: int, hi: int)
    requires
        lo < hi,
    ensures
        line_sum(s, off, step, c, lo, hi) == s[off + lo * step + c] as int + line_sum(
            s,
            off,
            step,
            c,
            lo + 1,
            hi,
        ),
    decreases hi - lo,
{
    if lo + 1 < hi {
        lemma_line_sum_drop_first(s, off, step, c, lo, hi - 1);
        assert(line_sum(s, off, step, c, lo + 1, hi) == line_sum(s, off, step, c, lo + 1, hi - 1)
            + s[off + (hi - 1) * step + c] as int);
    } else {
        assert(hi - 1 == lo);
        assert((hi - 1) * step == lo * step);
        assert(line_sum(s, off, step, c, lo, hi) == line_sum(s, off, step, c, lo, lo) + s[off + (hi
            - 1) * step + c] as int);
    }
}

proof fn lemma_line_sum_const(s: Seq<u8>, off: int, step: int, c: int, lo: int, hi: int, v: u8)
    requires
        lo <= hi,
        forall|j: int| lo <= j < hi ==> #[trigger] s[off + j * step + c] == v,
    ensures
        line_sum(s, off, step, c, lo, hi) == (hi - lo) * v,
    decreases hi - lo,
{
    if lo < hi {
        lemma_line_sum_const(s, off, step, c, lo, hi - 1, v);
        let prev = line_sum(s, off, step, c, lo, hi - 1);
        assert(lo <= hi - 1 < hi);
        let last = s[off + (hi - 1) * step + c] as int;
        assert(last == v as int);
        assert(line_sum(s, off, step, c, lo, hi) == prev + last);
        assert(prev + last == (hi - lo) * v) by (nonlinear_arith)
            requires
                prev == (hi - 1 - lo) * v,
                last == v as int,
        ;
    } else {
        assert((hi - lo) * v == 0) by (nonlinear_arith)
            requires
                hi == lo,
        ;
    }
}

proof fn lemma_box_avg_const(s: Seq<u8>, off: int, step: int, len: int, r: int, i: int, c: int, v: u8)
    requires
        0 <= i < len,
        r >= 0,
        forall|j: int| 0 <= j < len ==> #[trigger] s[off + j * step + c] == v,
    ensures
        box_avg(s, off, step, len, r, i, c) == v,
{
    let lo = win_lo(i, r);
    let hi = win_hi(i, r, len) + 1;
    assert forall|j: int| lo <= j < hi implies #[trigger] s[off + j * step + c] == v by {
        assert(0 <= j < len);
    }
    lemma_line_sum_const(s, off, step, c, lo, hi, v);
    let n = hi - lo;
    assert(n > 0);
    assert((n * v) / n == v) by (nonlinear_arith)
        requires
            n > 0,
    ;
}

/// `k` decomposes into row `k / (w*4)`, column `(k % (w*4)) / 4` and channel `k % 4`.
#[verifier::spinoff_prover]
proof fn lemma_decompose(k: int, w: int)
    requires
        w > 0,
        k >= 0,
    ensures
        k == (k / (w * 4)) * (w * 4) + ((k % (w * 4)) / 4) * 4 + k % 4,
        0 <= (k % (w * 4)) / 4 < w,
        (k % (w * 4)) % 4 == k % 4,
        0 <= k % 4 < 4,
{
    let m = w * 4;
    assert(w * 4 > 0) by (nonlinear_arith)
        requires
            w > 0,
    ;
    lemma_fundamental_div_mod(k, m);
    lemma_mod_bound(k, m);
    let rem = k % m;
    lemma_fundamental_div_mod(rem, 4);
    lemma_mod_bound(rem, 4);
    lemma_div_pos_is_pos(rem, 4);
    assert(rem / 4 < w) by {
        lemma_div_by_multiple_is_strongly_ordered(rem, m, w, 4);
        lemma_div_by_multiple(w, 4);
    }
    assert((k % (w * 4)) % 4 == k % 4) by {
        lemma_mod_mod(k, 4, w);
        lemma_mul_is_commutative(4, w);
    }    assert(k == (k / m) * m + (rem / 4) * 4 + k % 4) by {
        lemma_mul_is_commutative(k / m, m);
        lemma_mul_is_commutative(rem / 4, 4);
    }
}

/// Index `off + i*step + c` with `c < step` has quotient `i` and remainder `c` relative to `off`.
proof fn lemma_on_line(off: int, step: int, i: int, c: int, len: int)
    requires
        0 <= c < step,
        0 <= i < len,
    ensures
        on_line(off + i * step + c, off, step, len, c),
{
    lemma_fundamental_div_mod_converse(i * step + c, step, i, c);
    assert(i * step >= 0) by (nonlinear_arith)
        requires
            i >= 0,
            step > 0,
    ;
}

proof fn lemma_index_bound(off: int, step: int, len: int, i: int, c: int)
    requires
        0 <= i < len,
        0 <= c < 4,
        step >= 4,
        off >= 0,
    ensures
        0 <= off + i * step + c <= off + (len - 1) * step + c,
{
    assert(0 <= i * step <= (len - 1) * step) by (nonlinear_arith)
        requires
            0 <= i < len,
            step >= 4,
    ;
}

proof fn lemma_distinct_on_line(off: int, step: int, i: int, j: int, c: int)
    requires
        i != j,
        step > 0,
    ensures
        off + i * step + c != off + j * step + c,
{
    if i < j {
        assert(i * step < j * step) by (nonlinear_arith)
            requires
                i < j,
                step > 0,
        ;
    } else {
        assert(j * step < i * step) by (nonlinear_arith)
            requires
                j < i,
                step > 0,
        ;
    }
}

/// Blur channel `c` of one line of `len` elements (element `i` at `off + i * step`),
/// reading from `src` and writing into `dst`.
fn blur_channel(
    src: &Vec<u8>,
    dst: &mut Vec<u8>,
    off: usize,
    step: usize,
    len: usize,
    r: usize,
    c: usize,
)
    requires
        len >= 1,
        c < 4,
        step >= 4,
        r <= u32::MAX,
        off + (len - 1) * step + 4 <= src.len(),
        old(dst).len() == src.len(),
    ensures
        final(dst).len() == src.len(),
        forall|i: int|
            0 <= i < len ==> #[trigger] final(dst)@[off + i * step + c] == box_avg(
                src@,
                off as int,
                step as int,
                len as int,
                r as int,
                i,
                c as int,
            ),
        forall|k: int|
            0 <= k < src.len() && !on_line(k, off as int, step as int, len as int, c as int)
                ==> #[trigger] final(dst)@[k] == old(dst)@[k],
{
    let ghost s = src@;
    let ghost o = off as int;
    let ghost st = step as int;
    let ghost n = len as int;
    let ghost ch = c as int;
    let ghost ri = r as int;
    assert forall|j: int| 0 <= j < n implies 0 <= #[trigger] (o + j * st + ch) < s.len() by {
        lemma_index_bound(o, st, n, j, ch);
    }
    // initial window [0, min(r, len - 1)]
    let first_hi: usize = if r < len - 1 { r } else { len - 1 };
    let mut sum: u64 = 0;
    let mut j: usize = 0;
    while j <= first_hi
        invariant
            0 <= j <= first_hi + 1,
            first_hi == win_hi(0, ri, n),
            first_hi < len,
            first_hi <= r,
            off + (len - 1) * step + 4 <= src.len(),
            r == ri,
            forall|jj: int| 0 <= jj < n ==> 0 <= #[trigger] (o + jj * st + ch) < s.len(),
            s == src@,
            o == off,
            st == step,
            n == len,
            ch == c,
            ri <= u32::MAX,
            ch < 4,
            st >= 4,
            sum == line_sum(s, o, st, ch, 0, j as int),
        decreases first_hi + 1 - j,
    {
        proof {
            lemma_index_bound(o, st, n, j as int, ch);
            lemma_line_sum_bounds(s, o, st, ch, 0, j as int);
        }
        sum = sum + src[off + j * step + c] as u64;
        j = j + 1;
    }
    let ghost d0 = dst@;
    let mut i: usize = 0;
    while i < len
        invariant
            0 <= i <= len,
            off + (len - 1) * step + 4 <= src.len(),
            r == ri,
            ri <= u32::MAX,
            forall|jj: int| 0 <= jj < n ==> 0 <= #[trigger] (o + jj * st + ch) < s.len(),
            s == src@,
            o == off,
            st == step,
            n == len,
            ch == c,
            ch < 4,
            st >= 4,
            dst.len() == src.len(),
            d0.len() == src.len(),
            i < len ==> sum == line_sum(s, o, st, ch, win_lo(i as int, ri), win_hi(i as int, ri, n) + 1),
            forall|ii: int|
                0 <= ii < i ==> #[trigger] dst@[o + ii * st + ch] == box_avg(s, o, st, n, ri, ii, ch),
            forall|k: int|
                0 <= k < s.len() && !(on_line(k, o, st, n, ch) && (k - o) / st < i)
                    ==> #[trigger] dst@[k] == d0[k],
        decreases len - i,
    {
        let ghost lo = win_lo(i as int, ri);
        let ghost hi = win_hi(i as int, ri, n) + 1;
        let left: usize = if i > r { i - r } else { 0 };
        let right: usize = if r < len - 1 - i { i + r } else { len - 1 };
        let count: usize = right - left + 1;
        proof {
            assert(left == lo);
            assert(right + 1 == hi);
            lemma_line_sum_bounds(s, o, st, ch, lo, hi);
            assert(255 * (hi - lo) <= 255 * (2 * ri + 1));
        }
        let avg: u64 = sum / (count as u64);
        proof {
            assert(avg <= 255) by (nonlinear_arith)
                requires
                    avg as int == (sum as int) / (count as int),
                    count >= 1,
                    sum <= 255 * count,
            ;
        }
        proof {
            lemma_index_bound(o, st, n, i as int, ch);
            lemma_on_line(o, st, i as int, ch, n);
        }
        let idx = off + i * step + c;
        let ghost before = dst@;
        dst.set(idx, avg as u8);
        proof {
            assert forall|ii: int|
                0 <= ii < i + 1 implies #[trigger] dst@[o + ii * st + ch] == box_avg(
                s,
                o,
                st,
                n,
                ri,
                ii,
                ch,
            ) by {
                if ii < i {
                    lemma_distinct_on_line(o, st, ii, i as int, ch);
                    assert(dst@[o + ii * st + ch] == before[o + ii * st + ch]);
                }
            }
            assert forall|k: int|
                0 <= k < s.len() && !(on_line(k, o, st, n, ch) && (k - o) / st < i + 1)
                    implies #[trigger] dst@[k] == d0[k] by {
                if k == idx {
                    lemma_fundamental_div_mod_converse(i * st + ch, st, i as int, ch);
                }
                assert(dst@[k] == before[k]);
            }
        }
        // slide the window to i + 1
        if i + 1 < len {
            let ghost nlo = win_lo(i + 1, ri);
            let ghost nhi = win_hi(i + 1, ri, n) + 1;
            if r < len - 1 - i {
                // a new element enters on the right
                proof {
                    lemma_index_bound(o, st, n, i + 1 + ri, ch);
                    lemma_line_sum_bounds(s, o, st, ch, lo, hi);
                }
                let ai = off + (i + 1 + r) * step + c;
                sum = sum + src[ai] as u64;
                assert(sum == line_sum(s, o, st, ch, lo, nhi));
            } else {
                assert(hi == nhi);
            }
            if i + 1 > r {
                // the leftmost element leaves
                proof {
                    lemma_index_bound(o, st, n, i - ri, ch);
                    assert(lo == i - ri);
                    lemma_line_sum_drop_first(s, o, st, ch, lo, nhi);
                    lemma_line_sum_bounds(s, o, st, ch, lo + 1, nhi);
                }
                let di = off + (i - r) * step + c;
                sum = sum - src[di] as u64;
            } else {
                assert(lo == nlo);
            }
        }
        i = i + 1;
    }
    proof {
        assert forall|k: int|
            0 <= k < src.len() && !on_line(k, off as int, step as int, len as int, c as int)
                implies #[trigger] dst@[k] == old(dst)@[k] by {
            assert(dst@[k] == d0[k]);
        }
    }
}

proof fn lemma_on_line_shape(k: int, off: int, step: int, len: int, c: int)
    requires
        on_line(k, off, step, len, c),
        step > 0,
    ensures
        k == off + ((k - off) / step) * step + c,
        0 <= (k - off) / step < len,
{
    lemma_fundamental_div_mod(k - off, step);
    lemma_div_pos_is_pos(k - off, step);
}

proof fn lemma_pix_unique(w: int, y1: int, x1: int, c1: int, y2: int, x2: int, c2: int)
    requires
        w > 0,
        0 <= x1 < w,
        0 <= x2 < w,
        0 <= c1 < 4,
        0 <= c2 < 4,
        y1 >= 0,
        y2 >= 0,
        pix(w, y1, x1, c1) == pix(w, y2, x2, c2),
    ensures
        y1 == y2,
        x1 == x2,
        c1 == c2,
{
    let w4 = w * 4;
    let k = pix(w, y1, x1, c1);
    lemma_fundamental_div_mod_converse(k, w4, y1, x1 * 4 + c1);
    lemma_fundamental_div_mod_converse(k, w4, y2, x2 * 4 + c2);
    lemma_fundamental_div_mod_converse(x1 * 4 + c1, 4, x1, c1);
    lemma_fundamental_div_mod_converse(x2 * 4 + c2, 4, x2, c2);
}

proof fn lemma_pix_bound(w: int, h: int, y: int, x: int, c: int)
    requires
        0 <= y < h,
        0 <= x < w,
        0 <= c < 4,
    ensures
        0 <= pix(w, y, x, c) < h * (w * 4),
        pix(w, y, x, c) < (y + 1) * (w * 4),
        y * (w * 4) <= pix(w, y, x, c),
{
    assert(0 <= y * (w * 4)) by (nonlinear_arith)
        requires
            y >= 0,
            w > 0,
    ;
    assert((y + 1) * (w * 4) <= h * (w * 4)) by (nonlinear_arith)
        requires
            y < h,
            w > 0,
    ;
    assert((y + 1) * (w * 4) == y * (w * 4) + w * 4) by (nonlinear_arith);
}

/// Turn per-pixel facts into the sequence form of a pass.
proof fn lemma_pixel_decomposition(k: int, w: int, h: int)
    requires
        w > 0,
        h >= 0,
        0 <= k < h * (w * 4),
    ensures
        k == pix(w, k / (w * 4), (k % (w * 4)) / 4, k % 4),
        0 <= k / (w * 4) < h,
        0 <= (k % (w * 4)) / 4 < w,
        0 <= k % 4 < 4,
{
    lemma_decompose(k, w);
    assert(w * 4 > 0) by (nonlinear_arith)
        requires
            w > 0,
    ;
    lemma_div_pos_is_pos(k, w * 4);
    lemma_div_by_multiple_is_strongly_ordered(k, h * (w * 4), h, w * 4);
    lemma_div_by_multiple(h, w * 4);
}

/// Horizontal box blur of every row of a `w × h` BGRA image.
fn box_blur_h(buf: &mut Vec<u8>, w: u32, h: u32, r: u32)
    requires
        h > 0 ==> w > 0,
        h * (w * 4) <= old(buf).len(),
    ensures
        final(buf)@ == hblur(old(buf)@, w as int, h as int, r as int),
{
    let src = buf.clone();
    let ghost s = src@;
    let ghost wi = w as int;
    let ghost hi = h as int;
    let wu = w as usize;
    let hu = h as usize;
    let ru = r as usize;
    let mut y: usize = 0;
    while y < hu
        invariant
            0 <= y <= hu,
            s == src@,
            buf.len() == s.len(),
            wi == w,
            hi == h,
            wu == w,
            hu == h,
            ru == r,
            h > 0 ==> w > 0,
            h * (w * 4) <= s.len(),
            forall|yy: int, x: int, c: int|
                0 <= yy < y && 0 <= x < wi && 0 <= c < 4 ==> #[trigger] buf@[pix(wi, yy, x, c)]
                    == box_avg(s, yy * (wi * 4), 4, wi, r as int, x, c),
            forall|k: int| y * (wi * 4) <= k < s.len() ==> #[trigger] buf@[k] == s[k],
        decreases hu - y,
    {
        proof {
            lemma_pix_bound(wi, hi, y as int, wi - 1, 3);
        }
        let w4: usize = wu * 4;
        let off: usize = y * w4;
        let ghost before = buf@;
        let mut c: usize = 0;
        while c < 4
            invariant
                0 <= c <= 4,
                0 <= y < hu,
                s == src@,
                buf.len() == s.len(),
                wi == w,
                hi == h,
                wu == w,
                hu == h,
                ru == r,
                w > 0,
                w4 == wi * 4,
                off == y * (wi * 4),
                off + (wu - 1) * 4 + 4 <= s.len(),
                forall|x: int, cc: int|
                    0 <= x < wi && 0 <= cc < c ==> #[trigger] buf@[pix(wi, y as int, x, cc)]
                        == box_avg(s, y * (wi * 4), 4, wi, r as int, x, cc),
                forall|k: int|
                    0 <= k < s.len() && !(y * (wi * 4) <= k < (y + 1) * (wi * 4) && k % 4 < c)
                        ==> #[trigger] buf@[k] == before[k],
            decreases 4 - c,
        {
            let ghost mid = buf@;
            blur_channel(&src, buf, off, 4, wu, ru, c);
            proof {
                assert forall|x: int, cc: int|
                    0 <= x < wi && 0 <= cc < c + 1 implies #[trigger] buf@[pix(wi, y as int, x, cc)]
                    == box_avg(s, y * (wi * 4), 4, wi, r as int, x, cc) by {
                    if cc < c {
                        if on_line(pix(wi, y as int, x, cc), off as int, 4, wi, c as int) {
                            lemma_on_line_shape(pix(wi, y as int, x, cc), off as int, 4, wi, c as int);
                        }
                    }
                }
                assert forall|k: int|
                    0 <= k < s.len() && !(y * (wi * 4) <= k < (y + 1) * (wi * 4) && k % 4 < c + 1)
                        implies #[trigger] buf@[k] == before[k] by {
                    if on_line(k, off as int, 4, wi, c as int) {
                        lemma_on_line_shape(k, off as int, 4, wi, c as int);
                        let q = (k - off) / 4;
                        lemma_pix_bound(wi, hi, y as int, q, c as int);
                        assert((y * wi + q) * 4 + c == y * (wi * 4) + q * 4 + c) by (nonlinear_arith);
                        lemma_fundamental_div_mod_converse(k, 4, y * wi + q, c as int);
                    }
                    assert(buf@[k] == mid[k]);
                }
            }
            c = c + 1;
        }
        proof {
            assert forall|yy: int, x: int, cc: int|
                0 <= yy < y + 1 && 0 <= x < wi && 0 <= cc < 4 implies #[trigger] buf@[pix(
                wi,
                yy,
                x,
                cc,
            )] == box_avg(s, yy * (wi * 4), 4, wi, r as int, x, cc) by {
                if yy < y {
                    lemma_pix_bound(wi, hi, yy, x, cc);
                    assert((yy + 1) * (wi * 4) <= y * (wi * 4)) by (nonlinear_arith)
                        requires
                            yy < y,
                            wi > 0,
                    ;
                    assert(buf@[pix(wi, yy, x, cc)] == before[pix(wi, yy, x, cc)]);
                } else {
                    lemma_pix_bound(wi, hi, yy, x, cc);
                }
            }
            assert forall|k: int| (y + 1) * (wi * 4) <= k < s.len() implies #[trigger] buf@[k]
                == s[k] by {
                lemma_pix_bound(wi, hi, y as int, 0, 0);
                assert(buf@[k] == before[k]);
            }
        }
        y = y + 1;
    }
    proof {
        let target = hblur(s, wi, hi, r as int);
        if wi == 0 {
            assert(hi * (wi * 4) == 0) by (nonlinear_arith)
                requires
                    wi == 0,
            ;
        }
        assert forall|k: int| 0 <= k < s.len() implies #[trigger] buf@[k] == target[k] by {
            if k < hi * (wi * 4) {
                lemma_pixel_decomposition(k, wi, hi);
                let yy = k / (wi * 4);
                let x = (k % (wi * 4)) / 4;
                let cc = k % 4;
                assert(buf@[pix(wi, yy, x, cc)] == box_avg(s, yy * (wi * 4), 4, wi, r as int, x, cc));
            } else {
                assert(hi * (wi * 4) <= k);
                assert(y * (wi * 4) == hi * (wi * 4));
            }
        }
        assert(buf@ =~= target);
    }
}

/// Vertical box blur of every column of a `w × h` BGRA image.
fn box_blur_v(buf: &mut Vec<u8>, w: u32, h: u32, r: u32)
    requires
        w > 0 ==> h > 0,
        h * (w * 4) <= old(buf).len(),
    ensures
        final(buf)@ == vblur(old(buf)@, w as int, h as int, r as int),
{
    let src = buf.clone();
    let ghost s = src@;
    let ghost wi = w as int;
    let ghost hi = h as int;
    let wu = w as usize;
    let hu = h as usize;
    let ru = r as usize;
    let mut x: usize = 0;
    while x < wu
        invariant
            0 <= x <= wu,
            s == src@,
            buf.len() == s.len(),
            wi == w,
            hi == h,
            wu == w,
            hu == h,
            ru == r,
            w > 0 ==> h > 0,
            h * (w * 4) <= s.len(),
            forall|y: int, xx: int, c: int|
                0 <= y < hi && 0 <= xx < x && 0 <= c < 4 ==> #[trigger] buf@[pix(wi, y, xx, c)]
                    == box_avg(s, xx * 4, wi * 4, hi, r as int, y, c),
            forall|y: int, xx: int, c: int|
                0 <= y < hi && x <= xx < wi && 0 <= c < 4 ==> #[trigger] buf@[pix(wi, y, xx, c)]
                    == s[pix(wi, y, xx, c)],
            forall|k: int| hi * (wi * 4) <= k < s.len() ==> #[trigger] buf@[k] == s[k],
        decreases wu - x,
    {
        proof {
            lemma_pix_bound(wi, hi, hi - 1, x as int, 3);
            assert(x * 4 + (hi - 1) * (wi * 4) + 4 <= hi * (wi * 4));
            assert(wi * 4 <= hi * (wi * 4)) by (nonlinear_arith)
                requires
                    hi >= 1,
                    wi >= 0,
            ;
        }
        let w4: usize = wu * 4;
        let off: usize = x * 4;
        let ghost before = buf@;
        let mut c: usize = 0;
        while c < 4
            invariant
                0 <= c <= 4,
                0 <= x < wu,
                s == src@,
                buf.len() == s.len(),
                wi == w,
                hi == h,
                wu == w,
                hu == h,
                ru == r,
                w > 0,
                h > 0,
                w4 == wi * 4,
                off == x * 4,
                off + (hu - 1) * w4 + 4 <= s.len(),
                hi * (wi * 4) <= s.len(),
                forall|y: int, cc: int|
                    0 <= y < hi && 0 <= cc < c ==> #[trigger] buf@[pix(wi, y, x as int, cc)]
                        == box_avg(s, x * 4, wi * 4, hi, r as int, y, cc),
                forall|y: int, xx: int, cc: int|
                    0 <= y < hi && 0 <= xx < wi && 0 <= cc < 4 && !(xx == x && cc < c)
                        ==> #[trigger] buf@[pix(wi, y, xx, cc)] == before[pix(wi, y, xx, cc)],
                forall|k: int| hi * (wi * 4) <= k < s.len() ==> #[trigger] buf@[k] == before[k],
            decreases 4 - c,
        {
            let ghost mid = buf@;
            blur_channel(&src, buf, off, w4, hu, ru, c);
            proof {
                assert forall|y: int, cc: int|
                    0 <= y < hi && 0 <= cc < c + 1 implies #[trigger] buf@[pix(wi, y, x as int, cc)]
                    == box_avg(s, x * 4, wi * 4, hi, r as int, y, cc) by {
                    lemma_pix_bound(wi, hi, y, x as int, cc);
                    if cc == c {
                        assert(pix(wi, y, x as int, cc) == off + y * (w4 as int) + c);
                        assert(buf@[off + y * (w4 as int) + c] == box_avg(s, off as int, w4 as int, hi, r as int, y, c as int));
                    }
                    if cc < c {
                        let k = pix(wi, y, x as int, cc);
                        if on_line(k, off as int, w4 as int, hi, c as int) {
                            lemma_on_line_shape(k, off as int, w4 as int, hi, c as int);
                            let q = (k - off) / (w4 as int);
                            assert(k == pix(wi, q, x as int, c as int));
                            lemma_pix_unique(wi, y, x as int, cc, q, x as int, c as int);
                        }
                        assert(buf@[k] == mid[k]);
                    }
                }
                assert forall|y: int, xx: int, cc: int|
                    0 <= y < hi && 0 <= xx < wi && 0 <= cc < 4 && !(xx == x && cc < c + 1)
                        implies #[trigger] buf@[pix(wi, y, xx, cc)] == before[pix(wi, y, xx, cc)] by {
                    let k = pix(wi, y, xx, cc);
                    lemma_pix_bound(wi, hi, y, xx, cc);
                    if on_line(k, off as int, w4 as int, hi, c as int) {
                        lemma_on_line_shape(k, off as int, w4 as int, hi, c as int);
                        let q = (k - off) / (w4 as int);
                        assert(k == pix(wi, q, x as int, c as int));
                        lemma_pix_unique(wi, y, xx, cc, q, x as int, c as int);
                    }
                    assert(!on_line(k, off as int, w4 as int, hi, c as int));
                    assert(0 <= k < s.len());
                    assert(!on_line(k, off as int, w4 as int, hu as int, c as int));
                    assert(buf@[k] == mid[k]);
                }
                assert forall|k: int| hi * (wi * 4) <= k < s.len() implies #[trigger] buf@[k]
                    == before[k] by {
                    if on_line(k, off as int, w4 as int, hi, c as int) {
                        lemma_on_line_shape(k, off as int, w4 as int, hi, c as int);
                        let q = (k - off) / (w4 as int);
                        lemma_pix_bound(wi, hi, q, x as int, c as int);
                        assert(k == pix(wi, q, x as int, c as int));
                    }
                    assert(buf@[k] == mid[k]);
                }
            }
            c = c + 1;
        }
        x = x + 1;
    }
    proof {
        let target = vblur(s, wi, hi, r as int);
        if wi == 0 {
            assert(hi * (wi * 4) == 0) by (nonlinear_arith)
                requires
                    wi == 0,
            ;
        }
        assert forall|k: int| 0 <= k < s.len() implies #[trigger] buf@[k] == target[k] by {
            if k < hi * (wi * 4) {
                lemma_pixel_decomposition(k, wi, hi);
                let yy = k / (wi * 4);
                let xx = (k % (wi * 4)) / 4;
                let cc = k % 4;
                assert(buf@[pix(wi, yy, xx, cc)] == box_avg(s, xx * 4, wi * 4, hi, r as int, yy, cc));
            }
        }
        assert(buf@ =~= target);
    }
}

/// Fast approximate gaussian blur via 3-pass box blur, in place on a BGRA buffer.
/// A radius of 0 is treated as 1.
pub fn box_blur_bgra(buf: &mut Vec<u8>, w: u32, h: u32, radius: u32)
    requires
        w > 0 <==> h > 0,
        h * (w * 4) <= old(buf).len(),
    ensures
        final(buf)@ == blur3(
            old(buf)@,
            w as int,
            h as int,
            if radius == 0 { 1 } else { radius as int },
        ),
{
    let r = if radius == 0 { 1 } else { radius };
    let ghost s0 = buf@;
    let mut pass: usize = 0;
    while pass < 3
        invariant
            0 <= pass <= 3,
            w > 0 <==> h > 0,
            h * (w * 4) <= buf.len(),
            buf.len() == s0.len(),
            pass == 0 ==> buf@ == s0,
            pass == 1 ==> buf@ == vblur(hblur(s0, w as int, h as int, r as int), w as int, h as int, r as int),
            pass == 2 ==> buf@ == vblur(hblur(vblur(hblur(s0, w as int, h as int, r as int), w as int, h as int, r as int), w as int, h as int, r as int), w as int, h as int, r as int),
            pass == 3 ==> buf@ == blur3(s0, w as int, h as int, r as int),
        decreases 3 - pass,
    {
        box_blur_h(buf, w, h, r);
        box_blur_v(buf, w, h, r);
        pass = pass + 1;
    }
}

/// `rgba` with each whole pixel's red and blue bytes swapped (RGBA to BGRA); a
/// trailing partial pixel is dropped.
pub open spec fn bgra_of(rgba: Seq<u8>) -> Seq<u8> {
    Seq::new(
        ((rgba.len() / 4) * 4) as nat,
        |k: int| {
            let base = k - k % 4;
            if k % 4 == 0 {
                rgba[base + 2]
            } else if k % 4 == 2 {
                rgba[base]
            } else {
                rgba[k]
            }
        },
    )
}

/// Converts decoded RGBA pixels to the BGRA order the compositor takes.
pub fn rgba_to_bgra(rgba: &[u8]) -> (out: Vec<u8>)
    ensures
        out@ == bgra_of(rgba@),
{
    let len = rgba.len();
    let n = len / 4;
    let mut out: Vec<u8> = Vec::new();
    let mut p: usize = 0;
    while p < n
        invariant
            len == rgba@.len(),
            n == rgba@.len() / 4,
            p <= n,
            out@.len() == 4 * p,
            forall|k: int| 0 <= k < 4 * p ==> #[trigger] out@[k] == bgra_of(rgba@)[k],
        decreases n - p,
    {
        assert(4 * p + 3 < rgba@.len()) by (nonlinear_arith)
            requires
                p < n,
                n == rgba@.len() / 4,
        ;
        let i = 4 * p;
        out.push(rgba[i + 2]);
        out.push(rgba[i + 1]);
        out.push(rgba[i]);
        out.push(rgba[i + 3]);
        proof {
            assert forall|k: int| 0 <= k < 4 * (p + 1) implies #[trigger] out@[k] == bgra_of(rgba@)[k] by {
                if k >= 4 * p {
                    assert(k - k % 4 == 4 * p);
                }
            }
        }
        p = p + 1;
    }
    assert(out@ =~= bgra_of(rgba@));
    out
}

/// The lock-screen background made from a wallpaper file's bytes: decoded as the
/// format its extension `ext` names, scaled to fill `w` x `h` and cropped (the image
/// crate's work, named `filled_rgba`), turned into BGRA, and blurred three times
/// with the box blur when `radius > 0`. `None` when the file does not decode, or
/// when a blur is asked for and the decoded image holds fewer than `w * h` pixels.
pub fn blurred_wallpaper(bytes: &[u8], ext: &str, w: u32, h: u32, radius: u32) -> (r: Option<Vec<u8>>)
    requires
        w * h * 4 <= u32::MAX,
        radius > 0 ==> (w > 0 <==> h > 0),
    ensures
        match filled_rgba(bytes@, ext@, w, h) {
            None => r is None,
            Some(d) => if radius == 0 {
                r matches Some(x) && x@ == bgra_of(d)
            } else if h * (w * 4) <= bgra_of(d).len() {
                r matches Some(x) && x@ == blur3(bgra_of(d), w as int, h as int, radius as int)
            } else {
                r is None
            },
        },
{
    assert(w * h * 4 <= usize::MAX);
    let rgba = match decode_fill(bytes, ext, w, h) {
        Some(d) => d,
        None => return None,
    };
    let mut bgra = rgba_to_bgra(rgba.as_slice());
    if radius > 0 {
        assert(h * (w * 4) == w * h * 4) by (nonlinear_arith);
        assert(w * h <= u32::MAX) by (nonlinear_arith)
            requires
                w * h * 4 <= u32::MAX,
        ;
        let need: usize = (w as usize) * (h as usize) * 4;
        if need > bgra.len() {
            return None;
        }
        box_blur_bgra(&mut bgra, w, h, radius);
    }
    Some(bgra)
}

/// Fallback background: `w × h` pixels of solid dark purple (#0a0010), BGRA, opaque.
pub fn solid_background(w: u32, h: u32) -> (buf: Vec<u8>)
    requires
        h * (w * 4) <= u32::MAX,
    ensures
        buf@.len() == h * (w * 4),
        is_solid(buf@, w as int, h as int, seq![0x10u8, 0x00u8, 0x0au8, 0xffu8]),
{
    let n32: u32 = if h == 0 {
        0
    } else {
        assert(w * 4 <= h * (w * 4)) by (nonlinear_arith)
            requires
                h >= 1,
        ;
        h * (w * 4)
    };
    if h == 0 {
        assert(h * (w * 4) == 0);
    }
    let n: usize = n32 as usize;
    let mut buf: Vec<u8> = Vec::with_capacity(n);
    let ghost col = seq![0x10u8, 0x00u8, 0x0au8, 0xffu8];
    let mut i: usize = 0;
    while i < n
        invariant
            0 <= i <= n,
            n == h * (w * 4),
            buf@.len() == i,
            col == seq![0x10u8, 0x00u8, 0x0au8, 0xffu8],
            forall|k: int| 0 <= k < i ==> #[trigger] buf@[k] == col[k % 4],
        decreases n - i,
    {
        let v: u8 = if i % 4 == 0 {
            0x10
        } else if i % 4 == 1 {
            0x00
        } else if i % 4 == 2 {
            0x0a
        } else {
            0xff
        };
        buf.push(v);
        proof {
            assert(col[0] == 0x10u8);
            assert(col[1] == 0x00u8);
            assert(col[2] == 0x0au8);
            assert(col[3] == 0xffu8);
            assert(buf@[i as int] == col[i as int % 4]);
        }
        i = i + 1;
    }
    buf
}

proof fn lemma_pix_mod4(w: int, y: int, x: int, c: int)
    requires
        0 <= c < 4,
    ensures
        pix(w, y, x, c) % 4 == c,
{
    assert(y * (w * 4) + x * 4 + c == (y * w + x) * 4 + c) by (nonlinear_arith);
    lemma_fundamental_div_mod_converse(pix(w, y, x, c), 4, y * w + x, c);
}

/// Each box-blur pass leaves an image of one solid colour unchanged.
pub proof fn lemma_passes_keep_solid(s: Seq<u8>, w: int, h: int, r: int, col: Seq<u8>)
    requires
        w >= 0,
        h >= 0,
        r >= 0,
        is_solid(s, w, h, col),
    ensures
        hblur(s, w, h, r) == s,
        vblur(s, w, h, r) == s,
{
    if w == 0 {
        assert(h * (w * 4) == 0) by (nonlinear_arith)
            requires
                w == 0,
        ;
    }
    let hs = hblur(s, w, h, r);
    let vs = vblur(s, w, h, r);
    assert forall|k: int| 0 <= k < s.len() implies #[trigger] hs[k] == s[k] && vs[k] == s[k] by {
        if k < h * (w * 4) {
            lemma_pixel_decomposition(k, w, h);
            let y = k / (w * 4);
            let x = (k % (w * 4)) / 4;
            let c = k % 4;
            let v = col[c];
            assert(s[k] == v);
            assert forall|j: int| 0 <= j < w implies #[trigger] s[y * (w * 4) + j * 4 + c] == v by {
                lemma_pix_bound(w, h, y, j, c);
                lemma_pix_mod4(w, y, j, c);
                assert(s[pix(w, y, j, c)] == col[pix(w, y, j, c) % 4]);
            }
            lemma_box_avg_const(s, y * (w * 4), 4, w, r, x, c, v);
            assert forall|j: int| 0 <= j < h implies #[trigger] s[x * 4 + j * (w * 4) + c] == v by {
                lemma_pix_bound(w, h, j, x, c);
                lemma_pix_mod4(w, j, x, c);
                assert(s[pix(w, j, x, c)] == col[pix(w, j, x, c) % 4]);
            }
            lemma_box_avg_const(s, x * 4, w * 4, h, r, y, c, v);
        }
    }
    assert(hs =~= s);
    assert(vs =~= s);
}

/// Blurring an image of one solid colour gives back the same image.
pub proof fn lemma_blur_keeps_solid(s: Seq<u8>, w: int, h: int, r: int, col: Seq<u8>)
    requires
        w >= 0,
        h >= 0,
        r >= 0,
        is_solid(s, w, h, col),
    ensures
        blur3(s, w, h, r) == s,
{
    lemma_passes_keep_solid(s, w, h, r, col);
}

// ── a column blurs as a row ──────────────────────────────────────────────────

/// On an image one pixel wide, the horizontal pass changes nothing.
proof fn lemma_hblur_width_one(s: Seq<u8>, n: int, r: int)
    requires
        r >= 0,
    ensures
        hblur(s, 1, n, r) == s,
{
    assert forall|k: int| 0 <= k < s.len() implies #[trigger] hblur(s, 1, n, r)[k] == s[k] by {
        if k < n * (1 * 4) {
            reveal_with_fuel(line_sum, 2);
            assert(k >= 0);
            lemma_fundamental_div_mod(k, 4);
            assert(win_lo(0, r) == 0 && win_hi(0, r, 1) == 0);
            assert(line_sum(s, (k / 4) * 4, 4, k % 4, 0, 1) == s[(k / 4) * 4 + 0 * 4 + k % 4] as int);
            assert((k / 4) * 4 + k % 4 == k) by {
                lemma_mul_is_commutative(k / 4, 4);
            }
            assert(k % (1int * 4) == k % 4);
            assert(k / (1int * 4) == k / 4);
            lemma_mod_bound(k, 4);
            assert((k % 4) / 4 == 0);
            let off = (k / 4) * 4;
            assert(off + 0 * 4 + k % 4 == k);
            assert(line_sum(s, off, 4, k % 4, 0, 1) == s[k] as int);
            assert(box_avg(s, off, 4, 1, r, 0, k % 4) == line_sum(s, off, 4, k % 4, 0, 1) / 1);
            assert(box_avg(s, (k / (1int * 4)) * (1int * 4), 4, 1, r, (k % (1int * 4)) / 4, k % 4) == s[k] as int);
        }
    }
    assert(hblur(s, 1, n, r) =~= s);
}

/// On an image one pixel high, the vertical pass changes nothing.
proof fn lemma_vblur_height_one(s: Seq<u8>, n: int, r: int)
    requires
        r >= 0,
    ensures
        vblur(s, n, 1, r) == s,
{
    assert forall|k: int| 0 <= k < s.len() implies #[trigger] vblur(s, n, 1, r)[k] == s[k] by {
        if k < 1 * (n * 4) {
            reveal_with_fuel(line_sum, 2);
            let m = n * 4;
            assert(k < m);
            lemma_small_mod(k as nat, m as nat);
            lemma_basic_div(k, m);
            lemma_fundamental_div_mod(k, 4);
            assert((k / 4) * 4 + k % 4 == k) by {
                lemma_mul_is_commutative(k / 4, 4);
            }
            assert(win_lo(0, r) == 0 && win_hi(0, r, 1) == 0);
            let off = ((k % m) / 4) * 4;
            assert(k % m == k && k / m == 0);
            assert(off + 0 * m + k % 4 == k);
            assert(line_sum(s, off, m, k % 4, 0, 1) == s[k] as int);
            assert(box_avg(s, off, m, 1, r, 0, k % 4) == line_sum(s, off, m, k % 4, 0, 1) / 1);
            assert(box_avg(s, off, m, 1, r, k / m, k % 4) == s[k] as int);
        }
    }
    assert(vblur(s, n, 1, r) =~= s);
}

/// The horizontal pass over one row of `n` pixels averages exactly as the vertical
/// pass over one column of `n` pixels: the two images have the same bytes.
proof fn lemma_row_pass_is_column_pass(s: Seq<u8>, n: int, r: int)
    requires
        r >= 0,
    ensures
        hblur(s, n, 1, r) == vblur(s, 1, n, r),
{
    assert forall|k: int| 0 <= k < s.len() implies #[trigger] hblur(s, n, 1, r)[k] == vblur(s, 1, n, r)[k] by {
        if k < 1 * (n * 4) {
            let m = n * 4;
            lemma_small_mod(k as nat, m as nat);
            lemma_basic_div(k, m);
            lemma_mod_bound(k, 4);
            assert((k % 4) / 4 == 0);
            assert(k % (1int * 4) == k % 4);
            assert(k / (1int * 4) == k / 4);
            assert((k / m) * m == 0);
            assert(n * (1 * 4) == 1 * (n * 4));
        }
    }
    assert(hblur(s, n, 1, r) =~= vblur(s, 1, n, r));
}

/// A column of pixels is blurred exactly as a row of the same pixels: the bytes of
/// an image one pixel wide and `n` high are those of one `n` wide and one high, and
/// blurring either gives the same bytes.
pub proof fn lemma_column_blurs_as_row(s: Seq<u8>, n: int, r: int)
    requires
        r >= 0,
    ensures
        blur3(s, 1, n, r) == blur3(s, n, 1, r),
{
    lemma_hblur_width_one(s, n, r);
    lemma_vblur_height_one(hblur(s, n, 1, r), n, r);
    lemma_row_pass_is_column_pass(s, n, r);
    let p1 = vblur(hblur(s, 1, n, r), 1, n, r);
    assert(p1 == vblur(hblur(s, n, 1, r), n, 1, r));
    lemma_hblur_width_one(p1, n, r);
    lemma_vblur_height_one(hblur(p1, n, 1, r), n, r);
    lemma_row_pass_is_column_pass(p1, n, r);
    let p2 = vblur(hblur(p1, 1, n, r), 1, n, r);
    assert(p2 == vblur(hblur(p1, n, 1, r), n, 1, r));
    lemma_hblur_width_one(p2, n, r);
    lemma_vblur_height_one(hblur(p2, n, 1, r), n, r);
    lemma_row_pass_is_column_pass(p2, n, r);
}

} // verus!
