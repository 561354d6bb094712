use vstd::prelude::*;

use crate::data::layer::{Layer, LayerView};

verus! {

/// The pixel `(px, py)` of a layer lies under a round dab of radius `r` centred at
/// `(lx, ly)` (layer coordinates): both offsets lie in `[-r, r)` and the squared distance is
/// at most `r * r`.
pub open spec fn dab_covers(lx: int, ly: int, r: int, px: int, py: int) -> bool {
    let dx = px - lx;
    let dy = py - ly;
    &&& -r <= dx < r
    &&& -r <= dy < r
    &&& dx * dx + dy * dy <= r * r
}

/// The pixel with index `k` (row by row) of a `w` by `h` layer lies under the dab.
pub open spec fn dab_hits(lx: int, ly: int, r: int, w: int, h: int, k: int) -> bool {
    &&& w > 0
    &&& 0 <= k < w * h
    &&& dab_covers(lx, ly, r, k % w, k / w)
}

/// The dab has reached the pixel `k`: `k` lies under it and comes before the cursor
/// `(cx, cy)` in row-by-row order.
pub open spec fn dab_before(lx: int, ly: int, r: int, w: int, h: int, k: int, cx: int, cy: int) -> bool {
    &&& dab_hits(lx, ly, r, w, h, k)
    &&& (k / w < cy || (k / w == cy && k % w < cx))
}

/// The mask after the dab has reached the pixels before the cursor: each such pixel that
/// was untouched is marked.
pub open spec fn dab_mask(
    old_mask: Seq<u8>,
    mask: Seq<u8>,
    lx: int,
    ly: int,
    r: int,
    w: int,
    h: int,
    cx: int,
    cy: int,
) -> bool {
    &&& mask.len() == old_mask.len()
    &&& forall|k: int|
        0 <= k < mask.len() ==> #[trigger] mask[k] == (if dab_before(lx, ly, r, w, h, k, cx, cy)
            && old_mask[k] == 0 {
            1u8
        } else {
            old_mask[k]
        })
}

/// The byte offsets found so far: those of the untouched pixels before the cursor, each
/// once, in increasing order.
pub open spec fn dab_offsets(
    old_mask: Seq<u8>,
    out: Seq<usize>,
    lx: int,
    ly: int,
    r: int,
    w: int,
    h: int,
    cx: int,
    cy: int,
) -> bool {
    &&& forall|j: int|
        0 <= j < out.len() ==> {
            &&& #[trigger] out[j] % 4 == 0
            &&& dab_before(lx, ly, r, w, h, out[j] as int / 4, cx, cy)
            &&& old_mask[out[j] as int / 4] == 0
        }
    &&& forall|i: int, j: int| 0 <= i < j < out.len() ==> out[i] < out[j]
    &&& forall|k: int|
        dab_before(lx, ly, r, w, h, k, cx, cy) && 0 <= k < old_mask.len() && old_mask[k] == 0
            ==> #[trigger] out.contains((4 * k) as usize)
}

/// Every pixel of the layer under the dab has a byte offset within 32-bit signed range and
/// a place in a mask of `len` bytes.
pub open spec fn dab_in_range(lx: int, ly: int, r: int, w: int, h: int, len: int) -> bool {
    forall|k: int| #[trigger] dab_hits(lx, ly, r, w, h, k) ==> 4 * k <= i32::MAX && k < len
}

/// A dab of radius `radius` at the canvas point `center` can be drawn on the layer `l`
/// with a mask of `len` bytes: the radius is at most 32767, the layer coordinates of the
/// dab's rows and columns fit 32-bit signed numbers, and so does every offset it reaches.
pub open spec fn dab_allowed(l: LayerView, center: (i32, i32), radius: i32, len: int) -> bool {
    let lx = center.0 - l.x();
    let ly = center.1 - l.y();
    &&& i32::MIN < radius <= 32767
    &&& i32::MIN <= lx <= i32::MAX
    &&& i32::MIN <= ly <= i32::MAX
    &&& radius > 0 ==> i32::MIN <= lx - radius && lx + radius - 1 <= i32::MAX
    &&& radius > 0 ==> i32::MIN <= ly - radius && ly + radius - 1 <= i32::MAX
    &&& dab_in_range(lx, ly, radius as int, (l.width() as i32) as int, (l.height() as i32) as int, len)
}

/// Marks the pixel `(x, y)` of a `width`-wide mask as touched, and says whether it was
/// untouched before.
pub fn should_edit_pixel(mask: &mut [u8], x: i32, y: i32, width: i32) -> (r: bool)
    requires
        i32::MIN <= y as int * width as int <= i32::MAX,
        0 <= (y as int * width as int + x as int) < old(mask)@.len(),
        y as int * width as int + x as int <= i32::MAX,
    ensures
        r == (old(mask)@[y * width + x] == 0),
        final(mask)@ == (if r {
            old(mask)@.update(y * width + x, 1u8)
        } else {
            old(mask)@
        }),
{
    let idx = y * width + x;
    if mask[idx as usize] == 0 {
        mask[idx as usize] = 1;
        true
    } else {
        false
    }
}

proof fn lemma_hit_coords(w: int, h: int, k: int)
    requires
        w > 0,
        0 <= k < w * h,
    ensures
        0 <= k % w < w,
        0 <= k / w < h,
        k == (k / w) * w + k % w,
{
    vstd::arithmetic::div_mod::lemma_fundamental_div_mod(k, w);
    vstd::arithmetic::div_mod::lemma_mod_bound(k, w);
    vstd::arithmetic::div_mod::lemma_div_pos_is_pos(k, w);
    assert((k / w) * w == w * (k / w)) by (nonlinear_arith);
    if k / w >= h {
        assert((k / w) * w >= h * w) by (nonlinear_arith)
            requires
                k / w >= h,
                w > 0,
        ;
        assert(h * w == w * h) by (nonlinear_arith);
    }
}

proof fn lemma_cell(w: int, h: int, px: int, py: int)
    requires
        0 <= px < w,
        0 <= py < h,
    ensures
        (py * w + px) % w == px,
        (py * w + px) / w == py,
        0 <= py * w + px < w * h,
{
    vstd::arithmetic::div_mod::lemma_fundamental_div_mod_converse(py * w + px, w, py, px);
    assert(0 <= py * w + px < w * h) by (nonlinear_arith)
        requires
            0 <= px < w,
            0 <= py < h,
    ;
}

/// A pixel reached before the cursor `(px, py)` (inside the layer) comes before it.
proof fn lemma_before_is_smaller(w: int, k: int, px: int, py: int)
    requires
        w > 0,
        0 <= k,
        0 <= px < w,
        k / w < py || (k / w == py && k % w < px),
    ensures
        k < py * w + px,
{
    vstd::arithmetic::div_mod::lemma_fundamental_div_mod(k, w);
    assert(k == w * (k / w) + k % w);
    assert(0 <= k % w < w) by {
        vstd::arithmetic::div_mod::lemma_mod_bound(k, w);
    }
    if k / w < py {
        assert(w * (k / w) + w <= py * w) by (nonlinear_arith)
            requires
                k / w < py,
                w > 0,
        ;
    } else {
        assert(w * (k / w) == py * w) by (nonlinear_arith)
            requires
                k / w == py,
        ;
    }
}

/// Within one stroke, each pixel is painted at most once: after a dab has marked its
/// pixels in the stroke's mask, a later dab on that mask finds none of the pixels the first
/// one found.
pub proof fn law_stroke_paints_each_pixel_once(
    m0: Seq<u8>,
    m1: Seq<u8>,
    out1: Seq<usize>,
    lx1: int,
    ly1: int,
    r1: int,
    w1: int,
    h1: int,
    out2: Seq<usize>,
    lx2: int,
    ly2: int,
    r2: int,
    w2: int,
    h2: int,
)
    requires
        dab_in_range(lx1, ly1, r1, w1, h1, m0.len() as int),
        dab_mask(m0, m1, lx1, ly1, r1, w1, h1, lx1 + r1, ly1 + r1),
        dab_offsets(m0, out1, lx1, ly1, r1, w1, h1, lx1 + r1, ly1 + r1),
        dab_offsets(m1, out2, lx2, ly2, r2, w2, h2, lx2 + r2, ly2 + r2),
    ensures
        forall|i: int, j: int|
            0 <= i < out1.len() && 0 <= j < out2.len() ==> #[trigger] out1[i] != #[trigger] out2[j],
{
    assert forall|i: int, j: int| 0 <= i < out1.len() && 0 <= j < out2.len() implies #[trigger] out1[i]
        != #[trigger] out2[j] by {
        let k = out1[i] as int / 4;
        assert(dab_before(lx1, ly1, r1, w1, h1, k, lx1 + r1, ly1 + r1));
        assert(m0[k] == 0);
        assert(m1[k] == 1u8);
        let k2 = out2[j] as int / 4;
        assert(m1[k2] == 0);
    }
}

/// A dab is a round disc: given the offsets a dab found (as `dab_pixels` gives them, with
/// every pixel under the dab reached), the pixel `(px, py)` of a `w` by `h` layer is among
/// them exactly when it was untouched in the mask and its offset `(dx, dy)` from the dab's
/// centre `(lx, ly)` lies in `[-r, r)` on both axes with `dx * dx + dy * dy <= r * r`.
pub proof fn law_dab_is_a_round_disc(
    m0: Seq<u8>,
    out: Seq<usize>,
    lx: int,
    ly: int,
    r: int,
    w: int,
    h: int,
    px: int,
    py: int,
)
    requires
        dab_offsets(m0, out, lx, ly, r, w, h, lx + r, ly + r),
        forall|k: int|
            #![trigger dab_hits(lx, ly, r, w, h, k)]
            dab_hits(lx, ly, r, w, h, k) <==> dab_before(lx, ly, r, w, h, k, lx + r, ly + r),
        0 <= px < w,
        0 <= py < h,
        py * w + px < m0.len(),
        4 * (py * w + px) <= usize::MAX,
    ensures
        out.contains((4 * (py * w + px)) as usize) <==> {
            let dx = px - lx;
            let dy = py - ly;
            &&& -r <= dx < r
            &&& -r <= dy < r
            &&& dx * dx + dy * dy <= r * r
            &&& m0[py * w + px] == 0
        },
{
    let c = py * w + px;
    lemma_cell(w, h, px, py);
    let dx = px - lx;
    let dy = py - ly;
    if -r <= dx < r && -r <= dy < r && dx * dx + dy * dy <= r * r && m0[c] == 0 {
        assert(dab_hits(lx, ly, r, w, h, c));
        assert(dab_before(lx, ly, r, w, h, c, lx + r, ly + r));
    }
    if out.contains((4 * c) as usize) {
        let j = choose|j: int| 0 <= j < out.len() && out[j] == (4 * c) as usize;
        assert(out[j] as int == 4 * c);
        assert(out[j] as int / 4 == c);
        assert(dab_before(lx, ly, r, w, h, out[j] as int / 4, lx + r, ly + r));
    }
}

/// Every pixel of the layer inside the round disc of a dab that [`dab_in_range`] allows has
/// its byte offset within 32-bit signed range and its place in the mask.
pub proof fn law_dab_range_covers_the_disc(
    lx: int,
    ly: int,
    r: int,
    w: int,
    h: int,
    len: int,
    px: int,
    py: int,
)
    requires
        dab_in_range(lx, ly, r, w, h, len),
        0 <= px < w,
        0 <= py < h,
        -r <= px - lx < r,
        -r <= py - ly < r,
        (px - lx) * (px - lx) + (py - ly) * (py - ly) <= r * r,
    ensures
        4 * (py * w + px) <= i32::MAX,
        py * w + px < len,
{
    lemma_cell(w, h, px, py);
    assert(dab_hits(lx, ly, r, w, h, py * w + px));
}

impl Layer {
    /// Whether [`Layer::dab_pixels`] can draw a dab of radius `radius` at `center` with a
    /// mask of `mask_len` bytes, as [`dab_allowed`] says.
    pub fn dab_fits(&self, center: (i32, i32), radius: i32, mask_len: usize) -> (r: bool)
        ensures
            r == dab_allowed(self@, center, radius, mask_len as int),
    {
        let lx64 = center.0 as i64 - self.x() as i64;
        let ly64 = center.1 as i64 - self.y() as i64;
        let r64 = radius as i64;
        let lo = i32::MIN as i64;
        let hi = i32::MAX as i64;
        if radius == i32::MIN || radius > 32767 || lx64 < lo || lx64 > hi || ly64 < lo || ly64 > hi {
            return false;
        }
        if radius > 0 && (lx64 - r64 < lo || lx64 + r64 - 1 > hi || ly64 - r64 < lo || ly64 + r64 - 1
            > hi) {
            return false;
        }
        let local_x = lx64 as i32;
        let local_y = ly64 as i32;
        let width = self.width() as i32;
        let height = self.height() as i32;
        let ghost lx = local_x as int;
        let ghost ly = local_y as int;
        let ghost w = width as int;
        let ghost h = height as int;
        let ghost rr = radius as int;
        let ghost len = mask_len as int;
        assert(lx == center.0 - self@.x() && ly == center.1 - self@.y());
        assert(w == (self@.width() as i32) as int && h == (self@.height() as i32) as int);
        if radius <= 0 {
            return true;
        }
        let mut dy: i32 = -radius;
        while dy < radius
            invariant
                0 < radius <= 32767,
                -radius <= dy <= radius,
                lx == local_x,
                ly == local_y,
                w == width,
                h == height,
                rr == radius,
                len == mask_len,
                lx == center.0 - self@.x() && ly == center.1 - self@.y(),
                w == (self@.width() as i32) as int && h == (self@.height() as i32) as int,
                i32::MIN <= lx - rr && lx + rr - 1 <= i32::MAX,
                i32::MIN <= ly - rr && ly + rr - 1 <= i32::MAX,
                forall|k: int|
                    #![trigger dab_hits(lx, ly, rr, w, h, k)]
                    dab_before(lx, ly, rr, w, h, k, lx - rr, ly + dy) ==> 4 * k <= i32::MAX && k
                        < len,
            decreases radius - dy,
        {
            let mut dx: i32 = -radius;
            while dx < radius
                invariant
                    0 < radius <= 32767,
                    -radius <= dy < radius,
                    -radius <= dx <= radius,
                    lx == local_x,
                    ly == local_y,
                    w == width,
                    h == height,
                    rr == radius,
                    len == mask_len,
                    lx == center.0 - self@.x() && ly == center.1 - self@.y(),
                    w == (self@.width() as i32) as int && h == (self@.height() as i32) as int,
                    i32::MIN <= lx - rr && lx + rr - 1 <= i32::MAX,
                    i32::MIN <= ly - rr && ly + rr - 1 <= i32::MAX,
                    forall|k: int|
                        #![trigger dab_hits(lx, ly, rr, w, h, k)]
                        dab_before(lx, ly, rr, w, h, k, lx + dx, ly + dy) ==> 4 * k <= i32::MAX
                            && k < len,
                decreases radius - dx,
            {
                assert(0 <= dx * dx <= 32767 * 32767) by (nonlinear_arith)
                    requires
                        -32767 <= dx <= 32767,
                ;
                assert(0 <= dy * dy <= 32767 * 32767) by (nonlinear_arith)
                    requires
                        -32767 <= dy <= 32767,
                ;
                assert(radius * radius <= 32767 * 32767) by (nonlinear_arith)
                    requires
                        0 < radius <= 32767,
                ;
                let ghost px = lx + dx;
                let ghost py = ly + dy;
                if dx * dx + dy * dy <= radius * radius {
                    let px_e = local_x + dx;
                    let py_e = local_y + dy;
                    if px_e >= 0 && px_e < width && py_e >= 0 && py_e < height {
                        proof {
                            lemma_cell(w, h, px, py);
                            assert(0 <= py * w <= i32::MAX as int * i32::MAX as int) by (nonlinear_arith)
                                requires
                                    0 <= py <= i32::MAX,
                                    0 < w <= i32::MAX,
                            ;
                        }
                        let c: i64 = py_e as i64 * width as i64 + px_e as i64;
                        let ghost cc = py * w + px;
                        proof {
                            assert(dab_hits(lx, ly, rr, w, h, cc));
                        }
                        assert(c == cc);
                        if c > 0x1FFF_FFFFi64 || c as u64 >= mask_len as u64 {
                            proof {
                                assert(!(4 * cc <= i32::MAX && cc < len));
                                assert(!dab_in_range(lx, ly, rr, w, h, len));
                            }
                            return false;
                        }
                        proof {
                            assert forall|k: int| #![trigger dab_hits(lx, ly, rr, w, h, k)] dab_hits(lx, ly, rr, w, h, k) implies (dab_before(lx, ly, rr, w, h, k, px + 1, py) == (dab_before(lx, ly, rr, w, h, k, px, py) || k == cc)) by {
                                lemma_hit_coords(w, h, k);
                            }
                        }
                    } else {
                        proof {
                            assert forall|k: int| #![trigger dab_hits(lx, ly, rr, w, h, k)] dab_hits(lx, ly, rr, w, h, k) implies (dab_before(lx, ly, rr, w, h, k, px + 1, py) == dab_before(lx, ly, rr, w, h, k, px, py)) by {
                                lemma_hit_coords(w, h, k);
                            }
                        }
                    }
                } else {
                    proof {
                        assert forall|k: int| #![trigger dab_hits(lx, ly, rr, w, h, k)] dab_hits(lx, ly, rr, w, h, k) implies (dab_before(lx, ly, rr, w, h, k, px + 1, py) == dab_before(lx, ly, rr, w, h, k, px, py)) by {
                            lemma_hit_coords(w, h, k);
                        }
                    }
                }
                dx = dx + 1;
            }
            proof {
                assert forall|k: int| #![trigger dab_hits(lx, ly, rr, w, h, k)] dab_hits(lx, ly, rr, w, h, k) implies (dab_before(lx, ly, rr, w, h, k, lx + rr, ly + dy) == dab_before(lx, ly, rr, w, h, k, lx - rr, ly + dy + 1)) by {
                }
            }
            dy = dy + 1;
        }
        proof {
            assert forall|k: int| #![trigger dab_hits(lx, ly, rr, w, h, k)] dab_hits(lx, ly, rr, w, h, k) implies (dab_before(lx, ly, rr, w, h, k, lx - rr, ly + dy) == dab_before(lx, ly, rr, w, h, k, lx + rr, ly + rr)) by {
            }
            assert forall|k: int| #![trigger dab_hits(lx, ly, rr, w, h, k)] dab_hits(lx, ly, rr, w, h, k) implies dab_before(lx, ly, rr, w, h, k, lx + rr, ly + rr) by {
                lemma_hit_coords(w, h, k);
            }
        }
        true
    }

    /// The byte offsets, four bytes per pixel, of the pixels of this layer that a round dab
    /// of radius `radius` centred at the canvas point `center` covers and that `mask` shows
    /// untouched; those pixels are marked in `mask` (one byte per pixel, row by row) so that
    /// a stroke paints each pixel at most once. The offsets come in row-by-row order.
    pub fn dab_pixels(&self, center: (i32, i32), radius: i32, mask: &mut [u8]) -> (r: Vec<usize>)
        requires
            dab_allowed(self@, center, radius, old(mask)@.len() as int),
        ensures
            ({
                let lx = center.0 - self@.x();
                let ly = center.1 - self@.y();
                let w = (self@.width() as i32) as int;
                let h = (self@.height() as i32) as int;
                &&& dab_mask(old(mask)@, final(mask)@, lx, ly, radius as int, w, h, lx + radius, ly + radius)
                &&& dab_offsets(old(mask)@, r@, lx, ly, radius as int, w, h, lx + radius, ly + radius)
                &&& forall|k: int|
                    #![trigger dab_hits(lx, ly, radius as int, w, h, k)]
                    dab_hits(lx, ly, radius as int, w, h, k) <==> dab_before(lx, ly, radius as int, w, h, k, lx + radius, ly + radius)
            }),
    {
        let local_x = center.0 - self.x();
        let local_y = center.1 - self.y();
        let width = self.width() as i32;
        let height = self.height() as i32;
        let ghost lx = local_x as int;
        let ghost ly = local_y as int;
        let ghost w = width as int;
        let ghost h = height as int;
        let ghost rr = radius as int;
        let ghost old_mask = mask@;
        let mut out: Vec<usize> = Vec::new();
        let mut dy: i32 = -radius;
        proof {
            assert forall|k: int| #![trigger dab_hits(lx, ly, rr, w, h, k)] dab_hits(lx, ly, rr, w, h, k) implies !dab_before(lx, ly, rr, w, h, k, lx - rr, ly + dy) by {}
        }
        while dy < radius
            invariant
                -radius <= dy,
                radius > 0 ==> dy <= radius,
                i32::MIN < radius <= 32767,
                lx == local_x,
                ly == local_y,
                w == width,
                h == height,
                rr == radius,
                radius > 0 ==> i32::MIN <= lx - rr && lx + rr - 1 <= i32::MAX,
                radius > 0 ==> i32::MIN <= ly - rr && ly + rr - 1 <= i32::MAX,
                dab_in_range(lx, ly, rr, w, h, old_mask.len() as int),
                dab_mask(old_mask, mask@, lx, ly, rr, w, h, lx - rr, ly + dy),
                dab_offsets(old_mask, out@, lx, ly, rr, w, h, lx - rr, ly + dy),
            decreases radius - dy,
        {
            let mut dx: i32 = -radius;
            while dx < radius
                invariant
                    0 < radius,
                    -radius <= dy < radius,
                    -radius <= dx <= radius,
                    i32::MIN < radius <= 32767,
                    lx == local_x,
                    ly == local_y,
                    w == width,
                    h == height,
                    rr == radius,
                    i32::MIN <= lx - rr && lx + rr - 1 <= i32::MAX,
                    i32::MIN <= ly - rr && ly + rr - 1 <= i32::MAX,
                    dab_in_range(lx, ly, rr, w, h, old_mask.len() as int),
                    dab_mask(old_mask, mask@, lx, ly, rr, w, h, lx + dx, ly + dy),
                    dab_offsets(old_mask, out@, lx, ly, rr, w, h, lx + dx, ly + dy),
                decreases radius - dx,
            {
                assert(0 <= dx * dx <= 32767 * 32767) by (nonlinear_arith)
                    requires
                        -32767 <= dx <= 32767,
                ;
                assert(0 <= dy * dy <= 32767 * 32767) by (nonlinear_arith)
                    requires
                        -32767 <= dy <= 32767,
                ;
                assert(radius * radius <= 32767 * 32767) by (nonlinear_arith)
                    requires
                        0 < radius <= 32767,
                ;
                let ghost px = lx + dx;
                let ghost py = ly + dy;
                if dx * dx + dy * dy <= radius * radius {
                    let px_e = local_x + dx;
                    let py_e = local_y + dy;
                    if px_e >= 0 && px_e < width && py_e >= 0 && py_e < height {
                        proof {
                            lemma_cell(w, h, px, py);
                            assert(dab_hits(lx, ly, rr, w, h, py * w + px));
                            assert(0 <= py * w) by (nonlinear_arith)
                                requires
                                    0 <= py,
                                    w > 0,
                            ;
                        }
                        let idx = (py_e * width + px_e) * 4;
                        let ghost c = py * w + px;
                        let ghost before_mask = mask@;
                        proof {
                            assert(mask@[c] == old_mask[c]) by {
                                assert(!dab_before(lx, ly, rr, w, h, c, px, py));
                            }
                        }
                        let ghost before_out = out@;
                        let edited = should_edit_pixel(mask, px_e, py_e, width);
                        if edited {
                            proof {
                                assert forall|j: int| 0 <= j < out@.len() implies #[trigger] out@[j] < idx as int by {
                                    let k = out@[j] as int / 4;
                                    vstd::arithmetic::div_mod::lemma_fundamental_div_mod(out@[j] as int, 4);
                                    lemma_hit_coords(w, h, k);
                                    lemma_before_is_smaller(w, k, px, py);
                                }
                            }
                            out.push(idx as usize);
                        }
                        proof {
                            assert(dab_hits(lx, ly, rr, w, h, c));
                            assert forall|k: int| #![trigger dab_hits(lx, ly, rr, w, h, k)] dab_hits(lx, ly, rr, w, h, k) implies (dab_before(lx, ly, rr, w, h, k, px + 1, py) == (dab_before(lx, ly, rr, w, h, k, px, py) || k == c)) by {
                                lemma_hit_coords(w, h, k);
                            }
                            assert forall|k: int| 0 <= k < mask@.len() implies #[trigger] mask@[k] == (if dab_before(lx, ly, rr, w, h, k, px + 1, py) && old_mask[k] == 0 { 1u8 } else { old_mask[k] }) by {
                                if k != c {
                                    assert(mask@[k] == before_mask[k]);
                                }
                            }
                            assert forall|j: int| 0 <= j < out@.len() implies {
                                &&& #[trigger] out@[j] % 4 == 0
                                &&& dab_before(lx, ly, rr, w, h, out@[j] as int / 4, px + 1, py)
                                &&& old_mask[out@[j] as int / 4] == 0
                            } by {
                                if j < before_out.len() {
                                    assert(out@[j] == before_out[j]);
                                }
                            }
                            assert forall|k: int| dab_before(lx, ly, rr, w, h, k, px + 1, py) && 0 <= k < old_mask.len() && old_mask[k] == 0 implies #[trigger] out@.contains((4 * k) as usize) by {
                                if k == c {
                                    assert(out@[out@.len() - 1] == (4 * k) as usize);
                                } else {
                                    assert(dab_before(lx, ly, rr, w, h, k, px, py));
                                    assert(before_out.contains((4 * k) as usize));
                                    let j = choose|j: int| 0 <= j < before_out.len() && before_out[j] == (4 * k) as usize;
                                    assert(out@[j] == (4 * k) as usize);
                                }
                            }
                        }
                    } else {
                        proof {
                            assert forall|k: int| #![trigger dab_hits(lx, ly, rr, w, h, k)] dab_hits(lx, ly, rr, w, h, k) implies (dab_before(lx, ly, rr, w, h, k, px + 1, py) == dab_before(lx, ly, rr, w, h, k, px, py)) by {
                                lemma_hit_coords(w, h, k);
                            }
                        }
                    }
                } else {
                    proof {
                        assert forall|k: int| #![trigger dab_hits(lx, ly, rr, w, h, k)] dab_hits(lx, ly, rr, w, h, k) implies (dab_before(lx, ly, rr, w, h, k, px + 1, py) == dab_before(lx, ly, rr, w, h, k, px, py)) by {
                            lemma_hit_coords(w, h, k);
                        }
                    }
                }
                dx = dx + 1;
            }
            proof {
                assert forall|k: int| #![trigger dab_hits(lx, ly, rr, w, h, k)] dab_hits(lx, ly, rr, w, h, k) implies (dab_before(lx, ly, rr, w, h, k, lx + rr, ly + dy) == dab_before(lx, ly, rr, w, h, k, lx - rr, ly + dy + 1)) by {
                }
            }
            dy = dy + 1;
        }
        proof {
            assert forall|k: int| #![trigger dab_hits(lx, ly, rr, w, h, k)] dab_hits(lx, ly, rr, w, h, k) implies (dab_before(lx, ly, rr, w, h, k, lx - rr, ly + dy) == dab_before(lx, ly, rr, w, h, k, lx + rr, ly + rr)) by {
            }
        }
        out
    }
}

} // verus!
