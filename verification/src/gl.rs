//! The rasterization pipeline's render target: a packed-color framebuffer
//! and a depth buffer of identical shape, mutated only by the depth-tested
//! merge of fragment batches.
//!
//! Depth values are totally ordered integer keys. The merge compares depths
//! only with `>=`, so a caller whose depths are fractional maps them through
//! any order-preserving encoding into `i64` and the merge decides exactly as
//! the original comparison would. Workers never touch the buffers: they emit
//! batches, and the single-threaded merge applies them fragment by fragment.

use vstd::prelude::*;
use crate::utils;

verus! {

/// The depth every pixel starts at: below every key a fragment can carry,
/// so the first fragment at a pixel always wins.
pub const DEPTH_CLEAR: i64 = i64::MIN;

/// One worker's batch of fragments: parallel lists of buffer index, packed
/// framebuffer value and depth value.
pub struct FaceThreadResult {
    /// Buffer index
    pub bi: Vec<usize>,
    /// Frame buffer values
    pub fbv: Vec<u32>,
    /// Z buffer values
    pub zbv: Vec<i64>,
}

impl FaceThreadResult {
    /// The three lists pair up: one entry of each per fragment.
    pub open spec fn wf(self) -> bool {
        self.bi.len() == self.fbv.len() && self.bi.len() == self.zbv.len()
    }

    pub fn new() -> (r: FaceThreadResult)
        ensures
            r.wf(),
            r.bi@ == Seq::<usize>::empty(),
            r.fbv@ == Seq::<u32>::empty(),
            r.zbv@ == Seq::<i64>::empty(),
    {
        FaceThreadResult { bi: Vec::new(), fbv: Vec::new(), zbv: Vec::new() }
    }

    /// Append one fragment to the batch.
    pub fn push(&mut self, index: usize, color: u32, depth: i64)
        requires
            old(self).wf(),
        ensures
            final(self).wf(),
            final(self).bi@ == old(self).bi@.push(index),
            final(self).fbv@ == old(self).fbv@.push(color),
            final(self).zbv@ == old(self).zbv@.push(depth),
    {
        self.bi.push(index);
        self.fbv.push(color);
        self.zbv.push(depth);
    }
}

/// One step of the depth test: the fragment wins exactly when its depth is
/// at least the stored depth, and then both buffers take its values at its
/// index in the same step.
pub open spec fn merge_fragment(
    fb: Seq<u32>,
    zb: Seq<i64>,
    bi: int,
    fbv: u32,
    zbv: i64,
) -> (Seq<u32>, Seq<i64>) {
    if zbv >= zb[bi] {
        (fb.update(bi, fbv), zb.update(bi, zbv))
    } else {
        (fb, zb)
    }
}

/// The buffers after merging the first `n` fragments of a batch, in order.
pub open spec fn merge_upto(
    fb: Seq<u32>,
    zb: Seq<i64>,
    r: FaceThreadResult,
    n: int,
) -> (Seq<u32>, Seq<i64>)
    decreases n,
{
    if n <= 0 {
        (fb, zb)
    } else {
        let prev = merge_upto(fb, zb, r, n - 1);
        merge_fragment(prev.0, prev.1, r.bi[n - 1] as int, r.fbv[n - 1], r.zbv[n - 1])
    }
}

/// What the depth-tested merge guarantees: buffer shapes are kept, depths
/// never decrease, the stored depth at every index a fragment aimed at ends
/// at or above that fragment's depth, indices no fragment aimed at keep
/// both of their values, and every changed index holds the color and depth
/// of one single fragment.
pub proof fn lemma_merge_upto(fb: Seq<u32>, zb: Seq<i64>, r: FaceThreadResult, n: int)
    requires
        r.wf(),
        0 <= n <= r.bi.len(),
        fb.len() == zb.len(),
        forall|k: int| 0 <= k < r.bi.len() ==> r.bi[k] < zb.len(),
    ensures
        merge_upto(fb, zb, r, n).0.len() == fb.len(),
        merge_upto(fb, zb, r, n).1.len() == zb.len(),
        forall|i: int| 0 <= i < zb.len() ==> merge_upto(fb, zb, r, n).1[i] >= zb[i],
        forall|k: int|
            0 <= k < n ==> merge_upto(fb, zb, r, n).1[r.bi[k] as int] >= r.zbv[k],
        forall|i: int|
            0 <= i < zb.len() && !(exists|k: int| 0 <= k < n && r.bi[k] == i) ==> merge_upto(
                fb,
                zb,
                r,
                n,
            ).0[i] == fb[i] && merge_upto(fb, zb, r, n).1[i] == zb[i],
        forall|i: int|
            0 <= i < zb.len() && !(merge_upto(fb, zb, r, n).0[i] == fb[i] && merge_upto(
                fb,
                zb,
                r,
                n,
            ).1[i] == zb[i]) ==> exists|k: int|
                0 <= k < n && r.bi[k] == i && merge_upto(fb, zb, r, n).0[i] == r.fbv[k]
                    && merge_upto(fb, zb, r, n).1[i] == r.zbv[k],
    decreases n,
{
    if n > 0 {
        lemma_merge_upto(fb, zb, r, n - 1);
        let prev = merge_upto(fb, zb, r, n - 1);
        let cur = merge_upto(fb, zb, r, n);
        let bi = r.bi[n - 1] as int;
        assert forall|i: int|
            0 <= i < zb.len() && !(exists|k: int| 0 <= k < n && r.bi[k] == i) implies cur.0[i]
            == fb[i] && cur.1[i] == zb[i] by {
            assert(!(exists|k: int| 0 <= k < n - 1 && r.bi[k] == i));
            assert(i != bi);
        }
        assert forall|k: int| 0 <= k < n implies cur.1[r.bi[k] as int] >= r.zbv[k] by {
            if k < n - 1 {
                assert(prev.1[r.bi[k] as int] >= r.zbv[k]);
            }
        }
        assert forall|i: int|
            0 <= i < zb.len() && !(cur.0[i] == fb[i] && cur.1[i] == zb[i]) implies exists|k: int|
            0 <= k < n && r.bi[k] == i && cur.0[i] == r.fbv[k] && cur.1[i] == r.zbv[k] by {
            if i == bi && r.zbv[n - 1] >= prev.1[bi] {
                assert(0 <= n - 1 < n && r.bi[n - 1] == i && cur.0[i] == r.fbv[n - 1] && cur.1[i]
                    == r.zbv[n - 1]);
            } else {
                assert(cur.0[i] == prev.0[i] && cur.1[i] == prev.1[i]);
                let k = choose|k: int|
                    0 <= k < n - 1 && r.bi[k] == i && prev.0[i] == r.fbv[k] && prev.1[i]
                        == r.zbv[k];
                assert(0 <= k < n && r.bi[k] == i && cur.0[i] == r.fbv[k] && cur.1[i] == r.zbv[k]);
            }
        }
    }
}

/// The graphics context: the framebuffer of packed colors and the parallel
/// depth buffer, row-major, owned solely by the pipeline.
pub struct Gl {
    fb: Vec<u32>,
    fb_width: usize,
    fb_height: usize,
    zb: Vec<i64>,
}

impl Gl {
    pub closed spec fn spec_fb(self) -> Seq<u32> {
        self.fb@
    }

    pub closed spec fn spec_zb(self) -> Seq<i64> {
        self.zb@
    }

    pub closed spec fn spec_width(self) -> int {
        self.fb_width as int
    }

    pub closed spec fn spec_height(self) -> int {
        self.fb_height as int
    }

    /// Framebuffer and depth buffer share one index space of
    /// `width * height` cells, from construction on.
    pub closed spec fn wf(self) -> bool {
        &&& self.fb.len() == self.fb_width * self.fb_height
        &&& self.zb.len() == self.fb_width * self.fb_height
        &&& 4 * (self.fb_width * self.fb_height) <= usize::MAX
    }

    pub fn new(window_width: u32, window_height: u32) -> (gl: Gl)
        requires
            4 * (window_width * window_height) <= usize::MAX,
        ensures
            gl.wf(),
            gl.spec_width() == window_width,
            gl.spec_height() == window_height,
            gl.spec_fb().len() == window_width * window_height,
            gl.spec_zb().len() == window_width * window_height,
            forall|i: int| 0 <= i < gl.spec_fb().len() ==> gl.spec_fb()[i] == 0,
            forall|i: int| 0 <= i < gl.spec_zb().len() ==> gl.spec_zb()[i] == DEPTH_CLEAR,
    {
        proof {
            assert((window_width as usize) * (window_height as usize) == (window_width as int) * (
            window_height as int)) by (nonlinear_arith)
                requires
                    4 * ((window_width as int) * (window_height as int)) <= usize::MAX,
                    window_width < 0x1_0000_0000,
                    window_height < 0x1_0000_0000,
            ;
        }
        let count: usize = (window_width as usize) * (window_height as usize);
        let framebuffer: Vec<u32> = vec![0u32; count];
        let zbuffer: Vec<i64> = vec![DEPTH_CLEAR; count];
        Gl {
            fb: framebuffer,
            fb_width: window_width as usize,
            fb_height: window_height as usize,
            zb: zbuffer,
        }
    }

    /// Apply one worker's fragment batch to the buffers under the depth
    /// test: a fragment is written exactly when its depth is at least the
    /// stored depth, color and depth in the same step.
    pub fn merge(&mut self, result: &FaceThreadResult)
        requires
            old(self).wf(),
            result.wf(),
            forall|k: int| 0 <= k < result.bi.len() ==> result.bi[k] < old(self).spec_fb().len(),
        ensures
            final(self).wf(),
            final(self).spec_width() == old(self).spec_width(),
            final(self).spec_height() == old(self).spec_height(),
            final(self).spec_fb() == merge_upto(
                old(self).spec_fb(),
                old(self).spec_zb(),
                *result,
                result.bi.len() as int,
            ).0,
            final(self).spec_zb() == merge_upto(
                old(self).spec_fb(),
                old(self).spec_zb(),
                *result,
                result.bi.len() as int,
            ).1,
    {
        let ghost fb0 = self.fb@;
        let ghost zb0 = self.zb@;
        let mut i: usize = 0;
        while i < result.bi.len()
            invariant
                self.fb_width == old(self).fb_width,
                self.fb_height == old(self).fb_height,
                result.wf(),
                i <= result.bi.len(),
                fb0.len() == zb0.len(),
                forall|k: int| 0 <= k < result.bi.len() ==> result.bi[k] < fb0.len(),
                self.fb@ == merge_upto(fb0, zb0, *result, i as int).0,
                self.zb@ == merge_upto(fb0, zb0, *result, i as int).1,
                self.fb@.len() == fb0.len(),
                self.zb@.len() == zb0.len(),
            decreases result.bi.len() - i,
        {
            let bi: usize = result.bi[i];
            let z_b_v: i64 = result.zbv[i];
            let f_b_v: u32 = result.fbv[i];
            if z_b_v >= self.zb[bi] {
                self.fb[bi] = f_b_v;
                self.zb[bi] = z_b_v;
            }
            i = i + 1;
        }
    }

    /// The packed framebuffer contents.
    pub fn framebuffer(&self) -> (r: &Vec<u32>)
        ensures
            r@ == self.spec_fb(),
    {
        &self.fb
    }

    /// The depth buffer contents.
    pub fn zbuffer(&self) -> (r: &Vec<i64>)
        ensures
            r@ == self.spec_zb(),
    {
        &self.zb
    }

    /// The framebuffer as bytes for a display surface: each packed word
    /// expanded little-endian, giving B, G, R, A per pixel.
    pub fn framebuffer_bytes(&self) -> (r: Vec<u8>)
        requires
            self.wf(),
        ensures
            r.len() == 4 * self.spec_fb().len(),
            forall|k: int|
                0 <= k < self.spec_fb().len() ==> {
                    &&& r[4 * k] == (self.spec_fb()[k] & 0xff) as u8
                    &&& r[4 * k + 1] == ((self.spec_fb()[k] >> 8) & 0xff) as u8
                    &&& r[4 * k + 2] == ((self.spec_fb()[k] >> 16) & 0xff) as u8
                    &&& r[4 * k + 3] == ((self.spec_fb()[k] >> 24) & 0xff) as u8
                },
    {
        utils::arr32_to_8(&self.fb)
    }

    /// The framebuffer as RGBA bytes for an image encoder: byte order
    /// R, G, B, A per pixel.
    pub fn image_bytes(&self) -> (r: Vec<u8>)
        requires
            self.wf(),
        ensures
            r.len() == 4 * self.spec_fb().len(),
            forall|k: int|
                0 <= k < self.spec_fb().len() ==> {
                    &&& r[4 * k] == ((self.spec_fb()[k] >> 16) & 0xff) as u8
                    &&& r[4 * k + 1] == ((self.spec_fb()[k] >> 8) & 0xff) as u8
                    &&& r[4 * k + 2] == (self.spec_fb()[k] & 0xff) as u8
                    &&& r[4 * k + 3] == ((self.spec_fb()[k] >> 24) & 0xff) as u8
                },
    {
        utils::bf_to_image(&self.fb)
    }
}

} // verus!
