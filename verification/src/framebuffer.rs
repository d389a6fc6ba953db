//! Framebuffer module.

use vstd::prelude::*;
use crate::color::Color;
use crate::common;

verus! {

/// The byte a full-buffer fill writes at offset `k`: the color's channels
/// in BGRA order, repeating every four bytes.
pub open spec fn fill_byte(color: Color, k: int) -> u8 {
    if k % 4 == 0 {
        color.b
    } else if k % 4 == 1 {
        color.g
    } else if k % 4 == 2 {
        color.r
    } else {
        color.a
    }
}

/// A dense pixel rectangle held as bytes, four per pixel in BGRA order,
/// rows first.
#[derive(Debug)]
pub struct Framebuffer {
    data: Vec<u8>,
    width: u32,
    height: u32,
}

impl View for Framebuffer {
    type V = Seq<u8>;

    closed spec fn view(&self) -> Seq<u8> {
        self.data@
    }
}

impl Framebuffer {
    pub closed spec fn spec_width(self) -> int {
        self.width as int
    }

    pub closed spec fn spec_height(self) -> int {
        self.height as int
    }

    /// The buffer always holds exactly four bytes per pixel of its
    /// `width * height` rectangle.
    pub closed spec fn wf(self) -> bool {
        &&& self.data.len() == self.width * self.height * 4
        &&& self.width * self.height * 4 <= u32::MAX
    }

    /// Create and initialize new framebuffer with specified width and height.
    pub fn new(width: u32, height: u32) -> (fb: Framebuffer)
        requires
            width * height * 4 <= u32::MAX,
        ensures
            fb.wf(),
            fb.spec_width() == width,
            fb.spec_height() == height,
            fb@.len() == width * height * 4,
            forall|k: int| 0 <= k < fb@.len() ==> fb@[k] == 0,
    {
        let data: Vec<u8> = vec![0u8; (width * height * 4) as usize];
        Framebuffer { data, width, height }
    }

    /// Set single index of buffer to value.
    pub fn set(&mut self, i: usize, value: u8)
        requires
            i < old(self)@.len(),
        ensures
            final(self)@ == old(self)@.update(i as int, value),
            final(self).wf() == old(self).wf(),
            final(self).spec_width() == old(self).spec_width(),
            final(self).spec_height() == old(self).spec_height(),
    {
        self.data[i] = value;
    }

    /// Set location in buffer to specified color.
    /// Location is taken in "buffer space"
    /// with x being: from 0 to buffer_width and y: 0 to buffer_height
    pub fn setxy(&mut self, x: u32, y: u32, color: Color)
        requires
            old(self).wf(),
            x < old(self).spec_width(),
            y < old(self).spec_height(),
        ensures
            final(self).wf(),
            final(self).spec_width() == old(self).spec_width(),
            final(self).spec_height() == old(self).spec_height(),
            final(self)@.len() == old(self)@.len(),
            ({
                let pos = (x + y * old(self).spec_width()) * 4;
                &&& final(self)@[pos] == color.b
                &&& final(self)@[pos + 1] == color.g
                &&& final(self)@[pos + 2] == color.r
                &&& final(self)@[pos + 3] == color.a
                &&& forall|k: int|
                    0 <= k < old(self)@.len() && !(pos <= k < pos + 4) ==> final(self)@[k] == old(
                        self,
                    )@[k]
            }),
    {
        proof {
            common::lemma_xy_bound(x as int, y as int, self.width as int, self.height as int);
            assert((x + y * self.width) * 4 + 3 < self.width * self.height * 4) by (
            nonlinear_arith)
                requires
                    x + y * self.width < self.width * self.height,
            ;
        }
        let pos: usize = ((x + y * self.width) * 4) as usize;
        self.data[pos] = color.b;
        self.data[pos + 1] = color.g;
        self.data[pos + 2] = color.r;
        self.data[pos + 3] = color.a;
    }

    /// Fill buffer with single color.
    pub fn fill(&mut self, color: Color)
        requires
            old(self).wf(),
        ensures
            final(self).wf(),
            final(self).spec_width() == old(self).spec_width(),
            final(self).spec_height() == old(self).spec_height(),
            final(self)@.len() == old(self)@.len(),
            forall|k: int| 0 <= k < final(self)@.len() ==> final(self)@[k] == fill_byte(color, k),
    {
        proof {
            assert(self.width * self.height * 4 % 4 == 0) by (nonlinear_arith);
        }
        let len: usize = self.data.len();
        let mut i: usize = 0;
        while i < len
            invariant
                len == self.data.len(),
                self.data.len() == old(self).data.len(),
                self.width == old(self).width,
                self.height == old(self).height,
                len % 4 == 0,
                i % 4 == 0,
                i <= len,
                forall|k: int| 0 <= k < i ==> self.data[k] == fill_byte(color, k),
            decreases len - i,
        {
            proof {
                assert(i + 3 < len) by (nonlinear_arith)
                    requires
                        i % 4 == 0,
                        len % 4 == 0,
                        i < len,
                ;
                assert((i % 4 == 0) ==> ((i + 1) % 4 == 1 && (i + 2) % 4 == 2 && (i + 3) % 4 == 3
                    && (i + 4) % 4 == 0)) by (nonlinear_arith);
            }
            self.data[i] = color.b;
            self.data[i + 1] = color.g;
            self.data[i + 2] = color.r;
            self.data[i + 3] = color.a;
            i = i + 4;
        }
    }

    /// Return stored data as reference.
    pub fn data_as_ref(&self) -> (r: &[u8])
        ensures
            r@ == self@,
    {
        self.data.as_slice()
    }

    /// Return stored data as copy of a vector.
    pub fn data_copy(&self) -> (r: Vec<u8>)
        ensures
            r@ == self@,
    {
        let r = self.data.clone();
        proof {
            assert(r@ =~= self.data@);
        }
        r
    }
}

} // verus!
