//! Backbuffer module.

use vstd::prelude::*;

verus! {

/// The byte a full-buffer fill writes at offset `k`: the channels of an
/// (R, G, B, A) tuple laid out in BGRA order, repeating every four bytes.
pub open spec fn fill_byte(color: (u8, u8, u8, u8), k: int) -> u8 {
    if k % 4 == 0 {
        color.2
    } else if k % 4 == 1 {
        color.1
    } else if k % 4 == 2 {
        color.0
    } else {
        color.3
    }
}

/// The byte rectangle handed to a display surface: four bytes per pixel in
/// BGRA order, rows first.
#[derive(Debug)]
pub struct Backbuffer {
    data: Vec<u8>,
    width: usize,
}

impl View for Backbuffer {
    type V = Seq<u8>;

    closed spec fn view(&self) -> Seq<u8> {
        self.data@
    }
}

impl Backbuffer {
    pub closed spec fn spec_width(self) -> int {
        self.width as int
    }

    /// The buffer always holds whole four-byte pixels.
    pub closed spec fn wf(self) -> bool {
        self.data.len() % 4 == 0
    }

    /// Create and initialize new backbuffer with specified width and height.
    pub fn new(width: usize, height: usize) -> (bb: Backbuffer)
        requires
            width * height * 4 <= usize::MAX,
        ensures
            bb.wf(),
            bb.spec_width() == width,
            bb@.len() == width * height * 4,
            forall|k: int| 0 <= k < bb@.len() ==> bb@[k] == 0,
    {
        proof {
            assert(width * height * 4 % 4 == 0) by (nonlinear_arith);
            assert(width * height * 4 == (width * height) * 4) by (nonlinear_arith);
        }
        let count: usize = width * height;
        let mut data: Vec<u8> = Vec::new();
        let total: usize = count * 4;

        // Fill with black
        let mut i: usize = 0;
        while i < total
            invariant
                i <= total,
                data.len() == i,
                forall|k: int| 0 <= k < i ==> data[k] == 0,
            decreases total - i,
        {
            data.push(0);
            i = i + 1;
        }
        Backbuffer { data, width }
    }

    /// Set single index of buffer to value.
    pub fn set(&mut self, i: usize, value: u8)
        requires
            i < old(self)@.len(),
        ensures
            final(self)@ == old(self)@.update(i as int, value),
            final(self).wf() == old(self).wf(),
            final(self).spec_width() == old(self).spec_width(),
    {
        self.data[i] = value;
    }

    /// Set location (x, y) in buffer to specified color tuple (R, G, B, A).
    pub fn set_loc(&mut self, loc: (usize, usize), color: (u8, u8, u8, u8))
        requires
            (loc.0 + loc.1 * old(self).spec_width()) * 4 + 4 <= old(self)@.len(),
        ensures
            final(self).wf() == old(self).wf(),
            final(self).spec_width() == old(self).spec_width(),
            final(self)@.len() == old(self)@.len(),
            ({
                let pos = (loc.0 + loc.1 * old(self).spec_width()) * 4;
                &&& final(self)@[pos] == color.2
                &&& final(self)@[pos + 1] == color.1
                &&& final(self)@[pos + 2] == color.0
                &&& final(self)@[pos + 3] == color.3
                &&& forall|k: int|
                    0 <= k < old(self)@.len() && !(pos <= k < pos + 4) ==> final(self)@[k] == old(
                        self,
                    )@[k]
            }),
    {
        proof {
            assert(0 <= loc.1 * (self.width as int)) by (nonlinear_arith);
            assert((loc.0 + loc.1 * (self.width as int)) * 4 + 4 <= self.data.len());
            assert((loc.0 + loc.1 * (self.width as int)) * 4 == 4 * (loc.0 + loc.1 * (self.width
                as int)));
        }
        let pos: usize = (loc.0 + loc.1 * self.width) * 4;
        self.data[pos] = color.2;  // Blue
        self.data[pos + 1] = color.1;  // Green
        self.data[pos + 2] = color.0;  // Red
        self.data[pos + 3] = color.3;  // Alpha
    }

    /// Fill buffer with single color tuple (R, G, B, A).
    pub fn fill(&mut self, color: (u8, u8, u8, u8))
        requires
            old(self).wf(),
        ensures
            final(self).wf(),
            final(self).spec_width() == old(self).spec_width(),
            final(self)@.len() == old(self)@.len(),
            forall|k: int| 0 <= k < final(self)@.len() ==> final(self)@[k] == fill_byte(color, k),
    {
        let len: usize = self.data.len();
        let mut i: usize = 0;
        while i < len
            invariant
                len == self.data.len(),
                self.data.len() == old(self).data.len(),
                self.width == old(self).width,
                len % 4 == 0,
                i % 4 == 0,
                i <= len,
                forall|k: int| 0 <= k < i ==> self.data[k] == fill_byte(color, k),
            decreases len - i,
        {
            proof {
                assert(i + 3 < len) by (nonlinear_arith)
                    requires
                        i % 4 == 0,
                        len % 4 == 0,
                        i < len,
                ;
                assert((i % 4 == 0) ==> ((i + 1) % 4 == 1 && (i + 2) % 4 == 2 && (i + 3) % 4 == 3
                    && (i + 4) % 4 == 0)) by (nonlinear_arith);
            }
            self.data[i] = color.2;  // Blue
            self.data[i + 1] = color.1;  // Green
            self.data[i + 2] = color.0;  // Red
            self.data[i + 3] = color.3;  // Alpha
            i = i + 4;
        }
    }

    /// Return stored data as reference.
    pub fn data_as_ref(&self) -> (r: &[u8])
        ensures
            r@ == self@,
    {
        self.data.as_slice()
    }

    /// Return stored data as copy of a vector.
    pub fn data_copy(&self) -> (r: Vec<u8>)
        ensures
            r@ == self@,
    {
        let r = self.data.clone();
        proof {
            assert(r@ =~= self.data@);
        }
        r
    }
}

} // verus!
