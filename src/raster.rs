//! A fixed-size grid of 16-bit intensity samples, stored row by row.
use vstd::prelude::*;

verus! {

/// Position of cell `(x, y)` in the row-major cell storage of a grid `width` wide.
pub open spec fn cell_index(width: nat, x: nat, y: nat) -> nat {
    y * width + x
}

/// A `width` × `height` grid of single-channel intensity samples.
pub struct Raster {
    width: u32,
    height: u32,
    cells: Vec<u16>,
}

impl Raster {
    /// Every cell of the grid is present: the storage holds exactly `width * height` samples.
    pub open spec fn wf(&self) -> bool {
        self.samples().len() == self.spec_width() * self.spec_height()
    }

    pub closed spec fn spec_width(&self) -> nat {
        self.width as nat
    }

    pub closed spec fn spec_height(&self) -> nat {
        self.height as nat
    }

    /// The samples, row after row.
    pub closed spec fn samples(&self) -> Seq<u16> {
        self.cells@
    }

    /// The sample at column `x`, row `y`.
    pub open spec fn sample_at(&self, x: nat, y: nat) -> u16 {
        self.samples()[cell_index(self.spec_width(), x, y) as int]
    }

    /// Builds a raster from row-major samples; `None` when their number is not
    /// `width * height`.
    pub fn from_samples(width: u32, height: u32, samples: Vec<u16>) -> (r: Option<Raster>)
        ensures
            r is Some <==> samples@.len() == width as nat * height as nat,
            r matches Some(g) ==> g.wf() && g.spec_width() == width && g.spec_height() == height
                && g.samples() == samples@,
    {
        let w = width as u64;
        let h = height as u64;
        proof {
            assert(w * h <= 0xffff_ffff_u64 * 0xffff_ffff_u64) by (nonlinear_arith)
                requires
                    w <= 0xffff_ffff_u64,
                    h <= 0xffff_ffff_u64,
            ;
        }
        if samples.len() as u64 == w * h {
            Some(Raster { width, height, cells: samples })
        } else {
            None
        }
    }

    pub fn width(&self) -> (r: u32)
        ensures
            r == self.spec_width(),
    {
        self.width
    }

    pub fn height(&self) -> (r: u32)
        ensures
            r == self.spec_height(),
    {
        self.height
    }

    /// The sample at column `x`, row `y`.
    pub fn get(&self, x: u32, y: u32) -> (r: u16)
        requires
            self.wf(),
            x < self.spec_width(),
            y < self.spec_height(),
        ensures
            r == self.sample_at(x as nat, y as nat),
    {
        let w = self.width as usize;
        let (xu, yu) = (x as usize, y as usize);
        let len = self.cells.len();
        proof {
            lemma_cell_in_bounds(w as nat, self.height as nat, xu as nat, yu as nat);
            assert(self.cells@.len() == w as nat * self.height as nat);
            assert(yu * w + xu < len);
            assert(yu * w <= yu * w + xu);
        }
        self.cells[yu * w + xu]
    }

    /// The samples, row after row.
    pub fn as_samples(&self) -> (r: &[u16])
        ensures
            r@ == self.samples(),
    {
        self.cells.as_slice()
    }

    /// Gives up the grid, returning its samples row after row.
    pub fn into_samples(self) -> (r: Vec<u16>)
        ensures
            r@ == self.samples(),
    {
        self.cells
    }
}

/// A cell inside a `width` × `height` grid has an index below `width * height`.
pub proof fn lemma_cell_in_bounds(width: nat, height: nat, x: nat, y: nat)
    requires
        x < width,
        y < height,
    ensures
        cell_index(width, x, y) < width * height,
{
    assert(y * width + x < width * height) by (nonlinear_arith)
        requires
            x < width,
            y < height,
    ;
}

} // verus!
