//! Turns a scalar field into intensity rasters: one raster per depth, sampled
//! on demand.
use vstd::prelude::*;
use crate::raster::{Raster, cell_index, lemma_cell_in_bounds};

verus! {

/// The field may be queried at every cell of a `width` × `height` grid at `depth`.
pub open spec fn field_defined_on<D, F: Fn(u32, u32, D) -> u16>(
    field: F,
    width: u32,
    height: u32,
    depth: D,
) -> bool {
    forall|x: u32, y: u32| x < width && y < height ==> call_requires(field, (x, y, depth))
}

/// `r` is a `width` × `height` raster whose cell `(x, y)` holds a value that the
/// field gives at `(x, y, depth)`.
pub open spec fn is_slice_of<D, F: Fn(u32, u32, D) -> u16>(
    r: Raster,
    field: F,
    width: u32,
    height: u32,
    depth: D,
) -> bool {
    &&& r.wf()
    &&& r.spec_width() == width
    &&& r.spec_height() == height
    &&& forall|x: u32, y: u32|
        x < width && y < height ==> call_ensures(
            field,
            (x, y, depth),
            #[trigger] r.sample_at(x as nat, y as nat),
        )
}

/// The field gives one value only at each coordinate.
pub open spec fn deterministic<D, F: Fn(u32, u32, D) -> u16>(field: F) -> bool {
    forall|args: (u32, u32, D), a: u16, b: u16|
        call_ensures(field, args, a) && call_ensures(field, args, b) ==> a == b
}

/// Samples the field `from` at depth `at_depth` over a grid `across_width` wide
/// and `across_height` high, row by row. The field hands back each value
/// already quantized to a sample; nothing is clamped here.
pub fn make_image<D: Copy, F: Fn(u32, u32, D) -> u16>(
    from: F,
    across_width: u32,
    across_height: u32,
    at_depth: D,
) -> (r: Raster)
    requires
        across_width as nat * across_height as nat <= usize::MAX,
        field_defined_on(from, across_width, across_height, at_depth),
    ensures
        is_slice_of(r, from, across_width, across_height, at_depth),
{
    let ghost w = across_width as nat;
    let mut cells: Vec<u16> = Vec::new();
    let mut y: u32 = 0;
    while y < across_height
        invariant
            y <= across_height,
            w == across_width as nat,
            across_width as nat * across_height as nat <= usize::MAX,
            field_defined_on(from, across_width, across_height, at_depth),
            cells@.len() == y as nat * w,
            forall|i: u32, j: u32|
                i < across_width && j < y ==> call_ensures(
                    from,
                    (i, j, at_depth),
                    #[trigger] cells@[cell_index(w, i as nat, j as nat) as int],
                ),
        decreases across_height - y,
    {
        let mut x: u32 = 0;
        while x < across_width
            invariant
                x <= across_width,
                y < across_height,
                w == across_width as nat,
                across_width as nat * across_height as nat <= usize::MAX,
                field_defined_on(from, across_width, across_height, at_depth),
                cells@.len() == y as nat * w + x,
                forall|i: u32, j: u32|
                    (j < y && i < across_width) || (j == y && i < x) ==> call_ensures(
                        from,
                        (i, j, at_depth),
                        #[trigger] cells@[cell_index(w, i as nat, j as nat) as int],
                    ),
            decreases across_width - x,
        {
            proof {
                lemma_cell_in_bounds(w, across_height as nat, x as nat, y as nat);
            }
            let v = from(x, y, at_depth);
            let ghost before = cells@;
            cells.push(v);
            proof {
                assert forall|i: u32, j: u32|
                    (j < y && i < across_width) || (j == y && i < x + 1) implies call_ensures(
                        from,
                        (i, j, at_depth),
                        #[trigger] cells@[cell_index(w, i as nat, j as nat) as int],
                    ) by {
                    if j == y && i == x {
                    } else {
                        lemma_earlier_cell(w, i as nat, j as nat, x as nat, y as nat);
                        assert(cells@[cell_index(w, i as nat, j as nat) as int]
                            == before[cell_index(w, i as nat, j as nat) as int]);
                    }
                }
            }
            x = x + 1;
        }
        proof {
            assert((y + 1) as nat * w == y as nat * w + w) by (nonlinear_arith);
        }
        y = y + 1;
    }
    proof {
        assert(across_height as nat * w == w * across_height as nat) by (nonlinear_arith);
    }
    let r = Raster::from_samples(across_width, across_height, cells);
    r.unwrap()
}

/// A lazy, single-pass sequence of rasters: one slice of the field per depth,
/// in the order of the depths, each sampled only when it is asked for.
pub struct Volume<D, F> {
    field: F,
    width: u32,
    height: u32,
    depths: Vec<D>,
    next: usize,
}

/// The field may be queried over the whole grid at each of `depths`.
pub open spec fn field_defined_at_all<D, F: Fn(u32, u32, D) -> u16>(
    field: F,
    width: u32,
    height: u32,
    depths: Seq<D>,
) -> bool {
    forall|i: int| 0 <= i < depths.len() ==> field_defined_on(field, width, height, #[trigger] depths[i])
}

impl<D: Copy, F: Copy + Fn(u32, u32, D) -> u16> Volume<D, F> {
    pub closed spec fn field(&self) -> F {
        self.field
    }

    pub closed spec fn spec_width(&self) -> u32 {
        self.width
    }

    pub closed spec fn spec_height(&self) -> u32 {
        self.height
    }

    /// The depths whose slices have not been produced yet, in order.
    pub closed spec fn pending(&self) -> Seq<D> {
        self.depths@.subrange(self.next as int, self.depths@.len() as int)
    }

    /// The position of the next depth lies within the depths.
    pub closed spec fn cursor_ok(&self) -> bool {
        self.next <= self.depths@.len()
    }

    pub open spec fn wf(&self) -> bool {
        &&& self.cursor_ok()
        &&& self.spec_width() as nat * self.spec_height() as nat <= usize::MAX
        &&& field_defined_at_all(self.field(), self.spec_width(), self.spec_height(), self.pending())
    }

    /// Samples the slice at the next pending depth; `None` once every depth has
    /// been produced.
    pub fn next_raster(&mut self) -> (r: Option<Raster>)
        requires
            old(self).wf(),
        ensures
            final(self).wf(),
            final(self).field() == old(self).field(),
            final(self).spec_width() == old(self).spec_width(),
            final(self).spec_height() == old(self).spec_height(),
            r is None <==> old(self).pending().len() == 0,
            r is None ==> final(self).pending() == old(self).pending(),
            r matches Some(g) ==> {
                &&& final(self).pending() == old(self).pending().drop_first()
                &&& is_slice_of(
                    g,
                    old(self).field(),
                    old(self).spec_width(),
                    old(self).spec_height(),
                    old(self).pending()[0],
                )
            },
    {
        if self.next < self.depths.len() {
            let depth = self.depths[self.next];
            proof {
                assert(depth == self.pending()[0]);
            }
            let g = make_image(self.field, self.width, self.height, depth);
            self.next = self.next + 1;
            proof {
                assert(self.pending() =~= old(self).pending().drop_first());
            }
            Some(g)
        } else {
            None
        }
    }

    /// How many slices are still to come.
    pub fn remaining(&self) -> (r: usize)
        requires
            self.wf(),
        ensures
            r == self.pending().len(),
    {
        self.depths.len() - self.next
    }
}

/// A volume of slices of `from`, one for each of `at_depths` in order; nothing
/// is sampled until a slice is asked for.
pub fn make_volume<D: Copy, F: Copy + Fn(u32, u32, D) -> u16>(
    from: F,
    across_width: u32,
    across_height: u32,
    at_depths: Vec<D>,
) -> (r: Volume<D, F>)
    requires
        across_width as nat * across_height as nat <= usize::MAX,
        field_defined_at_all(from, across_width, across_height, at_depths@),
    ensures
        r.wf(),
        r.field() == from,
        r.spec_width() == across_width,
        r.spec_height() == across_height,
        r.pending() == at_depths@,
{
    let r = Volume { field: from, width: across_width, height: across_height, depths: at_depths, next: 0 };
    proof {
        assert(r.pending() =~= at_depths@);
    }
    r
}

/// Sampling a deterministic field twice, with the same dimensions and depth,
/// gives the same raster.
pub proof fn law_sampling_deterministic<D, F: Fn(u32, u32, D) -> u16>(
    field: F,
    width: u32,
    height: u32,
    depth: D,
    a: Raster,
    b: Raster,
)
    requires
        deterministic(field),
        is_slice_of(a, field, width, height, depth),
        is_slice_of(b, field, width, height, depth),
    ensures
        a.spec_width() == b.spec_width(),
        a.spec_height() == b.spec_height(),
        a.samples() == b.samples(),
{
    let w = width as nat;
    assert forall|k: int| 0 <= k < a.samples().len() implies a.samples()[k] == b.samples()[k] by {
        assert(w > 0) by (nonlinear_arith)
            requires
                0 <= k < w * height as nat,
        ;
        let x = (k % w as int) as u32;
        let y = (k / w as int) as u32;
        assert(k / (w as int) < height as int) by (nonlinear_arith)
            requires
                w > 0,
                0 <= k < w * height as nat,
        ;
        assert(cell_index(w, x as nat, y as nat) == k) by (nonlinear_arith)
            requires
                w > 0,
                0 <= k,
                x == k % w as int,
                y == k / w as int,
        ;
        assert(call_ensures(field, (x, y, depth), a.sample_at(x as nat, y as nat)));
        assert(call_ensures(field, (x, y, depth), b.sample_at(x as nat, y as nat)));
    }
    assert(a.samples() =~= b.samples());
}

/// A cell that comes before `(x, y)` in row-major order has a smaller index.
proof fn lemma_earlier_cell(w: nat, i: nat, j: nat, x: nat, y: nat)
    requires
        x < w,
        (j < y && i < w) || (j == y && i < x),
    ensures
        cell_index(w, i, j) < cell_index(w, x, y),
{
    if j < y {
        assert(j * w + i < y * w + x) by (nonlinear_arith)
            requires
                j < y,
                i < w,
        ;
    }
}

} // verus!
