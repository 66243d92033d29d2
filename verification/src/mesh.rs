//! Meshes: vertices, UVs and the indices that connect vertices into triangles.
//! `V` is the two-dimensional vector type and `C` its coordinate type.

use vstd::prelude::*;

verus! {

/// A flat list of coordinates did not have an even length, so it is not a list of
/// two-dimensional vectors.
#[derive(Debug, Clone, Copy, PartialEq, Eq, Structural)]
pub struct Vec2sToVecVec2Error;

/// The consecutive pairs of `flat`: `(flat[0], flat[1]), (flat[2], flat[3]), ...`.
pub open spec fn pairs<C>(flat: Seq<C>) -> Seq<(C, C)> {
    Seq::new(flat.len() / 2, |i: int| (flat[2 * i], flat[2 * i + 1]))
}

/// The two-dimensional vectors that a flat list of coordinates holds, two coordinates
/// each; an error where the list has an odd length.
pub fn vec2s_to_pairs<C: Copy>(flat: &[C]) -> (r: Result<Vec<(C, C)>, Vec2sToVecVec2Error>)
    ensures
        r is Err <==> flat@.len() % 2 == 1,
        r matches Ok(v) ==> v@ == pairs(flat@),
{
    if flat.len() % 2 != 0 {
        return Err(Vec2sToVecVec2Error);
    }
    let len = flat.len();
    let n = len / 2;
    let mut v: Vec<(C, C)> = Vec::new();
    let mut i: usize = 0;
    while i < n
        invariant
            n == flat@.len() / 2,
            flat@.len() % 2 == 0,
            n * 2 == flat@.len(),
            len == flat@.len(),
            i <= n,
            v@ == pairs(flat@).take(i as int),
        decreases n - i,
    {
        let j: usize = i * 2;
        v.push((flat[j], flat[j + 1]));
        i = i + 1;
        assert(v@ =~= pairs(flat@).take(i as int));
    }
    assert(pairs(flat@).take(n as int) =~= pairs(flat@));
    Ok(v)
}

/// The coordinates of `v`, two per vector, one after the other.
pub open spec fn flat<C>(v: Seq<(C, C)>) -> Seq<C> {
    Seq::new(2 * v.len(), |i: int| if i % 2 == 0 { v[i / 2].0 } else { v[i / 2].1 })
}

/// The flat list of coordinates of two-dimensional vectors.
pub fn pairs_to_flat<C: Copy>(v: &[(C, C)]) -> (r: Vec<C>)
    ensures
        r@ == flat(v@),
{
    let mut r: Vec<C> = Vec::new();
    let mut i: usize = 0;
    while i < v.len()
        invariant
            i <= v@.len(),
            r@ == flat(v@.take(i as int)),
        decreases v@.len() - i,
    {
        let (x, y) = v[i];
        r.push(x);
        r.push(y);
        i = i + 1;
        assert(r@ =~= flat(v@.take(i as int))) by {
            assert forall|k: int| 0 <= k < 2 * i implies #[trigger] r@[k] == flat(v@.take(i as int))[k] by {
                assert(v@.take(i as int)[k / 2] == v@[k / 2]);
                if k < 2 * (i - 1) {
                    assert(v@.take(i - 1)[k / 2] == v@[k / 2]);
                }
            }
        }
    }
    assert(v@.take(v@.len() as int) =~= v@);
    r
}

/// Flattening vectors and pairing the coordinates again gives the vectors back, and a flat
/// list of even length survives pairing and flattening.
pub proof fn lemma_pairs_round_trip<C>(v: Seq<(C, C)>, f: Seq<C>)
    ensures
        pairs(flat(v)) == v,
        f.len() % 2 == 0 ==> flat(pairs(f)) == f,
{
    assert(pairs(flat(v)) =~= v);
    if f.len() % 2 == 0 {
        assert forall|i: int| 0 <= i < f.len() implies #[trigger] flat(pairs(f))[i] == f[i] by {
            if i % 2 == 0 {
                assert(2 * (i / 2) == i);
            } else {
                assert(2 * (i / 2) + 1 == i);
            }
        }
        assert(flat(pairs(f)) =~= f);
    }
}

/// A mesh: vertices, base UVs, and indices into the vertices, three per triangle.
pub struct Mesh<V> {
    pub vertices: Vec<V>,
    pub uvs: Vec<V>,
    pub indices: Vec<u16>,
    pub origin: V,
}

/// How many times `index` occurs in `indices`.
pub open spec fn count_index(indices: Seq<u16>, index: u16) -> nat
    decreases indices.len(),
{
    if indices.len() == 0 {
        0
    } else {
        count_index(indices.drop_last(), index) + (if indices.last() == index {
            1nat
        } else {
            0nat
        })
    }
}

impl<V> Mesh<V> {
    /// Adds a vertex with its UV.
    pub fn add(&mut self, vertex: V, uv: V)
        ensures
            final(self).vertices@ == old(self).vertices@.push(vertex),
            final(self).uvs@ == old(self).uvs@.push(uv),
            final(self).indices@ == old(self).indices@,
    {
        self.vertices.push(vertex);
        self.uvs.push(uv);
    }

    /// Removes every connection.
    pub fn clear_connections(&mut self)
        ensures
            final(self).vertices@ == old(self).vertices@,
            final(self).uvs@ == old(self).uvs@,
            final(self).indices@ == Seq::<u16>::empty(),
    {
        self.indices.clear();
    }

    /// Connects two vertices.
    pub fn connect(&mut self, first: u16, second: u16)
        ensures
            final(self).vertices@ == old(self).vertices@,
            final(self).uvs@ == old(self).uvs@,
            final(self).indices@ == old(self).indices@.push(first).push(second),
    {
        self.indices.push(first);
        self.indices.push(second);
    }

    /// Whether the mesh data is ready to be used.
    pub fn is_ready(&self) -> (r: bool)
        ensures
            r == (self.indices@.len() > 0 && self.indices@.len() % 3 == 0),
    {
        self.can_triangulate()
    }

    /// Whether the mesh data is ready to be triangulated: some indices, three per triangle.
    pub fn can_triangulate(&self) -> (r: bool)
        ensures
            r == (self.indices@.len() > 0 && self.indices@.len() % 3 == 0),
    {
        !self.indices.is_empty() && self.indices.len() % 3 == 0
    }

    /// How many connections vertex `index` takes part in.
    pub fn connections_at_index(&self, index: u16) -> (r: usize)
        ensures
            r == count_index(self.indices@, index),
    {
        let mut count: usize = 0;
        let mut i: usize = 0;
        while i < self.indices.len()
            invariant
                i <= self.indices@.len(),
                count == count_index(self.indices@.take(i as int), index),
                count <= i,
            decreases self.indices@.len() - i,
        {
            assert(self.indices@.take(i + 1).drop_last() =~= self.indices@.take(i as int));
            if self.indices[i] == index {
                count = count + 1;
            }
            i = i + 1;
        }
        assert(self.indices@.take(self.indices@.len() as int) =~= self.indices@);
        count
    }
}

/// `a / b` rounded toward zero, as integer division in Rust rounds.
pub open spec fn trunc_div(a: int, b: int) -> int {
    if a >= 0 {
        a / b
    } else {
        -((-a) / b)
    }
}

/// What a `QuadBuilder` holds: the mesh size, the UV bounds (`U` is their type), the
/// number of cuts along each axis and the origin.
pub struct QuadBuilderView<U> {
    pub size: (i32, i32),
    pub uv_bounds: U,
    pub cuts: (i32, i32),
    pub origin: (i32, i32),
}

/// Builds a quad-based mesh that is cut into a grid.
pub struct QuadBuilder<U> {
    size: (i32, i32),
    uv_bounds: U,
    cuts: (i32, i32),
    origin: (i32, i32),
}

impl<U> View for QuadBuilder<U> {
    type V = QuadBuilderView<U>;

    closed spec fn view(&self) -> QuadBuilderView<U> {
        QuadBuilderView { size: self.size, uv_bounds: self.uv_bounds, cuts: self.cuts, origin: self.origin }
    }
}

/// The positions of the grid's vertices and the indices of its triangles.
pub struct QuadGrid {
    pub positions: Vec<(i32, i32)>,
    pub indices: Vec<u16>,
}

/// The index of grid vertex `(x, y)`: vertices are stored row by row, `cx + 1` per row,
/// and the index is kept to 16 bits.
pub open spec fn grid_index(cx: int, x: int, y: int) -> u16 {
    (y * (cx + 1) + x) as u16
}

/// The cell `(x, y)` lies in the top left or the bottom right quarter of a grid of
/// `cx` by `cy` cells.
pub open spec fn on_main_diagonal(cx: int, cy: int, x: int, y: int) -> bool {
    (x < cx / 2 && y < cy / 2) || (x >= cx / 2 && y >= cy / 2)
}

/// The two triangles of grid cell `(x, y)`: split along the diagonal that points to the
/// grid's centre, so that the cells form an X pattern.
pub open spec fn quad_cell(cx: int, cy: int, x: int, y: int) -> Seq<u16> {
    let i0 = grid_index(cx, x, y);
    let i1 = grid_index(cx, x, y + 1);
    let i2 = grid_index(cx, x + 1, y);
    let i3 = grid_index(cx, x + 1, y + 1);
    if on_main_diagonal(cx, cy, x, y) {
        seq![i0, i2, i3, i0, i3, i1]
    } else {
        seq![i0, i1, i2, i1, i2, i3]
    }
}

/// The triangles of every cell `(x, y)` with `x < cx` and `y < cy`, row by row.
pub open spec fn quad_indices(cx: int, cy: int) -> Seq<u16> {
    Seq::new((cx * cy * 6) as nat, |i: int| quad_cell(cx, cy, (i / 6) % cx, (i / 6) / cx)[i % 6])
}

/// The position of vertex `k` of the grid of `b`, row by row from the top left.
pub open spec fn grid_position<U>(b: QuadBuilderView<U>, k: int) -> (int, int) {
    let w = b.cuts.0 + 1;
    let sw = trunc_div(b.size.0 as int, b.cuts.0 as int);
    let sh = trunc_div(b.size.1 as int, b.cuts.1 as int);
    ((k % w) * sw - b.origin.0, (k / w) * sh - b.origin.1)
}

/// The horizontal position of grid column `x` fits in 32 bits.
pub open spec fn column_fits<U>(b: QuadBuilderView<U>, x: int) -> bool {
    let sw = trunc_div(b.size.0 as int, b.cuts.0 as int);
    i32::MIN <= x * sw - b.origin.0 <= i32::MAX
}

/// The vertical position of grid row `y` fits in 32 bits.
pub open spec fn row_fits<U>(b: QuadBuilderView<U>, y: int) -> bool {
    let sh = trunc_div(b.size.1 as int, b.cuts.1 as int);
    i32::MIN <= y * sh - b.origin.1 <= i32::MAX
}

/// Every vertex position of the grid of `b` fits in 32 bits.
pub open spec fn grid_fits<U>(b: QuadBuilderView<U>) -> bool {
    &&& forall|x: int| 0 <= x <= b.cuts.0 ==> #[trigger] column_fits(b, x)
    &&& forall|y: int| 0 <= y <= b.cuts.1 ==> #[trigger] row_fits(b, y)
}

proof fn lemma_div_mod_pair(k: int, w: int, x: int, y: int)
    requires
        w > 0,
        0 <= x < w,
        k == y * w + x,
    ensures
        k % w == x,
        k / w == y,
{
    vstd::arithmetic::div_mod::lemma_fundamental_div_mod_converse(k, w, y, x);
}

proof fn lemma_scaled_fits(x: int, sw: int, bound: int)
    requires
        0 <= x <= bound,
        bound < 0x8000_0000,
        -0x8000_0000 <= sw < 0x8000_0000,
    ensures
        -0x4000_0000_0000_0000 <= x * sw <= 0x4000_0000_0000_0000,
{
    assert(-0x4000_0000_0000_0000 <= x * sw <= 0x4000_0000_0000_0000) by (nonlinear_arith)
        requires
            0 <= x <= bound,
            bound < 0x8000_0000,
            -0x8000_0000 <= sw < 0x8000_0000,
    ;
}

fn trunc_div_i32(a: i32, b: i32) -> (r: i32)
    requires
        b >= 2,
    ensures
        r == trunc_div(a as int, b as int),
        -0x8000_0000 <= r < 0x8000_0000,
{
    a / b
}

impl<U> QuadBuilder<U> {
    /// Cuts are at least two along each axis.
    pub closed spec fn well_formed(&self) -> bool {
        self.cuts.0 >= 2 && self.cuts.1 >= 2
    }

    /// A builder for a mesh of size 0, cut 6 times along each axis, with origin 0.
    pub fn new(uv_bounds: U) -> (r: Self)
        ensures
            r.well_formed(),
            r@ == (QuadBuilderView { size: (0i32, 0i32), uv_bounds, cuts: (6i32, 6i32), origin: (0i32, 0i32) }),
    {
        QuadBuilder { size: (0, 0), uv_bounds, cuts: (6, 6), origin: (0, 0) }
    }

    /// Size of the mesh.
    pub fn size(self, x: i32, y: i32) -> (r: Self)
        requires
            self.well_formed(),
        ensures
            r.well_formed(),
            r@ == (QuadBuilderView { size: (x, y), ..self@ }),
    {
        QuadBuilder { size: (x, y), ..self }
    }

    /// UV coordinates of the top left corner and UV width and height.
    pub fn uv_bounds(self, uv_bounds: U) -> (r: Self)
        requires
            self.well_formed(),
        ensures
            r.well_formed(),
            r@ == (QuadBuilderView { uv_bounds, ..self@ }),
    {
        QuadBuilder { uv_bounds, ..self }
    }

    /// How many times to cut the mesh along each axis; at least twice, so smaller values
    /// are raised to 2.
    pub fn cuts(self, x: i32, y: i32) -> (r: Self)
        requires
            self.well_formed(),
        ensures
            r.well_formed(),
            r@ == (QuadBuilderView { cuts: (if x < 2 { 2i32 } else { x }, if y < 2 { 2i32 } else { y }), ..self@ }),
    {
        let x = if x < 2 { 2 } else { x };
        let y = if y < 2 { 2 } else { y };
        QuadBuilder { cuts: (x, y), ..self }
    }

    /// The point of the mesh that sits at position zero.
    pub fn origin(self, x: i32, y: i32) -> (r: Self)
        requires
            self.well_formed(),
        ensures
            r.well_formed(),
            r@ == (QuadBuilderView { origin: (x, y), ..self@ }),
    {
        QuadBuilder { origin: (x, y), ..self }
    }

    /// The number of cuts along each axis.
    pub fn grid_cuts(&self) -> (r: (i32, i32))
        ensures
            r == self@.cuts,
    {
        self.cuts
    }

    /// The mesh size.
    pub fn grid_size(&self) -> (r: (i32, i32))
        ensures
            r == self@.size,
    {
        self.size
    }

    /// The origin.
    pub fn grid_origin(&self) -> (r: (i32, i32))
        ensures
            r == self@.origin,
    {
        self.origin
    }

    /// The UV bounds, for the caller that computes the UVs.
    pub fn get_uv_bounds(&self) -> (r: &U)
        ensures
            *r == self@.uv_bounds,
    {
        &self.uv_bounds
    }

    /// The vertex positions of the grid, row by row, and its triangles: two per cell, for
    /// every cell, laid out in an X pattern.
    pub fn build_grid(&self) -> (r: QuadGrid)
        requires
            self.well_formed(),
            self@.cuts.0 < i32::MAX,
            self@.cuts.1 < i32::MAX,
            (self@.cuts.0 + 1) * (self@.cuts.1 + 1) <= usize::MAX,
            self@.cuts.0 * self@.cuts.1 * 6 <= usize::MAX,
            grid_fits(self@),
        ensures
            r.positions@.len() == (self@.cuts.0 + 1) * (self@.cuts.1 + 1),
            forall|k: int|
                0 <= k < r.positions@.len() ==> (#[trigger] r.positions@[k]).0 == grid_position(self@, k).0
                    && r.positions@[k].1 == grid_position(self@, k).1,
            r.indices@ == quad_indices(self@.cuts.0 as int, self@.cuts.1 as int),
    {
        let (cx, cy) = self.cuts;
        let sw = trunc_div_i32(self.size.0, cx);
        let sh = trunc_div_i32(self.size.1, cy);
        let (ox, oy) = self.origin;
        let ghost b = self@;
        let ghost w = cx as int + 1;

        let mut positions: Vec<(i32, i32)> = Vec::new();
        let mut y: i32 = 0;
        while y <= cy
            invariant
                b == self@,
                self.well_formed(),
                (cx, cy) == b.cuts,
                (ox, oy) == b.origin,
                w == cx + 1,
                cy < i32::MAX,
                cx < i32::MAX,
                sw == trunc_div(b.size.0 as int, cx as int),
                sh == trunc_div(b.size.1 as int, cy as int),
                -0x8000_0000 <= sw < 0x8000_0000,
                -0x8000_0000 <= sh < 0x8000_0000,
                grid_fits(b),
                0 <= y <= cy + 1,
                positions@.len() == y * w,
                forall|k: int|
                    0 <= k < positions@.len() ==> (#[trigger] positions@[k]).0 == grid_position(b, k).0
                        && positions@[k].1 == grid_position(b, k).1,
            decreases cy + 1 - y,
        {
            let mut x: i32 = 0;
            while x <= cx
                invariant
                    b == self@,
                    (cx, cy) == b.cuts,
                    (ox, oy) == b.origin,
                    w == cx + 1,
                    cx >= 2,
                    cx < i32::MAX,
                    sw == trunc_div(b.size.0 as int, cx as int),
                    sh == trunc_div(b.size.1 as int, cy as int),
                    -0x8000_0000 <= sw < 0x8000_0000,
                    -0x8000_0000 <= sh < 0x8000_0000,
                    grid_fits(b),
                    0 <= y <= cy,
                    0 <= x <= cx + 1,
                    positions@.len() == y * w + x,
                    forall|k: int|
                        0 <= k < positions@.len() ==> (#[trigger] positions@[k]).0 == grid_position(b, k).0
                            && positions@[k].1 == grid_position(b, k).1,
                decreases cx + 1 - x,
            {
                proof {
                    lemma_scaled_fits(x as int, sw as int, cx as int);
                    lemma_scaled_fits(y as int, sh as int, cy as int);
                    assert(column_fits(b, x as int));
                    assert(row_fits(b, y as int));
                }
                let px = ((x as i64) * (sw as i64) - (ox as i64)) as i32;
                let py = ((y as i64) * (sh as i64) - (oy as i64)) as i32;
                proof {
                    lemma_div_mod_pair(y * w + x, w, x as int, y as int);
                }
                positions.push((px, py));
                x = x + 1;
            }
            assert(y * w + w == (y + 1) * w) by (nonlinear_arith);
            y = y + 1;
        }

        let hx = cx / 2;
        let hy = cy / 2;
        let wide: u64 = cx as u64 + 1;
        let ghost total = quad_indices(cx as int, cy as int);
        let mut indices: Vec<u16> = Vec::new();
        let mut y: i32 = 0;
        while y < cy
            invariant
                hx == cx / 2,
                hy == cy / 2,
                cx >= 2,
                cy >= 2,
                cx < i32::MAX,
                cy < i32::MAX,
                wide == cx + 1,
                total == quad_indices(cx as int, cy as int),
                0 <= y <= cy,
                indices@ == total.take((y * cx * 6) as int),
            decreases cy - y,
        {
            let mut x: i32 = 0;
            while x < cx
                invariant
                    hx == cx / 2,
                    hy == cy / 2,
                    cx >= 2,
                    cy >= 2,
                    cx < i32::MAX,
                    cy < i32::MAX,
                    wide == cx + 1,
                    total == quad_indices(cx as int, cy as int),
                    0 <= y < cy,
                    0 <= x <= cx,
                    indices@ == total.take(((y * cx + x) * 6) as int),
                decreases cx - x,
            {
                let ghost k = y * cx + x;
                let ghost before = indices@;
                proof {
                    assert(0 <= k < cx * cy) by (nonlinear_arith)
                        requires
                            k == y * cx + x,
                            0 <= x < cx,
                            0 <= y < cy,
                    ;
                    assert(total.len() == cx * cy * 6);
                }
                let at = |px: i32, py: i32| -> (r: u16)
                    requires
                        0 <= px <= cx,
                        0 <= py <= cy,
                        wide == cx + 1,
                        cx < i32::MAX,
                        cy < i32::MAX,
                    ensures
                        r == grid_index(cx as int, px as int, py as int),
                {
                    proof {
                        assert(py * wide + px <= 0x7fff_ffff * 0x8000_0000 + 0x7fff_ffff) by (nonlinear_arith)
                            requires
                                0 <= px <= 0x7fff_ffff,
                                0 <= py <= 0x7fff_ffff,
                                wide <= 0x8000_0000,
                        ;
                    }
                    (#[verifier::truncate] (((py as u64) * wide + (px as u64)) as u16))
                };
                let i0 = at(x, y);
                let i1 = at(x, y + 1);
                let i2 = at(x + 1, y);
                let i3 = at(x + 1, y + 1);
                if (x < hx && y < hy) || (x >= hx && y >= hy) {
                    indices.push(i0);
                    indices.push(i2);
                    indices.push(i3);
                    indices.push(i0);
                    indices.push(i3);
                    indices.push(i1);
                } else {
                    indices.push(i0);
                    indices.push(i1);
                    indices.push(i2);
                    indices.push(i1);
                    indices.push(i2);
                    indices.push(i3);
                }
                proof {
                    let cell = quad_cell(cx as int, cy as int, x as int, y as int);
                    assert(indices@ =~= before + cell);
                    assert forall|j: int| 0 <= j < (k + 1) * 6 implies #[trigger] total.take((k + 1) * 6)[j]
                        == (before + cell)[j] by {
                        if j >= k * 6 {
                            let r = j - k * 6;
                            lemma_div_mod_pair(j, 6, r, k);
                            lemma_div_mod_pair(k, cx as int, x as int, y as int);
                        }
                    }
                    assert(total.take((k + 1) * 6) =~= before + cell);
                    assert((y * cx + x + 1) * 6 == (k + 1) * 6);
                }
                x = x + 1;
            }
            assert((y * cx + cx) * 6 == ((y + 1) * cx) * 6) by (nonlinear_arith);
            y = y + 1;
        }
        assert(positions@.len() == (cx + 1) * (cy + 1)) by (nonlinear_arith)
            requires
                positions@.len() == (cy + 1) * w,
                w == cx + 1,
        ;
        assert(indices@ =~= total) by {
            assert(cy * cx * 6 == total.len()) by (nonlinear_arith)
                requires
                    total.len() == cx * cy * 6,
            ;
        }
        QuadGrid { positions, indices }
    }
}

} // verus!
