//! A dense two-dimensional matrix stored row by row.

use vstd::prelude::*;

verus! {

/// The lines of a matrix being built did not all have the same length;
/// holds the length of each line.
#[derive(Clone, Debug)]
pub struct Matrix2dFromSliceVecsError(pub Vec<usize>);

/// A `width` x `height` matrix; the element at column `ix`, row `iy` is stored at
/// `iy * width + ix`.
#[derive(Clone, Debug)]
pub struct Matrix2d<T> {
    width: usize,
    height: usize,
    data: Vec<T>,
}

/// What a `Matrix2d` holds.
pub struct Matrix2dView<T> {
    pub width: nat,
    pub height: nat,
    pub data: Seq<T>,
}

impl<T> View for Matrix2d<T> {
    type V = Matrix2dView<T>;

    closed spec fn view(&self) -> Matrix2dView<T> {
        Matrix2dView { width: self.width as nat, height: self.height as nat, data: self.data@ }
    }
}

impl<T> Matrix2d<T> {
    /// Every row is complete: the storage holds exactly `width * height` elements, a
    /// number that fits in a `usize`.
    pub open spec fn well_formed(&self) -> bool {
        &&& self@.data.len() == self@.width * self@.height
        &&& self@.data.len() <= usize::MAX
    }

    /// The storage index of column `ix`, row `iy`.
    pub open spec fn flat_index(&self, ix: int, iy: int) -> int {
        iy * self@.width + ix
    }

    pub fn width(&self) -> (r: usize)
        ensures
            r == self@.width,
    {
        self.width
    }

    pub fn height(&self) -> (r: usize)
        ensures
            r == self@.height,
    {
        self.height
    }

    /// The element stored at `iy * width + ix`, if there is one. `ix` is not checked
    /// against the width, so a column past the end reads into the next row.
    pub fn get(&self, ix: usize, iy: usize) -> (r: Option<&T>)
        requires
            iy * self@.width + ix <= usize::MAX,
        ensures
            r == (if self.flat_index(ix as int, iy as int) < self@.data.len() {
                Some(&self@.data[self.flat_index(ix as int, iy as int)])
            } else {
                None
            }),
    {
        let idx = iy * self.width + ix;
        if idx < self.data.len() {
            Some(&self.data[idx])
        } else {
            None
        }
    }

    /// A mutable reference to the element stored at `iy * width + ix`, if there is one.
    pub fn get_mut(&mut self, ix: usize, iy: usize) -> (r: Option<&mut T>)
        requires
            iy * old(self)@.width + ix <= usize::MAX,
        ensures
            old(self).flat_index(ix as int, iy as int) < old(self)@.data.len() ==> (r matches Some(
                e,
            ) && *e == old(self)@.data[old(self).flat_index(ix as int, iy as int)] && final(self)@
                == (Matrix2dView {
                width: old(self)@.width,
                height: old(self)@.height,
                data: old(self)@.data.update(old(self).flat_index(ix as int, iy as int), *final(e)),
            })),
            old(self).flat_index(ix as int, iy as int) >= old(self)@.data.len() ==> (r is None
                && final(self)@ == old(self)@),
    {
        let idx = iy * self.width + ix;
        if idx < self.data.len() {
            Some(&mut self.data[idx])
        } else {
            None
        }
    }
}

impl<T> Default for Matrix2d<T> {
    fn default() -> (r: Self)
        ensures
            r@.width == 0,
            r@.height == 0,
            r@.data.len() == 0,
    {
        Matrix2d { width: 0, height: 0, data: Vec::new() }
    }
}

impl<T> core::ops::Index<(usize, usize)> for Matrix2d<T> {
    type Output = T;

    /// The element at column `ix`, row `iy`; out of bounds is refused by `index_req`.
    fn index(&self, index: (usize, usize)) -> (r: &T)
        ensures
            *r == self@.data[self.flat_index(index.0 as int, index.1 as int)],
    {
        let (ix, iy) = index;
        let stored = self.data.len();
        proof {
            assert(iy * self@.width + ix < self@.width * self@.height) by (nonlinear_arith)
                requires
                    ix < self@.width,
                    iy < self@.height,
            ;
            assert(iy * self@.width + ix < stored);
        }
        &self.data[iy * self.width + ix]
    }
}

impl<T> vstd::std_specs::core::IndexSpecImpl<(usize, usize)> for Matrix2d<T> {
    open spec fn index_req(&self, index: &(usize, usize)) -> bool {
        index.0 < self@.width && index.1 < self@.height && self.well_formed()
    }
}

/// Every line of `ss` has the length of the first.
pub open spec fn lines_same_len<T>(ss: Seq<Vec<T>>) -> bool {
    forall|i: int| 0 <= i < ss.len() ==> (#[trigger] ss[i])@.len() == ss[0]@.len()
}

impl<T: Default + Clone> Matrix2d<T> {
    /// A `width` x `height` matrix in which every element is a clone of `T::default()`.
    pub fn default_filled(width: usize, height: usize) -> (r: Self)
        requires
            width * height <= usize::MAX,
        ensures
            r@.width == width,
            r@.height == height,
            r.well_formed(),
            exists|d: T|
                #![trigger call_ensures(T::default, (), d)]
                call_ensures(T::default, (), d) && forall|i: int|
                    0 <= i < r@.data.len() ==> cloned::<T>(d, #[trigger] r@.data[i]),
    {
        let d = T::default();
        let data = vec![d; width * height];
        Matrix2d { width, height, data }
    }

    /// The matrix whose rows are the lines of `ss`, or the line lengths if they differ.
    pub fn from_slice_vecs(ss: &[Vec<T>]) -> (res: Result<Self, Matrix2dFromSliceVecsError>)
        requires
            ss@.len() > 0 && lines_same_len(ss@) ==> ss@.len() * ss@[0]@.len() <= usize::MAX,
        ensures
            ss@.len() == 0 ==> (res matches Ok(m) && m@.width == 0 && m@.height == 0
                && m@.data.len() == 0),
            ss@.len() > 0 && lines_same_len(ss@) ==> (res matches Ok(m) && m@.width
                == ss@[0]@.len() && m@.height == ss@.len() && m.well_formed() && forall|
                iy: int,
                ix: int,
            |
                0 <= iy < m@.height && 0 <= ix < m@.width ==> cloned::<T>(
                    ss@[iy]@[ix],
                    #[trigger] m@.data[m.flat_index(ix, iy)],
                )),
            ss@.len() > 0 && !lines_same_len(ss@) ==> (res matches Err(e) && e.0@ == ss@.map_values(
                |line: Vec<T>| line@.len() as usize,
            )),
    {
        let height = ss.len();
        if height == 0 {
            return Ok(Matrix2d { width: 0, height: 0, data: Vec::new() });
        }
        let width = ss[0].len();

        let mut y: usize = 0;
        while y < height
            invariant
                height == ss@.len(),
                width == ss@[0]@.len(),
                y <= height,
                forall|i: int| 0 <= i < y ==> (#[trigger] ss@[i])@.len() == width,
            decreases height - y,
        {
            if ss[y].len() != width {
                let mut lens: Vec<usize> = Vec::new();
                let mut j: usize = 0;
                while j < height
                    invariant
                        height == ss@.len(),
                        j <= height,
                        lens@ == ss@.take(j as int).map_values(|line: Vec<T>| line@.len() as usize),
                    decreases height - j,
                {
                    lens.push(ss[j].len());
                    j = j + 1;
                    assert(lens@ =~= ss@.take(j as int).map_values(
                        |line: Vec<T>| line@.len() as usize,
                    ));
                }
                assert(ss@.take(height as int) =~= ss@);
                return Err(Matrix2dFromSliceVecsError(lens));
            }
            y = y + 1;
        }

        let mut data: Vec<T> = Vec::new();
        let mut y: usize = 0;
        while y < height
            invariant
                height == ss@.len(),
                width == ss@[0]@.len(),
                lines_same_len(ss@),
                height * width <= usize::MAX,
                y <= height,
                data@.len() == y * width,
                forall|iy: int, ix: int|
                    0 <= iy < y && 0 <= ix < width ==> cloned::<T>(
                        ss@[iy]@[ix],
                        #[trigger] data@[iy * width + ix],
                    ),
            decreases height - y,
        {
            let ghost before = data@;
            proof {
                assert((y + 1) * width <= height * width) by (nonlinear_arith)
                    requires
                        y < height,
                ;
                assert((y + 1) * width == y * width + width) by (nonlinear_arith);
            }
            data.extend_from_slice(ss[y].as_slice());
            proof {
                assert forall|iy: int, ix: int|
                    0 <= iy < y + 1 && 0 <= ix < width implies cloned::<T>(
                    ss@[iy]@[ix],
                    #[trigger] data@[iy * width + ix],
                ) by {
                    if iy < y {
                        assert(iy * width + ix < y * width) by (nonlinear_arith)
                            requires
                                iy < y,
                                ix < width,
                        ;
                        assert(data@[iy * width + ix] == before[iy * width + ix]);
                    } else {
                        assert(data@[iy * width + ix] == data@[y * width + ix]);
                    }
                }
            }
            y = y + 1;
        }
        assert(height * width == width * height) by (nonlinear_arith);
        Ok(Matrix2d { width, height, data })
    }
}

/// In a well-formed matrix every cell of the `width` x `height` grid is stored inside
/// the data, and no two cells share a place.
pub proof fn lemma_cells_in_bounds<T>(m: Matrix2d<T>)
    requires
        m.well_formed(),
    ensures
        forall|ix: int, iy: int|
            0 <= ix < m@.width && 0 <= iy < m@.height ==> 0 <= #[trigger] m.flat_index(ix, iy) < m@.data.len(),
        forall|ix1: int, iy1: int, ix2: int, iy2: int|
            0 <= ix1 < m@.width && 0 <= iy1 < m@.height && 0 <= ix2 < m@.width && 0 <= iy2 < m@.height
                && #[trigger] m.flat_index(ix1, iy1) == #[trigger] m.flat_index(ix2, iy2) ==> ix1 == ix2 && iy1
                == iy2,
{
    let w = m@.width as int;
    let h = m@.height as int;
    assert forall|ix: int, iy: int| 0 <= ix < w && 0 <= iy < h implies 0 <= #[trigger] m.flat_index(ix, iy)
        < m@.data.len() by {
        assert(0 <= iy * w + ix < w * h) by (nonlinear_arith)
            requires
                0 <= ix < w,
                0 <= iy < h,
        ;
    }
    assert forall|ix1: int, iy1: int, ix2: int, iy2: int|
        0 <= ix1 < w && 0 <= iy1 < h && 0 <= ix2 < w && 0 <= iy2 < h && #[trigger] m.flat_index(ix1, iy1)
            == #[trigger] m.flat_index(ix2, iy2) implies ix1 == ix2 && iy1 == iy2 by {
        assert(ix1 == ix2 && iy1 == iy2) by (nonlinear_arith)
            requires
                0 <= ix1 < w,
                0 <= ix2 < w,
                iy1 * w + ix1 == iy2 * w + ix2,
                0 <= iy1,
                0 <= iy2,
        ;
    }
}

} // verus!
