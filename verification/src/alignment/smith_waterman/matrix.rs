//! The score and traceback grids built by one alignment run.
//!
//! Both are rectangular grids stored row by row; row and column 0 form the
//! zero boundary of local alignment.

use vstd::prelude::*;

use super::details::Direction;

verus! {

/// A rectangular grid of scores of shape `rows x cols`.
pub struct ScoreMatrix {
    data: Vec<Vec<i64>>,
}

impl ScoreMatrix {
    pub closed spec fn rows(&self) -> int {
        self.data@.len() as int
    }

    pub closed spec fn cols(&self) -> int {
        if self.data@.len() == 0 {
            0
        } else {
            self.data@[0]@.len() as int
        }
    }

    /// The grid is rectangular.
    pub closed spec fn wf(&self) -> bool {
        forall|i: int| 0 <= i < self.data@.len() ==> (#[trigger] self.data@[i])@.len() == self.cols()
    }

    /// The score stored at `(i, j)`.
    pub closed spec fn at(&self, i: int, j: int) -> i64 {
        self.data@[i]@[j]
    }

    /// A grid of the given shape holding zero everywhere.
    pub fn zeros(rows: usize, cols: usize) -> (m: ScoreMatrix)
        ensures
            m.wf(),
            m.rows() == rows,
            rows > 0 ==> m.cols() == cols,
            forall|i: int, j: int| 0 <= i < rows && 0 <= j < cols ==> m.at(i, j) == 0,
    {
        let mut data: Vec<Vec<i64>> = Vec::new();
        let mut i: usize = 0;
        while i < rows
            invariant
                i <= rows,
                data@.len() == i,
                forall|r: int| 0 <= r < i ==> (#[trigger] data@[r])@.len() == cols,
                forall|r: int, c: int| 0 <= r < i && 0 <= c < cols ==> #[trigger] data@[r]@[c] == 0,
            decreases rows - i,
        {
            let mut row: Vec<i64> = Vec::new();
            let mut j: usize = 0;
            while j < cols
                invariant
                    j <= cols,
                    row@.len() == j,
                    forall|c: int| 0 <= c < j ==> row@[c] == 0,
                decreases cols - j,
            {
                row.push(0);
                j = j + 1;
            }
            data.push(row);
            i = i + 1;
        }
        ScoreMatrix { data }
    }

    pub fn get(&self, i: usize, j: usize) -> (r: i64)
        requires
            self.wf(),
            i < self.rows(),
            j < self.cols(),
        ensures
            r == self.at(i as int, j as int),
    {
        self.data[i][j]
    }

    pub fn set(&mut self, i: usize, j: usize, v: i64)
        requires
            old(self).wf(),
            i < old(self).rows(),
            j < old(self).cols(),
        ensures
            final(self).wf(),
            final(self).rows() == old(self).rows(),
            final(self).cols() == old(self).cols(),
            final(self).at(i as int, j as int) == v,
            forall|r: int, c: int|
                0 <= r < old(self).rows() && 0 <= c < old(self).cols() && !(r == i && c == j)
                    ==> final(self).at(r, c) == old(self).at(r, c),
    {
        let row = &mut self.data[i];
        row.set(j, v);
    }
}

/// A rectangular grid of direction sets of shape `rows x cols`.
///
/// Each cell holds every direction that attains the cell's maximal score;
/// an empty cell marks a local-alignment start.
pub struct TracebackMatrix {
    data: Vec<Vec<Vec<Direction>>>,
}

impl TracebackMatrix {
    pub closed spec fn rows(&self) -> int {
        self.data@.len() as int
    }

    pub closed spec fn cols(&self) -> int {
        if self.data@.len() == 0 {
            0
        } else {
            self.data@[0]@.len() as int
        }
    }

    pub closed spec fn wf(&self) -> bool {
        forall|i: int| 0 <= i < self.data@.len() ==> (#[trigger] self.data@[i])@.len() == self.cols()
    }

    /// The directions stored at `(i, j)`.
    pub closed spec fn dirs(&self, i: int, j: int) -> Seq<Direction> {
        self.data@[i]@[j]@
    }

    /// A grid of the given shape with every cell empty.
    pub fn empty(rows: usize, cols: usize) -> (m: TracebackMatrix)
        ensures
            m.wf(),
            m.rows() == rows,
            rows > 0 ==> m.cols() == cols,
            forall|i: int, j: int| 0 <= i < rows && 0 <= j < cols ==> m.dirs(i, j) =~= Seq::<Direction>::empty(),
    {
        let mut data: Vec<Vec<Vec<Direction>>> = Vec::new();
        let mut i: usize = 0;
        while i < rows
            invariant
                i <= rows,
                data@.len() == i,
                forall|r: int| 0 <= r < i ==> (#[trigger] data@[r])@.len() == cols,
                forall|r: int, c: int|
                    0 <= r < i && 0 <= c < cols ==> (#[trigger] data@[r]@[c])@.len() == 0,
            decreases rows - i,
        {
            let mut row: Vec<Vec<Direction>> = Vec::new();
            let mut j: usize = 0;
            while j < cols
                invariant
                    j <= cols,
                    row@.len() == j,
                    forall|c: int| 0 <= c < j ==> ((#[trigger] row@[c])@).len() == 0,
                decreases cols - j,
            {
                row.push(Vec::new());
                j = j + 1;
            }
            data.push(row);
            i = i + 1;
        }
        TracebackMatrix { data }
    }

    pub fn get(&self, i: usize, j: usize) -> (r: &Vec<Direction>)
        requires
            self.wf(),
            i < self.rows(),
            j < self.cols(),
        ensures
            r@ == self.dirs(i as int, j as int),
    {
        &self.data[i][j]
    }

    pub fn set(&mut self, i: usize, j: usize, v: Vec<Direction>)
        requires
            old(self).wf(),
            i < old(self).rows(),
            j < old(self).cols(),
        ensures
            final(self).wf(),
            final(self).rows() == old(self).rows(),
            final(self).cols() == old(self).cols(),
            final(self).dirs(i as int, j as int) == v@,
            forall|r: int, c: int|
                0 <= r < old(self).rows() && 0 <= c < old(self).cols() && !(r == i && c == j)
                    ==> final(self).dirs(r, c) == old(self).dirs(r, c),
    {
        let row = &mut self.data[i];
        row.set(j, v);
    }
}

} // verus!
