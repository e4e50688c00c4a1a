//! A uniform 2D raster over a rectangular workspace. Each cell carries a
//! tagged value: not yet initialized, an obstacle, or a stored scalar.
//! The map offers bidirectional position/index/(col,row) arithmetic;
//! conversions floor toward minus infinity after subtracting the lower
//! workspace corner, and a point exactly on the upper corner is out of
//! bounds.

use vstd::prelude::*;
use vstd::arithmetic::div_mod::{
    lemma_div_pos_is_pos, lemma_fundamental_div_mod, lemma_fundamental_div_mod_converse,
    lemma_mod_bound, lemma_multiply_divide_lt,
};

use crate::geometry::{Indices, Position};

verus! {

/// Largest coordinate or resolution magnitude the raster accepts, in
/// fixed-point meters; keeps every index computation inside 64 bits.
pub const COORD_LIMIT: i64 = 1_000_000_000_000_000;

/// A tagged cell value.
#[derive(Clone, Copy, Debug, PartialEq, Eq)]
pub enum Cell<T> {
    /// The cell has not been written since the map was built.
    Uninitialized,
    /// The cell is occupied; it never carries a value afterwards.
    Obstacle,
    /// A stored scalar.
    Value(T),
}

/// Failure of a raster operation.
#[derive(Clone, Copy, Debug, PartialEq, Eq, Structural)]
pub enum GridMapError {
    /// The position or indices lie outside the raster.
    OutOfBounds,
}

/// Number of cells needed to span `[lo, hi)` at `res` per cell: the
/// quotient rounded up.
pub open spec fn spec_cell_count(lo: int, hi: int, res: int) -> int {
    (hi - lo + res - 1) / res
}

pub proof fn lemma_cell_count_props(lo: int, hi: int, res: int)
    requires
        0 < res,
        lo < hi,
    ensures
        1 <= spec_cell_count(lo, hi, res) <= hi - lo,
        spec_cell_count(lo, hi, res) * res >= hi - lo,
        (spec_cell_count(lo, hi, res) - 1) * res <= hi - lo - 1,
{
    let s = hi - lo;
    let n = spec_cell_count(lo, hi, res);
    lemma_fundamental_div_mod(s + res - 1, res);
    lemma_mod_bound(s + res - 1, res);
    let m = (s + res - 1) % res;
    assert(s + res - 1 == res * n + m);
    assert(n * res >= s && (n - 1) * res <= s - 1 && 1 <= n && n <= s) by (nonlinear_arith)
        requires
            s + res - 1 == res * n + m,
            0 <= m < res,
            s >= 1,
            res >= 1,
    ;
}

/// A uniform raster of `Cell<T>` over the axis-aligned rectangle
/// `[min_point, max_point)`, stored row-major.
#[derive(Clone, Debug)]
pub struct GridMap<T> {
    pub min_point: Position,
    pub max_point: Position,
    pub resolution: i64,
    pub width: usize,
    pub height: usize,
    pub cells: Vec<Cell<T>>,
}

impl<T> GridMap<T> {
    /// Well-formedness: positive resolution, a non-empty workspace within
    /// the coordinate limit, derived cell counts, and a cell store of
    /// exactly `width * height` entries.
    pub open spec fn wf(&self) -> bool {
        &&& 0 < self.resolution <= COORD_LIMIT
        &&& -COORD_LIMIT <= self.min_point.x < self.max_point.x <= COORD_LIMIT
        &&& -COORD_LIMIT <= self.min_point.y < self.max_point.y <= COORD_LIMIT
        &&& self.width == spec_cell_count(
            self.min_point.x as int,
            self.max_point.x as int,
            self.resolution as int,
        )
        &&& self.height == spec_cell_count(
            self.min_point.y as int,
            self.max_point.y as int,
            self.resolution as int,
        )
        &&& self.cells.len() == self.width * self.height
    }

    /// Two maps share geometry when everything but the cell contents
    /// agrees.
    pub open spec fn same_geometry(&self, other: &GridMap<T>) -> bool {
        &&& self.min_point == other.min_point
        &&& self.max_point == other.max_point
        &&& self.resolution == other.resolution
        &&& self.width == other.width
        &&& self.height == other.height
    }

    /// The position lies inside the workspace `[min_point, max_point)`.
    pub open spec fn contains_position(&self, p: Position) -> bool {
        &&& self.min_point.x <= p.x < self.max_point.x
        &&& self.min_point.y <= p.y < self.max_point.y
    }

    /// The indices address a cell of the raster.
    pub open spec fn contains_indices(&self, i: Indices) -> bool {
        i.col < self.width && i.row < self.height
    }

    pub open spec fn spec_col_of(&self, x: int) -> int {
        (x - self.min_point.x) / self.resolution as int
    }

    pub open spec fn spec_row_of(&self, y: int) -> int {
        (y - self.min_point.y) / self.resolution as int
    }

    /// The grid cell a position falls in.
    pub open spec fn spec_indices_of_position(&self, p: Position) -> Indices {
        Indices {
            col: self.spec_col_of(p.x as int) as usize,
            row: self.spec_row_of(p.y as int) as usize,
        }
    }

    /// The lower-left corner of the cell at the given indices.
    pub open spec fn spec_position_of_indices(&self, i: Indices) -> Position {
        Position {
            x: (self.min_point.x + i.col as int * self.resolution) as i64,
            y: (self.min_point.y + i.row as int * self.resolution) as i64,
        }
    }

    /// Flat row-major index of a (col, row) pair.
    pub open spec fn spec_flat_index(&self, i: Indices) -> int {
        i.row * self.width + i.col
    }

    /// The (col, row) pair of a flat index.
    pub open spec fn spec_indices_of_flat(&self, k: int) -> Indices {
        Indices {
            col: (k % self.width as int) as usize,
            row: (k / self.width as int) as usize,
        }
    }

    /// A position inside the workspace falls on a cell of the raster.
    pub proof fn lemma_position_indices_valid(&self, p: Position)
        requires
            self.wf(),
            self.contains_position(p),
        ensures
            0 <= self.spec_col_of(p.x as int) < self.width,
            0 <= self.spec_row_of(p.y as int) < self.height,
            self.contains_indices(self.spec_indices_of_position(p)),
    {
        let res = self.resolution as int;
        let dx = p.x - self.min_point.x;
        let dy = p.y - self.min_point.y;
        lemma_cell_count_props(self.min_point.x as int, self.max_point.x as int, res);
        lemma_cell_count_props(self.min_point.y as int, self.max_point.y as int, res);
        lemma_div_pos_is_pos(dx, res);
        lemma_div_pos_is_pos(dy, res);
        assert(res * self.width as int == self.width as int * res) by (nonlinear_arith);
        assert(res * self.height as int == self.height as int * res) by (nonlinear_arith);
        lemma_multiply_divide_lt(dx, res, self.width as int);
        lemma_multiply_divide_lt(dy, res, self.height as int);
    }

    /// A flat index below `width * height` addresses a cell of the raster.
    pub proof fn lemma_flat_indices_valid(&self, k: int)
        requires
            self.wf(),
            0 <= k < self.width * self.height,
        ensures
            self.contains_indices(self.spec_indices_of_flat(k)),
            0 <= k % self.width as int,
            0 <= k / self.width as int,
    {
        lemma_cell_count_props(
            self.min_point.x as int,
            self.max_point.x as int,
            self.resolution as int,
        );
        lemma_mod_bound(k, self.width as int);
        lemma_div_pos_is_pos(k, self.width as int);
        assert(self.width as int * self.height as int == self.height as int * self.width as int)
            by (nonlinear_arith);
        lemma_multiply_divide_lt(k, self.width as int, self.height as int);
    }

    /// The flat index of a raster cell lies below `width * height`.
    pub proof fn lemma_flat_index_bound(&self, i: Indices)
        requires
            self.wf(),
            self.contains_indices(i),
        ensures
            0 <= self.spec_flat_index(i) < self.width * self.height,
    {
        assert(0 <= i.row * self.width + i.col < self.width * self.height) by (nonlinear_arith)
            requires
                0 <= i.col < self.width,
                0 <= i.row < self.height,
        ;
    }

    /// Index bijection: converting a raster (col, row) pair to its flat
    /// index and back returns the same pair.
    pub proof fn lemma_index_round_trip(&self, i: Indices)
        requires
            self.wf(),
            self.contains_indices(i),
        ensures
            self.spec_indices_of_flat(self.spec_flat_index(i)) == i,
    {
        self.lemma_flat_index_bound(i);
        let k = self.spec_flat_index(i);
        lemma_fundamental_div_mod_converse(k, self.width as int, i.row as int, i.col as int);
    }

    /// Round-trip geometry: a position inside the workspace maps to
    /// indices whose cell origin lies within one resolution of the
    /// position on both axes (at or below it, strictly less than one
    /// cell away).
    pub proof fn lemma_position_round_trip(&self, p: Position)
        requires
            self.wf(),
            self.contains_position(p),
        ensures
            self.contains_indices(self.spec_indices_of_position(p)),
            ({
                let q = self.spec_position_of_indices(self.spec_indices_of_position(p));
                &&& p.x - self.resolution < q.x <= p.x
                &&& p.y - self.resolution < q.y <= p.y
            }),
    {
        self.lemma_position_indices_valid(p);
        let res = self.resolution as int;
        let dx = p.x - self.min_point.x;
        let dy = p.y - self.min_point.y;
        lemma_fundamental_div_mod(dx, res);
        lemma_mod_bound(dx, res);
        lemma_fundamental_div_mod(dy, res);
        lemma_mod_bound(dy, res);
    }

    /// Build a raster over `[min_point, max_point)` with every cell
    /// Uninitialized. Cell counts per axis are quotients rounded up.
    pub fn new(min_point: Position, max_point: Position, resolution: i64) -> (m: GridMap<T>)
        requires
            0 < resolution <= COORD_LIMIT,
            -COORD_LIMIT <= min_point.x < max_point.x <= COORD_LIMIT,
            -COORD_LIMIT <= min_point.y < max_point.y <= COORD_LIMIT,
            spec_cell_count(min_point.x as int, max_point.x as int, resolution as int)
                * spec_cell_count(min_point.y as int, max_point.y as int, resolution as int)
                <= usize::MAX,
        ensures
            m.wf(),
            m.min_point == min_point,
            m.max_point == max_point,
            m.resolution == resolution,
            forall|k: int| 0 <= k < m.cells@.len() ==> m.cells@[k] is Uninitialized,
    {
        proof {
            lemma_cell_count_props(min_point.x as int, max_point.x as int, resolution as int);
            lemma_cell_count_props(min_point.y as int, max_point.y as int, resolution as int);
            assert(spec_cell_count(min_point.x as int, max_point.x as int, resolution as int)
                <= spec_cell_count(min_point.x as int, max_point.x as int, resolution as int)
                * spec_cell_count(min_point.y as int, max_point.y as int, resolution as int))
                by (nonlinear_arith)
                requires
                    spec_cell_count(min_point.x as int, max_point.x as int, resolution as int)
                        >= 1,
                    spec_cell_count(min_point.y as int, max_point.y as int, resolution as int)
                        >= 1,
            ;
            assert(spec_cell_count(min_point.y as int, max_point.y as int, resolution as int)
                <= spec_cell_count(min_point.x as int, max_point.x as int, resolution as int)
                * spec_cell_count(min_point.y as int, max_point.y as int, resolution as int))
                by (nonlinear_arith)
                requires
                    spec_cell_count(min_point.x as int, max_point.x as int, resolution as int)
                        >= 1,
                    spec_cell_count(min_point.y as int, max_point.y as int, resolution as int)
                        >= 1,
            ;
        }
        let width: usize = (((max_point.x - min_point.x) + (resolution - 1)) as u64
            / resolution as u64) as usize;
        let height: usize = (((max_point.y - min_point.y) + (resolution - 1)) as u64
            / resolution as u64) as usize;
        let total: usize = width * height;
        let mut cells: Vec<Cell<T>> = Vec::new();
        let mut k: usize = 0;
        while k < total
            invariant
                cells@.len() == k,
                k <= total,
                forall|j: int| 0 <= j < k ==> cells@[j] is Uninitialized,
            decreases total - k,
        {
            cells.push(Cell::Uninitialized);
            k = k + 1;
        }
        GridMap { min_point, max_point, resolution, width, height, cells }
    }

    /// Lower workspace corner.
    pub fn min_point(&self) -> (r: Position)
        ensures
            r == self.min_point,
    {
        self.min_point
    }

    /// Upper workspace corner (exclusive).
    pub fn max_point(&self) -> (r: Position)
        ensures
            r == self.max_point,
    {
        self.max_point
    }

    /// Meters per cell, fixed-point.
    pub fn resolution(&self) -> (r: i64)
        ensures
            r == self.resolution,
    {
        self.resolution
    }

    /// Cell count along x.
    pub fn width(&self) -> (r: usize)
        ensures
            r == self.width,
    {
        self.width
    }

    /// Cell count along y.
    pub fn height(&self) -> (r: usize)
        ensures
            r == self.height,
    {
        self.height
    }

    /// The cell a position falls in, or None outside `[min, max)`.
    pub fn position_to_indices(&self, p: &Position) -> (r: Option<Indices>)
        requires
            self.wf(),
        ensures
            r == if self.contains_position(*p) {
                Some(self.spec_indices_of_position(*p))
            } else {
                None::<Indices>
            },
            r is Some ==> self.contains_indices(self.spec_indices_of_position(*p)),
    {
        if self.min_point.x <= p.x && p.x < self.max_point.x && self.min_point.y <= p.y
            && p.y < self.max_point.y {
            proof {
                self.lemma_position_indices_valid(*p);
            }
            let col: usize = ((p.x - self.min_point.x) as u64 / self.resolution as u64) as usize;
            let row: usize = ((p.y - self.min_point.y) as u64 / self.resolution as u64) as usize;
            Some(Indices { col, row })
        } else {
            None
        }
    }

    /// The lower-left corner of the cell at the given indices, or None
    /// off the raster.
    pub fn indices_to_position(&self, i: &Indices) -> (r: Option<Position>)
        requires
            self.wf(),
        ensures
            r == if self.contains_indices(*i) {
                Some(self.spec_position_of_indices(*i))
            } else {
                None::<Position>
            },
    {
        if i.col < self.width && i.row < self.height {
            proof {
                lemma_cell_count_props(
                    self.min_point.x as int,
                    self.max_point.x as int,
                    self.resolution as int,
                );
                lemma_cell_count_props(
                    self.min_point.y as int,
                    self.max_point.y as int,
                    self.resolution as int,
                );
                assert(i.col as int * self.resolution as int
                    <= (self.width - 1) as int * self.resolution as int) by (nonlinear_arith)
                    requires
                        0 <= i.col as int <= (self.width - 1) as int,
                        self.resolution as int > 0,
                ;
                assert(i.row as int * self.resolution as int
                    <= (self.height - 1) as int * self.resolution as int) by (nonlinear_arith)
                    requires
                        0 <= i.row as int <= (self.height - 1) as int,
                        self.resolution as int > 0,
                ;
                assert(i.col as int * self.resolution as int >= 0) by (nonlinear_arith)
                    requires
                        i.col as int >= 0,
                        self.resolution as int > 0,
                ;
                assert(i.row as int * self.resolution as int >= 0) by (nonlinear_arith)
                    requires
                        i.row as int >= 0,
                        self.resolution as int > 0,
                ;
            }
            let x: i64 = self.min_point.x + (i.col as i64) * self.resolution;
            let y: i64 = self.min_point.y + (i.row as i64) * self.resolution;
            Some(Position { x, y })
        } else {
            None
        }
    }

    /// Row-major flat index of a (col, row) pair, or None off the raster.
    pub fn to_index_by_indices(&self, i: &Indices) -> (r: Option<usize>)
        requires
            self.wf(),
        ensures
            r == if self.contains_indices(*i) {
                Some(self.spec_flat_index(*i) as usize)
            } else {
                None::<usize>
            },
            r is Some ==> self.spec_flat_index(*i) < self.cells.len(),
    {
        if i.col < self.width && i.row < self.height {
            proof {
                self.lemma_flat_index_bound(*i);
            }
            Some(i.row * self.width + i.col)
        } else {
            None
        }
    }

    /// Flat index of the cell a position falls in, or None outside
    /// `[min, max)`.
    pub fn to_index_by_position(&self, p: &Position) -> (r: Option<usize>)
        requires
            self.wf(),
        ensures
            r == if self.contains_position(*p) {
                Some(self.spec_flat_index(self.spec_indices_of_position(*p)) as usize)
            } else {
                None::<usize>
            },
    {
        match self.position_to_indices(p) {
            Some(i) => self.to_index_by_indices(&i),
            None => None,
        }
    }

    /// The (col, row) pair of a flat index, or None past the cell store.
    pub fn to_indices_from_index(&self, index: usize) -> (r: Option<Indices>)
        requires
            self.wf(),
        ensures
            r == if index < self.cells.len() {
                Some(self.spec_indices_of_flat(index as int))
            } else {
                None::<Indices>
            },
            r is Some ==> self.contains_indices(self.spec_indices_of_flat(index as int)),
    {
        if index < self.cells.len() {
            proof {
                self.lemma_flat_indices_valid(index as int);
            }
            let col: usize = index % self.width;
            let row: usize = index / self.width;
            Some(Indices { col, row })
        } else {
            None
        }
    }
}

impl<T: Copy> GridMap<T> {
    /// The cell contents at a flat index.
    pub open spec fn spec_cell_at(&self, k: int) -> Cell<T> {
        self.cells@[k]
    }

    /// The cell contents at the position, or None outside `[min, max)`.
    pub fn cell_by_position(&self, p: &Position) -> (r: Option<Cell<T>>)
        requires
            self.wf(),
        ensures
            r == if self.contains_position(*p) {
                Some(self.spec_cell_at(self.spec_flat_index(self.spec_indices_of_position(*p))))
            } else {
                None::<Cell<T>>
            },
    {
        match self.to_index_by_position(p) {
            Some(k) => {
                proof {
                    self.lemma_position_indices_valid(*p);
                    self.lemma_flat_index_bound(self.spec_indices_of_position(*p));
                }
                Some(self.cells[k])
            },
            None => None,
        }
    }

    /// Mark the cell at the indices as an obstacle; fails off the raster.
    pub fn set_obstacle_by_indices(&mut self, i: &Indices) -> (r: Result<(), GridMapError>)
        requires
            old(self).wf(),
        ensures
            final(self).wf(),
            final(self).same_geometry(old(self)),
            old(self).contains_indices(*i) ==> r == Ok::<(), GridMapError>(())
                && final(self).cells@ == old(self).cells@.update(
                old(self).spec_flat_index(*i),
                Cell::<T>::Obstacle,
            ),
            !old(self).contains_indices(*i) ==> r == Err::<(), GridMapError>(
                GridMapError::OutOfBounds,
            ) && final(self).cells@ == old(self).cells@,
    {
        match self.to_index_by_indices(i) {
            Some(k) => {
                self.cells.set(k, Cell::Obstacle);
                Ok(())
            },
            None => Err(GridMapError::OutOfBounds),
        }
    }

    /// Store a value in the cell at the indices; an Obstacle cell keeps
    /// its marking, and indices off the raster fail.
    pub fn set_value_by_indices(&mut self, i: &Indices, value: T) -> (r: Result<
        (),
        GridMapError,
    >)
        requires
            old(self).wf(),
        ensures
            final(self).wf(),
            final(self).same_geometry(old(self)),
            old(self).contains_indices(*i) ==> r == Ok::<(), GridMapError>(())
                && final(self).cells@ == (if old(self).cells@[old(self).spec_flat_index(*i)]
                is Obstacle {
                old(self).cells@
            } else {
                old(self).cells@.update(old(self).spec_flat_index(*i), Cell::<T>::Value(value))
            }),
            !old(self).contains_indices(*i) ==> r == Err::<(), GridMapError>(
                GridMapError::OutOfBounds,
            ) && final(self).cells@ == old(self).cells@,
    {
        match self.to_index_by_indices(i) {
            Some(k) => {
                match self.cells[k] {
                    Cell::Obstacle => Ok(()),
                    _ => {
                        self.cells.set(k, Cell::Value(value));
                        Ok(())
                    },
                }
            },
            None => Err(GridMapError::OutOfBounds),
        }
    }

    /// Store a value in the cell a position falls in; an Obstacle cell
    /// keeps its marking, and positions outside `[min, max)` fail.
    pub fn set_value_by_position(&mut self, p: &Position, value: T) -> (r: Result<
        (),
        GridMapError,
    >)
        requires
            old(self).wf(),
        ensures
            final(self).wf(),
            final(self).same_geometry(old(self)),
            old(self).contains_position(*p) ==> r == Ok::<(), GridMapError>(())
                && final(self).cells@ == (if old(self).cells@[old(self).spec_flat_index(
                old(self).spec_indices_of_position(*p),
            )] is Obstacle {
                old(self).cells@
            } else {
                old(self).cells@.update(
                    old(self).spec_flat_index(old(self).spec_indices_of_position(*p)),
                    Cell::<T>::Value(value),
                )
            }),
            !old(self).contains_position(*p) ==> r == Err::<(), GridMapError>(
                GridMapError::OutOfBounds,
            ) && final(self).cells@ == old(self).cells@,
    {
        match self.position_to_indices(p) {
            Some(i) => self.set_value_by_indices(&i, value),
            None => Err(GridMapError::OutOfBounds),
        }
    }
}

} // verus!
