//! Grid addressing for a rectangular board: conversion between linear
//! indices and two-dimensional coordinates, and enumeration of the up to
//! eight neighbors of a cell.

use vstd::prelude::*;

verus! {

use vstd::arithmetic::div_mod::lemma_fundamental_div_mod;
use vstd::arithmetic::div_mod::lemma_fundamental_div_mod_converse;
use vstd::arithmetic::mul::lemma_mul_inequality;

/// Any given coordinate can not have more neighboring coordinates than this number.
pub const MAX_SURROUNDING_MINES: u8 = 8;

/// Represents a rectangular grid.
///
/// X coordinations navigate from left to right, Y coordinations navigate from top to bottom.
#[derive(Clone, Copy, Debug, PartialEq, Eq, Structural)]
pub struct Coordinations {
    pub width: u32,
    pub height: u32,
}

/// Represents a location in a rectangular field using an x coordinate and an y coordinate.
#[derive(Clone, Copy, Debug, Eq, PartialEq, Structural)]
pub struct Coord {
    /// starts at the left
    pub x: u32,
    /// starts at the top
    pub y: u32,
}

/// Represents a location in a rectangular field using an index.
#[derive(Clone, Copy, Eq, PartialEq, Structural, Hash, Debug)]
pub struct Index(pub usize);

impl Coordinations {
    /// The board's cell count must fit the index arithmetic.
    pub open spec fn wf(&self) -> bool {
        self.width * self.height <= u32::MAX
    }

    pub open spec fn spec_size(&self) -> int {
        self.width * self.height
    }

    pub open spec fn valid_index(&self, i: int) -> bool {
        0 <= i < self.spec_size()
    }

    /// The column of the cell at linear index `i`.
    pub open spec fn spec_x(&self, i: int) -> int {
        i % (self.width as int)
    }

    /// The row of the cell at linear index `i`.
    pub open spec fn spec_y(&self, i: int) -> int {
        i / (self.width as int)
    }

    pub open spec fn valid_coord(&self, x: int, y: int) -> bool {
        0 <= x < self.width && 0 <= y < self.height
    }

    /// The linear, row-major form of coordinate (x, y).
    pub open spec fn spec_index_of(&self, x: int, y: int) -> int {
        y * self.width + x
    }

    /// Two cells are neighbors when their coordinates differ by at most one
    /// in each direction and they are not the same cell.
    pub open spec fn is_neighbor(&self, i: int, j: int) -> bool {
        &&& self.valid_index(i)
        &&& self.valid_index(j)
        &&& i != j
        &&& -1 <= self.spec_x(i) - self.spec_x(j) <= 1
        &&& -1 <= self.spec_y(i) - self.spec_y(j) <= 1
    }

    pub fn from_width_and_height(width: u32, height: u32) -> (r: Self)
        requires
            width * height <= u32::MAX,
        ensures
            r == (Coordinations { width, height }),
            r.wf(),
    {
        Self { width, height }
    }

    pub fn rows(&self) -> (r: u32)
        ensures
            r == self.height,
    {
        self.height
    }

    pub fn columns(&self) -> (r: u32)
        ensures
            r == self.width,
    {
        self.width
    }

    /// Returns the total number of distinct coordinates within this field.
    pub fn size(&self) -> (r: usize)
        requires
            self.wf(),
        ensures
            r == self.spec_size(),
    {
        proof {
            lemma_mul_inequality(self.width as int, u32::MAX as int, self.height as int);
        }
        (self.width * self.height) as usize
    }

    /// A valid index decomposes into its column and row, and they recompose to it.
    pub proof fn lemma_index_to_coord(&self, i: int)
        requires
            self.wf(),
            self.valid_index(i),
        ensures
            self.valid_coord(self.spec_x(i), self.spec_y(i)),
            self.spec_index_of(self.spec_x(i), self.spec_y(i)) == i,
    {
        let w = self.width as int;
        lemma_fundamental_div_mod(i, w);
        assert(0 <= i % w < w) by (nonlinear_arith)
            requires 0 < w, 0 <= i;
        assert(i / w < self.height) by (nonlinear_arith)
            requires 0 < w, i < w * self.height, 0 <= i;
    }

    /// A valid coordinate's linear index is valid and decomposes back to it.
    pub proof fn lemma_coord_to_index(&self, x: int, y: int)
        requires
            self.wf(),
            self.valid_coord(x, y),
        ensures
            self.valid_index(self.spec_index_of(x, y)),
            self.spec_x(self.spec_index_of(x, y)) == x,
            self.spec_y(self.spec_index_of(x, y)) == y,
    {
        let w = self.width as int;
        let h = self.height as int;
        assert(0 <= y * w + x < w * h) by (nonlinear_arith)
            requires 0 <= x < w, 0 <= y, y + 1 <= h;
        lemma_fundamental_div_mod_converse(y * w + x, w, y, x);
    }

    /// Converts an index to a coordinate.
    /// Returns `None` if the index is invalid.
    pub fn to_coord(&self, index: Index) -> (r: Option<Coord>)
        requires
            self.wf(),
        ensures
            r is Some <==> self.valid_index(index.0 as int),
            r is Some ==> {
                let c = r->Some_0;
                c.x == self.spec_x(index.0 as int) && c.y == self.spec_y(index.0 as int)
            },
    {
        let Index(i) = index;
        if self.width == 0 {
            proof {
                assert(self.width * self.height == 0) by (nonlinear_arith)
                    requires self.width == 0;
            }
            return None;
        }
        let y = i / (self.width as usize);
        let x = i % (self.width as usize);
        if x < self.width as usize && y < self.height as usize {
            proof {
                let w = self.width as int;
                assert(i == w * (i as int / w) + i as int % w) by {
                    lemma_fundamental_div_mod(i as int, w);
                }
                assert((i as int) < self.spec_size()) by (nonlinear_arith)
                    requires
                        0 < w,
                        i as int == w * (i as int / w) + i as int % w,
                        i as int / w < self.height as int,
                        0 <= i as int % w < w,
                        self.spec_size() == w * self.height;
            }
            Some(Coord { x: x as u32, y: y as u32 })
        } else {
            proof {
                if self.valid_index(i as int) {
                    self.lemma_index_to_coord(i as int);
                }
            }
            None
        }
    }

    /// Converts a coordinate to an index.
    /// Returns `None` if the coordinate is invalid.
    pub fn to_index(&self, coord: &Coord) -> (r: Option<Index>)
        requires
            self.wf(),
        ensures
            r is Some <==> self.valid_coord(coord.x as int, coord.y as int),
            r is Some ==> r->Some_0.0 == self.spec_index_of(coord.x as int, coord.y as int),
    {
        if self.inside(coord) {
            proof {
                self.lemma_coord_to_index(coord.x as int, coord.y as int);
            }
            let index = coord.y as u64 * self.width as u64 + coord.x as u64;
            Some(Index(index as usize))
        } else {
            None
        }
    }

    /// Determines whether or not a coordinate can point to an existing element within the width
    /// and height.
    fn inside(&self, coord: &Coord) -> (r: bool)
        ensures
            r == self.valid_coord(coord.x as int, coord.y as int),
    {
        coord.x < self.width && coord.y < self.height
    }

    /// The coordinate of an index already known to be valid.
    pub fn coord_at(&self, i: usize) -> (c: Coord)
        requires
            self.wf(),
            self.valid_index(i as int),
        ensures
            c.x == self.spec_x(i as int),
            c.y == self.spec_y(i as int),
            self.valid_coord(c.x as int, c.y as int),
            self.spec_index_of(c.x as int, c.y as int) == i as int,
    {
        proof {
            self.lemma_index_to_coord(i as int);
            assert(self.width > 0) by (nonlinear_arith)
                requires 0 <= i as int, (i as int) < self.width * self.height;
        }
        let y = i / (self.width as usize);
        let x = i % (self.width as usize);
        Coord { x: x as u32, y: y as u32 }
    }

    /// The index of a coordinate already known to be valid.
    fn index_of(&self, x: u32, y: u32) -> (r: usize)
        requires
            self.wf(),
            self.valid_coord(x as int, y as int),
        ensures
            r == self.spec_index_of(x as int, y as int),
            self.valid_index(r as int),
            self.spec_x(r as int) == x as int,
            self.spec_y(r as int) == y as int,
    {
        proof {
            self.lemma_coord_to_index(x as int, y as int);
        }
        (y as u64 * self.width as u64 + x as u64) as usize
    }

    /// Returns every neighboring index of the cell at `index`, in row-major
    /// order of the surrounding three-by-three neighborhood. An invalid
    /// index has no neighbors.
    pub fn neighbors_at_index(&self, index: Index) -> (r: Vec<Index>)
        requires
            self.wf(),
        ensures
            forall|a: int, b: int| 0 <= a < b < r@.len() ==> r@[a].0 < r@[b].0,
            forall|j: int|
                0 <= j < r@.len() ==> self.is_neighbor(
                    index.0 as int,
                    (#[trigger] r@[j]).0 as int,
                ),
            forall|k: int|
                #[trigger] self.is_neighbor(index.0 as int, k) ==> seq_has_index(r@, k),
            r@.len() <= 8,
            !self.valid_index(index.0 as int) ==> r@.len() == 0,
            self.valid_index(index.0 as int) && self.width >= 2 && self.height >= 2 ==> r@.len()
                >= 3,
    {
        let c = match self.to_coord(index) {
            Some(c) => c,
            None => {
                return Vec::new();
            },
        };
        let x = c.x;
        let y = c.y;
        proof {
            self.lemma_index_to_coord(index.0 as int);
            let w = self.width as int;
            let yi = y as int;
            assert((yi - 1) * w == yi * w - w && (yi + 1) * w == yi * w + w) by (nonlinear_arith);
        }
        let mut r: Vec<Index> = Vec::new();
        if y > 0 {
            if x > 0 {
                r.push(Index(self.index_of(x - 1, y - 1)));
            }
            r.push(Index(self.index_of(x, y - 1)));
            if x + 1 < self.width {
                r.push(Index(self.index_of(x + 1, y - 1)));
            }
        }
        if x > 0 {
            r.push(Index(self.index_of(x - 1, y)));
        }
        if x + 1 < self.width {
            r.push(Index(self.index_of(x + 1, y)));
        }
        if y + 1 < self.height {
            if x > 0 {
                r.push(Index(self.index_of(x - 1, y + 1)));
            }
            r.push(Index(self.index_of(x, y + 1)));
            if x + 1 < self.width {
                r.push(Index(self.index_of(x + 1, y + 1)));
            }
        }
        proof {
            let g = r@;
            let w = self.width as int;
            let h = self.height as int;
            let xi = x as int;
            let yi = y as int;
            let a1 = yi > 0 && xi > 0;
            let a2 = yi > 0;
            let a3 = yi > 0 && xi + 1 < w;
            let a4 = xi > 0;
            let a5 = xi + 1 < w;
            let a6 = yi + 1 < h && xi > 0;
            let a7 = yi + 1 < h;
            let a8 = yi + 1 < h && xi + 1 < w;
            let k1: int = if a1 { 1int } else { 0int };
            let k2: int = k1 + if a2 { 1int } else { 0int };
            let k3: int = k2 + if a3 { 1int } else { 0int };
            let k4: int = k3 + if a4 { 1int } else { 0int };
            let k5: int = k4 + if a5 { 1int } else { 0int };
            let k6: int = k5 + if a6 { 1int } else { 0int };
            let k7: int = k6 + if a7 { 1int } else { 0int };
            if a1 { assert(g[0].0 == self.spec_index_of(xi - 1, yi - 1)); }
            if a2 { assert(g[k1].0 == self.spec_index_of(xi, yi - 1)); }
            if a3 { assert(g[k2].0 == self.spec_index_of(xi + 1, yi - 1)); }
            if a4 { assert(g[k3].0 == self.spec_index_of(xi - 1, yi)); }
            if a5 { assert(g[k4].0 == self.spec_index_of(xi + 1, yi)); }
            if a6 { assert(g[k5].0 == self.spec_index_of(xi - 1, yi + 1)); }
            if a7 { assert(g[k6].0 == self.spec_index_of(xi, yi + 1)); }
            if a8 { assert(g[k7].0 == self.spec_index_of(xi + 1, yi + 1)); }
            assert forall|k: int| #[trigger]
                self.is_neighbor(index.0 as int, k) implies seq_has_index(g, k) by {
                self.lemma_index_to_coord(k);
                assert(self.spec_index_of(self.spec_x(k), self.spec_y(k)) == k);
            }
        }
        r
    }
}

/// Whether the sequence holds an `Index` with value `k`.
pub open spec fn seq_has_index(s: Seq<Index>, k: int) -> bool {
    exists|j: int| 0 <= j < s.len() && s[j].0 == k
}

} // verus!
