//! The mirrored board a participant renders: updated only by messages from
//! the authoritative side, never by a local guess.

use vstd::prelude::*;

use crate::coordinations::{Coord, Coordinations, Index};
use crate::game;
use crate::game::{Cell, CellUpdate, CellUpdates, Lives, Mines, Stats, Updates};

verus! {

/// One update applied to a mirror: the addressed cell is replaced, and an
/// out-of-range coordinate changes nothing.
pub open spec fn spec_apply_update(cells: Seq<Cell>, g: Coordinations, u: CellUpdate) -> Seq<
    Cell,
> {
    if g.valid_coord(u.coord.x as int, u.coord.y as int) {
        cells.update(g.spec_index_of(u.coord.x as int, u.coord.y as int), u.cell)
    } else {
        cells
    }
}

/// A batch of updates applied in order: the last write to a coordinate
/// wins.
pub open spec fn spec_apply_updates(
    cells: Seq<Cell>,
    g: Coordinations,
    us: Seq<CellUpdate>,
) -> Seq<Cell>
    decreases us.len(),
{
    if us.len() == 0 {
        cells
    } else {
        spec_apply_updates(spec_apply_update(cells, g, us.first()), g, us.drop_first())
    }
}

/// Appending one more update to a batch applies it after the batch.
pub proof fn lemma_apply_push(cells: Seq<Cell>, g: Coordinations, us: Seq<CellUpdate>, u: CellUpdate)
    ensures
        spec_apply_updates(cells, g, us.push(u)) == spec_apply_update(
            spec_apply_updates(cells, g, us),
            g,
            u,
        ),
    decreases us.len(),
{
    let p = us.push(u);
    assert(p.len() == us.len() + 1);
    assert(spec_apply_updates(cells, g, p) == spec_apply_updates(
        spec_apply_update(cells, g, p.first()),
        g,
        p.drop_first(),
    ));
    if us.len() == 0 {
        assert(p.drop_first() =~= Seq::<CellUpdate>::empty());
        assert(p.first() == u);
        assert(spec_apply_updates(spec_apply_update(cells, g, u), g, p.drop_first())
            == spec_apply_update(cells, g, u));
        assert(spec_apply_updates(cells, g, us) == cells);
    } else {
        assert(p.first() == us.first());
        assert(p.drop_first() =~= us.drop_first().push(u));
        lemma_apply_push(spec_apply_update(cells, g, us.first()), g, us.drop_first(), u);
        assert(spec_apply_updates(cells, g, us) == spec_apply_updates(
            spec_apply_update(cells, g, us.first()),
            g,
            us.drop_first(),
        ));
    }
}

/// Applying two update batches one after the other leaves the mirror
/// exactly as one application of their concatenation: the cell lists
/// appended.
pub proof fn lemma_apply_concat(
    cells: Seq<Cell>,
    g: Coordinations,
    a: Seq<CellUpdate>,
    b: Seq<CellUpdate>,
)
    ensures
        spec_apply_updates(spec_apply_updates(cells, g, a), g, b) == spec_apply_updates(
            cells,
            g,
            a + b,
        ),
    decreases a.len(),
{
    if a.len() == 0 {
        assert(a + b =~= b);
    } else {
        assert((a + b).first() == a.first());
        assert((a + b).drop_first() =~= a.drop_first() + b);
        lemma_apply_concat(spec_apply_update(cells, g, a.first()), g, a.drop_first(), b);
    }
}

/// The board as one participant's screen mirrors it.
pub struct Field {
    coords: Coordinations,
    cells: Vec<Cell>,
}

impl Field {
    pub closed spec fn spec_coords(&self) -> Coordinations {
        self.coords
    }

    pub closed spec fn spec_cells(&self) -> Seq<Cell> {
        self.cells@
    }

    #[verifier::type_invariant]
    pub closed spec fn type_inv(&self) -> bool {
        self.coords.wf() && self.cells@.len() == self.coords.spec_size()
    }

    /// A fresh mirror: every cell covered.
    pub fn new(coords: Coordinations) -> (r: Self)
        requires
            coords.wf(),
        ensures
            r.spec_coords() == coords,
            r.spec_cells().len() == coords.spec_size(),
            forall|i: int| 0 <= i < r.spec_cells().len() ==> r.spec_cells()[i] == Cell::Covered,
    {
        let size = coords.size();
        let mut cells: Vec<Cell> = Vec::new();
        let mut k: usize = 0;
        while k < size
            invariant
                0 <= k <= size,
                cells@.len() == k,
                forall|i: int| 0 <= i < k ==> cells@[i] == Cell::Covered,
            decreases size - k,
        {
            cells.push(Cell::Covered);
            k += 1;
        }
        Self { coords, cells }
    }

    /// How many cells the mirror holds.
    pub fn cell_count(&self) -> (r: usize)
        ensures
            r == self.spec_cells().len(),
    {
        self.cells.len()
    }

    /// The mirrored cell at a coordinate that must be on the board.
    pub fn get_cell(&self, coord: &Coord) -> (r: &Cell)
        requires
            self.spec_coords().valid_coord(coord.x as int, coord.y as int),
        ensures
            *r == self.spec_cells()[self.spec_coords().spec_index_of(
                coord.x as int,
                coord.y as int,
            )],
    {
        proof {
            use_type_invariant(self);
            self.coords.lemma_coord_to_index(coord.x as int, coord.y as int);
        }
        let index = self.coords.to_index(coord);
        let Index(index) = index.unwrap();
        &self.cells[index]
    }

    /// Writes one authoritative snapshot into the mirror; an update aimed
    /// off the board changes nothing.
    fn on_update(&mut self, update: CellUpdate)
        ensures
            final(self).spec_coords() == old(self).spec_coords(),
            final(self).spec_cells() == spec_apply_update(
                old(self).spec_cells(),
                old(self).spec_coords(),
                update,
            ),
    {
        proof {
            use_type_invariant(&*self);
        }
        let CellUpdate { cell, coord } = update;
        if let Some(Index(index)) = self.coords.to_index(&coord) {
            proof {
                self.coords.lemma_coord_to_index(coord.x as int, coord.y as int);
            }
            self.cells[index] = cell;
        }
    }

    /// Applies a whole batch in arrival order.
    pub fn on_updates(&mut self, updates: CellUpdates)
        ensures
            final(self).spec_coords() == old(self).spec_coords(),
            final(self).spec_cells() == spec_apply_updates(
                old(self).spec_cells(),
                old(self).spec_coords(),
                updates.0@,
            ),
    {
        let ghost orig = old(self).spec_cells();
        let ghost g = old(self).spec_coords();
        let ghost us = updates.0@;
        let CellUpdates(list) = updates;
        let n = list.len();
        let mut k: usize = 0;
        while k < n
            invariant
                n == list@.len(),
                us == list@,
                0 <= k <= n,
                g == self.spec_coords(),
                self.spec_cells() == spec_apply_updates(orig, g, us.take(k as int)),
            decreases n - k,
        {
            self.on_update(list[k]);
            proof {
                assert(us.take(k + 1) =~= us.take(k as int).push(us[k as int]));
                lemma_apply_push(orig, g, us.take(k as int), us[k as int]);
            }
            k += 1;
        }
        proof {
            assert(us.take(n as int) =~= us);
        }
    }
}

/// The mirrored session: the mirror plus the latest statistics received.
pub struct Session {
    field: Field,
    stats: Stats,
}

impl Session {
    pub closed spec fn spec_coords(&self) -> Coordinations {
        self.field.spec_coords()
    }

    pub closed spec fn spec_cells(&self) -> Seq<Cell> {
        self.field.spec_cells()
    }

    pub closed spec fn spec_stats(&self) -> Stats {
        self.stats
    }

    /// A fresh mirror for a round of the given totals.
    pub fn new(coords: Coordinations, mines: Mines, lives: Lives) -> (r: Self)
        requires
            coords.wf(),
            mines.0 <= 0x7fff_ffff,
        ensures
            r.spec_coords() == coords,
            r.spec_cells().len() == coords.spec_size(),
            forall|i: int| 0 <= i < r.spec_cells().len() ==> r.spec_cells()[i] == Cell::Covered,
            r.spec_stats() == (Stats { mines_left: mines.0 as i32, lives_left: lives.0 }),
    {
        let stats = Stats { mines_left: mines.0 as i32, lives_left: lives.0 };
        let field = Field::new(coords);
        Self { field, stats }
    }

    /// A covered mirror that starts from given statistics.
    pub fn blank(coords: Coordinations, stats: Stats) -> (r: Self)
        requires
            coords.wf(),
        ensures
            r.spec_coords() == coords,
            r.spec_cells().len() == coords.spec_size(),
            forall|i: int| 0 <= i < r.spec_cells().len() ==> r.spec_cells()[i] == Cell::Covered,
            r.spec_stats() == stats,
    {
        let field = Field::new(coords);
        Self { field, stats }
    }

    pub fn stats(&self) -> (r: Stats)
        ensures
            r == self.spec_stats(),
    {
        self.stats
    }

    fn on_stat_update(&mut self, stats: Stats)
        ensures
            final(self).spec_stats() == stats,
            final(self).spec_cells() == old(self).spec_cells(),
            final(self).spec_coords() == old(self).spec_coords(),
    {
        self.stats = stats;
    }

    /// Applies one authoritative update batch: the newer statistics
    /// replace the old, then the cells land in arrival order.
    pub fn on_updates(&mut self, updates: Updates)
        ensures
            final(self).spec_coords() == old(self).spec_coords(),
            final(self).spec_stats() == updates.stats,
            final(self).spec_cells() == spec_apply_updates(
                old(self).spec_cells(),
                old(self).spec_coords(),
                updates.cells.0@,
            ),
    {
        let Updates { cells, stats } = updates;
        self.on_stat_update(stats);
        self.field.on_updates(cells)
    }
}

impl game::FieldProvider for Session {
    open spec fn spec_provides(&self, coord: Coord) -> bool {
        self.spec_coords().valid_coord(coord.x as int, coord.y as int)
    }

    open spec fn spec_cell_at(&self, coord: Coord) -> Cell {
        self.spec_cells()[self.spec_coords().spec_index_of(coord.x as int, coord.y as int)]
    }

    fn get_cell(&self, coord: &Coord) -> Cell {
        *self.field.get_cell(coord)
    }
}

impl game::UpdatesListener for Session {
    fn on_updates(&mut self, updates: Updates) {
        Session::on_updates(self, updates)
    }
}

} // verus!
