//! The authoritative minefield: per-cell content and status, mine
//! placement, uncovering with cascading reveal, flagging, end-of-round
//! revelation and the aggregate tallies derived from the board.

use vstd::prelude::*;

use crate::coordinations::{Coord, Coordinations, Index};
use crate::game;
use crate::game::{CellUpdate, CellUpdates, Hint, Mines, SessionUserID, UserStat, UserStats};

verus! {

/// What a cell permanently holds: a mine, or its count of mine neighbors.
#[derive(Clone, Copy, Eq, PartialEq, Structural, Debug)]
pub enum Content {
    Mine,
    Hint(Hint),
}

impl Content {
    /// A hint of zero: the cell that cascading reveal expands across.
    pub open spec fn spec_is_empty_cell(&self) -> bool {
        *self == Content::Hint(Hint(0))
    }

    pub fn is_empty_cell(&self) -> (r: bool)
        ensures
            r == self.spec_is_empty_cell(),
    {
        matches!(self, Self::Hint(Hint(0)))
    }

    /// A hint of one or more: the boundary that cascading reveal stops at.
    pub open spec fn spec_is_actual_hint(&self) -> bool {
        (*self is Hint) && !self.spec_is_empty_cell()
    }

    pub fn is_actual_hint(&self) -> (r: bool)
        ensures
            r == self.spec_is_actual_hint(),
    {
        match *self {
            Self::Mine => false,
            Self::Hint(Hint(0)) => false,
            Self::Hint(_) => true,
        }
    }
}

/// The mutable face of a cell: how far the participants have gotten with it.
#[derive(Clone, Copy, Eq, PartialEq, Structural, Debug)]
pub enum Status {
    Covered,
    MarkedBy(SessionUserID),
    QuestionMarkedBy(SessionUserID),
    UncoveredBy(SessionUserID),
    EndGameCovered,
    EndGameMarkedBy(SessionUserID),
}

/// One cell of the authoritative board.
#[derive(Clone, Copy, Eq, PartialEq, Structural, Debug)]
pub struct Cell {
    pub content: Content,
    pub status: Status,
}

/// How a cell of the authoritative board looks to a participant.
pub open spec fn spec_to_game(c: Cell) -> game::Cell {
    match c.status {
        Status::Covered => game::Cell::Covered,
        Status::MarkedBy(uid) => game::Cell::FlaggedBy(uid),
        Status::QuestionMarkedBy(uid) => game::Cell::QuestionMarked(uid),
        Status::UncoveredBy(uid) => match c.content {
            Content::Mine => game::Cell::ExplodedBy(uid),
            Content::Hint(h) => game::Cell::HintBy(h, uid),
        },
        Status::EndGameCovered => match c.content {
            Content::Mine => game::Cell::Mine,
            Content::Hint(h) => game::Cell::HintBy(h, game::spec_system_uid()),
        },
        Status::EndGameMarkedBy(uid) => match c.content {
            Content::Mine => game::Cell::FlaggedBy(uid),
            Content::Hint(_) => game::Cell::FalseFlaggedBy(uid),
        },
    }
}

impl From<Cell> for game::Cell {
    fn from(c: Cell) -> (r: Self) {
        match c.status {
            Status::Covered => game::Cell::Covered,
            Status::MarkedBy(uid) => game::Cell::FlaggedBy(uid),
            Status::QuestionMarkedBy(uid) => game::Cell::QuestionMarked(uid),
            Status::UncoveredBy(uid) => match c.content {
                Content::Mine => game::Cell::ExplodedBy(uid),
                Content::Hint(h) => game::Cell::HintBy(h, uid),
            },
            Status::EndGameCovered => match c.content {
                Content::Mine => game::Cell::Mine,
                Content::Hint(h) => game::Cell::HintBy(h, game::system_uid()),
            },
            Status::EndGameMarkedBy(uid) => match c.content {
                Content::Mine => game::Cell::FlaggedBy(uid),
                Content::Hint(_) => game::Cell::FalseFlaggedBy(uid),
            },
        }
    }
}

impl vstd::std_specs::convert::FromSpecImpl<Cell> for game::Cell {
    open spec fn obeys_from_spec() -> bool {
        true
    }

    open spec fn from_spec(c: Cell) -> Self {
        spec_to_game(c)
    }
}

/// How many elements of `s` satisfy `f`.
pub open spec fn count_matching<A>(s: Seq<A>, f: spec_fn(A) -> bool) -> int
    decreases s.len(),
{
    if s.len() == 0 {
        0
    } else {
        count_matching(s.drop_last(), f) + if f(s.last()) {
            1int
        } else {
            0int
        }
    }
}

pub proof fn lemma_count_bounds<A>(s: Seq<A>, f: spec_fn(A) -> bool)
    ensures
        0 <= count_matching(s, f) <= s.len(),
    decreases s.len(),
{
    if s.len() > 0 {
        lemma_count_bounds(s.drop_last(), f);
    }
}

/// Extending a prefix by one element extends its count by that element's mark.
pub proof fn lemma_count_take_step<A>(s: Seq<A>, f: spec_fn(A) -> bool, k: int)
    requires
        0 <= k < s.len(),
    ensures
        count_matching(s.take(k + 1), f) == count_matching(s.take(k), f) + if f(s[k]) {
            1int
        } else {
            0int
        },
{
    assert(s.take(k + 1).drop_last() =~= s.take(k));
    assert(s.take(k + 1).last() == s[k]);
}

pub proof fn lemma_count_whole<A>(s: Seq<A>, f: spec_fn(A) -> bool)
    ensures
        count_matching(s.take(s.len() as int), f) == count_matching(s, f),
{
    assert(s.take(s.len() as int) =~= s);
}

/// A pointwise weaker predicate never counts more.
pub proof fn lemma_count_implies<A>(s: Seq<A>, f: spec_fn(A) -> bool, g: spec_fn(A) -> bool)
    requires
        forall|a: A| #[trigger] f(a) ==> g(a),
    ensures
        count_matching(s, f) <= count_matching(s, g),
    decreases s.len(),
{
    if s.len() > 0 {
        lemma_count_implies(s.drop_last(), f, g);
    }
}

/// Two sequences that mark the same positions count the same.
pub proof fn lemma_count_congruence<A>(s: Seq<A>, t: Seq<A>, f: spec_fn(A) -> bool)
    requires
        s.len() == t.len(),
        forall|i: int| 0 <= i < s.len() ==> f(s[i]) == f(t[i]),
    ensures
        count_matching(s, f) == count_matching(t, f),
    decreases s.len(),
{
    if s.len() > 0 {
        assert(forall|i: int|
            0 <= i < s.drop_last().len() ==> f(s.drop_last()[i]) == f(t.drop_last()[i]));
        lemma_count_congruence(s.drop_last(), t.drop_last(), f);
    }
}

/// Updating one position moves the count by the difference of its marks.
pub proof fn lemma_count_update<A>(s: Seq<A>, f: spec_fn(A) -> bool, i: int, v: A)
    requires
        0 <= i < s.len(),
    ensures
        count_matching(s.update(i, v), f) == count_matching(s, f) - (if f(s[i]) {
            1int
        } else {
            0int
        }) + (if f(v) {
            1int
        } else {
            0int
        }),
    decreases s.len(),
{
    let t = s.update(i, v);
    if i == s.len() - 1 {
        assert(t.drop_last() =~= s.drop_last());
        assert(t.last() == v);
        assert(s.last() == s[i]);
    } else {
        assert(t.drop_last() =~= s.drop_last().update(i, v));
        assert(t.last() == s.last());
        lemma_count_update(s.drop_last(), f, i, v);
    }
}

/// Two disjoint predicates together never count past the length.
pub proof fn lemma_count_disjoint<A>(s: Seq<A>, f: spec_fn(A) -> bool, g: spec_fn(A) -> bool)
    requires
        forall|a: A| !(#[trigger] f(a) && #[trigger] g(a)),
    ensures
        count_matching(s, f) + count_matching(s, g) <= s.len(),
    decreases s.len(),
{
    if s.len() > 0 {
        lemma_count_disjoint(s.drop_last(), f, g);
    }
}

/// One when the coordinate is on the board and mined, zero otherwise.
pub open spec fn spec_mine_indicator(mines: Seq<bool>, g: Coordinations, x: int, y: int) -> int {
    if g.valid_coord(x, y) && mines[g.spec_index_of(x, y)] {
        1int
    } else {
        0int
    }
}

/// How many of the up to eight neighbors of cell `i` hold a mine.
pub open spec fn spec_mine_neighbors(mines: Seq<bool>, g: Coordinations, i: int) -> int {
    let x = g.spec_x(i);
    let y = g.spec_y(i);
    spec_mine_indicator(mines, g, x - 1, y - 1) + spec_mine_indicator(mines, g, x, y - 1)
        + spec_mine_indicator(mines, g, x + 1, y - 1) + spec_mine_indicator(mines, g, x - 1, y)
        + spec_mine_indicator(mines, g, x + 1, y) + spec_mine_indicator(mines, g, x - 1, y + 1)
        + spec_mine_indicator(mines, g, x, y + 1) + spec_mine_indicator(mines, g, x + 1, y + 1)
}

/// No cell can have more than eight mines among its neighbors: the count
/// is a sum of eight indicators.
pub proof fn lemma_mine_neighbors_bounds(mines: Seq<bool>, g: Coordinations, i: int)
    ensures
        0 <= spec_mine_neighbors(mines, g, i) <= 8,
{
}

pub open spec fn spec_cell_is_mine(c: Cell) -> bool {
    c.content == Content::Mine
}

/// The mine layout a board's cells embody.
pub open spec fn spec_mines_of(cells: Seq<Cell>) -> Seq<bool> {
    cells.map_values(|c: Cell| spec_cell_is_mine(c))
}

/// Every hint cell counts exactly its neighboring mines.
pub open spec fn spec_hints_consistent(cells: Seq<Cell>, g: Coordinations) -> bool {
    forall|i: int|
        0 <= i < cells.len() && ((#[trigger] cells[i]).content is Hint) ==> cells[i].content
            == Content::Hint(Hint(spec_mine_neighbors(spec_mines_of(cells), g, i) as u8))
}

/// Counts agree across two sequences whose marks agree position by position.
pub proof fn lemma_count_pointwise<A, B>(
    s: Seq<A>,
    t: Seq<B>,
    f: spec_fn(A) -> bool,
    g: spec_fn(B) -> bool,
)
    requires
        s.len() == t.len(),
        forall|i: int| 0 <= i < s.len() ==> f(s[i]) == g(t[i]),
    ensures
        count_matching(s, f) == count_matching(t, g),
    decreases s.len(),
{
    if s.len() > 0 {
        assert(forall|i: int|
            0 <= i < s.drop_last().len() ==> f(s.drop_last()[i]) == g(t.drop_last()[i]));
        lemma_count_pointwise(s.drop_last(), t.drop_last(), f, g);
    }
}

/// Whether the coordinate (x, y) holds a mine, with out-of-range
/// coordinates counting as empty.
fn mine_indicator(mines: &Vec<bool>, g: &Coordinations, x: i64, y: i64) -> (r: u8)
    requires
        g.wf(),
        mines@.len() == g.spec_size(),
    ensures
        r as int == spec_mine_indicator(mines@, *g, x as int, y as int),
        r <= 1,
{
    if 0 <= x && x < g.columns() as i64 && 0 <= y && y < g.rows() as i64 {
        proof {
            g.lemma_coord_to_index(x as int, y as int);
        }
        let idx = (y * g.columns() as i64 + x) as usize;
        if mines[idx] {
            1
        } else {
            0
        }
    } else {
        0
    }
}

/// Nothing counts in a sequence none of whose elements is marked.
pub proof fn lemma_count_zero<A>(s: Seq<A>, f: spec_fn(A) -> bool)
    requires
        forall|i: int| 0 <= i < s.len() ==> !f(s[i]),
    ensures
        count_matching(s, f) == 0,
    decreases s.len(),
{
    if s.len() > 0 {
        lemma_count_zero(s.drop_last(), f);
    }
}

/// A mine layout: which cells of a board hold a mine.
pub struct Concept {
    pub mines: Vec<bool>,
    pub coords: Coordinations,
}

impl Concept {
    /// Samples a uniform-random layout with exactly `mines` mines,
    /// resampling any layout in which some mine would have more than
    /// `MAX_SURROUNDING_MINES` mines among its neighbors.
    pub fn random(coords: Coordinations, mines: Mines) -> (r: Self)
        requires
            coords.wf(),
            coords.spec_size() <= 0x7fff_ffff,
            (mines.0 as int) < coords.spec_size(),
        ensures
            r.coords == coords,
            r.mines@.len() == coords.spec_size(),
            count_matching(r.mines@, |b: bool| b) == mines.0 as int,
    {
        broadcast use vstd::seq_lib::group_to_multiset_ensures;

        let size = coords.size();
        let number_of_mines = mines.0 as usize;
        let mut mine_flags: Vec<bool> = Vec::new();
        let mut done = false;
        while !done
            invariant
                size == coords.spec_size(),
                size <= 0x7fff_ffff,
                number_of_mines == mines.0,
                number_of_mines < size,
                coords.wf(),
                done ==> mine_flags@.len() == size && count_matching(mine_flags@, |b: bool| b)
                    == mines.0 as int,
            decreases (if done { 0int } else { 1int }),
        {
            mine_flags = vec![false; size];
            proof {
                lemma_count_zero(mine_flags@, |b: bool| b);
            }
            let mut indices: Vec<usize> = Vec::new();
            let mut j: usize = 0;
            while j < size
                invariant
                    0 <= j <= size,
                    indices@.len() == j,
                    forall|m: int| 0 <= m < j ==> indices@[m] == m,
                decreases size - j,
            {
                indices.push(j);
                j += 1;
            }
            let ghost pre = indices@;
            proof {
                assert(pre.no_duplicates());
                pre.lemma_multiset_has_no_duplicates();
            }
            crate::rng::shuffle_indices(&mut indices);
            proof {
                broadcast use vstd::seq_lib::group_to_multiset_ensures;

                indices@.lemma_multiset_has_no_duplicates_conv();
                assert forall|m: int| 0 <= m < indices@.len() implies indices@[m] < size by {
                    assert(indices@.contains(indices@[m]));
                    assert(indices@.to_multiset().count(indices@[m]) > 0);
                    assert(pre.contains(indices@[m]));
                    let j = choose|j: int| 0 <= j < pre.len() && pre[j] == indices@[m];
                    assert(pre[j] == j);
                }
            }
            let mut t: usize = 0;
            while t < number_of_mines
                invariant
                    t <= number_of_mines,
                    number_of_mines < size,
                    indices@.len() == size - t,
                    indices@.no_duplicates(),
                    forall|m: int| 0 <= m < indices@.len() ==> (#[trigger] indices@[m]) < size,
                    mine_flags@.len() == size,
                    count_matching(mine_flags@, |b: bool| b) == t as int,
                    forall|m: int|
                        0 <= m < indices@.len() ==> !mine_flags@[(#[trigger] indices@[m]) as int],
                decreases number_of_mines - t,
            {
                let ghost before = indices@;
                let ghost flags_before = mine_flags@;
                let idx = indices.pop().unwrap();
                mine_flags[idx] = true;
                proof {
                    lemma_count_update(flags_before, |b: bool| b, idx as int, true);
                    assert forall|m: int|
                        0 <= m < indices@.len() implies !mine_flags@[(
                    #[trigger] indices@[m]) as int] by {
                        assert(before[m] == indices@[m]);
                        assert(before[m] != before[before.len() - 1]);
                    }
                }
                t += 1;
            }
            // the structural check: resample any layout where a mine has
            // more than MAX_SURROUNDING_MINES mines among its neighbors
            let mut ok = true;
            let mut i: usize = 0;
            while i < size
                invariant
                    size == coords.spec_size(),
                    size <= 0x7fff_ffff,
                    coords.wf(),
                    mine_flags@.len() == size,
                    ok,
                decreases size - i,
            {
                if mine_flags[i] {
                    let c = coords.coord_at(i);
                    let x = c.x as i64;
                    let y = c.y as i64;
                    let neighboring: u8 = mine_indicator(&mine_flags, &coords, x - 1, y - 1)
                        + mine_indicator(&mine_flags, &coords, x, y - 1) + mine_indicator(
                        &mine_flags,
                        &coords,
                        x + 1,
                        y - 1,
                    ) + mine_indicator(&mine_flags, &coords, x - 1, y) + mine_indicator(
                        &mine_flags,
                        &coords,
                        x + 1,
                        y,
                    ) + mine_indicator(&mine_flags, &coords, x - 1, y + 1) + mine_indicator(
                        &mine_flags,
                        &coords,
                        x,
                        y + 1,
                    ) + mine_indicator(&mine_flags, &coords, x + 1, y + 1);
                    if neighboring > crate::coordinations::MAX_SURROUNDING_MINES {
                        ok = false;
                    }
                }
                i += 1;
            }
            done = ok;
        }
        Self { mines: mine_flags, coords }
    }

    /// Expands the layout into covered cells, each non-mine cell hinting
    /// the exact number of neighboring mines.
    pub fn to_cells(&self) -> (r: Vec<Cell>)
        requires
            self.coords.wf(),
            self.mines@.len() == self.coords.spec_size(),
        ensures
            r@.len() == self.mines@.len(),
            forall|i: int| 0 <= i < r@.len() ==> (#[trigger] r@[i]).status == Status::Covered,
            forall|i: int|
                0 <= i < r@.len() ==> self.mines@[i] == ((#[trigger] r@[i]).content
                    == Content::Mine),
            forall|i: int|
                0 <= i < r@.len() && !self.mines@[i] ==> (#[trigger] r@[i]).content
                    == Content::Hint(
                    Hint(spec_mine_neighbors(self.mines@, self.coords, i) as u8),
                ),
    {
        let size = self.mines.len();
        let mut out: Vec<Cell> = Vec::new();
        let mut i: usize = 0;
        while i < size
            invariant
                self.coords.wf(),
                self.mines@.len() == self.coords.spec_size(),
                size == self.mines@.len(),
                0 <= i <= size,
                out@.len() == i,
                forall|m: int| 0 <= m < i ==> (#[trigger] out@[m]).status == Status::Covered,
                forall|m: int|
                    0 <= m < i ==> self.mines@[m] == ((#[trigger] out@[m]).content
                        == Content::Mine),
                forall|m: int|
                    0 <= m < i && !self.mines@[m] ==> (#[trigger] out@[m]).content
                        == Content::Hint(
                        Hint(spec_mine_neighbors(self.mines@, self.coords, m) as u8),
                    ),
            decreases size - i,
        {
            if self.mines[i] {
                out.push(Cell { content: Content::Mine, status: Status::Covered });
            } else {
                let c = self.coords.coord_at(i);
                let x = c.x as i64;
                let y = c.y as i64;
                let count: u8 = mine_indicator(&self.mines, &self.coords, x - 1, y - 1)
                    + mine_indicator(&self.mines, &self.coords, x, y - 1) + mine_indicator(
                    &self.mines,
                    &self.coords,
                    x + 1,
                    y - 1,
                ) + mine_indicator(&self.mines, &self.coords, x - 1, y) + mine_indicator(
                    &self.mines,
                    &self.coords,
                    x + 1,
                    y,
                ) + mine_indicator(&self.mines, &self.coords, x - 1, y + 1) + mine_indicator(
                    &self.mines,
                    &self.coords,
                    x,
                    y + 1,
                ) + mine_indicator(&self.mines, &self.coords, x + 1, y + 1);
                out.push(Cell { content: Content::Hint(Hint(count)), status: Status::Covered });
            }
            i += 1;
        }
        out
    }
}

/// The board-level tallies that the session derives its status from.
#[derive(Debug, Clone, Copy, Eq, PartialEq, Structural)]
pub struct Progress {
    pub remaining_covered: u32,
    pub remaining_mines: u32,
    pub exploded: u32,
    pub total_flags: u32,
}

impl Default for Progress {
    fn default() -> (r: Self)
        ensures
            r == (Progress {
                remaining_covered: 0,
                remaining_mines: 0,
                exploded: 0,
                total_flags: 0,
            }),
    {
        Progress { remaining_covered: 0, remaining_mines: 0, exploded: 0, total_flags: 0 }
    }
}

pub open spec fn is_covered(c: Cell) -> bool {
    c.status == Status::Covered
}

pub open spec fn is_unflagged_mine(c: Cell) -> bool {
    c.content == Content::Mine && !(c.status is MarkedBy)
}

pub open spec fn is_exploded(c: Cell) -> bool {
    c.content == Content::Mine && c.status is UncoveredBy
}

pub open spec fn is_flagged(c: Cell) -> bool {
    c.status is MarkedBy
}

pub open spec fn spec_remaining_covered(cells: Seq<Cell>) -> int {
    count_matching(cells, |c: Cell| is_covered(c))
}

pub open spec fn spec_unflagged_mines(cells: Seq<Cell>) -> int {
    count_matching(cells, |c: Cell| is_unflagged_mine(c))
}

pub open spec fn spec_exploded(cells: Seq<Cell>) -> int {
    count_matching(cells, |c: Cell| is_exploded(c))
}

pub open spec fn spec_total_flags(cells: Seq<Cell>) -> int {
    count_matching(cells, |c: Cell| is_flagged(c))
}

/// What `Progress` a board yields.
pub open spec fn spec_progress(cells: Seq<Cell>) -> Progress {
    Progress {
        remaining_covered: spec_remaining_covered(cells) as u32,
        remaining_mines: (spec_unflagged_mines(cells) - spec_exploded(cells)) as u32,
        exploded: spec_exploded(cells) as u32,
        total_flags: spec_total_flags(cells) as u32,
    }
}

/// Which participant a status names, if any.
pub open spec fn spec_status_uid(s: Status) -> Option<SessionUserID> {
    match s {
        Status::Covered => None,
        Status::UncoveredBy(uid) => Some(uid),
        Status::MarkedBy(uid) => Some(uid),
        Status::QuestionMarkedBy(uid) => Some(uid),
        Status::EndGameCovered => None,
        Status::EndGameMarkedBy(uid) => Some(uid),
    }
}

pub open spec fn spec_user_appears(cells: Seq<Cell>, uid: SessionUserID) -> bool {
    exists|i: int| 0 <= i < cells.len() && spec_status_uid((#[trigger] cells[i]).status) == Some(uid)
}

/// A flag that stands, now or frozen at the round's end, set by `uid`.
pub open spec fn counts_marked_by(c: Cell, uid: SessionUserID) -> bool {
    c.status == Status::MarkedBy(uid) || c.status == Status::EndGameMarkedBy(uid)
}

pub open spec fn spec_marked_correct(cells: Seq<Cell>, uid: SessionUserID) -> int {
    count_matching(cells, |c: Cell| c.content == Content::Mine && counts_marked_by(c, uid))
}

pub open spec fn spec_marked_incorrect(cells: Seq<Cell>, uid: SessionUserID) -> int {
    count_matching(cells, |c: Cell| (c.content is Hint) && counts_marked_by(c, uid))
}

pub open spec fn spec_exploded_by(cells: Seq<Cell>, uid: SessionUserID) -> int {
    count_matching(
        cells,
        |c: Cell| c.content == Content::Mine && c.status == Status::UncoveredBy(uid),
    )
}

/// The tally one participant has earned on this board.
pub open spec fn spec_user_stat(cells: Seq<Cell>, uid: SessionUserID) -> UserStat {
    UserStat {
        marked_correct: spec_marked_correct(cells, uid) as u32,
        marked_incorrect: spec_marked_incorrect(cells, uid) as u32,
        exploded: spec_exploded_by(cells, uid) as u32,
    }
}

/// End-of-round revelation of one cell: covered cells and flags freeze.
pub open spec fn spec_reveal(c: Cell) -> Cell {
    match c.status {
        Status::Covered => Cell { content: c.content, status: Status::EndGameCovered },
        Status::MarkedBy(uid) => Cell { content: c.content, status: Status::EndGameMarkedBy(uid) },
        _ => c,
    }
}

/// One toggle of a flag: covered, flagged and question-marked cycle.
pub open spec fn spec_toggle(s: Status, uid: SessionUserID) -> Status {
    match s {
        Status::Covered => Status::MarkedBy(uid),
        Status::MarkedBy(_) => Status::QuestionMarkedBy(uid),
        Status::QuestionMarkedBy(_) => Status::Covered,
        _ => s,
    }
}

/// A path across the board whose every step joins neighbors and whose
/// every cell except possibly the last is a zero-hint cell.
pub open spec fn is_zero_path(cells: Seq<Cell>, g: Coordinations, p: Seq<int>) -> bool {
    &&& p.len() >= 1
    &&& forall|k: int| 0 <= k < p.len() ==> g.valid_index(#[trigger] p[k])
    &&& forall|k: int| 0 <= k < p.len() - 1 ==> g.is_neighbor(#[trigger] p[k], p[k + 1])
    &&& forall|k: int|
        0 <= k < p.len() - 1 ==> (#[trigger] cells[p[k]]).content.spec_is_empty_cell()
}

/// The maximal cascading-reveal region of `start`: every hint cell
/// reachable from it across zero-hint cells. The zero-hint cells reached
/// are the region's interior; the non-zero hint cells reached are its
/// boundary; mines are never part of it.
pub open spec fn in_region(cells: Seq<Cell>, g: Coordinations, start: int, j: int) -> bool {
    exists|p: Seq<int>|
        is_zero_path(cells, g, p) && p[0] == start && p.last() == j && (cells[j].content is Hint)
}

/// The clicked cell itself belongs to its region.
pub proof fn lemma_region_start(cells: Seq<Cell>, g: Coordinations, s0: int)
    requires
        g.valid_index(s0),
        cells[s0].content is Hint,
    ensures
        in_region(cells, g, s0, s0),
{
    let p = seq![s0];
    assert(is_zero_path(cells, g, p));
    assert(p[0] == s0 && p.last() == s0);
}

/// A region grows across any neighbor of one of its zero-hint cells,
/// provided that neighbor is a hint cell.
pub proof fn lemma_region_step(cells: Seq<Cell>, g: Coordinations, s0: int, i: int, n: int)
    requires
        in_region(cells, g, s0, i),
        cells[i].content.spec_is_empty_cell(),
        g.is_neighbor(i, n),
        cells[n].content is Hint,
    ensures
        in_region(cells, g, s0, n),
{
    let p = choose|p: Seq<int>|
        is_zero_path(cells, g, p) && p[0] == s0 && p.last() == i && (cells[i].content is Hint);
    let q = p.push(n);
    assert forall|k: int| 0 <= k < q.len() implies g.valid_index(#[trigger] q[k]) by {
        if k < p.len() {
            assert(q[k] == p[k]);
        }
    }
    assert forall|k: int| 0 <= k < q.len() - 1 implies g.is_neighbor(#[trigger] q[k], q[k + 1]) by {
        if k < p.len() - 1 {
            assert(q[k] == p[k] && q[k + 1] == p[k + 1]);
        } else {
            assert(q[k] == p.last() && q[k + 1] == n);
        }
    }
    assert forall|k: int|
        0 <= k < q.len() - 1 implies (#[trigger] cells[q[k]]).content.spec_is_empty_cell() by {
        if k < p.len() - 1 {
            assert(q[k] == p[k]);
        } else {
            assert(q[k] == i);
        }
    }
    assert(is_zero_path(cells, g, q));
    assert(q[0] == s0 && q.last() == n);
}

/// Any set of cells that holds the start of a zero path and is closed
/// under expansion from its zero-hint cells holds the path's end.
pub proof fn lemma_zero_path_visited(
    cells: Seq<Cell>,
    g: Coordinations,
    visited: Seq<bool>,
    p: Seq<int>,
)
    requires
        cells.len() == g.spec_size(),
        visited.len() == cells.len(),
        is_zero_path(cells, g, p),
        visited[p[0]],
        cells[p.last()].content is Hint,
        forall|k: int, n: int|
            0 <= k < cells.len() && visited[k] && cells[k].content.spec_is_empty_cell()
                && #[trigger] g.is_neighbor(k, n) && (cells[n].content is Hint) ==> visited[n],
    ensures
        visited[p.last()],
    decreases p.len(),
{
    if p.len() > 1 {
        assert(g.is_neighbor(p[0], p[1]));
        assert(cells[p[0]].content.spec_is_empty_cell());
        if p.len() > 2 {
            assert(cells[p[1]].content.spec_is_empty_cell());
        }
        assert(cells[p[1]].content is Hint);
        assert(visited[p[1]]);
        let q = p.subrange(1, p.len() as int);
        assert forall|k: int| 0 <= k < q.len() implies g.valid_index(#[trigger] q[k]) by {
            assert(q[k] == p[k + 1]);
        }
        assert forall|k: int|
            0 <= k < q.len() - 1 implies g.is_neighbor(#[trigger] q[k], q[k + 1]) by {
            assert(q[k] == p[k + 1] && q[k + 1] == p[k + 2]);
        }
        assert forall|k: int|
            0 <= k < q.len() - 1 implies (#[trigger] cells[q[k]]).content.spec_is_empty_cell() by {
            assert(q[k] == p[k + 1]);
        }
        assert(is_zero_path(cells, g, q));
        assert(q.last() == p.last());
        lemma_zero_path_visited(cells, g, visited, q);
    }
}

/// The cell as one uncover leaves it: content kept, uncovered by `uid`.
pub open spec fn spec_uncovered_cell(c: Cell, uid: SessionUserID) -> Cell {
    Cell { content: c.content, status: Status::UncoveredBy(uid) }
}

/// The linear index an update's coordinate addresses.
pub open spec fn spec_update_index(g: Coordinations, u: CellUpdate) -> int {
    g.spec_index_of(u.coord.x as int, u.coord.y as int)
}

/// Everything one uncover does, for every kind of target.
///
/// An out-of-range coordinate or an already-uncovered cell leaves the board
/// alone and yields no update. A mine or a non-zero hint is uncovered by
/// itself. A zero hint uncovers its whole region - the maximal connected
/// zero-hint area around it plus the bordering non-zero hints - and the
/// update lists each region cell exactly once.
pub open spec fn spec_uncover_rel(
    pre: Seq<Cell>,
    post: Seq<Cell>,
    ups: Seq<CellUpdate>,
    g: Coordinations,
    coord: Coord,
    uid: SessionUserID,
) -> bool {
    if !g.valid_coord(coord.x as int, coord.y as int) {
        post == pre && ups.len() == 0
    } else {
        let i = g.spec_index_of(coord.x as int, coord.y as int);
        let c = pre[i];
        if c.status is UncoveredBy {
            post == pre && ups.len() == 0
        } else if !c.content.spec_is_empty_cell() {
            let newc = spec_uncovered_cell(c, uid);
            &&& post == pre.update(i, newc)
            &&& ups == seq![CellUpdate { cell: spec_to_game(newc), coord }]
        } else {
            &&& post.len() == pre.len()
            &&& forall|k: int|
                0 <= k < pre.len() ==> #[trigger] post[k] == if in_region(pre, g, i, k) {
                    spec_uncovered_cell(pre[k], uid)
                } else {
                    pre[k]
                }
            &&& forall|t: int|
                0 <= t < ups.len() ==> {
                    let k = spec_update_index(g, #[trigger] ups[t]);
                    &&& g.valid_coord(ups[t].coord.x as int, ups[t].coord.y as int)
                    &&& in_region(pre, g, i, k)
                    &&& ups[t].cell == spec_to_game(spec_uncovered_cell(pre[k], uid))
                }
            &&& forall|k: int|
                #[trigger] in_region(pre, g, i, k) ==> exists|t: int|
                    0 <= t < ups.len() && spec_update_index(g, #[trigger] ups[t]) == k
            &&& forall|a: int, b: int|
                0 <= a < b < ups.len() ==> spec_update_index(g, #[trigger] ups[a])
                    != spec_update_index(g, #[trigger] ups[b])
        }
    }
}

/// End-of-round revelation of a whole board.
pub open spec fn spec_reveal_all_seq(cells: Seq<Cell>) -> Seq<Cell> {
    Seq::new(cells.len(), |i: int| spec_reveal(cells[i]))
}

/// The whole-board snapshot: one update per cell, in index order.
pub open spec fn spec_all_updates(cells: Seq<Cell>, g: Coordinations) -> Seq<CellUpdate> {
    Seq::new(
        cells.len(),
        |i: int|
            CellUpdate {
                cell: spec_to_game(cells[i]),
                coord: Coord { x: g.spec_x(i) as u32, y: g.spec_y(i) as u32 },
            },
    )
}

/// No cell is frozen in its end-game form.
pub open spec fn spec_no_endgame(cells: Seq<Cell>) -> bool {
    forall|i: int|
        0 <= i < cells.len() ==> !((#[trigger] cells[i]).status is EndGameCovered) && !(
        cells[i].status is EndGameMarkedBy)
}

/// Everything one flag toggle does, for every kind of target. An
/// out-of-range coordinate or an uncovered cell yields no update; any other
/// cell cycles covered, flagged, question-marked.
pub open spec fn spec_toggle_rel(
    pre: Seq<Cell>,
    post: Seq<Cell>,
    up: Option<CellUpdate>,
    g: Coordinations,
    coord: Coord,
    uid: SessionUserID,
) -> bool {
    if !g.valid_coord(coord.x as int, coord.y as int) {
        post == pre && up is None
    } else {
        let i = g.spec_index_of(coord.x as int, coord.y as int);
        let c = pre[i];
        if c.status is UncoveredBy {
            post == pre && up is None
        } else {
            let newc = Cell { content: c.content, status: spec_toggle(c.status, uid) };
            &&& post == pre.update(i, newc)
            &&& up == Some(CellUpdate { cell: spec_to_game(newc), coord })
        }
    }
}

/// Three toggles by one participant bring a flag full circle: a covered
/// cell turns flagged, then question-marked, then covered again, and the
/// same holds starting anywhere on that cycle, provided the standing mark
/// is the toggling participant's own.
pub proof fn lemma_toggle_cycle(s: Status, uid: SessionUserID)
    requires
        s == Status::Covered || s == Status::MarkedBy(uid) || s == Status::QuestionMarkedBy(uid),
    ensures
        spec_toggle(spec_toggle(spec_toggle(s, uid), uid), uid) == s,
{
}

/// The board of one round: its addressing and every cell.
pub struct Field {
    coords: Coordinations,
    cells: Vec<Cell>,
}

impl Field {
    pub closed spec fn spec_coords(&self) -> Coordinations {
        self.coords
    }

    pub closed spec fn spec_cells(&self) -> Seq<Cell> {
        self.cells@
    }

    /// The cell list matches the addressing, and the board is small enough
    /// for every derived tally to fit its integer type.
    pub open spec fn wf(&self) -> bool {
        &&& self.spec_coords().wf()
        &&& self.spec_cells().len() == self.spec_coords().spec_size()
        &&& self.spec_cells().len() <= 0x7fff_ffff
    }

    /// Builds a fresh board: a random layout of exactly `mines` mines, every
    /// cell covered, and every hint counting its neighboring mines exactly.
    pub fn new(coords: Coordinations, mines: Mines) -> (r: Self)
        requires
            coords.wf(),
            coords.spec_size() <= 0x7fff_ffff,
            (mines.0 as int) < coords.spec_size(),
        ensures
            r.wf(),
            r.spec_coords() == coords,
            forall|i: int|
                0 <= i < r.spec_cells().len() ==> (#[trigger] r.spec_cells()[i]).status
                    == Status::Covered,
            count_matching(r.spec_cells(), |c: Cell| spec_cell_is_mine(c)) == mines.0 as int,
            spec_hints_consistent(r.spec_cells(), coords),
    {
        let concept = Concept::random(coords, mines);
        let cells = concept.to_cells();
        proof {
            assert(spec_mines_of(cells@) =~= concept.mines@);
            lemma_count_pointwise(
                cells@,
                concept.mines@,
                |c: Cell| spec_cell_is_mine(c),
                |b: bool| b,
            );
        }
        Self::new_with_cells(coords, cells)
    }

    /// Builds a board over the given cells.
    pub fn new_with_cells(coords: Coordinations, cells: Vec<Cell>) -> (r: Self)
        requires
            coords.wf(),
            cells@.len() == coords.spec_size(),
            cells@.len() <= 0x7fff_ffff,
        ensures
            r.wf(),
            r.spec_coords() == coords,
            r.spec_cells() == cells@,
    {
        Self { coords, cells }
    }

    pub fn coords(&self) -> (r: Coordinations)
        ensures
            r == self.spec_coords(),
    {
        self.coords
    }

    /// Derives the aggregate tallies in one pass. `remaining_mines`
    /// excludes mines that already exploded, so it never goes negative.
    pub fn progress(&self) -> (r: Progress)
        requires
            self.wf(),
        ensures
            r == spec_progress(self.spec_cells()),
    {
        let s = Ghost(self.spec_cells());
        let n = self.cells.len();
        let mut covered: u32 = 0;
        let mut unflagged: u32 = 0;
        let mut exploded: u32 = 0;
        let mut flags: u32 = 0;
        let mut k: usize = 0;
        while k < n
            invariant
                s@ == self.spec_cells(),
                n == s@.len(),
                n <= 0x7fff_ffff,
                0 <= k <= n,
                covered == count_matching(s@.take(k as int), |c: Cell| is_covered(c)),
                unflagged == count_matching(s@.take(k as int), |c: Cell| is_unflagged_mine(c)),
                exploded == count_matching(s@.take(k as int), |c: Cell| is_exploded(c)),
                flags == count_matching(s@.take(k as int), |c: Cell| is_flagged(c)),
            decreases n - k,
        {
            let c = self.cells[k];
            proof {
                lemma_count_take_step(s@, |c: Cell| is_covered(c), k as int);
                lemma_count_take_step(s@, |c: Cell| is_unflagged_mine(c), k as int);
                lemma_count_take_step(s@, |c: Cell| is_exploded(c), k as int);
                lemma_count_take_step(s@, |c: Cell| is_flagged(c), k as int);
                lemma_count_bounds(s@.take(k as int), |c: Cell| is_covered(c));
                lemma_count_bounds(s@.take(k as int), |c: Cell| is_unflagged_mine(c));
                lemma_count_bounds(s@.take(k as int), |c: Cell| is_exploded(c));
                lemma_count_bounds(s@.take(k as int), |c: Cell| is_flagged(c));
            }
            if matches!(c.status, Status::Covered) {
                covered += 1;
            }
            let is_mine = matches!(c.content, Content::Mine);
            if is_mine && !matches!(c.status, Status::MarkedBy(_)) {
                unflagged += 1;
            }
            if is_mine && matches!(c.status, Status::UncoveredBy(_)) {
                exploded += 1;
            }
            if matches!(c.status, Status::MarkedBy(_)) {
                flags += 1;
            }
            k += 1;
        }
        proof {
            lemma_count_whole(s@, |c: Cell| is_covered(c));
            lemma_count_whole(s@, |c: Cell| is_unflagged_mine(c));
            lemma_count_whole(s@, |c: Cell| is_exploded(c));
            lemma_count_whole(s@, |c: Cell| is_flagged(c));
            lemma_count_implies(
                s@,
                |c: Cell| is_exploded(c),
                |c: Cell| is_unflagged_mine(c),
            );
        }
        Progress {
            remaining_covered: covered,
            remaining_mines: unflagged - exploded,
            exploded,
            total_flags: flags,
        }
    }

    /// The tally of one participant, in one pass over the board.
    fn stat_for(&self, uid: SessionUserID) -> (r: UserStat)
        requires
            self.wf(),
        ensures
            r == spec_user_stat(self.spec_cells(), uid),
    {
        let s = Ghost(self.spec_cells());
        let n = self.cells.len();
        let mut correct: u32 = 0;
        let mut incorrect: u32 = 0;
        let mut exploded: u32 = 0;
        let mut k: usize = 0;
        while k < n
            invariant
                s@ == self.spec_cells(),
                n == s@.len(),
                n <= 0x7fff_ffff,
                0 <= k <= n,
                correct == count_matching(
                    s@.take(k as int),
                    |c: Cell| c.content == Content::Mine && counts_marked_by(c, uid),
                ),
                incorrect == count_matching(
                    s@.take(k as int),
                    |c: Cell| (c.content is Hint) && counts_marked_by(c, uid),
                ),
                exploded == count_matching(
                    s@.take(k as int),
                    |c: Cell| c.content == Content::Mine && c.status == Status::UncoveredBy(uid),
                ),
            decreases n - k,
        {
            let c = self.cells[k];
            proof {
                lemma_count_take_step(
                    s@,
                    |c: Cell| c.content == Content::Mine && counts_marked_by(c, uid),
                    k as int,
                );
                lemma_count_take_step(
                    s@,
                    |c: Cell| (c.content is Hint) && counts_marked_by(c, uid),
                    k as int,
                );
                lemma_count_take_step(
                    s@,
                    |c: Cell| c.content == Content::Mine && c.status == Status::UncoveredBy(uid),
                    k as int,
                );
                lemma_count_bounds(
                    s@.take(k as int),
                    |c: Cell| c.content == Content::Mine && counts_marked_by(c, uid),
                );
                lemma_count_bounds(
                    s@.take(k as int),
                    |c: Cell| (c.content is Hint) && counts_marked_by(c, uid),
                );
                lemma_count_bounds(
                    s@.take(k as int),
                    |c: Cell| c.content == Content::Mine && c.status == Status::UncoveredBy(uid),
                );
            }
            let marked_by = match c.status {
                Status::MarkedBy(m) => m == uid,
                Status::EndGameMarkedBy(m) => m == uid,
                _ => false,
            };
            let is_mine = matches!(c.content, Content::Mine);
            if is_mine && marked_by {
                correct += 1;
            }
            if !is_mine && marked_by {
                incorrect += 1;
            }
            if is_mine {
                if let Status::UncoveredBy(m) = c.status {
                    if m == uid {
                        exploded += 1;
                    }
                }
            }
            k += 1;
        }
        proof {
            lemma_count_whole(s@, |c: Cell| c.content == Content::Mine && counts_marked_by(c, uid));
            lemma_count_whole(s@, |c: Cell| (c.content is Hint) && counts_marked_by(c, uid));
            lemma_count_whole(
                s@,
                |c: Cell| c.content == Content::Mine && c.status == Status::UncoveredBy(uid),
            );
        }
        UserStat { marked_correct: correct, marked_incorrect: incorrect, exploded }
    }

    /// The tallies of every participant whose mark the board carries, each
    /// identifier exactly once.
    pub fn user_stats(&self) -> (r: UserStats)
        requires
            self.wf(),
        ensures
            r.wf(),
            forall|j: int|
                0 <= j < r.0@.len() ==> spec_user_appears(
                    self.spec_cells(),
                    (#[trigger] r.0@[j]).0,
                ) && r.0@[j].1 == spec_user_stat(self.spec_cells(), r.0@[j].0),
            forall|uid: SessionUserID|
                #[trigger] spec_user_appears(self.spec_cells(), uid) ==> r.spec_has(uid),
    {
        let s = Ghost(self.spec_cells());
        let n = self.cells.len();
        let mut r = UserStats(Vec::new());
        // the loop establishes membership for every identifier seen so far
        let mut k: usize = 0;
        while k < n
            invariant
                s@ == self.spec_cells(),
                self.wf(),
                n == s@.len(),
                0 <= k <= n,
                r.wf(),
                forall|j: int|
                    0 <= j < r.0@.len() ==> spec_user_appears(s@, (#[trigger] r.0@[j]).0)
                        && r.0@[j].1 == spec_user_stat(s@, r.0@[j].0),
                forall|i: int|
                    0 <= i < k && (spec_status_uid((#[trigger] s@[i]).status) is Some)
                        ==> r.spec_has(spec_status_uid(s@[i].status)->Some_0),
            decreases n - k,
        {
            let c = self.cells[k];
            let found = match c.status {
                Status::Covered => None,
                Status::UncoveredBy(uid) => Some(uid),
                Status::MarkedBy(uid) => Some(uid),
                Status::QuestionMarkedBy(uid) => Some(uid),
                Status::EndGameCovered => None,
                Status::EndGameMarkedBy(uid) => Some(uid),
            };
            if let Some(uid) = found {
                if r.get(uid).is_none() {
                    let ghost prev = r.0@;
                    let st = self.stat_for(uid);
                    r.0.push((uid, st));
                    proof {
                        assert(spec_user_appears(s@, uid));
                        assert(r.0@[prev.len() as int].0 == uid);
                        assert forall|i: int|
                            0 <= i < k && (spec_status_uid((#[trigger] s@[i]).status) is Some)
                            implies r.spec_has(spec_status_uid(s@[i].status)->Some_0) by {
                            let uid2 = spec_status_uid(s@[i].status)->Some_0;
                            let j = choose|j: int|
                                0 <= j < prev.len() && (#[trigger] prev[j]).0 == uid2;
                            if 0 <= j < prev.len() {
                                assert(r.0@[j].0 == uid2);
                            }
                        }
                    }
                }
            }
            k += 1;
        }
        proof {
            assert forall|uid: SessionUserID| #[trigger]
                spec_user_appears(s@, uid) implies r.spec_has(uid) by {
                let i = choose|i: int|
                    0 <= i < s@.len() && spec_status_uid((#[trigger] s@[i]).status) == Some(uid);
                assert(spec_status_uid(s@[i].status) is Some);
            }
        }
        r
    }

    /// Freezes the board for the end-of-round display: every still-covered
    /// cell and every standing flag takes its end-game form.
    pub fn reveal_all(&mut self)
        requires
            old(self).wf(),
        ensures
            final(self).wf(),
            final(self).spec_coords() == old(self).spec_coords(),
            final(self).spec_cells().len() == old(self).spec_cells().len(),
            final(self).spec_cells() == spec_reveal_all_seq(old(self).spec_cells()),
    {
        let ghost orig = *self;
        let n = self.cells.len();
        let mut k: usize = 0;
        while k < n
            invariant
                self.coords == orig.coords,
                n == self.cells@.len(),
                orig.cells@.len() == n,
                0 <= k <= n,
                forall|i: int| 0 <= i < k ==> self.cells@[i] == spec_reveal(orig.cells@[i]),
                forall|i: int| k <= i < n ==> self.cells@[i] == orig.cells@[i],
            decreases n - k,
        {
            let c = self.cells[k];
            match c.status {
                Status::Covered => {
                    self.cells[k] = Cell { content: c.content, status: Status::EndGameCovered };
                },
                Status::MarkedBy(uid) => {
                    self.cells[k] = Cell {
                        content: c.content,
                        status: Status::EndGameMarkedBy(uid),
                    };
                },
                _ => {},
            }
            k += 1;
        }
        proof {
            assert(self.spec_cells() =~= spec_reveal_all_seq(orig.spec_cells()));
        }
    }

    /// A snapshot of the whole board, one update per cell in index order.
    pub fn all(&self) -> (r: CellUpdates)
        requires
            self.wf(),
        ensures
            r.0@ == spec_all_updates(self.spec_cells(), self.spec_coords()),
    {
        let n = self.cells.len();
        let mut out: Vec<CellUpdate> = Vec::new();
        let mut k: usize = 0;
        while k < n
            invariant
                self.wf(),
                n == self.spec_cells().len(),
                0 <= k <= n,
                out@.len() == k,
                forall|i: int|
                    0 <= i < k ==> out@[i] == (CellUpdate {
                        cell: spec_to_game(self.spec_cells()[i]),
                        coord: Coord {
                            x: self.spec_coords().spec_x(i) as u32,
                            y: self.spec_coords().spec_y(i) as u32,
                        },
                    }),
            decreases n - k,
        {
            let coord = self.coords.coord_at(k);
            let cell = game::Cell::from(self.cells[k]);
            out.push(CellUpdate { cell, coord });
            k += 1;
        }
        proof {
            assert(out@ =~= spec_all_updates(self.spec_cells(), self.spec_coords()));
        }
        CellUpdates(out)
    }

    /// Collects the indices of the clicked zero-hint cell's whole region by
    /// an explicit-frontier search: an accumulator of settled cells and a
    /// worklist of zero-hint cells still to expand from.
    fn gather_all_updated_cell_indices(&self, start: Index) -> (r: Vec<Index>)
        requires
            self.wf(),
            self.spec_coords().valid_index(start.0 as int),
            self.spec_cells()[start.0 as int].content.spec_is_empty_cell(),
        ensures
            forall|a: int, b: int|
                0 <= a < b < r@.len() ==> (#[trigger] r@[a]).0 != (#[trigger] r@[b]).0,
            forall|j: int|
                0 <= j < r@.len() ==> self.spec_coords().valid_index((#[trigger] r@[j]).0 as int)
                    && in_region(
                    self.spec_cells(),
                    self.spec_coords(),
                    start.0 as int,
                    r@[j].0 as int,
                ),
            forall|k: int|
                #[trigger] in_region(self.spec_cells(), self.spec_coords(), start.0 as int, k)
                    ==> crate::coordinations::seq_has_index(r@, k),
    {
        let g = self.coords;
        let ghost cs = self.spec_cells();
        let ghost s0 = start.0 as int;
        let size = self.cells.len();
        let mut visited: Vec<bool> = vec![false; size];
        let mut result: Vec<Index> = Vec::new();
        let mut stack: Vec<Index> = Vec::new();
        visited[start.0] = true;
        result.push(start);
        stack.push(start);
        proof {
            lemma_region_start(cs, g, s0);
            assert(result@[0].0 == start.0);
        }
        while stack.len() > 0
            invariant
                self.wf(),
                g == self.spec_coords(),
                cs == self.spec_cells(),
                size == cs.len(),
                g.valid_index(s0),
                cs[s0].content.spec_is_empty_cell(),
                visited@.len() == size,
                visited@[s0],
                forall|k: int|
                    0 <= k < size ==> ((#[trigger] visited@[k])
                        <==> crate::coordinations::seq_has_index(result@, k)),
                forall|a: int, b: int|
                    0 <= a < b < result@.len() ==> (#[trigger] result@[a]).0 != (
                    #[trigger] result@[b]).0,
                forall|j: int|
                    0 <= j < result@.len() ==> g.valid_index((#[trigger] result@[j]).0 as int)
                        && in_region(cs, g, s0, result@[j].0 as int),
                forall|j: int|
                    0 <= j < stack@.len() ==> g.valid_index((#[trigger] stack@[j]).0 as int)
                        && cs[stack@[j].0 as int].content.spec_is_empty_cell()
                        && visited@[stack@[j].0 as int] && in_region(
                        cs,
                        g,
                        s0,
                        stack@[j].0 as int,
                    ),
                forall|a: int, b: int|
                    0 <= a < b < stack@.len() ==> (#[trigger] stack@[a]).0 != (
                    #[trigger] stack@[b]).0,
                forall|k: int, n: int|
                    0 <= k < size && visited@[k] && cs[k].content.spec_is_empty_cell()
                        && !crate::coordinations::seq_has_index(stack@, k) && #[trigger]
                    g.is_neighbor(k, n) && (cs[n].content is Hint) ==> visited@[n],
            decreases count_matching(visited@, |b: bool| !b), stack@.len(),
        {
            let ghost visited0 = visited@;
            let ghost stack0 = stack@;
            let i = stack.pop().unwrap();
            proof {
                assert forall|j: int|
                    0 <= j < stack@.len() implies (#[trigger] stack@[j]).0 != i.0 by {
                    assert(stack0[j] == stack@[j]);
                    assert(stack0[stack0.len() - 1] == i);
                }
                assert forall|k: int|
                    !crate::coordinations::seq_has_index(stack@, k) && k != i.0 as int implies !crate::coordinations::seq_has_index(
                    stack0,
                    k,
                ) by {
                    if crate::coordinations::seq_has_index(stack0, k) {
                        let j = choose|j: int|
                            0 <= j < stack0.len() && (#[trigger] stack0[j]).0 == k;
                        if j < stack@.len() {
                            assert(stack@[j].0 == k);
                        } else {
                            assert(stack0[j] == i);
                        }
                    }
                }
            }
            let ns = g.neighbors_at_index(i);
            let nslen = ns.len();
            let mut m: usize = 0;
            while m < nslen
                invariant
                    self.wf(),
                    g == self.spec_coords(),
                    cs == self.spec_cells(),
                    size == cs.len(),
                    g.valid_index(s0),
                    cs[s0].content.spec_is_empty_cell(),
                    g.valid_index(i.0 as int),
                    cs[i.0 as int].content.spec_is_empty_cell(),
                    in_region(cs, g, s0, i.0 as int),
                    visited@.len() == size,
                    visited@[s0],
                    visited@[i.0 as int],
                    nslen == ns@.len(),
                    0 <= m <= nslen,
                    forall|j: int|
                        0 <= j < ns@.len() ==> g.is_neighbor(i.0 as int, (#[trigger] ns@[j]).0 as int),
                    forall|k: int|
                        #[trigger] g.is_neighbor(i.0 as int, k)
                            ==> crate::coordinations::seq_has_index(ns@, k),
                    forall|j: int|
                        0 <= j < m && ((cs[(#[trigger] ns@[j]).0 as int].content) is Hint)
                            ==> visited@[ns@[j].0 as int],
                    forall|k: int|
                        0 <= k < size ==> ((#[trigger] visited@[k])
                            <==> crate::coordinations::seq_has_index(result@, k)),
                    forall|a: int, b: int|
                        0 <= a < b < result@.len() ==> (#[trigger] result@[a]).0 != (
                        #[trigger] result@[b]).0,
                    forall|j: int|
                        0 <= j < result@.len() ==> g.valid_index((#[trigger] result@[j]).0 as int)
                            && in_region(cs, g, s0, result@[j].0 as int),
                    forall|j: int|
                        0 <= j < stack@.len() ==> g.valid_index((#[trigger] stack@[j]).0 as int)
                            && cs[stack@[j].0 as int].content.spec_is_empty_cell()
                            && visited@[stack@[j].0 as int] && in_region(
                            cs,
                            g,
                            s0,
                            stack@[j].0 as int,
                        ),
                    forall|a: int, b: int|
                        0 <= a < b < stack@.len() ==> (#[trigger] stack@[a]).0 != (
                        #[trigger] stack@[b]).0,
                    forall|j: int| 0 <= j < stack@.len() ==> (#[trigger] stack@[j]).0 != i.0,
                    forall|k: int, n: int|
                        0 <= k < size && visited@[k] && cs[k].content.spec_is_empty_cell()
                            && !crate::coordinations::seq_has_index(stack@, k) && k != i.0 as int
                            && #[trigger] g.is_neighbor(k, n) && (cs[n].content is Hint)
                            ==> visited@[n],
                    stack0.len() >= 1,
                    (visited@ =~= visited0 && stack@ == stack0.drop_last()) || count_matching(
                        visited@,
                        |b: bool| !b,
                    ) < count_matching(visited0, |b: bool| !b),
                decreases nslen - m,
            {
                let n = ns[m];
                let nidx = n.0;
                if !visited[nidx] {
                    let c = self.cells[nidx];
                    if matches!(c.content, Content::Hint(_)) {
                        proof {
                            lemma_region_step(cs, g, s0, i.0 as int, nidx as int);
                            lemma_count_update(visited@, |b: bool| !b, nidx as int, true);
                        }
                        let ghost prev_result = result@;
                        let ghost prev_stack = stack@;
                        visited[nidx] = true;
                        result.push(n);
                        if c.content.is_empty_cell() {
                            stack.push(n);
                        }
                        proof {
                            assert(result@[prev_result.len() as int].0 == nidx);
                            assert forall|k: int|
                                crate::coordinations::seq_has_index(prev_stack, k)
                                implies crate::coordinations::seq_has_index(stack@, k) by {
                                let j = choose|j: int|
                                    0 <= j < prev_stack.len() && (#[trigger] prev_stack[j]).0 == k;
                                assert(stack@[j].0 == k);
                            }
                            assert forall|k: int|
                                0 <= k < size implies ((#[trigger] visited@[k])
                                <==> crate::coordinations::seq_has_index(result@, k)) by {
                                if k == nidx as int {
                                } else {
                                    if crate::coordinations::seq_has_index(prev_result, k) {
                                        let j = choose|j: int|
                                            0 <= j < prev_result.len() && (#[trigger] prev_result[j]).0
                                                == k;
                                        assert(result@[j].0 == k);
                                    }
                                    if crate::coordinations::seq_has_index(result@, k) {
                                        let j = choose|j: int|
                                            0 <= j < result@.len() && (#[trigger] result@[j]).0 == k;
                                        assert(j < prev_result.len());
                                        assert(prev_result[j].0 == k);
                                    }
                                }
                            }
                            if cs[nidx as int].content.spec_is_empty_cell() {
                                assert(stack@[prev_stack.len() as int].0 == nidx);
                            }
                        }
                    }
                }
                m += 1;
            }
            proof {
                assert forall|k: int, n: int|
                    0 <= k < size && visited@[k] && cs[k].content.spec_is_empty_cell()
                        && !crate::coordinations::seq_has_index(stack@, k) && #[trigger]
                    g.is_neighbor(k, n) && (cs[n].content is Hint) implies visited@[n] by {
                    if k == i.0 as int {
                        let j = choose|j: int|
                            0 <= j < ns@.len() && (#[trigger] ns@[j]).0 == n;
                        assert(0 <= j < ns@.len() && ns@[j].0 == n);
                    }
                }
                lemma_count_bounds(visited@, |b: bool| !b);
                lemma_count_bounds(visited0, |b: bool| !b);
                if !(count_matching(visited@, |b: bool| !b) < count_matching(
                    visited0,
                    |b: bool| !b,
                )) {
                    assert(visited@ =~= visited0 && stack@ == stack0.drop_last());
                    assert(visited@ == visited0);
                    assert(stack@.len() == stack0.len() - 1);
                }
            }
        }
        proof {
            assert forall|k: int|
                #[trigger] in_region(cs, g, s0, k) implies crate::coordinations::seq_has_index(
                result@,
                k,
            ) by {
                let p = choose|p: Seq<int>|
                    is_zero_path(cs, g, p) && p[0] == s0 && p.last() == k && (
                    cs[k].content is Hint);
                lemma_zero_path_visited(cs, g, visited@, p);
            }
        }
        result
    }

    /// Uncovers the cell at `coord` for `uid`. A mine or a lone hint is
    /// uncovered by itself; a zero hint cascades across its whole region;
    /// an out-of-range coordinate or an already-uncovered cell does
    /// nothing. The returned updates list every newly uncovered cell.
    pub fn uncover(&mut self, coord: &Coord, uid: SessionUserID) -> (r: CellUpdates)
        requires
            old(self).wf(),
        ensures
            final(self).wf(),
            final(self).spec_coords() == old(self).spec_coords(),
            spec_uncover_rel(
                old(self).spec_cells(),
                final(self).spec_cells(),
                r.0@,
                old(self).spec_coords(),
                *coord,
                uid,
            ),
    {
        let g = self.coords;
        let ghost pre = old(self).spec_cells();
        let index = match self.coords.to_index(coord) {
            Some(index) => index,
            None => {
                return CellUpdates::none();
            },
        };
        let Index(i) = index;
        proof {
            g.lemma_coord_to_index(coord.x as int, coord.y as int);
        }
        let c = self.cells[i];
        if matches!(c.status, Status::UncoveredBy(_)) {
            return CellUpdates::none();
        }
        if !c.content.is_empty_cell() {
            let newc = Cell { content: c.content, status: Status::UncoveredBy(uid) };
            self.cells[i] = newc;
            let r = CellUpdates::one(CellUpdate { cell: game::Cell::from(newc), coord: *coord });
            proof {
                assert(r.0@ =~= seq![
                    CellUpdate { cell: spec_to_game(spec_uncovered_cell(pre[i as int], uid)), coord: *coord },
                ]);
            }
            return r;
        }
        let gathered = self.gather_all_updated_cell_indices(index);
        let ghost s0 = i as int;
        let size = self.cells.len();
        let total = gathered.len();
        let mut updates: Vec<CellUpdate> = Vec::new();
        let mut m: usize = 0;
        while m < total
            invariant
                g == self.spec_coords(),
                g.wf(),
                size == pre.len(),
                size == self.spec_cells().len(),
                size <= 0x7fff_ffff,
                pre.len() == g.spec_size(),
                g.valid_index(s0),
                total == gathered@.len(),
                0 <= m <= total,
                forall|a: int, b: int|
                    0 <= a < b < gathered@.len() ==> (#[trigger] gathered@[a]).0 != (
                    #[trigger] gathered@[b]).0,
                forall|j: int|
                    0 <= j < gathered@.len() ==> g.valid_index((#[trigger] gathered@[j]).0 as int)
                        && in_region(pre, g, s0, gathered@[j].0 as int),
                forall|k: int|
                    #[trigger] in_region(pre, g, s0, k) ==> crate::coordinations::seq_has_index(
                        gathered@,
                        k,
                    ),
                forall|k: int|
                    0 <= k < size ==> #[trigger] self.spec_cells()[k] == (
                    if crate::coordinations::seq_has_index(gathered@.take(m as int), k) {
                        spec_uncovered_cell(pre[k], uid)
                    } else {
                        pre[k]
                    }),
                updates@.len() == m,
                forall|t: int|
                    0 <= t < m ==> #[trigger] updates@[t] == (CellUpdate {
                        cell: spec_to_game(spec_uncovered_cell(pre[gathered@[t].0 as int], uid)),
                        coord: Coord {
                            x: g.spec_x(gathered@[t].0 as int) as u32,
                            y: g.spec_y(gathered@[t].0 as int) as u32,
                        },
                    }),
            decreases total - m,
        {
            let ix = gathered[m];
            let idx = ix.0;
            proof {
                assert(!crate::coordinations::seq_has_index(gathered@.take(m as int), idx as int));
                assert(self.spec_cells()[idx as int] == pre[idx as int]);
            }
            let cc = self.cells[idx];
            let newc = Cell { content: cc.content, status: Status::UncoveredBy(uid) };
            self.cells[idx] = newc;
            let ucoord = g.coord_at(idx);
            updates.push(CellUpdate { cell: game::Cell::from(newc), coord: ucoord });
            proof {
                assert(gathered@.take(m + 1).drop_last() =~= gathered@.take(m as int));
                assert(gathered@.take(m + 1)[m as int] == gathered@[m as int]);
                assert forall|k: int|
                    0 <= k < size implies #[trigger] self.spec_cells()[k] == (
                    if crate::coordinations::seq_has_index(gathered@.take(m + 1), k) {
                        spec_uncovered_cell(pre[k], uid)
                    } else {
                        pre[k]
                    }) by {
                    let t1 = gathered@.take(m + 1);
                    if crate::coordinations::seq_has_index(t1, k) {
                        let j = choose|j: int| 0 <= j < t1.len() && (#[trigger] t1[j]).0 == k;
                        if j < m {
                            assert(gathered@.take(m as int)[j].0 == k);
                        } else {
                            assert(k == idx as int);
                        }
                    } else {
                        assert(!crate::coordinations::seq_has_index(
                            gathered@.take(m as int),
                            k,
                        )) by {
                            if crate::coordinations::seq_has_index(gathered@.take(m as int), k) {
                                let j = choose|j: int|
                                    0 <= j < gathered@.take(m as int).len() && (#[trigger] gathered@.take(
                                        m as int,
                                    )[j]).0 == k;
                                assert(t1[j].0 == k);
                            }
                        }
                        assert(k != idx as int) by {
                            if k == idx as int {
                                assert(t1[m as int].0 == k);
                            }
                        }
                    }
                }
            }
            m += 1;
        }
        proof {
            assert(gathered@.take(total as int) =~= gathered@);
            let ups = updates@;
            assert forall|t: int|
                0 <= t < ups.len() implies {
                let k = spec_update_index(g, #[trigger] ups[t]);
                &&& g.valid_coord(ups[t].coord.x as int, ups[t].coord.y as int)
                &&& in_region(pre, g, s0, k)
                &&& ups[t].cell == spec_to_game(spec_uncovered_cell(pre[k], uid))
            } by {
                let ki = gathered@[t].0 as int;
                g.lemma_index_to_coord(ki);
                assert(spec_update_index(g, ups[t]) == ki);
            }
            assert forall|k: int|
                #[trigger] in_region(pre, g, s0, k) implies exists|t: int|
                0 <= t < ups.len() && spec_update_index(g, #[trigger] ups[t]) == k by {
                let j = choose|j: int| 0 <= j < gathered@.len() && (#[trigger] gathered@[j]).0 == k;
                g.lemma_index_to_coord(k);
                assert(spec_update_index(g, ups[j]) == k);
            }
            assert forall|a: int, b: int|
                0 <= a < b < ups.len() implies spec_update_index(g, #[trigger] ups[a])
                != spec_update_index(g, #[trigger] ups[b]) by {
                let ka = gathered@[a].0 as int;
                let kb = gathered@[b].0 as int;
                g.lemma_index_to_coord(ka);
                g.lemma_index_to_coord(kb);
            }
        }
        CellUpdates(updates)
    }

    /// Cycles the flag of the covered cell at `coord`: covered cells gain a
    /// flag, flags become question marks, question marks clear. Out-of-range
    /// coordinates and uncovered cells are left alone and yield no update.
    /// Must not be called once the board is frozen for the end of the round.
    pub fn toggle_mark(&mut self, coord: &Coord, uid: SessionUserID) -> (r: Option<CellUpdate>)
        requires
            old(self).wf(),
            old(self).spec_coords().valid_coord(coord.x as int, coord.y as int) ==> {
                let c =
                    old(self).spec_cells()[old(self).spec_coords().spec_index_of(
                    coord.x as int,
                    coord.y as int,
                )];
                !(c.status is EndGameCovered) && !(c.status is EndGameMarkedBy)
            },
        ensures
            final(self).wf(),
            final(self).spec_coords() == old(self).spec_coords(),
            spec_toggle_rel(
                old(self).spec_cells(),
                final(self).spec_cells(),
                r,
                old(self).spec_coords(),
                *coord,
                uid,
            ),
    {
        let index = match self.coords.to_index(coord) {
            Some(index) => index,
            None => {
                return None;
            },
        };
        let Index(index) = index;
        proof {
            self.coords.lemma_coord_to_index(coord.x as int, coord.y as int);
        }
        let c = self.cells[index];
        match c.status {
            Status::UncoveredBy(_) => None,
            Status::Covered => {
                let newc = Cell { content: c.content, status: Status::MarkedBy(uid) };
                self.cells[index] = newc;
                Some(CellUpdate { cell: game::Cell::from(newc), coord: *coord })
            },
            Status::MarkedBy(_) => {
                let newc = Cell { content: c.content, status: Status::QuestionMarkedBy(uid) };
                self.cells[index] = newc;
                Some(CellUpdate { cell: game::Cell::from(newc), coord: *coord })
            },
            Status::QuestionMarkedBy(_) => {
                let newc = Cell { content: c.content, status: Status::Covered };
                self.cells[index] = newc;
                Some(CellUpdate { cell: game::Cell::from(newc), coord: *coord })
            },
            Status::EndGameCovered | Status::EndGameMarkedBy(_) => {
                proof {
                    assert(false);
                }
                None
            },
        }
    }
}

} // verus!
