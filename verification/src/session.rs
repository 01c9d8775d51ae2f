//! The authoritative session: a field plus the round's mine and life
//! totals, deriving win or loss, freezing the board the instant the round
//! ends, and answering every uncover or flag request.

use vstd::prelude::*;

use crate::coordinations::{Coord, Coordinations};
use crate::field;
use crate::field::{Cell, Field, Progress};
use crate::game::{CellUpdate, CellUpdates, Lives, Mines, SessionUserID, Stats, Status, UserStats};

verus! {

/// The status a session derives from its cached tallies: the round is lost
/// the instant the shared lives run out, and won the instant no covered
/// cell and no unflagged, unexploded mine remains.
pub open spec fn spec_status_of(p: Progress, lives: u32) -> Status {
    if lives == p.exploded {
        Status::Ended { success: false }
    } else if p.remaining_mines == 0 && p.remaining_covered == 0 {
        Status::Ended { success: true }
    } else {
        Status::Playing
    }
}

/// Everything one uncover does to a session, as seen from outside: nothing
/// once the round has ended, else the field's uncover followed by a tally
/// refresh, with the full end-state snapshot replacing the triggering
/// update the instant the round ends.
pub open spec fn spec_uncover_transition(
    pre: Session,
    post: Session,
    out: Seq<CellUpdate>,
    coord: Coord,
    uid: SessionUserID,
) -> bool {
    &&& post.spec_coords() == pre.spec_coords()
    &&& post.spec_mines_total() == pre.spec_mines_total()
    &&& post.spec_lives_total() == pre.spec_lives_total()
    &&& (pre.spec_status() is Ended ==> post.spec_cells() == pre.spec_cells()
        && post.spec_progress() == pre.spec_progress() && out.len() == 0)
    &&& (pre.spec_status() is Playing ==> exists|mid: Seq<Cell>, ups: Seq<CellUpdate>|
        {
            &&& #[trigger] field::spec_uncover_rel(
                pre.spec_cells(),
                mid,
                ups,
                pre.spec_coords(),
                coord,
                uid,
            )
            &&& post.spec_progress() == field::spec_progress(mid)
            &&& if spec_status_of(field::spec_progress(mid), pre.spec_lives_total()) is Ended {
                post.spec_cells() == field::spec_reveal_all_seq(mid) && out
                    == field::spec_all_updates(post.spec_cells(), pre.spec_coords())
            } else {
                post.spec_cells() == mid && out == ups
            }
        })
}

/// Everything one flag toggle does to a session, as seen from outside.
pub open spec fn spec_toggle_transition(
    pre: Session,
    post: Session,
    out: Seq<CellUpdate>,
    coord: Coord,
    uid: SessionUserID,
) -> bool {
    &&& post.spec_coords() == pre.spec_coords()
    &&& post.spec_mines_total() == pre.spec_mines_total()
    &&& post.spec_lives_total() == pre.spec_lives_total()
    &&& (pre.spec_status() is Ended ==> post.spec_cells() == pre.spec_cells()
        && post.spec_progress() == pre.spec_progress() && out.len() == 0)
    &&& (pre.spec_status() is Playing ==> exists|mid: Seq<Cell>, up: Option<CellUpdate>|
        {
            &&& #[trigger] field::spec_toggle_rel(
                pre.spec_cells(),
                mid,
                up,
                pre.spec_coords(),
                coord,
                uid,
            )
            &&& post.spec_progress() == field::spec_progress(mid)
            &&& if spec_status_of(field::spec_progress(mid), pre.spec_lives_total()) is Ended {
                post.spec_cells() == field::spec_reveal_all_seq(mid) && out
                    == field::spec_all_updates(post.spec_cells(), pre.spec_coords())
            } else {
                post.spec_cells() == mid && (match up {
                    Some(u) => out == seq![u],
                    None => out.len() == 0,
                })
            }
        })
}

/// One click of either kind.
pub open spec fn spec_click_transition(
    pre: Session,
    post: Session,
    out: Seq<CellUpdate>,
    coord: Coord,
    uid: SessionUserID,
    left: bool,
) -> bool {
    if left {
        spec_uncover_transition(pre, post, out, coord, uid)
    } else {
        spec_toggle_transition(pre, post, out, coord, uid)
    }
}

/// One round's authoritative state.
pub struct Session {
    field: Field,
    mines: Mines,
    lives: Lives,
    progress: Progress,
}

impl Session {
    pub closed spec fn spec_cells(&self) -> Seq<Cell> {
        self.field.spec_cells()
    }

    pub closed spec fn spec_coords(&self) -> Coordinations {
        self.field.spec_coords()
    }

    pub closed spec fn spec_mines_total(&self) -> u32 {
        self.mines.0
    }

    pub closed spec fn spec_lives_total(&self) -> u32 {
        self.lives.0
    }

    pub closed spec fn spec_progress(&self) -> Progress {
        self.progress
    }

    pub open spec fn spec_status(&self) -> Status {
        spec_status_of(self.spec_progress(), self.spec_lives_total())
    }

    pub open spec fn spec_stats(&self) -> Stats {
        Stats {
            mines_left: (self.spec_mines_total() - self.spec_progress().total_flags
                - self.spec_progress().exploded) as i32,
            lives_left: (self.spec_lives_total() - self.spec_progress().exploded) as u32,
        }
    }

    /// The field part of well-formedness.
    pub open spec fn field_wf(&self) -> bool {
        &&& self.spec_coords().wf()
        &&& self.spec_cells().len() == self.spec_coords().spec_size()
        &&& self.spec_cells().len() <= 0x7fff_ffff
    }

    /// The session invariant: the cached exploded tally is the board's
    /// truth and never exceeds the lives, the cached flag and explosion
    /// tallies fit the board, the mine total fits the statistics
    /// arithmetic, and the board is frozen only once the round has ended.
    pub open spec fn wf(&self) -> bool {
        &&& self.field_wf()
        &&& self.spec_mines_total() <= 0x7fff_ffff
        &&& self.spec_progress().exploded == field::spec_exploded(self.spec_cells())
        &&& self.spec_progress().exploded <= self.spec_lives_total()
        &&& self.spec_progress().total_flags + self.spec_progress().exploded
            <= self.spec_cells().len()
        &&& (self.spec_status() is Playing ==> field::spec_no_endgame(self.spec_cells()))
    }

    /// Opens a round: a fresh random board, every cell covered, and a
    /// cached progress that cannot yet count as finished.
    pub fn new(coords: Coordinations, mines: Mines, lives: Lives) -> (r: Self)
        requires
            coords.wf(),
            coords.spec_size() <= 0x7fff_ffff,
            (mines.0 as int) < coords.spec_size(),
        ensures
            r.wf(),
            r.spec_coords() == coords,
            r.spec_mines_total() == mines.0,
            r.spec_lives_total() == lives.0,
            forall|i: int|
                0 <= i < r.spec_cells().len() ==> (#[trigger] r.spec_cells()[i]).status
                    == field::Status::Covered,
            field::count_matching(r.spec_cells(), |c: Cell| field::spec_cell_is_mine(c))
                == mines.0 as int,
            field::spec_hints_consistent(r.spec_cells(), coords),
            r.spec_progress() == (Progress {
                remaining_covered: 1,
                remaining_mines: 0,
                exploded: 0,
                total_flags: 0,
            }),
    {
        // the placeholder keeps a new round from counting as finished
        // before the first real tally
        let progress = Progress {
            remaining_covered: 1,
            remaining_mines: 0,
            exploded: 0,
            total_flags: 0,
        };
        let field = Field::new(coords, mines);
        proof {
            field::lemma_count_zero(field.spec_cells(), |c: Cell| field::is_exploded(c));
        }
        Self { field, mines, lives, progress }
    }

    pub fn status(&self) -> (r: Status)
        requires
            self.wf(),
        ensures
            r == self.spec_status(),
    {
        let lives_left = self.lives.0 - self.progress.exploded;
        if lives_left == 0 {
            Status::Ended { success: false }
        } else if self.progress.remaining_mines == 0 && self.progress.remaining_covered == 0 {
            Status::Ended { success: true }
        } else {
            Status::Playing
        }
    }

    pub fn stats(&self) -> (r: Stats)
        requires
            self.wf(),
        ensures
            r == self.spec_stats(),
    {
        let lives_left = self.lives.0 - self.progress.exploded;
        let mines_left = self.mines.0 as i32 - self.progress.total_flags as i32
            - self.progress.exploded as i32;
        Stats { mines_left, lives_left }
    }

    pub fn user_stats(&self) -> (r: UserStats)
        requires
            self.wf(),
        ensures
            r.wf(),
            forall|j: int|
                0 <= j < r.0@.len() ==> field::spec_user_appears(
                    self.spec_cells(),
                    (#[trigger] r.0@[j]).0,
                ) && r.0@[j].1 == field::spec_user_stat(self.spec_cells(), r.0@[j].0),
            forall|uid: SessionUserID|
                #[trigger] field::spec_user_appears(self.spec_cells(), uid) ==> r.spec_has(uid),
    {
        self.field.user_stats()
    }

    pub fn coords(&self) -> (r: Coordinations)
        ensures
            r == self.spec_coords(),
    {
        self.field.coords()
    }

    /// The whole board as a participant sees it.
    pub fn all(&self) -> (r: CellUpdates)
        requires
            self.wf(),
        ensures
            r.0@ == field::spec_all_updates(self.spec_cells(), self.spec_coords()),
    {
        self.field.all()
    }

    /// Refreshes the cached tallies from the board and, the instant the
    /// round thereby counts as finished, freezes the board and returns the
    /// complete end-state snapshot.
    fn update_progress(&mut self) -> (r: Option<CellUpdates>)
        requires
            old(self).field_wf(),
            old(self).spec_mines_total() <= 0x7fff_ffff,
            field::spec_exploded(old(self).spec_cells()) <= old(self).spec_lives_total() as int,
            spec_status_of(
                field::spec_progress(old(self).spec_cells()),
                old(self).spec_lives_total(),
            ) is Playing ==> field::spec_no_endgame(old(self).spec_cells()),
        ensures
            final(self).wf(),
            final(self).spec_coords() == old(self).spec_coords(),
            final(self).spec_mines_total() == old(self).spec_mines_total(),
            final(self).spec_lives_total() == old(self).spec_lives_total(),
            final(self).spec_progress() == field::spec_progress(old(self).spec_cells()),
            ({
                let st = spec_status_of(
                    field::spec_progress(old(self).spec_cells()),
                    old(self).spec_lives_total(),
                );
                if st is Ended {
                    &&& r is Some
                    &&& final(self).spec_cells() == field::spec_reveal_all_seq(
                        old(self).spec_cells(),
                    )
                    &&& r->Some_0.0@ == field::spec_all_updates(
                        final(self).spec_cells(),
                        old(self).spec_coords(),
                    )
                } else {
                    r is None && final(self).spec_cells() == old(self).spec_cells()
                }
            }),
    {
        proof {
            field::lemma_count_disjoint(
                old(self).spec_cells(),
                |c: Cell| field::is_flagged(c),
                |c: Cell| field::is_exploded(c),
            );
            field::lemma_count_bounds(old(self).spec_cells(), |c: Cell| field::is_flagged(c));
            field::lemma_count_bounds(old(self).spec_cells(), |c: Cell| field::is_exploded(c));
            field::lemma_count_bounds(old(self).spec_cells(), |c: Cell| field::is_covered(c));
            field::lemma_count_implies(
                old(self).spec_cells(),
                |c: Cell| field::is_exploded(c),
                |c: Cell| field::is_unflagged_mine(c),
            );
            field::lemma_count_bounds(
                old(self).spec_cells(),
                |c: Cell| field::is_unflagged_mine(c),
            );
        }
        self.progress = self.field.progress();
        let lives_left = self.lives.0 - self.progress.exploded;
        let done = lives_left == 0 || (self.progress.remaining_mines == 0
            && self.progress.remaining_covered == 0);
        if done {
            let ghost mid = self.field.spec_cells();
            self.field.reveal_all();
            proof {
                assert forall|i: int| 0 <= i < mid.len() implies field::is_exploded(
                    #[trigger] field::spec_reveal_all_seq(mid)[i],
                ) == field::is_exploded(mid[i]) by {
                    assert(field::spec_reveal_all_seq(mid)[i] == field::spec_reveal(mid[i]));
                }
                field::lemma_count_congruence(
                    field::spec_reveal_all_seq(mid),
                    mid,
                    |c: Cell| field::is_exploded(c),
                );
            }
            Some(self.field.all())
        } else {
            None
        }
    }

    /// Uncovers a cell for `uid`. Once the round has ended this does
    /// nothing; while it is in play the field's uncover runs, the tallies
    /// are refreshed, and if the round thereby ends, the complete
    /// end-state snapshot replaces the triggering update.
    pub fn uncover(&mut self, coord: &Coord, uid: SessionUserID) -> (r: CellUpdates)
        requires
            old(self).wf(),
        ensures
            final(self).wf(),
            spec_uncover_transition(*old(self), *final(self), r.0@, *coord, uid),
    {
        if self.status().done() {
            return CellUpdates::none();
        }
        let ghost pre = self.field.spec_cells();
        let updates = self.field.uncover(coord, uid);
        let ghost mid = self.field.spec_cells();
        let ghost ups = updates.0@;
        proof {
            lemma_uncover_keeps_session_bounds(
                pre,
                mid,
                ups,
                self.spec_coords(),
                *coord,
                uid,
                self.spec_lives_total(),
                self.spec_progress(),
            );
        }
        let last_updates = self.update_progress();
        match last_updates {
            Some(last_updates) => last_updates,
            None => updates,
        }
    }

    /// Toggles the flag of a cell for `uid`. Once the round has ended this
    /// does nothing; while it is in play the field's toggle runs, the
    /// tallies are refreshed, and if the round thereby ends - the last
    /// mine flagged - the complete end-state snapshot replaces the
    /// triggering update.
    pub fn toggle_mark(&mut self, coord: &Coord, uid: SessionUserID) -> (r: CellUpdates)
        requires
            old(self).wf(),
        ensures
            final(self).wf(),
            spec_toggle_transition(*old(self), *final(self), r.0@, *coord, uid),
    {
        if self.status().done() {
            return CellUpdates::none();
        }
        let ghost pre = self.field.spec_cells();
        proof {
            if self.spec_coords().valid_coord(coord.x as int, coord.y as int) {
                self.spec_coords().lemma_coord_to_index(coord.x as int, coord.y as int);
            }
        }
        let update = self.field.toggle_mark(coord, uid);
        let ghost mid = self.field.spec_cells();
        proof {
            lemma_toggle_keeps_session_bounds(
                pre,
                mid,
                update,
                self.spec_coords(),
                *coord,
                uid,
                self.spec_lives_total(),
                self.spec_progress(),
            );
        }
        let last_updates = self.update_progress();
        match last_updates {
            Some(last_updates) => last_updates,
            None => match update {
                Some(u) => CellUpdates::one(u),
                None => CellUpdates::none(),
            },
        }
    }
}

/// After an uncover from a playing state, at most one more mine is
/// exploded, so the lives still cover the explosions; and nothing gets
/// frozen, so a board that stays in play stays unfrozen.
proof fn lemma_uncover_keeps_session_bounds(
    pre: Seq<Cell>,
    mid: Seq<Cell>,
    ups: Seq<CellUpdate>,
    g: Coordinations,
    coord: Coord,
    uid: SessionUserID,
    lives: u32,
    cached: Progress,
)
    requires
        field::spec_uncover_rel(pre, mid, ups, g, coord, uid),
        g.wf(),
        pre.len() == g.spec_size(),
        cached.exploded == field::spec_exploded(pre),
        cached.exploded <= lives,
        spec_status_of(cached, lives) is Playing,
        field::spec_no_endgame(pre),
    ensures
        field::spec_exploded(mid) <= lives as int,
        field::spec_no_endgame(mid),
        mid.len() == pre.len(),
{
    let exploded_fn = |c: Cell| field::is_exploded(c);
    if !g.valid_coord(coord.x as int, coord.y as int) {
    } else {
        g.lemma_coord_to_index(coord.x as int, coord.y as int);
        let i = g.spec_index_of(coord.x as int, coord.y as int);
        let c = pre[i];
        if c.status is UncoveredBy {
        } else if !c.content.spec_is_empty_cell() {
            let newc = field::spec_uncovered_cell(c, uid);
            field::lemma_count_update(pre, exploded_fn, i, newc);
            assert forall|k: int|
                0 <= k < mid.len() implies !((#[trigger] mid[k]).status is EndGameCovered) && !(
            mid[k].status is EndGameMarkedBy) by {
                if k != i {
                    assert(mid[k] == pre[k]);
                } else {
                    assert(mid[k] == newc);
                }
            }
        } else {
            assert forall|k: int| 0 <= k < pre.len() implies exploded_fn(#[trigger] mid[k])
                == exploded_fn(pre[k]) by {
                if field::in_region(pre, g, i, k) {
                    assert(pre[k].content is Hint);
                }
            }
            field::lemma_count_congruence(mid, pre, exploded_fn);
            assert forall|k: int|
                0 <= k < mid.len() implies !((#[trigger] mid[k]).status is EndGameCovered) && !(
            mid[k].status is EndGameMarkedBy) by {}
        }
    }
}

/// A flag toggle never touches an uncovered cell, so the exploded tally
/// stays put; and it freezes nothing.
proof fn lemma_toggle_keeps_session_bounds(
    pre: Seq<Cell>,
    mid: Seq<Cell>,
    up: Option<CellUpdate>,
    g: Coordinations,
    coord: Coord,
    uid: SessionUserID,
    lives: u32,
    cached: Progress,
)
    requires
        field::spec_toggle_rel(pre, mid, up, g, coord, uid),
        g.wf(),
        pre.len() == g.spec_size(),
        cached.exploded == field::spec_exploded(pre),
        cached.exploded <= lives,
        spec_status_of(cached, lives) is Playing,
        field::spec_no_endgame(pre),
    ensures
        field::spec_exploded(mid) <= lives as int,
        field::spec_no_endgame(mid),
        mid.len() == pre.len(),
{
    let exploded_fn = |c: Cell| field::is_exploded(c);
    if !g.valid_coord(coord.x as int, coord.y as int) {
    } else {
        g.lemma_coord_to_index(coord.x as int, coord.y as int);
        let i = g.spec_index_of(coord.x as int, coord.y as int);
        let c = pre[i];
        if c.status is UncoveredBy {
        } else {
            let newc = Cell { content: c.content, status: field::spec_toggle(c.status, uid) };
            field::lemma_count_update(pre, exploded_fn, i, newc);
            assert forall|k: int|
                0 <= k < mid.len() implies !((#[trigger] mid[k]).status is EndGameCovered) && !(
            mid[k].status is EndGameMarkedBy) by {
                if k != i {
                    assert(mid[k] == pre[k]);
                } else {
                    assert(mid[k] == newc);
                }
            }
        }
    }
}

} // verus!
