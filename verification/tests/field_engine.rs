use minesweeper::coordinations::{Coord, Coordinations};
use minesweeper::field::{Cell, Concept, Content, Field, Status};
use minesweeper::game;
use minesweeper::game::{Hint, Mines, SessionUserID};

fn create_concept() -> Concept {
    let coords = Coordinations::from_width_and_height(3, 3);
    let mines = vec![
        false, true, false, // first row
        true, true, false, // second row
        false, false, false, // third row
    ];
    Concept { mines, coords }
}

fn fixture_field() -> Field {
    let concept = create_concept();
    let coords = concept.coords;
    let cells = concept.to_cells();
    Field::new_with_cells(coords, cells)
}

#[test]
fn concept_to_cells() {
    let cells: Vec<Cell> = create_concept().to_cells();
    assert_eq!(cells.len(), 9);
    assert!(cells
        .iter()
        .all(|Cell { content: _, status }| matches!(status, Status::Covered)));
    let content = [
        Content::Hint(Hint(3)),
        Content::Mine,
        Content::Hint(Hint(2)), // first row
        Content::Mine,
        Content::Mine,
        Content::Hint(Hint(2)), // second row
        Content::Hint(Hint(2)),
        Content::Hint(Hint(2)),
        Content::Hint(Hint(1)), // third row
    ];
    let cell_content = cells.iter().map(|Cell { content, status: _ }| content);
    assert!(cell_content.zip(content.iter()).all(|(a, b)| a == b));
}

#[test]
fn uncover_nonzero_hint_reveals_only_itself() {
    let mut field = fixture_field();
    let uid = SessionUserID::new(1);
    let updates = field.uncover(&Coord { x: 2, y: 2 }, uid);
    assert_eq!(updates.0.len(), 1);
    assert_eq!(updates.0[0].coord, Coord { x: 2, y: 2 });
    assert_eq!(updates.0[0].cell, game::Cell::HintBy(Hint(1), uid));
}

#[test]
fn uncover_mine_marks_explosion() {
    let mut field = fixture_field();
    let uid = SessionUserID::new(4);
    let updates = field.uncover(&Coord { x: 1, y: 0 }, uid);
    assert_eq!(updates.0.len(), 1);
    assert_eq!(updates.0[0].coord, Coord { x: 1, y: 0 });
    assert_eq!(updates.0[0].cell, game::Cell::ExplodedBy(uid));
    // a second uncover of the same cell is a no-op
    assert_eq!(field.uncover(&Coord { x: 1, y: 0 }, uid).0.len(), 0);
}

#[test]
fn uncover_out_of_range_is_no_op() {
    let mut field = fixture_field();
    let uid = SessionUserID::new(1);
    assert_eq!(field.uncover(&Coord { x: 9, y: 9 }, uid).0.len(), 0);
    assert!(field.toggle_mark(&Coord { x: 9, y: 9 }, uid).is_none());
}

#[test]
fn uncover_zero_hint_reveals_whole_region() {
    // a 4x4 board with one mine in the far corner: every zero-hint cell
    // plus the three bordering 1-hints form one region; the mine stays out
    let coords = Coordinations::from_width_and_height(4, 4);
    let mut mines = vec![false; 16];
    mines[15] = true;
    let concept = Concept { mines, coords };
    let cells = concept.to_cells();
    let mut field = Field::new_with_cells(coords, cells);
    let uid = SessionUserID::new(2);
    let updates = field.uncover(&Coord { x: 0, y: 0 }, uid);
    assert_eq!(updates.0.len(), 15);
    assert!(updates
        .0
        .iter()
        .all(|u| !(u.coord.x == 3 && u.coord.y == 3)));
    let mut seen = vec![false; 16];
    for u in updates.0.iter() {
        let index = (u.coord.y * 4 + u.coord.x) as usize;
        assert!(!seen[index], "a cell appeared twice in one update");
        seen[index] = true;
    }
}

#[test]
fn toggle_cycles_covered_flag_question() {
    let mut field = fixture_field();
    let uid = SessionUserID::new(5);
    let c = Coord { x: 0, y: 0 };
    let u1 = field.toggle_mark(&c, uid).unwrap();
    assert_eq!(u1.cell, game::Cell::FlaggedBy(uid));
    let u2 = field.toggle_mark(&c, uid).unwrap();
    assert_eq!(u2.cell, game::Cell::QuestionMarked(uid));
    let u3 = field.toggle_mark(&c, uid).unwrap();
    assert_eq!(u3.cell, game::Cell::Covered);
    // toggling an uncovered cell returns no update
    let _ = field.uncover(&Coord { x: 2, y: 2 }, uid);
    assert!(field.toggle_mark(&Coord { x: 2, y: 2 }, uid).is_none());
}

#[test]
fn generated_board_has_exact_mine_count() {
    let coords = Coordinations::from_width_and_height(5, 4);
    let field = Field::new(coords, Mines(7));
    let progress = field.progress();
    assert_eq!(progress.remaining_covered, 20);
    assert_eq!(progress.remaining_mines, 7);
    assert_eq!(progress.exploded, 0);
    assert_eq!(progress.total_flags, 0);
}

fn stat_of(
    stats: &minesweeper::game::UserStats,
    uid: SessionUserID,
) -> minesweeper::game::UserStat {
    stats.get(uid).expect("missing participant")
}

#[test]
fn user_stats_counts_marks_and_explosions() {
    let mut field = fixture_field();
    let flagger = SessionUserID::new(1);
    let exploder = SessionUserID::new(2);
    // a correct flag on the mine at (1,0), a wrong flag on the hint (0,0)
    let _ = field.toggle_mark(&Coord { x: 1, y: 0 }, flagger);
    let _ = field.toggle_mark(&Coord { x: 0, y: 0 }, flagger);
    // an explosion at (1,1)
    let _ = field.uncover(&Coord { x: 1, y: 1 }, exploder);
    let stats = field.user_stats();
    let f = stat_of(&stats, flagger);
    assert_eq!(f.marked_correct, 1);
    assert_eq!(f.marked_incorrect, 1);
    assert_eq!(f.exploded, 0);
    let e = stat_of(&stats, exploder);
    assert_eq!(e.marked_correct, 0);
    assert_eq!(e.marked_incorrect, 0);
    assert_eq!(e.exploded, 1);
}

#[test]
fn reveal_all_freezes_covered_cells_and_flags() {
    let mut field = fixture_field();
    let uid = SessionUserID::new(1);
    let _ = field.toggle_mark(&Coord { x: 1, y: 0 }, uid);
    field.reveal_all();
    let all = field.all();
    assert_eq!(all.0.len(), 9);
    // the frozen flag stays attributed; a frozen covered mine shows as a mine
    let flagged = all
        .0
        .iter()
        .find(|u| u.coord == Coord { x: 1, y: 0 })
        .unwrap();
    assert_eq!(flagged.cell, game::Cell::FlaggedBy(uid));
    let bare_mine = all
        .0
        .iter()
        .find(|u| u.coord == Coord { x: 1, y: 1 })
        .unwrap();
    assert_eq!(bare_mine.cell, game::Cell::Mine);
    // a frozen covered hint is attributed to the system identity
    let hint = all
        .0
        .iter()
        .find(|u| u.coord == Coord { x: 2, y: 2 })
        .unwrap();
    assert_eq!(hint.cell, game::Cell::HintBy(Hint(1), minesweeper::game::system_uid()));
}
