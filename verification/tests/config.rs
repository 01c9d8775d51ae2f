use minesweeper::args::Config;
use minesweeper::game::{Cell, CellUpdate, CellUpdates, Stats, Updates};
use minesweeper::protocol::aggregate;

fn test_config() -> Config {
    Config {
        width: 16,
        height: 20,
        mines: 15,
        lives: 3,
    }
}

#[test]
fn config_can_be_debug_formatted() {
    let s = format!("Game starting with {:?}!", test_config());
    assert_eq!(
        &s,
        "Game starting with Config { width: 16, height: 20, mines: 15, lives: 3 }!"
    );
}

#[test]
fn config_can_be_display_formatted() {
    let s = format!("Game starting with {}!", test_config().display_string());
    assert_eq!(&s, "Game starting with Minefield: width = 16, height = 20.\nThere are 15 mines and players have a combined total of 3 lives.!");
}

fn update_at(x: u32, y: u32, mines_left: i32) -> Updates {
    Updates {
        cells: CellUpdates(vec![CellUpdate {
            coord: minesweeper::coordinations::Coord { x, y },
            cell: Cell::Mine,
        }]),
        stats: Stats {
            mines_left,
            lives_left: 3,
        },
    }
}

#[test]
fn aggregate_keeps_record_and_concatenates() {
    let mut record: Option<Updates> = None;
    aggregate(&mut record, None);
    assert!(record.is_none());
    aggregate(&mut record, Some(update_at(0, 0, 5)));
    assert_eq!(record.as_ref().unwrap().cells.0.len(), 1);
    aggregate(&mut record, None);
    assert_eq!(record.as_ref().unwrap().cells.0.len(), 1);
    assert_eq!(record.as_ref().unwrap().stats.mines_left, 5);
    // a second batch lands behind the first, and its statistics win
    aggregate(&mut record, Some(update_at(1, 1, 4)));
    let joined = record.unwrap();
    assert_eq!(joined.cells.0.len(), 2);
    assert_eq!(joined.cells.0[0].coord.x, 0);
    assert_eq!(joined.cells.0[1].coord.x, 1);
    assert_eq!(joined.stats.mines_left, 4);
}
