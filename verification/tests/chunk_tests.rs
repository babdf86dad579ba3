use tileworld::cell::Cell;
use tileworld::cell::DataError;
use tileworld::chunk::Chunk;
use tileworld::tile::Tile;

fn tile(bg: Option<u16>, fg: Option<u16>) -> Tile {
    Tile { bg, fg }
}

#[test]
fn chunksize_is_fixed() {
    assert_eq!(Chunk::chunksize(), 32);
}

#[test]
fn fresh_chunk_has_no_data() {
    let c = Chunk::new();
    assert!(!c.has_data());
    assert_eq!(c.get(0, 0, 0), None);
    assert_eq!(c.get(31, 31, 31), None);
}

#[test]
fn set_then_get_returns_last_tile() {
    let mut c = Chunk::new();
    c.set(1, 2, 3, tile(Some(7), None));
    c.set(4, 5, 6, tile(None, Some(8)));
    c.set(1, 2, 3, tile(Some(9), Some(10)));
    assert_eq!(c.get(1, 2, 3), Some(tile(Some(9), Some(10))));
    assert_eq!(c.get(4, 5, 6), Some(tile(None, Some(8))));
    assert_eq!(c.get(2, 2, 3), None);
    assert_eq!(c.get(0, 0, 0), None);
    assert!(c.has_data());
}

#[test]
fn get_out_of_grown_bounds_is_none() {
    let mut c = Chunk::new();
    c.set(0, 0, 0, tile(Some(1), None));
    assert_eq!(c.get(1, 0, 0), None);
    assert_eq!(c.get(0, 1, 0), None);
    assert_eq!(c.get(0, 0, 1), None);
}

#[test]
fn store_emits_one_row_per_populated_line() {
    let mut c = Chunk::new();
    c.set(0, 1, 2, tile(Some(3), None));
    c.set(7, 1, 2, tile(Some(4), Some(5)));
    c.set(0, 9, 2, tile(None, None));
    let mut rows: Vec<Vec<Cell>> = Vec::new();
    c.store(&mut rows, 4, 5, 6);
    assert_eq!(rows.len(), 2);
    // rows come out ordered by z, then y
    let first = &rows[0];
    assert_eq!(first.len(), 5 + 2 * 32);
    assert_eq!(first[0], Cell::Int(4));
    assert_eq!(first[1], Cell::Int(5));
    assert_eq!(first[2], Cell::Int(6));
    assert_eq!(first[3], Cell::Int(2));
    assert_eq!(first[4], Cell::Int(1));
    // x = 0 holds a tile with bg 3 and no fg
    assert_eq!(first[5], Cell::Int(3));
    assert_eq!(first[6], Cell::Str("-".to_string()));
    // x = 1 holds no tile at all
    assert_eq!(first[7], Cell::Empty);
    assert_eq!(first[8], Cell::Empty);
    // x = 7 holds bg 4, fg 5
    assert_eq!(first[5 + 14], Cell::Int(4));
    assert_eq!(first[6 + 14], Cell::Int(5));
    // the explicitly empty tile is a dash pair, not an empty pair
    let second = &rows[1];
    assert_eq!(second[3], Cell::Int(2));
    assert_eq!(second[4], Cell::Int(9));
    assert_eq!(second[5], Cell::Str("-".to_string()));
    assert_eq!(second[6], Cell::Str("-".to_string()));
}

#[test]
fn store_skips_empty_lines_entirely() {
    let mut c = Chunk::new();
    c.set(3, 4, 5, tile(Some(1), None));
    let mut rows: Vec<Vec<Cell>> = Vec::new();
    c.store(&mut rows, 0, 0, 0);
    assert_eq!(rows.len(), 1);
    for row in &rows {
        assert!(!(row[3] == Cell::Int(5) && row[4] == Cell::Int(0)));
        assert!(row[3] == Cell::Int(5) && row[4] == Cell::Int(4));
    }
    let empty = Chunk::new();
    let mut rows2: Vec<Vec<Cell>> = Vec::new();
    empty.store(&mut rows2, 0, 0, 0);
    assert_eq!(rows2.len(), 0);
}

#[test]
fn parse_row_round_trips_a_stored_line() {
    let mut c = Chunk::new();
    c.set(0, 1, 2, tile(Some(3), None));
    c.set(31, 1, 2, tile(None, Some(65535)));
    let mut rows: Vec<Vec<Cell>> = Vec::new();
    c.store(&mut rows, 4, 5, 6);
    assert_eq!(rows.len(), 1);
    let mut d = Chunk::new();
    assert_eq!(d.parse_row(&rows[0]), Ok(()));
    assert_eq!(d.get(0, 1, 2), Some(tile(Some(3), None)));
    assert_eq!(d.get(31, 1, 2), Some(tile(None, Some(65535))));
    assert_eq!(d.get(1, 1, 2), None);
    assert_eq!(d.get(0, 0, 0), None);
}

fn minimal_row(z: Cell, y: Cell) -> Vec<Cell> {
    let mut row = vec![Cell::Int(0), Cell::Int(0), Cell::Int(0), z, y];
    for _ in 0..32 {
        row.push(Cell::Empty);
        row.push(Cell::Empty);
    }
    row[5] = Cell::Int(1);
    row[6] = Cell::Str("-".to_string());
    row
}

#[test]
fn parse_row_rejects_short_rows() {
    let mut c = Chunk::new();
    let row = vec![Cell::Int(0), Cell::Int(0), Cell::Int(0), Cell::Int(1)];
    assert_eq!(c.parse_row(&row), Err(DataError::MalformedRow));
    assert!(!c.has_data());
}

#[test]
fn parse_row_rejects_non_integer_line_coordinates() {
    let mut c = Chunk::new();
    let row = minimal_row(Cell::Str("-".to_string()), Cell::Int(1));
    assert_eq!(c.parse_row(&row), Err(DataError::MalformedRow));
    let row2 = minimal_row(Cell::Int(1), Cell::Empty);
    assert_eq!(c.parse_row(&row2), Err(DataError::MalformedRow));
    assert!(!c.has_data());
}

#[test]
fn parse_row_rejects_out_of_range_line_coordinates() {
    let mut c = Chunk::new();
    let row = minimal_row(Cell::Int(32), Cell::Int(0));
    assert_eq!(c.parse_row(&row), Err(DataError::MalformedRow));
    let row2 = minimal_row(Cell::Int(0), Cell::Int(-1));
    assert_eq!(c.parse_row(&row2), Err(DataError::MalformedRow));
}

#[test]
fn parse_row_rejects_malformed_cells() {
    let mut c = Chunk::new();
    let mut row = minimal_row(Cell::Int(0), Cell::Int(0));
    row[7] = Cell::Str("x".to_string());
    assert_eq!(c.parse_row(&row), Err(DataError::MalformedCell));
    // an empty bg with a present fg is malformed too
    let mut row2 = minimal_row(Cell::Int(0), Cell::Int(0));
    row2[7] = Cell::Empty;
    row2[8] = Cell::Int(2);
    assert_eq!(c.parse_row(&row2), Err(DataError::MalformedCell));
    // nothing was written by the failed parses
    assert!(!c.has_data());
}

#[test]
fn parse_row_accepts_integer_fg_with_empty_treated_as_none() {
    let mut c = Chunk::new();
    let mut row = minimal_row(Cell::Int(4), Cell::Int(9));
    row[7] = Cell::Int(11);
    row[8] = Cell::Empty;
    assert_eq!(c.parse_row(&row), Ok(()));
    assert_eq!(c.get(0, 9, 4), Some(tile(Some(1), None)));
    assert_eq!(c.get(1, 9, 4), Some(tile(Some(11), None)));
}

#[test]
fn data_error_messages() {
    assert_eq!(DataError::MalformedRow.message(), "invalid chunk data");
    assert_eq!(DataError::MalformedCell.message(), "invalid tile entry");
}
