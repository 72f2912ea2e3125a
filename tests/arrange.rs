use obentou_cli::arrange::{arrange_grid, CellSize};
use obentou_cli::shape::{parse_decimal, parse_entry, parse_shape};

fn entries(list: &[&str]) -> Vec<String> {
    list.iter().map(|s| s.to_string()).collect()
}

fn rect(c: &CellSize) -> (usize, usize, usize, usize) {
    (c.get_start_row(), c.get_start_col(), c.get_height(), c.get_width())
}

fn covers(c: &CellSize, i: usize, j: usize) -> bool {
    c.get_start_row() <= i
        && i < c.get_start_row() + c.get_height()
        && c.get_start_col() <= j
        && j < c.get_start_col() + c.get_width()
}

#[test]
fn three_cards_scenario() {
    let cells = arrange_grid((50, 8), &entries(&["Note-4x4", "Note-4x2", "Note-2x4"]));
    assert_eq!(cells.len(), 3);
    assert_eq!(rect(&cells[0]), (0, 0, 4, 4));
    assert_eq!(rect(&cells[1]), (0, 4, 4, 2));
    assert_eq!(rect(&cells[2]), (4, 0, 2, 4));
    assert_eq!(cells[2].get_card_type(), "Note");
}

fn long_list() -> Vec<String> {
    entries(&[
        "Section-1x8", "Note-4x4", "Note-4x2", "Note-2x4", "Social-2x2", "Counter-1x4", "Section-1x8",
        "Social-2x2", "Social-2x4", "Link-1x4", "Link-2x4", "Album-4x4", "Section-1x8", "Photo-4x2",
        "Section-1x8",
    ])
}

#[test]
fn long_list_has_no_overlap_and_stays_in_bounds() {
    let cells = arrange_grid((50, 8), &long_list());
    assert_eq!(cells.len(), 15);
    for c in &cells {
        assert!(c.get_start_row() + c.get_height() <= 50);
        assert!(c.get_start_col() + c.get_width() <= 8);
    }
    for a in 0..cells.len() {
        for b in a + 1..cells.len() {
            for i in 0..50 {
                for j in 0..8 {
                    assert!(!(covers(&cells[a], i, j) && covers(&cells[b], i, j)));
                }
            }
        }
    }
}

#[test]
fn long_list_keeps_order_and_moves_forward() {
    let list = long_list();
    let cells = arrange_grid((50, 8), &list);
    for (k, c) in cells.iter().enumerate() {
        let (ty, shape) = list[k].split_once('-').unwrap();
        assert_eq!(c.get_card_type(), ty);
        assert_eq!(format!("{}x{}", c.get_height(), c.get_width()), shape);
    }
    for k in 1..cells.len() {
        assert!(cells[k - 1].get_start_row() <= cells[k].get_start_row());
    }
    assert_eq!(rect(&cells[0]), (0, 0, 1, 8));
    assert_eq!(rect(&cells[1]), (1, 0, 4, 4));
}

#[test]
fn floor_stops_backfilling() {
    // The 1x2 fits in row 0 beside the first card, but the floor has moved
    // to row 2 with the second card.
    let cells = arrange_grid((10, 4), &entries(&["A-2x2", "B-3x4", "C-1x2"]));
    assert_eq!(rect(&cells[0]), (0, 0, 2, 2));
    assert_eq!(rect(&cells[1]), (2, 0, 3, 4));
    assert_eq!(rect(&cells[2]), (5, 0, 1, 2));
}

#[test]
fn too_wide_shape_is_skipped() {
    let cells = arrange_grid((50, 8), &entries(&["Note-2x2", "Wide-1x9", "Note-1x1"]));
    assert_eq!(cells.len(), 2);
    assert_eq!(rect(&cells[0]), (0, 0, 2, 2));
    assert_eq!(rect(&cells[1]), (0, 2, 1, 1));
}

#[test]
fn overflow_keeps_floor() {
    // The 3x1 fits nowhere below the floor: it is dropped and the floor
    // stays on row 0.
    let cells = arrange_grid((2, 4), &entries(&["A-2x2", "B-3x1", "C-2x2"]));
    assert_eq!(cells.len(), 2);
    assert_eq!(rect(&cells[1]), (0, 2, 2, 2));
}

#[test]
fn full_grid_drops_the_rest() {
    let cells = arrange_grid((2, 2), &entries(&["A-2x2", "B-1x1"]));
    assert_eq!(cells.len(), 1);
}

#[test]
fn malformed_entries_are_skipped() {
    let cells = arrange_grid((4, 4), &entries(&["Note", "Note-2", "Note-ax2", "Note-2x", "Note-1x1"]));
    assert_eq!(cells.len(), 1);
    assert_eq!(rect(&cells[0]), (0, 0, 1, 1));
}

#[test]
fn empty_inputs() {
    assert!(arrange_grid((50, 8), &[]).is_empty());
    assert!(arrange_grid((0, 8), &entries(&["A-1x1"])).is_empty());
    assert!(arrange_grid((8, 0), &entries(&["A-1x1"])).is_empty());
}

#[test]
fn shape_codes_parse() {
    assert_eq!(parse_shape("4x2"), Some((4, 2)));
    assert_eq!(parse_shape("12x30"), Some((12, 30)));
    assert_eq!(parse_shape("4-2"), None);
    assert_eq!(parse_shape("x2"), None);
    assert_eq!(parse_shape("4x2x1"), None);
    assert_eq!(parse_shape("99999999999999999999999x1"), None);
    assert_eq!(parse_decimal("0042"), Some(42));
    assert_eq!(parse_decimal(""), None);
    assert_eq!(parse_decimal("18446744073709551616"), None);
    let (ty, h, w) = parse_entry("Photo-4x2").unwrap();
    assert_eq!((ty.as_str(), h, w), ("Photo", 4, 2));
    assert!(parse_entry("Photo4x2").is_none());
}
