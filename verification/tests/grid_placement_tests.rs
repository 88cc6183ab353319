use kyute::layout::grid::{Area, FlowCursor, FlowDirection, Grid, GridItem, Line, LineRange, TrackAxis};

fn area(row: LineRange, column: LineRange) -> Area {
    Area { row, column }
}

fn auto() -> LineRange {
    LineRange::default()
}

fn insert(grid: &mut Grid<u8, &'static str>, at: Area, name: &'static str) {
    let mut c = grid.flow_cursor();
    c.place(grid, &at, 1, name);
    grid.end_flow(c);
}

fn positions(grid: &Grid<u8, &'static str>) -> Vec<(&'static str, usize, usize, usize, usize)> {
    (0..grid.item_count())
        .map(|i| {
            let it = grid.item(i);
            (it.widget, it.row_range.start, it.row_range.end, it.column_range.start, it.column_range.end)
        })
        .collect()
}

#[test]
fn auto_flow_fills_rows() {
    let mut g: Grid<u8, &'static str> = Grid::with_template(vec![], vec![1, 1, 1], vec![], vec![], 0, 0);
    for name in ["a", "b", "c", "d"] {
        insert(&mut g, area(auto(), auto()), name);
    }
    assert_eq!(
        positions(&g),
        vec![("a", 0, 1, 0, 1), ("b", 0, 1, 1, 2), ("c", 0, 1, 2, 3), ("d", 1, 2, 0, 1)]
    );
    // implicit rows were added as needed
    assert_eq!(g.row_count(), 2);
    assert_eq!(g.column_count(), 3);
}

#[test]
fn single_row_grid_fills_columns() {
    let mut g: Grid<u8, &'static str> = Grid::row(5, 0, 9);
    insert(&mut g, area(auto(), auto()), "a");
    insert(&mut g, area(auto(), auto()), "b");
    assert_eq!(positions(&g), vec![("a", 0, 1, 0, 1), ("b", 0, 1, 1, 2)]);
    assert_eq!(g.column_count(), 2);
}

#[test]
fn definite_positions_and_spans() {
    let mut g: Grid<u8, &'static str> = Grid::new(0, 0);
    insert(&mut g, area(LineRange::from(1..3), LineRange::from(2)), "x");
    assert_eq!(positions(&g), vec![("x", 1, 3, 2, 3)]);
    assert_eq!(g.row_count(), 3);
    assert_eq!(g.column_count(), 3);
    // row given, column left to packing: first column
    insert(&mut g, area(LineRange::from(0), auto()), "y");
    assert_eq!(positions(&g)[1], ("y", 0, 1, 0, 1));
}

#[test]
fn named_lines_from_template() {
    let mut g: Grid<u8, &'static str> =
        Grid::with_template(vec![1, 1, 1], vec![1, 1], vec![(1, "top".to_string())], vec![(2, "right".to_string())], 0, 0);
    insert(
        &mut g,
        area(
            LineRange { start: Line::Named("top".to_string()), end: Line::Span(2) },
            LineRange { start: Line::Index(0), end: Line::Named("right".to_string()) },
        ),
        "n",
    );
    assert_eq!(positions(&g), vec![("n", 1, 3, 0, 2)]);
}

#[test]
fn grid_line_items_need_one_more_line() {
    let mut g: Grid<u8, &'static str> = Grid::new(0, 0);
    let mut c = g.flow_cursor();
    c.place_helper(&mut g, 0, 0, 0, 2, 1, "line");
    // on a grid line: N+1 lines for N tracks, so 2 column lines need only one column
    assert_eq!(g.column_count(), 1);
    assert_eq!(g.row_count(), 0);
}

#[test]
fn items_are_ordered_by_z() {
    let mut g: Grid<u8, &'static str> = Grid::new(0, 0);
    let c = g.flow_cursor();
    c.place_helper(&mut g, 0, 1, 0, 1, 5, "high");
    c.place_helper(&mut g, 0, 1, 0, 1, 1, "low");
    c.place_helper(&mut g, 0, 1, 0, 1, 5, "high2");
    c.place_helper(&mut g, 0, 1, 0, 1, 3, "mid");
    let order: Vec<&str> = (0..g.item_count()).map(|i| g.item(i).widget).collect();
    assert_eq!(order, vec!["low", "mid", "high", "high2"]);
    assert_eq!(g.items_in_track(TrackAxis::Row, 0), vec![0, 1, 2, 3]);
    assert!(g.items_in_track(TrackAxis::Column, 1).is_empty());
}

#[test]
fn cursor_align_and_next() {
    let mut c = FlowCursor { row: 0, column: 2, row_len: 4, flow: FlowDirection::Row };
    c.align(3);
    assert_eq!((c.row, c.column), (0, 3));
    c.align(1);
    assert_eq!((c.row, c.column), (1, 1));
    assert_eq!(c.next(1, 2), (1, 1));
    assert_eq!((c.row, c.column), (1, 3));
    assert_eq!(c.next(2, 1), (1, 3));
    assert_eq!((c.row, c.column), (3, 0));
}

#[test]
fn grid_item_tracks() {
    let it = GridItem { row_range: 1..3, column_range: 0..1, z_order: 0, widget: () };
    assert!(it.is_in_track(TrackAxis::Row, 1));
    assert!(!it.is_in_track(TrackAxis::Row, 2));
    assert!(it.is_in_track(TrackAxis::Column, 0));
    let line = GridItem { row_range: 1..1, column_range: 0..1, z_order: 0, widget: () };
    assert!(!line.is_in_track(TrackAxis::Row, 1));
}

#[test]
fn column_grid_and_flow_switch() {
    let mut g: Grid<u8, &'static str> = Grid::column(7, 0, 0);
    assert_eq!(g.column_count(), 1);
    g.set_auto_flow(FlowDirection::Column);
    let c = g.flow_cursor();
    assert_eq!(c.flow, FlowDirection::Column);
    assert_eq!(c.row_len, 0);
    let a = Area::default();
    assert_eq!(a.row, LineRange::default());
}
