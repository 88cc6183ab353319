use kyute::layout::grid::{line_index, Line, LineRange, NamedLines};

fn names() -> NamedLines {
    let mut n = NamedLines::new();
    n.insert("header".to_string(), 1);
    n.insert("footer".to_string(), 4);
    n
}

#[test]
fn line_index_resolves_negative_indices() {
    assert_eq!(line_index(2, 5), 2);
    assert_eq!(line_index(-1, 5), 4);
    assert_eq!(line_index(-5, 5), 0);
    // beyond the first line: clamped to 0
    assert_eq!(line_index(-6, 5), 0);
}

#[test]
fn named_lines_later_names_win() {
    let mut n = names();
    assert_eq!(n.get(&"header".to_string()), Some(1));
    assert_eq!(n.get(&"nothing".to_string()), None);
    n.insert("header".to_string(), 3);
    assert_eq!(n.get(&"header".to_string()), Some(3));
    assert_eq!(n.get(&"footer".to_string()), Some(4));
}

#[test]
fn resolve_index_ranges() {
    let n = names();
    let r = LineRange::from(1..3);
    assert_eq!(r.resolve(&n, 6), (Some(1), 2));
    let r = LineRange { start: Line::Index(0), end: Line::Index(-1) };
    assert_eq!(r.resolve(&n, 6), (Some(0), 5));
}

#[test]
fn resolve_spans() {
    let n = names();
    // X / span Y
    let r = LineRange { start: Line::Index(2), end: Line::Span(3) };
    assert_eq!(r.resolve(&n, 6), (Some(2), 3));
    // span X / Y
    let r = LineRange { start: Line::Span(2), end: Line::Index(5) };
    assert_eq!(r.resolve(&n, 6), (Some(3), 2));
    // span X alone: placed by the flow
    let r = LineRange { start: Line::Span(2), end: Line::Auto };
    assert_eq!(r.resolve(&n, 6), (None, 2));
    // two spans are invalid
    let r = LineRange { start: Line::Span(2), end: Line::Span(3) };
    assert_eq!(r.resolve(&n, 6), (None, 1));
}

#[test]
fn resolve_auto_and_named() {
    let n = names();
    assert_eq!(LineRange::default().resolve(&n, 6), (None, 1));
    let r = LineRange { start: Line::Auto, end: Line::Index(3) };
    assert_eq!(r.resolve(&n, 6), (Some(2), 1));
    let r = LineRange { start: Line::Named("header".to_string()), end: Line::Named("footer".to_string()) };
    assert_eq!(r.resolve(&n, 6), (Some(1), 3));
    let r = LineRange { start: Line::Named("missing".to_string()), end: Line::Auto };
    assert_eq!(r.resolve(&n, 6), (None, 1));
    let r = LineRange { start: Line::Index(2), end: Line::Auto };
    assert_eq!(r.resolve(&n, 6), (Some(2), 1));
}

#[test]
fn conversions() {
    assert_eq!(Line::from(3), Line::Index(3));
    assert_eq!(Line::from("a"), Line::Named("a".to_string()));
    assert_eq!(Line::default(), Line::Auto);
    assert_eq!(LineRange::from(Line::Index(2)), LineRange { start: Line::Index(2), end: Line::Span(1) });
    assert_eq!(LineRange::from(4i32), LineRange { start: Line::Index(4), end: Line::Span(1) });
    assert_eq!(LineRange::from(4usize), LineRange { start: Line::Index(4), end: Line::Span(1) });
    assert_eq!(LineRange::from(1usize..3), LineRange { start: Line::Index(1), end: Line::Index(3) });
    assert_eq!(LineRange::from(-2..-1), LineRange { start: Line::Index(-2), end: Line::Index(-1) });
}
