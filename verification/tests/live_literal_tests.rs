use kyute::live_literal::{compute_byte_offset, map_position, ops_in_range, DiffOpRanges, DiffTag, SourceText};

fn op(tag: DiffTag, old: (usize, usize), new: (usize, usize)) -> DiffOpRanges {
    DiffOpRanges { tag, old_start: old.0, old_end: old.1, new_start: new.0, new_end: new.1 }
}

#[test]
fn map_position_through_operations() {
    let diff = vec![
        op(DiffTag::Equal, (0, 3), (0, 3)),
        op(DiffTag::Delete, (3, 5), (3, 3)),
        op(DiffTag::Insert, (5, 5), (3, 6)),
        op(DiffTag::Replace, (5, 8), (6, 7)),
        op(DiffTag::Equal, (8, 10), (7, 9)),
    ];
    assert_eq!(map_position(&diff, 1), (DiffTag::Equal, Some(1)));
    assert_eq!(map_position(&diff, 4), (DiffTag::Delete, None));
    assert_eq!(map_position(&diff, 5), (DiffTag::Replace, Some(6)));
    assert_eq!(map_position(&diff, 6), (DiffTag::Replace, None));
    assert_eq!(map_position(&diff, 9), (DiffTag::Equal, Some(8)));
    assert_eq!(map_position(&diff, 10), (DiffTag::Delete, None));
    assert!(ops_in_range(&diff));
    assert!(!ops_in_range(&[op(DiffTag::Equal, (0, 2), (usize::MAX, usize::MAX))]));
}

#[test]
fn source_text_remaps_literal_ranges() {
    let mut src = SourceText::new("let x = 10;".to_string());
    assert_eq!(src.remapped_range(8, 10), None);
    src.update("let x = 10;".to_string());
    assert_eq!(src.remapped_range(8, 10), Some((8, 10)));
    src.update("let  x = 10;".to_string());
    assert_eq!(src.remapped_range(8, 10), Some((9, 11)));
    src.update("let x = ;".to_string());
    assert_eq!(src.remapped_range(8, 10), None);
}

fn byte_offset_by_lines(text: &str, line: u32, column: u32) -> Option<usize> {
    let l = text.lines().nth((line - 1) as usize)?;
    let col = (column - 1) as usize;
    if l.is_char_boundary(col) {
        Some(l.as_ptr() as usize - text.as_ptr() as usize + col)
    } else {
        None
    }
}

#[test]
fn byte_offsets_of_line_and_column() {
    let text = "ab\ncd\r\nx\u{e9}\n";
    assert_eq!(compute_byte_offset(text.as_bytes(), 1, 1), Some(0));
    assert_eq!(compute_byte_offset(text.as_bytes(), 1, 3), Some(2));
    assert_eq!(compute_byte_offset(text.as_bytes(), 1, 4), None);
    assert_eq!(compute_byte_offset(text.as_bytes(), 2, 1), Some(3));
    assert_eq!(compute_byte_offset(text.as_bytes(), 2, 3), Some(5));
    assert_eq!(compute_byte_offset(text.as_bytes(), 2, 4), None);
    assert_eq!(compute_byte_offset(text.as_bytes(), 3, 2), Some(8));
    assert_eq!(compute_byte_offset(text.as_bytes(), 3, 3), None);
    assert_eq!(compute_byte_offset(text.as_bytes(), 3, 4), Some(10));
    assert_eq!(compute_byte_offset(text.as_bytes(), 4, 1), None);
    for t in ["", "\n", "a", "a\n\nb", "\r\n\r\n", "x\ry\n", "\u{e9}\u{e9}\nz", "one\ntwo\r\nthree"] {
        for line in 1..6u32 {
            for column in 1..8u32 {
                assert_eq!(
                    compute_byte_offset(t.as_bytes(), line, column),
                    byte_offset_by_lines(t, line, column),
                    "{:?} {} {}",
                    t,
                    line,
                    column
                );
            }
        }
    }
}
