//! Live-editable literals: remapping positions of the original source text
//! into an edited version of it.
use vstd::prelude::*;
use similar::TextDiff;

verus! {

/// Kind of a diff operation.
#[derive(Copy, Clone, Debug, PartialEq, Eq, Structural)]
pub enum DiffTag {
    Equal,
    Delete,
    Insert,
    Replace,
}

/// A diff operation: the range `old_start..old_end` of the old text becomes
/// the range `new_start..new_end` of the new text.
#[derive(Copy, Clone, Debug, PartialEq, Eq, Structural)]
pub struct DiffOpRanges {
    pub tag: DiffTag,
    pub old_start: usize,
    pub old_end: usize,
    pub new_start: usize,
    pub new_end: usize,
}

/// The operations of the character diff that `similar` computes between two
/// texts.
pub uninterp spec fn char_diff(old: Seq<char>, new: Seq<char>) -> Seq<DiffOpRanges>;

/// The operations of `similar::TextDiff::from_chars(old, new)`, each taken
/// with `as_tag_tuple()`.
///
/// Trusted: the diff has no deadline, so it depends on the two texts alone;
/// the result is the named value `char_diff(old, new)`.
#[verifier::external_body]
fn diff_chars(old: &str, new: &str) -> (ops: Vec<DiffOpRanges>)
    ensures
        ops@ == char_diff(old@, new@),
{
    TextDiff::from_chars(old, new)
        .ops()
        .iter()
        .map(|op| {
            let (tag, old_range, new_range) = op.as_tag_tuple();
            let tag = match tag {
                similar::DiffTag::Equal => DiffTag::Equal,
                similar::DiffTag::Delete => DiffTag::Delete,
                similar::DiffTag::Insert => DiffTag::Insert,
                similar::DiffTag::Replace => DiffTag::Replace,
            };
            DiffOpRanges { tag, old_start: old_range.start, old_end: old_range.end, new_start: new_range.start, new_end: new_range.end }
        })
        .collect()
}

/// Whether the old range of `op` holds `pos`.
pub open spec fn old_contains(op: DiffOpRanges, pos: usize) -> bool {
    op.old_start <= pos < op.old_end
}

/// Length of the new range of `op`.
pub open spec fn new_len(op: DiffOpRanges) -> int {
    if op.new_end >= op.new_start {
        op.new_end - op.new_start
    } else {
        0
    }
}

/// Where `pos` of the old text lands by the operation `op` whose old range holds it.
pub open spec fn map_by(op: DiffOpRanges, pos: usize) -> (DiffTag, Option<usize>) {
    match op.tag {
        DiffTag::Equal => (DiffTag::Equal, Some((pos - op.old_start + op.new_start) as usize)),
        DiffTag::Replace => if pos - op.old_start < new_len(op) {
            (DiffTag::Replace, Some((pos - op.old_start + op.new_start) as usize))
        } else {
            (DiffTag::Replace, None)
        },
        _ => (DiffTag::Delete, None),
    }
}

/// Where `pos` of the old text lands: by the first operation from `k` on whose
/// old range holds it; a position that no operation holds was deleted.
pub open spec fn spec_map_position(diff: Seq<DiffOpRanges>, pos: usize, k: int) -> (DiffTag, Option<usize>)
    decreases diff.len() - k,
{
    if k < 0 || k >= diff.len() {
        (DiffTag::Delete, None)
    } else if old_contains(diff[k], pos) {
        map_by(diff[k], pos)
    } else {
        spec_map_position(diff, pos, k + 1)
    }
}

/// When mapping through an operation stays within `usize`.
pub open spec fn op_in_range(op: DiffOpRanges) -> bool {
    op.new_start + (op.old_end - op.old_start) <= usize::MAX
}

/// Maps the position `pos` of the old text to the new text.
pub fn map_position(diff: &[DiffOpRanges], pos: usize) -> (r: (DiffTag, Option<usize>))
    requires
        forall|i: int| 0 <= i < diff@.len() ==> op_in_range(#[trigger] diff@[i]),
    ensures
        r == spec_map_position(diff@, pos, 0),
{
    let mut k: usize = 0;
    while k < diff.len()
        invariant
            k <= diff@.len(),
            forall|i: int| 0 <= i < diff@.len() ==> op_in_range(#[trigger] diff@[i]),
            spec_map_position(diff@, pos, 0) == spec_map_position(diff@, pos, k as int),
        decreases diff@.len() - k,
    {
        let op = diff[k];
        if op.old_start <= pos && pos < op.old_end {
            match op.tag {
                DiffTag::Equal => return (DiffTag::Equal, Some(pos - op.old_start + op.new_start)),
                DiffTag::Replace => {
                    let offset = pos - op.old_start;
                    let len = if op.new_end >= op.new_start {
                        op.new_end - op.new_start
                    } else {
                        0
                    };
                    if offset < len {
                        return (DiffTag::Replace, Some(offset + op.new_start));
                    } else {
                        return (DiffTag::Replace, None);
                    }
                },
                // an insertion holds no old position
                _ => return (DiffTag::Delete, None),
            }
        }
        k = k + 1;
    }
    (DiffTag::Delete, None)
}

/// The new range of the old range `start..end`: the new positions of both
/// ends, when neither was removed and they delimit a non-empty range.
pub open spec fn spec_remapped_range(diff: Seq<DiffOpRanges>, start: usize, end: usize) -> Option<(usize, usize)> {
    match (spec_map_position(diff, start, 0).1, spec_map_position(diff, end, 0).1) {
        (Some(s), Some(e)) => if e > s {
            Some((s, e))
        } else {
            None
        },
        _ => None,
    }
}

/// Whether every operation maps within `usize`.
pub fn ops_in_range(diff: &[DiffOpRanges]) -> (r: bool)
    ensures
        r == forall|i: int| 0 <= i < diff@.len() ==> op_in_range(#[trigger] diff@[i]),
{
    let mut k: usize = 0;
    while k < diff.len()
        invariant
            k <= diff@.len(),
            forall|i: int| 0 <= i < k ==> op_in_range(#[trigger] diff@[i]),
        decreases diff@.len() - k,
    {
        let op = diff[k];
        if op.old_end >= op.old_start && op.new_start > usize::MAX - (op.old_end - op.old_start) {
            assert(!op_in_range(diff@[k as int]));
            return false;
        }
        k = k + 1;
    }
    true
}

/// The original text of a source file, its current text, and the character
/// diff between them.
pub struct SourceText {
    original: String,
    current: String,
    diff: Vec<DiffOpRanges>,
}

impl SourceText {
    /// The original text.
    pub closed spec fn original(&self) -> Seq<char> {
        self.original@
    }

    /// The current text.
    pub closed spec fn current(&self) -> Seq<char> {
        self.current@
    }

    /// The diff from the original text to the current one.
    pub closed spec fn diff(&self) -> Seq<DiffOpRanges> {
        self.diff@
    }

    /// A source whose current text is its original text, with no diff yet.
    pub fn new(original: String) -> (t: SourceText)
        ensures
            t.original() == original@,
            t.current() == original@,
            t.diff() == Seq::<DiffOpRanges>::empty(),
    {
        let current = original.clone();
        SourceText { original, current, diff: Vec::new() }
    }

    /// Records a new current text, and diffs it against the original.
    pub fn update(&mut self, current: String)
        ensures
            final(self).original() == old(self).original(),
            final(self).current() == current@,
            final(self).diff() == char_diff(old(self).original(), current@),
    {
        self.diff = diff_chars(self.original.as_str(), current.as_str());
        self.current = current;
    }

    /// The range of the current text that the original range `start..end`
    /// became; `None` when it no longer exists, or when a diff operation
    /// would map a position beyond `usize`.
    pub fn remapped_range(&self, start: usize, end: usize) -> (r: Option<(usize, usize)>)
        ensures
            (forall|i: int| 0 <= i < self.diff().len() ==> op_in_range(#[trigger] self.diff()[i]))
                ==> r == spec_remapped_range(self.diff(), start, end),
            !(forall|i: int| 0 <= i < self.diff().len() ==> op_in_range(#[trigger] self.diff()[i])) ==> r is None,
    {
        if !ops_in_range(self.diff.as_slice()) {
            return None;
        }
        let (_, new_start) = map_position(self.diff.as_slice(), start);
        let (_, new_end) = map_position(self.diff.as_slice(), end);
        match (new_start, new_end) {
            (Some(s), Some(e)) => if e > s {
                Some((s, e))
            } else {
                None
            },
            _ => None,
        }
    }
}

/// The position of the first line feed in `text` at or after `from`, or the
/// length of `text` if there is none.
pub open spec fn next_line_feed(text: Seq<u8>, from: int) -> int
    decreases text.len() - from,
{
    if from >= text.len() {
        text.len() as int
    } else if text[from] == 10u8 {
        from
    } else {
        next_line_feed(text, from + 1)
    }
}

/// Where line `k` of `text` starts (counting from 0); `text.len()` where
/// `text` has no such line. A line ends at a line feed; the text after the
/// last line feed is a line if it is not empty.
pub open spec fn line_start(text: Seq<u8>, k: nat) -> int
    decreases k,
{
    if k == 0 {
        0
    } else {
        let p = line_start(text, (k - 1) as nat);
        if p >= text.len() {
            text.len() as int
        } else {
            let feed = next_line_feed(text, p);
            if feed == text.len() {
                text.len() as int
            } else {
                feed + 1
            }
        }
    }
}

/// Where the contents of the line starting at `start` end: before its line
/// feed, and before a carriage return just before that line feed.
pub open spec fn line_end(text: Seq<u8>, start: int) -> int {
    let feed = next_line_feed(text, start);
    if feed < text.len() && feed > start && text[feed - 1] == 13u8 {
        feed - 1
    } else {
        feed
    }
}

/// Whether the byte at `i` of `text` starts a character (it is not a
/// continuation byte of UTF-8).
pub open spec fn starts_char(text: Seq<u8>, i: int) -> bool {
    !(0x80 <= text[i] && text[i] < 0xC0)
}

/// The byte offset in `text` of column `column` of line `line` (both
/// counted from 1), where the line has such a column at a character boundary.
pub open spec fn spec_byte_offset(text: Seq<u8>, line: u32, column: u32) -> Option<usize> {
    let s = line_start(text, (line - 1) as nat);
    let e = line_end(text, s);
    let col = column - 1;
    if s < text.len() && col <= e - s && (col == 0 || col == e - s || starts_char(text, s + col)) {
        Some((s + col) as usize)
    } else {
        None
    }
}

/// The first line feed of `text` at or after `from`.
fn find_line_feed(text: &[u8], from: usize) -> (r: usize)
    requires
        from <= text@.len(),
    ensures
        r == next_line_feed(text@, from as int),
        from <= r <= text@.len(),
{
    let mut i = from;
    while i < text.len()
        invariant
            from <= i <= text@.len(),
            next_line_feed(text@, from as int) == next_line_feed(text@, i as int),
        decreases text@.len() - i,
    {
        if text[i] == 10u8 {
            return i;
        }
        i = i + 1;
    }
    i
}

/// Returns the byte offset in `text` for the specified line and column
/// positions (both counted from 1), where the line exists and the column
/// falls on a character boundary of it.
pub fn compute_byte_offset(text: &[u8], line: u32, column: u32) -> (r: Option<usize>)
    requires
        line > 0,
        column > 0,
    ensures
        r == spec_byte_offset(text@, line, column),
{
    let mut start: usize = 0;
    let mut k: u32 = 0;
    while k < line - 1
        invariant
            0 <= k <= line - 1,
            start <= text@.len(),
            start == line_start(text@, k as nat),
        decreases line - 1 - k,
    {
        if start < text.len() {
            let feed = find_line_feed(text, start);
            if feed == text.len() {
                start = text.len();
            } else {
                start = feed + 1;
            }
        }
        k = k + 1;
    }
    if start >= text.len() {
        return None;
    }
    let feed = find_line_feed(text, start);
    let end = if feed < text.len() && feed > start && text[feed - 1] == 13u8 {
        feed - 1
    } else {
        feed
    };
    let col = (column - 1) as usize;
    assert(start <= end);
    if col > end - start {
        return None;
    }
    if col == 0 || col == end - start {
        return Some(start + col);
    }
    let b = text[start + col];
    if 0x80u8 <= b && b < 0xC0u8 {
        None
    } else {
        Some(start + col)
    }
}

} // verus!

