//! Grid placement: alignment options and the resolution of grid line ranges.
use vstd::prelude::*;
use std::ops::Range;

verus! {

/// Specifies alignment along the inline axis.
#[derive(Copy, Clone, Debug, PartialEq, Eq, Hash, PartialOrd, Ord)]
pub enum JustifyItems {
    Start,
    End,
    Center,
    Stretch,
}

/// Specifies alignment along the block axis (perpendicular to the text).
#[derive(Copy, Clone, Debug, PartialEq, Eq, Hash, PartialOrd, Ord)]
pub enum AlignItems {
    Start,
    End,
    Center,
    Stretch,
    Baseline,
}

/// Direction in which items without an explicit position are placed.
#[derive(Copy, Clone, Debug, PartialEq, Eq, PartialOrd, Ord, Structural)]
pub enum FlowDirection {
    /// Fill rows first
    Row,
    /// Fill colums first
    Column,
}

/// Layout parameters of a grid (none yet).
pub struct GridLayoutParams {}

/// Identifies a particular grid line or a line span.
#[derive(Clone, Debug, PartialEq, Eq)]
pub enum Line {
    Auto,
    /// Identifies a line by its name, as defined in the grid template.
    Named(String),
    /// Identifies a line by its index; negative indices count from the last line.
    Index(i32),
    Span(usize),
}

impl Line {
    /// The automatic line.
    pub fn default() -> (l: Line)
        ensures
            l is Auto,
    {
        Line::Auto
    }
}

impl From<i32> for Line {
    fn from(p: i32) -> (l: Line) {
        Line::Index(p)
    }
}

impl vstd::std_specs::convert::FromSpecImpl<i32> for Line {
    open spec fn obeys_from_spec() -> bool {
        true
    }

    open spec fn from_spec(p: i32) -> Line {
        Line::Index(p)
    }
}

impl<'a> From<&'a str> for Line {
    fn from(s: &'a str) -> (l: Line)
        ensures
            l matches Line::Named(name) && name@ == s@,
    {
        Line::Named(s.to_owned())
    }
}

/// A line named by `s`. Two `String`s with the same characters are not known
/// to be equal values, so the name is given by its characters and `from` is
/// not held to this function (`obeys_from_spec` is false); `from` states the
/// same in its own `ensures`.
impl<'a> vstd::std_specs::convert::FromSpecImpl<&'a str> for Line {
    open spec fn obeys_from_spec() -> bool {
        false
    }

    open spec fn from_spec(s: &'a str) -> Line {
        Line::Named(choose|name: String| name@ == s@)
    }
}

/// A range of grid lines: where an item starts and where it ends (or how many
/// tracks it spans).
#[derive(Clone, Debug, PartialEq, Eq)]
pub struct LineRange {
    pub start: Line,
    pub end: Line,
}

impl LineRange {
    /// The automatic range.
    pub fn default() -> (r: LineRange)
        ensures
            r.start is Auto,
            r.end is Auto,
    {
        LineRange { start: Line::Auto, end: Line::Auto }
    }
}

impl From<Line> for LineRange {
    fn from(start: Line) -> (r: LineRange) {
        LineRange { start, end: Line::Span(1) }
    }
}

impl vstd::std_specs::convert::FromSpecImpl<Line> for LineRange {
    open spec fn obeys_from_spec() -> bool {
        true
    }

    open spec fn from_spec(start: Line) -> LineRange {
        LineRange { start, end: Line::Span(1) }
    }
}

impl From<i32> for LineRange {
    fn from(p: i32) -> (r: LineRange) {
        LineRange { start: Line::Index(p), end: Line::Span(1) }
    }
}

impl vstd::std_specs::convert::FromSpecImpl<i32> for LineRange {
    open spec fn obeys_from_spec() -> bool {
        true
    }

    open spec fn from_spec(p: i32) -> LineRange {
        LineRange { start: Line::Index(p), end: Line::Span(1) }
    }
}

impl From<usize> for LineRange {
    fn from(p: usize) -> (r: LineRange) {
        LineRange { start: Line::Index(p as i32), end: Line::Span(1) }
    }
}

impl vstd::std_specs::convert::FromSpecImpl<usize> for LineRange {
    open spec fn obeys_from_spec() -> bool {
        true
    }

    open spec fn from_spec(p: usize) -> LineRange {
        LineRange { start: Line::Index(p as i32), end: Line::Span(1) }
    }
}

impl From<Range<i32>> for LineRange {
    fn from(v: Range<i32>) -> (r: LineRange) {
        LineRange { start: Line::Index(v.start), end: Line::Index(v.end) }
    }
}

impl vstd::std_specs::convert::FromSpecImpl<Range<i32>> for LineRange {
    open spec fn obeys_from_spec() -> bool {
        true
    }

    open spec fn from_spec(v: Range<i32>) -> LineRange {
        LineRange { start: Line::Index(v.start), end: Line::Index(v.end) }
    }
}

impl From<Range<usize>> for LineRange {
    fn from(v: Range<usize>) -> (r: LineRange) {
        LineRange { start: Line::Index(v.start as i32), end: Line::Index(v.end as i32) }
    }
}

impl vstd::std_specs::convert::FromSpecImpl<Range<usize>> for LineRange {
    open spec fn obeys_from_spec() -> bool {
        true
    }

    open spec fn from_spec(v: Range<usize>) -> LineRange {
        LineRange { start: Line::Index(v.start as i32), end: Line::Index(v.end as i32) }
    }
}

/// Names given to grid lines. A later name for the same line name replaces an
/// earlier one.
pub struct NamedLines {
    entries: Vec<(String, usize)>,
}

/// The map that a list of (name, line) entries describes: later entries win.
pub open spec fn entries_map(s: Seq<(String, usize)>) -> Map<Seq<char>, usize>
    decreases s.len(),
{
    if s.len() == 0 {
        Map::empty()
    } else {
        entries_map(s.drop_last()).insert(s.last().0@, s.last().1)
    }
}

/// A key that no entry from index `i` on names is looked up in the entries
/// before `i`.
proof fn lemma_entries_map_prefix(s: Seq<(String, usize)>, i: int, k: Seq<char>)
    requires
        0 <= i <= s.len(),
        forall|j: int| i <= j < s.len() ==> s[j].0@ != k,
    ensures
        entries_map(s).dom().contains(k) == entries_map(s.take(i)).dom().contains(k),
        entries_map(s).dom().contains(k) ==> entries_map(s)[k] == entries_map(s.take(i))[k],
    decreases s.len() - i,
{
    if i < s.len() {
        assert(s.drop_last().take(i) =~= s.take(i));
        lemma_entries_map_prefix(s.drop_last(), i, k);
    } else {
        assert(s.take(i) =~= s);
    }
}

impl View for NamedLines {
    type V = Map<Seq<char>, usize>;

    closed spec fn view(&self) -> Map<Seq<char>, usize> {
        entries_map(self.entries@)
    }
}

impl NamedLines {
    /// No named lines.
    pub fn new() -> (n: NamedLines)
        ensures
            n@ == Map::<Seq<char>, usize>::empty(),
    {
        NamedLines { entries: Vec::new() }
    }

    /// Gives the name `name` to line `line`.
    pub fn insert(&mut self, name: String, line: usize)
        ensures
            final(self)@ == old(self)@.insert(name@, line),
    {
        let ghost old_entries = self.entries@;
        self.entries.push((name, line));
        assert(self.entries@.drop_last() =~= old_entries);
    }

    /// The line named `name`, if any.
    pub fn get(&self, name: &String) -> (r: Option<usize>)
        ensures
            r == (if self@.dom().contains(name@) {
                Some(self@[name@])
            } else {
                None::<usize>
            }),
    {
        let mut i = self.entries.len();
        while i > 0
            invariant
                i <= self.entries@.len(),
                forall|j: int| i <= j < self.entries@.len() ==> self.entries@[j].0@ != name@,
            decreases i,
        {
            let k = i - 1;
            if self.entries[k].0 == *name {
                proof {
                    let s = self.entries@;
                    lemma_entries_map_prefix(s, i as int, name@);
                    assert(s.take(i as int).drop_last() =~= s.take(k as int));
                }
                return Some(self.entries[k].1);
            }
            i = k;
        }
        proof {
            lemma_entries_map_prefix(self.entries@, 0, name@);
            assert(self.entries@.take(0) =~= Seq::<(String, usize)>::empty());
        }
        None
    }
}

/// The line that `index` designates among `line_count` lines: negative indices
/// count back from the end; a negative index beyond the first line gives 0.
pub open spec fn spec_line_index(index: i32, line_count: usize) -> usize {
    if index < 0 {
        if -index > line_count {
            0
        } else {
            ((line_count as i32) + index) as usize
        }
    } else {
        index as usize
    }
}

/// When `line_index` can compute its result without overflow.
pub open spec fn line_index_defined(index: i32, line_count: usize) -> bool {
    &&& index != i32::MIN
    &&& (index < 0 && -index <= line_count) ==> i32::MIN <= (line_count as i32) + index
}

/// Resolves a (possibly negative) line index among `line_count` lines.
pub fn line_index(index: i32, line_count: usize) -> (r: usize)
    requires
        line_index_defined(index, line_count),
    ensures
        r == spec_line_index(index, line_count),
{
    if index < 0 {
        if (-index) as usize > line_count {
            0
        } else {
            ((line_count as i32) + index) as usize
        }
    } else {
        index as usize
    }
}

/// The line a line reference designates, when it designates one.
pub open spec fn spec_endpoint(line: Line, names: Map<Seq<char>, usize>, line_count: usize) -> Option<usize> {
    match line {
        Line::Named(n) => if names.dom().contains(n@) {
            Some(names[n@])
        } else {
            None
        },
        Line::Index(i) => Some(spec_line_index(i, line_count)),
        _ => None,
    }
}

/// The span given by a range, if it gives one.
pub open spec fn spec_span(r: LineRange) -> Option<usize> {
    match r.start {
        Line::Span(s) => Some(s),
        _ => match r.end {
            Line::Span(s) => Some(s),
            _ => None,
        },
    }
}

/// Whether the indices of a line reference can be resolved without overflow.
pub open spec fn line_defined(line: Line, line_count: usize) -> bool {
    match line {
        Line::Index(i) => line_index_defined(i, line_count),
        _ => true,
    }
}

/// When `LineRange::resolve` is defined: its indices resolve, and its
/// subtractions do not go below zero.
pub open spec fn resolve_defined(r: LineRange, names: Map<Seq<char>, usize>, line_count: usize) -> bool {
    let start = spec_endpoint(r.start, names, line_count);
    let end = spec_endpoint(r.end, names, line_count);
    let span = spec_span(r);
    (r.start is Span && r.end is Span) || {
        &&& line_defined(r.start, line_count)
        &&& line_defined(r.end, line_count)
        &&& (start is Some && span is None && end is Some) ==> start->0 <= end->0
        &&& (start is None && span is Some && end is Some) ==> span->0 <= end->0
        &&& (start is None && span is None && end is Some) ==> 1 <= end->0
    }
}

/// The first line and the number of tracks that a range covers; the first
/// line is `None` when the item is placed by the auto-flow.
pub open spec fn spec_resolve(r: LineRange, names: Map<Seq<char>, usize>, line_count: usize) -> (Option<usize>, usize) {
    if r.start is Span && r.end is Span {
        (None, 1)
    } else {
        let start = spec_endpoint(r.start, names, line_count);
        let end = spec_endpoint(r.end, names, line_count);
        let span = spec_span(r);
        match (start, span, end) {
            (Some(s), None, Some(e)) => (Some(s), (e - s) as usize),
            (Some(s), Some(n), None) => (Some(s), n),
            (Some(s), None, None) => (Some(s), 1),
            (None, Some(n), Some(e)) => (Some((e - n) as usize), n),
            (None, None, Some(e)) => (Some((e - 1) as usize), 1),
            (None, Some(n), None) => (None, n),
            _ => (None, 1),
        }
    }
}

impl LineRange {
    /// The line a line reference designates, when it designates one.
    fn endpoint(line: &Line, named_lines: &NamedLines, line_count: usize) -> (r: Option<usize>)
        requires
            line_defined(*line, line_count),
        ensures
            r == spec_endpoint(*line, named_lines@, line_count),
    {
        match line {
            Line::Named(ident) => named_lines.get(ident),
            Line::Index(index) => Some(line_index(*index, line_count)),
            _ => None,
        }
    }

    /// Resolves the range against the named lines of a grid that has
    /// `line_count` lines: returns the first line (`None` for auto-flow) and
    /// the number of tracks spanned.
    pub fn resolve(&self, named_lines: &NamedLines, line_count: usize) -> (r: (Option<usize>, usize))
        requires
            resolve_defined(*self, named_lines@, line_count),
        ensures
            r == spec_resolve(*self, named_lines@, line_count),
    {
        if let (Line::Span(_), Line::Span(_)) = (&self.start, &self.end) {
            return (None, 1);
        }
        let start = LineRange::endpoint(&self.start, named_lines, line_count);
        let end = LineRange::endpoint(&self.end, named_lines, line_count);
        let span = match &self.start {
            Line::Span(s) => Some(*s),
            _ => match &self.end {
                Line::Span(s) => Some(*s),
                _ => None,
            },
        };
        match (start, span, end) {
            // X / Y
            (Some(start), None, Some(end)) => (Some(start), end - start),
            // X / span Y
            (Some(start), Some(span), None) => (Some(start), span),
            // X / auto
            (Some(start), None, None) => (Some(start), 1),
            // span X / Y
            (None, Some(span), Some(end)) => (Some(end - span), span),
            // auto / end
            (None, None, Some(end)) => (Some(end - 1), 1),
            // span X
            (None, Some(span), None) => (None, span),
            _ => (None, 1),
        }
    }
}

/// A negative line index counts back from the last line: -1 designates the
/// last line, and `-line_count` the first.
pub proof fn law_negative_index_counts_from_end(index: i32, line_count: usize)
    requires
        index < 0,
        -index <= line_count,
        line_count <= i32::MAX,
    ensures
        spec_line_index(index, line_count) == line_count + index,
{
    assert((line_count as i32) as int == line_count as int);
}

/// A range between two lines given by non-negative indices starts at the
/// first and spans the tracks between them.
pub proof fn law_index_range_spans_between(r: LineRange, names: Map<Seq<char>, usize>, line_count: usize, a: i32, b: i32)
    requires
        r.start == Line::Index(a),
        r.end == Line::Index(b),
        0 <= a <= b,
    ensures
        resolve_defined(r, names, line_count),
        spec_resolve(r, names, line_count) == (Some(a as usize), (b - a) as usize),
{
}

/// A range that starts at a line and gives no end spans one track.
pub proof fn law_start_only_spans_one(r: LineRange, names: Map<Seq<char>, usize>, line_count: usize, a: i32)
    requires
        r.start == Line::Index(a),
        r.end is Auto || r.end == Line::Span(1),
        a >= 0,
    ensures
        spec_resolve(r, names, line_count) == (Some(a as usize), 1usize),
{
}

/// A span given at either end of a range is the number of tracks it covers:
/// with an automatic start, the item is placed by the auto-flow over that
/// many tracks; with a start on a line, it starts there and covers that many
/// tracks; with an end on a line, it ends there.
pub proof fn law_span_counts_tracks(r: LineRange, names: Map<Seq<char>, usize>, line_count: usize, n: usize)
    ensures
        r.start is Auto && r.end == Line::Span(n) ==> spec_resolve(r, names, line_count) == (
        None::<usize>, n),
        r.start == Line::Span(n) && r.end is Auto ==> spec_resolve(r, names, line_count) == (
        None::<usize>, n),
        r.start matches Line::Index(a) ==> (a >= 0 && r.end == Line::Span(n) ==> spec_resolve(
            r,
            names,
            line_count,
        ) == (Some(a as usize), n)),
        r.end matches Line::Index(b) ==> (b >= n && r.start == Line::Span(n) ==> spec_resolve(
            r,
            names,
            line_count,
        ) == (Some((b - n) as usize), n)),
{
}

/// A range that gives only its end line covers the one track before it, and
/// a range between two named lines starts at the first and covers the tracks
/// up to the second.
pub proof fn law_end_and_named_lines(r: LineRange, names: Map<Seq<char>, usize>, line_count: usize)
    ensures
        r.start is Auto ==> (r.end matches Line::Index(b) ==> (b >= 1 ==> spec_resolve(
            r,
            names,
            line_count,
        ) == (Some((b - 1) as usize), 1usize))),
        r.start matches Line::Named(a) ==> (r.end matches Line::Named(b) ==> (names.dom().contains(
            a@,
        ) && names.dom().contains(b@) && names[a@] <= names[b@] ==> spec_resolve(
            r,
            names,
            line_count,
        ) == (Some(names[a@]), (names[b@] - names[a@]) as usize))),
{
}

/// Orientation of a grid track.
#[derive(Copy, Clone, Debug, PartialEq, Eq, Structural)]
pub enum TrackAxis {
    Row,
    Column,
}

/// An item inserted into a grid: the rows and columns it covers (an empty
/// range places it on a grid line), its z-order, and what it holds.
pub struct GridItem<W> {
    pub row_range: Range<usize>,
    pub column_range: Range<usize>,
    pub z_order: i32,
    pub widget: W,
}

impl<W> GridItem<W> {
    /// Whether the item lies in track `index` of `axis`: it starts there, and
    /// it is not a grid-line item (one with no row or no column).
    pub fn is_in_track(&self, axis: TrackAxis, index: usize) -> (r: bool)
        ensures
            r == (!(self.row_range.start >= self.row_range.end || self.column_range.start >= self.column_range.end)
                && match axis {
                TrackAxis::Row => self.row_range.start == index,
                TrackAxis::Column => self.column_range.start == index,
            }),
    {
        // "grid line" items (those with an empty row or column range) are not
        // considered to belong to any track, and don't intervene during track sizing
        if self.row_range.start >= self.row_range.end || self.column_range.start >= self.column_range.end {
            return false;
        }
        match axis {
            TrackAxis::Row => self.row_range.start == index,
            TrackAxis::Column => self.column_range.start == index,
        }
    }
}

/// Where an item goes: a range of rows and a range of columns.
pub struct Area {
    pub row: LineRange,
    pub column: LineRange,
}

/// An area resolved against a grid; `None` rows or columns are placed by the auto-flow.
#[derive(Copy, Clone, Debug, PartialEq, Eq, Structural)]
pub struct DefiniteArea {
    pub row: Option<usize>,
    pub column: Option<usize>,
    pub row_span: usize,
    pub column_span: usize,
}

/// Whether the items are in increasing z-order.
pub open spec fn sorted_by_z<W>(items: Seq<GridItem<W>>) -> bool {
    forall|i: int, j: int| 0 <= i <= j < items.len() ==> items[i].z_order <= items[j].z_order
}

/// The z-orders of the items, in order.
pub open spec fn z_orders<W>(items: Seq<GridItem<W>>) -> Seq<i32> {
    Seq::new(items.len(), |i: int| items[i].z_order)
}

/// The placement state of a grid: its track definitions (of type `T`), the
/// names of its lines, its items (holding `W`), and where the auto-flow goes on.
pub struct Grid<T, W> {
    column_definitions: Vec<T>,
    row_definitions: Vec<T>,
    items: Vec<GridItem<W>>,
    named_row_lines: NamedLines,
    named_column_lines: NamedLines,
    implicit_row_size: T,
    implicit_column_size: T,
    auto_flow_dir: FlowDirection,
    auto_flow_row: usize,
    auto_flow_col: usize,
}

impl<T: Copy, W> Grid<T, W> {
    /// The grid's items stay in increasing z-order.
    pub closed spec fn wf(&self) -> bool {
        sorted_by_z(self.items@)
    }

    /// Row track definitions.
    pub closed spec fn rows(&self) -> Seq<T> {
        self.row_definitions@
    }

    /// Column track definitions.
    pub closed spec fn columns(&self) -> Seq<T> {
        self.column_definitions@
    }

    /// The items, in increasing z-order.
    pub closed spec fn grid_items(&self) -> Seq<GridItem<W>> {
        self.items@
    }

    /// Named row lines.
    pub closed spec fn row_names(&self) -> Map<Seq<char>, usize> {
        self.named_row_lines@
    }

    /// Named column lines.
    pub closed spec fn column_names(&self) -> Map<Seq<char>, usize> {
        self.named_column_lines@
    }

    /// Definition of the rows that are added when an item needs them.
    pub closed spec fn implicit_row(&self) -> T {
        self.implicit_row_size
    }

    /// Definition of the columns that are added when an item needs them.
    pub closed spec fn implicit_column(&self) -> T {
        self.implicit_column_size
    }

    /// Auto-flow direction.
    pub closed spec fn flow(&self) -> FlowDirection {
        self.auto_flow_dir
    }

    /// Row and column where the auto-flow goes on.
    pub closed spec fn flow_position(&self) -> (usize, usize) {
        (self.auto_flow_row, self.auto_flow_col)
    }

    /// Creates a new grid, initially without any row or column definitions.
    pub fn new(implicit_row_size: T, implicit_column_size: T) -> (g: Grid<T, W>)
        ensures
            g.wf(),
            g.rows().len() == 0,
            g.columns().len() == 0,
            g.grid_items().len() == 0,
            g.row_names() == Map::<Seq<char>, usize>::empty(),
            g.column_names() == Map::<Seq<char>, usize>::empty(),
            g.implicit_row() == implicit_row_size,
            g.implicit_column() == implicit_column_size,
            g.flow() == FlowDirection::Row,
            g.flow_position() == (0usize, 0usize),
    {
        Grid {
            column_definitions: Vec::new(),
            row_definitions: Vec::new(),
            items: Vec::new(),
            named_row_lines: NamedLines::new(),
            named_column_lines: NamedLines::new(),
            implicit_row_size,
            implicit_column_size,
            auto_flow_dir: FlowDirection::Row,
            auto_flow_row: 0,
            auto_flow_col: 0,
        }
    }

    /// Creates a grid from a template: its rows and columns, the names of its
    /// lines (a later name for a line replaces an earlier one), and the
    /// definitions of implicit tracks.
    pub fn with_template(
        rows: Vec<T>,
        columns: Vec<T>,
        row_tags: Vec<(usize, String)>,
        column_tags: Vec<(usize, String)>,
        implicit_row_size: T,
        implicit_column_size: T,
    ) -> (g: Grid<T, W>)
        ensures
            g.wf(),
            g.rows() == rows@,
            g.columns() == columns@,
            g.grid_items().len() == 0,
            g.row_names() == tags_map(row_tags@),
            g.column_names() == tags_map(column_tags@),
            g.implicit_row() == implicit_row_size,
            g.implicit_column() == implicit_column_size,
            g.flow() == FlowDirection::Row,
            g.flow_position() == (0usize, 0usize),
    {
        let mut grid = Grid::new(implicit_row_size, implicit_column_size);
        grid.row_definitions = rows;
        grid.column_definitions = columns;
        grid.named_row_lines = named_lines_from_tags(row_tags);
        grid.named_column_lines = named_lines_from_tags(column_tags);
        grid
    }

    /// Creates a single-column grid.
    pub fn column(width: T, implicit_row_size: T, implicit_column_size: T) -> (g: Grid<T, W>)
        ensures
            g.wf(),
            g.columns() == seq![width],
            g.rows().len() == 0,
            g.grid_items().len() == 0,
            g.flow() == FlowDirection::Row,
            g.flow_position() == (0usize, 0usize),
    {
        let mut grid = Grid::new(implicit_row_size, implicit_column_size);
        grid.column_definitions.push(width);
        grid
    }

    /// Creates a single-row grid, filled column by column.
    pub fn row(height: T, implicit_row_size: T, implicit_column_size: T) -> (g: Grid<T, W>)
        ensures
            g.wf(),
            g.rows() == seq![height],
            g.columns().len() == 0,
            g.grid_items().len() == 0,
            g.flow() == FlowDirection::Column,
            g.flow_position() == (0usize, 0usize),
    {
        let mut grid = Grid::new(implicit_row_size, implicit_column_size);
        grid.row_definitions.push(height);
        grid.auto_flow_dir = FlowDirection::Column;
        grid
    }

    /// Sets the auto flow direction
    pub fn set_auto_flow(&mut self, flow_direction: FlowDirection)
        requires
            old(self).wf(),
        ensures
            final(self).wf(),
            final(self).flow() == flow_direction,
            final(self).rows() == old(self).rows(),
            final(self).columns() == old(self).columns(),
            final(self).grid_items() == old(self).grid_items(),
            final(self).flow_position() == old(self).flow_position(),
    {
        self.auto_flow_dir = flow_direction;
    }

    /// Returns the current number of rows
    pub fn row_count(&self) -> (n: usize)
        ensures
            n == self.rows().len(),
    {
        self.row_definitions.len()
    }

    /// Returns the current number of columns
    pub fn column_count(&self) -> (n: usize)
        ensures
            n == self.columns().len(),
    {
        self.column_definitions.len()
    }

    /// The item at `i`, in z-order.
    pub fn item(&self, i: usize) -> (r: &GridItem<W>)
        requires
            i < self.grid_items().len(),
        ensures
            *r == self.grid_items()[i as int],
    {
        &self.items[i]
    }

    /// The number of items.
    pub fn item_count(&self) -> (n: usize)
        ensures
            n == self.grid_items().len(),
    {
        self.items.len()
    }

    /// The positions of the items in track `index` of `axis`, in z-order.
    pub fn items_in_track(&self, axis: TrackAxis, index: usize) -> (r: Vec<usize>)
        ensures
            forall|k: int| 0 <= k < r@.len() ==> r@[k] < self.grid_items().len(),
            forall|k: int, l: int| 0 <= k < l < r@.len() ==> r@[k] < r@[l],
            forall|i: int| 0 <= i < self.grid_items().len() ==> (r@.contains(i as usize) <==> ({
                let it = #[trigger] self.grid_items()[i];
                !(it.row_range.start >= it.row_range.end || it.column_range.start >= it.column_range.end)
                    && match axis {
                    TrackAxis::Row => it.row_range.start == index,
                    TrackAxis::Column => it.column_range.start == index,
                }
            })),
    {
        let mut r: Vec<usize> = Vec::new();
        let mut i: usize = 0;
        while i < self.items.len()
            invariant
                i <= self.items@.len(),
                forall|k: int| 0 <= k < r@.len() ==> r@[k] < i,
                forall|k: int, l: int| 0 <= k < l < r@.len() ==> r@[k] < r@[l],
                forall|j: int| 0 <= j < i ==> (r@.contains(j as usize) <==> ({
                    let it = #[trigger] self.items@[j];
                    !(it.row_range.start >= it.row_range.end || it.column_range.start >= it.column_range.end)
                        && match axis {
                        TrackAxis::Row => it.row_range.start == index,
                        TrackAxis::Column => it.column_range.start == index,
                    }
                })),
            decreases self.items@.len() - i,
        {
            let ghost old_r = r@;
            let inside = self.items[i].is_in_track(axis, index);
            if inside {
                r.push(i);
            }
            proof {
                assert forall|j: int| 0 <= j < i + 1 implies (r@.contains(j as usize) <==> ({
                    let it = #[trigger] self.items@[j];
                    !(it.row_range.start >= it.row_range.end || it.column_range.start >= it.column_range.end)
                        && match axis {
                        TrackAxis::Row => it.row_range.start == index,
                        TrackAxis::Column => it.column_range.start == index,
                    }
                })) by {
                    if inside {
                        assert(r@ == old_r.push(i));
                        if j < i {
                            if r@.contains(j as usize) {
                                let k = choose|k: int| 0 <= k < r@.len() && r@[k] == j as usize;
                                assert(k < old_r.len());
                                assert(old_r[k] == j as usize);
                            }
                            if old_r.contains(j as usize) {
                                let k = choose|k: int| 0 <= k < old_r.len() && old_r[k] == j as usize;
                                assert(r@[k] == j as usize);
                            }
                        } else {
                            assert(r@[old_r.len() as int] == i);
                        }
                    } else {
                        if j == i && r@.contains(j as usize) {
                            let k = choose|k: int| 0 <= k < r@.len() && r@[k] == j as usize;
                            assert(r@[k] < i);
                        }
                    }
                }
            }
            i = i + 1;
        }
        r
    }
}

/// The names that a list of (line, name) tags gives: later tags win.
pub open spec fn tags_map(s: Seq<(usize, String)>) -> Map<Seq<char>, usize>
    decreases s.len(),
{
    if s.len() == 0 {
        Map::empty()
    } else {
        tags_map(s.drop_last()).insert(s.last().1@, s.last().0)
    }
}

/// Names lines after a list of (line, name) tags.
fn named_lines_from_tags(tags: Vec<(usize, String)>) -> (n: NamedLines)
    ensures
        n@ == tags_map(tags@),
{
    let mut n = NamedLines::new();
    let mut k: usize = 0;
    while k < tags.len()
        invariant
            k <= tags@.len(),
            n@ == tags_map(tags@.take(k as int)),
        decreases tags@.len() - k,
    {
        let (line, ref tag) = tags[k];
        n.insert(tag.clone(), line);
        assert(tags@.take(k + 1).drop_last() =~= tags@.take(k as int));
        k = k + 1;
    }
    assert(tags@.take(tags@.len() as int) =~= tags@);
    n
}

/// Where an item of z-order `z` goes among items in increasing z-order: after
/// every item of lower or equal z-order.
pub open spec fn spec_partition_point<W>(items: Seq<GridItem<W>>, z: i32) -> int
    decreases items.len(),
{
    if items.len() == 0 {
        0
    } else if items.last().z_order <= z {
        items.len() as int
    } else {
        spec_partition_point(items.drop_last(), z)
    }
}

/// In items sorted by z-order, the items before the partition point have a
/// z-order at most `z`, the others a greater one.
pub proof fn lemma_partition_point<W>(items: Seq<GridItem<W>>, z: i32)
    requires
        sorted_by_z(items),
    ensures
        0 <= spec_partition_point(items, z) <= items.len(),
        forall|i: int| 0 <= i < spec_partition_point(items, z) ==> items[i].z_order <= z,
        forall|i: int| spec_partition_point(items, z) <= i < items.len() ==> items[i].z_order > z,
    decreases items.len(),
{
    if items.len() > 0 {
        if items.last().z_order > z {
            let d = items.drop_last();
            assert(sorted_by_z(d));
            lemma_partition_point(d, z);
            assert forall|i: int| 0 <= i < spec_partition_point(items, z) implies items[i].z_order <= z by {
                assert(items[i] == d[i]);
            }
            assert forall|i: int| spec_partition_point(items, z) <= i < items.len() implies items[i].z_order > z by {
                if i < items.len() - 1 {
                    assert(items[i] == d[i]);
                }
            }
        } else {
            assert forall|i: int| 0 <= i < spec_partition_point(items, z) implies items[i].z_order <= z by {
                assert(items[i].z_order <= items[items.len() - 1].z_order);
            }
        }
    }
}

/// Inserting an item at the partition point of its z-order keeps the items sorted.
pub proof fn law_insert_keeps_z_order<W>(items: Seq<GridItem<W>>, item: GridItem<W>)
    requires
        sorted_by_z(items),
    ensures
        sorted_by_z(items.insert(spec_partition_point(items, item.z_order), item)),
{
    lemma_partition_point(items, item.z_order);
    let p = spec_partition_point(items, item.z_order);
    let s2 = items.insert(p, item);
    assert forall|i: int, j: int| 0 <= i <= j < s2.len() implies s2[i].z_order <= s2[j].z_order by {
        if i < p && j > p {
            assert(s2[i] == items[i]);
            assert(s2[j] == items[j - 1]);
        } else if i < p && j == p {
            assert(s2[i] == items[i]);
        } else if i == p && j > p {
            assert(s2[j] == items[j - 1]);
        } else if i > p {
            assert(s2[i] == items[i - 1]);
            assert(s2[j] == items[j - 1]);
        } else if j < p {
            assert(s2[i] == items[i]);
            assert(s2[j] == items[j]);
        }
    }
}

/// The tracks needed past `count` for a range ending at `end`.
pub open spec fn extra_tracks(end: usize, count: int) -> int {
    if end > count {
        end - count
    } else {
        0
    }
}

/// Whether a placement is on a grid line rather than in cells.
pub open spec fn is_grid_line(row_range: Range<usize>, column_range: Range<usize>) -> bool {
    row_range.start >= row_range.end || column_range.start >= column_range.end
}

/// `after` is `before` with an item placed on the given rows and columns: the
/// implicit rows and columns that the item needs were added (for an item on a
/// grid line, the last line counts), and the item was inserted after the items
/// of lower or equal z-order.
pub open spec fn placed_as<T: Copy, W>(
    before: Grid<T, W>,
    after: Grid<T, W>,
    row_range: Range<usize>,
    column_range: Range<usize>,
    z_order: i32,
    widget: W,
) -> bool {
    let line = if is_grid_line(row_range, column_range) { 1int } else { 0int };
    &&& after.wf()
    &&& after.rows() == before.rows() + Seq::new(
        extra_tracks(row_range.end, before.rows().len() + line) as nat,
        |_i: int| before.implicit_row(),
    )
    &&& after.columns() == before.columns() + Seq::new(
        extra_tracks(column_range.end, before.columns().len() + line) as nat,
        |_i: int| before.implicit_column(),
    )
    &&& after.grid_items() == before.grid_items().insert(
        spec_partition_point(before.grid_items(), z_order),
        GridItem { row_range, column_range, z_order, widget },
    )
    &&& after.implicit_row() == before.implicit_row()
    &&& after.implicit_column() == before.implicit_column()
    &&& after.row_names() == before.row_names()
    &&& after.column_names() == before.column_names()
    &&& after.flow() == before.flow()
    &&& after.flow_position() == before.flow_position()
}

impl<T: Copy, W> Grid<T, W> {
    /// Where an item of z-order `z_order` goes among the items.
    fn partition_point(&self, z_order: i32) -> (pos: usize)
        ensures
            pos == spec_partition_point(self.items@, z_order),
    {
        let mut pos = self.items.len();
        assert(self.items@.take(pos as int) =~= self.items@);
        while pos > 0 && self.items[pos - 1].z_order > z_order
            invariant
                pos <= self.items@.len(),
                spec_partition_point(self.items@, z_order) == spec_partition_point(self.items@.take(pos as int), z_order),
            decreases pos,
        {
            assert(self.items@.take(pos as int).drop_last() =~= self.items@.take(pos - 1));
            pos = pos - 1;
        }
        proof {
            if pos == 0 {
                assert(self.items@.take(0) =~= Seq::<GridItem<W>>::empty());
            }
        }
        pos
    }

    /// Places an item on the given rows and columns: adds the implicit rows
    /// and columns that the item needs (for an item on a grid line, the last
    /// line counts), and inserts it after the items of lower or equal z-order.
    pub fn place_inner(&mut self, row_range: Range<usize>, column_range: Range<usize>, z_order: i32, widget: W)
        requires
            old(self).wf(),
            old(self).rows().len() < usize::MAX,
            old(self).columns().len() < usize::MAX,
        ensures
            placed_as(*old(self), *final(self), row_range, column_range, z_order, widget),
    {
        let is_grid_line = row_range.start >= row_range.end || column_range.start >= column_range.end;

        // add rows/columns as required
        let num_rows;
        let num_columns;
        if is_grid_line {
            // N+1 grid lines
            num_rows = self.row_definitions.len() + 1;
            num_columns = self.column_definitions.len() + 1;
        } else {
            // N cells
            num_rows = self.row_definitions.len();
            num_columns = self.column_definitions.len();
        }
        let extra_rows = row_range.end.saturating_sub(num_rows);
        let extra_columns = column_range.end.saturating_sub(num_columns);

        let ghost rows0 = self.row_definitions@;
        let mut k: usize = 0;
        assert(rows0 + Seq::new(0nat, |_i: int| self.implicit_row_size) =~= rows0);
        while k < extra_rows
            invariant
                k <= extra_rows,
                self.items@ == old(self).items@,
                self.column_definitions@ == old(self).column_definitions@,
                self.named_row_lines@ == old(self).named_row_lines@,
                self.named_column_lines@ == old(self).named_column_lines@,
                self.implicit_column_size == old(self).implicit_column_size,
                self.auto_flow_dir == old(self).auto_flow_dir,
                self.auto_flow_row == old(self).auto_flow_row,
                self.auto_flow_col == old(self).auto_flow_col,
                self.row_definitions@ == rows0 + Seq::new(k as nat, |_i: int| self.implicit_row_size),
                self.implicit_row_size == old(self).implicit_row_size,
            decreases extra_rows - k,
        {
            let r = self.implicit_row_size;
            self.row_definitions.push(r);
            assert(self.row_definitions@ =~= rows0 + Seq::new((k + 1) as nat, |_i: int| self.implicit_row_size));
            k = k + 1;
        }
        let ghost columns0 = self.column_definitions@;
        let mut k: usize = 0;
        assert(columns0 + Seq::new(0nat, |_i: int| self.implicit_column_size) =~= columns0);
        while k < extra_columns
            invariant
                k <= extra_columns,
                self.items@ == old(self).items@,
                self.row_definitions@ == rows0 + Seq::new(extra_rows as nat, |_i: int| old(self).implicit_row_size),
                self.named_row_lines@ == old(self).named_row_lines@,
                self.named_column_lines@ == old(self).named_column_lines@,
                self.implicit_row_size == old(self).implicit_row_size,
                self.auto_flow_dir == old(self).auto_flow_dir,
                self.auto_flow_row == old(self).auto_flow_row,
                self.auto_flow_col == old(self).auto_flow_col,
                self.column_definitions@ == columns0 + Seq::new(k as nat, |_i: int| self.implicit_column_size),
                self.implicit_column_size == old(self).implicit_column_size,
            decreases extra_columns - k,
        {
            let c = self.implicit_column_size;
            self.column_definitions.push(c);
            assert(self.column_definitions@ =~= columns0 + Seq::new((k + 1) as nat, |_i: int| self.implicit_column_size));
            k = k + 1;
        }

        let pos = self.partition_point(z_order);
        proof {
            lemma_partition_point(self.items@, z_order);
            law_insert_keeps_z_order(self.items@, GridItem { row_range, column_range, z_order, widget });
        }
        self.items.insert(pos, GridItem { row_range, column_range, z_order, widget });
    }
}

/// When an area can be resolved against a grid with `rows` rows and
/// `columns` columns (each range counts the lines: one more than the tracks).
pub open spec fn area_defined(area: Area, row_names: Map<Seq<char>, usize>, column_names: Map<Seq<char>, usize>, rows: int, columns: int) -> bool {
    &&& rows + 1 <= usize::MAX
    &&& columns + 1 <= usize::MAX
    &&& resolve_defined(area.row, row_names, (rows + 1) as usize)
    &&& resolve_defined(area.column, column_names, (columns + 1) as usize)
}

/// The area resolved against a grid.
pub open spec fn spec_area_resolve(area: Area, row_names: Map<Seq<char>, usize>, column_names: Map<Seq<char>, usize>, rows: int, columns: int) -> DefiniteArea {
    let (row, row_span) = spec_resolve(area.row, row_names, (rows + 1) as usize);
    let (column, column_span) = spec_resolve(area.column, column_names, (columns + 1) as usize);
    DefiniteArea { row, column, row_span, column_span }
}

impl Area {
    /// The automatic area.
    pub fn default() -> (a: Area)
        ensures
            a.row.start is Auto && a.row.end is Auto,
            a.column.start is Auto && a.column.end is Auto,
    {
        Area { row: LineRange::default(), column: LineRange::default() }
    }

    /// Resolves the area against the lines of `grid`.
    pub fn resolve<T: Copy, W>(&self, grid: &Grid<T, W>) -> (d: DefiniteArea)
        requires
            area_defined(*self, grid.row_names(), grid.column_names(), grid.rows().len() as int, grid.columns().len() as int),
        ensures
            d == spec_area_resolve(*self, grid.row_names(), grid.column_names(), grid.rows().len() as int, grid.columns().len() as int),
    {
        let (row, row_span) = self.row.resolve(&grid.named_row_lines, grid.row_count() + 1);
        let (column, column_span) = self.column.resolve(&grid.named_column_lines, grid.column_count() + 1);
        DefiniteArea { row, column, row_span, column_span }
    }
}

/// Cursor of the auto-flow: where the next item without a definite position
/// goes. Rows and columns are those of the flow direction: for a grid filled
/// column by column, a "row" of the cursor is a column of the grid.
#[derive(Copy, Clone, Debug, PartialEq, Eq, Structural)]
pub struct FlowCursor {
    pub row: usize,
    pub column: usize,
    pub row_len: usize,
    pub flow: FlowDirection,
}

/// The cursor moved to `column`: forward in the current row, or to the next
/// row when the column was passed already.
pub open spec fn spec_align(c: FlowCursor, column: usize) -> FlowCursor {
    if c.column < column {
        FlowCursor { column, ..c }
    } else if c.column > column {
        FlowCursor { row: (c.row + 1) as usize, column, ..c }
    } else {
        c
    }
}

/// The cursor after an item spanning `row_span` rows and `column_span`
/// columns was placed at it: on the same row, or at the start of the next
/// rows when the row is full.
pub open spec fn spec_next(c: FlowCursor, row_span: usize, column_span: usize) -> FlowCursor {
    if c.column + column_span >= c.row_len {
        FlowCursor { row: (c.row + row_span) as usize, column: 0, ..c }
    } else {
        FlowCursor { column: (c.column + column_span) as usize, ..c }
    }
}

/// When `next` stays within `usize`.
pub open spec fn next_defined(c: FlowCursor, row_span: usize, column_span: usize) -> bool {
    &&& c.column + column_span <= usize::MAX
    &&& c.column + column_span >= c.row_len ==> c.row + row_span <= usize::MAX
}

/// The definite area in the cursor's own orientation.
pub open spec fn oriented(c: FlowCursor, d: DefiniteArea) -> DefiniteArea {
    if c.flow == FlowDirection::Column {
        DefiniteArea { row: d.column, column: d.row, row_span: d.column_span, column_span: d.row_span }
    } else {
        d
    }
}

/// Where an item with the definite area `d` goes, in the cursor's
/// orientation: `(row, row_span, column, column_span)`, and the cursor after it.
pub open spec fn spec_place_plan(c: FlowCursor, d: DefiniteArea) -> (FlowCursor, (usize, usize, usize, usize)) {
    let o = oriented(c, d);
    match (o.row, o.column) {
        (Some(row), Some(column)) => (c, (row, o.row_span, column, o.column_span)),
        // TODO packing
        (Some(row), None) => (c, (row, o.row_span, 0usize, o.column_span)),
        (None, col) => {
            let c1 = match col {
                Some(column) => spec_align(c, column),
                None => c,
            };
            (spec_next(c1, o.row_span, o.column_span), (c1.row, o.row_span, c1.column, o.column_span))
        },
    }
}

/// When placing an item with the definite area `d` stays within `usize`.
pub open spec fn place_defined(c: FlowCursor, d: DefiniteArea) -> bool {
    let o = oriented(c, d);
    let plan = spec_place_plan(c, d).1;
    &&& plan.0 + plan.1 <= usize::MAX
    &&& plan.2 + plan.3 <= usize::MAX
    &&& (o.row is None ==> {
        let c1 = match o.column {
            Some(column) => spec_align(c, column),
            None => c,
        };
        &&& (o.column matches Some(column) && c.column > column ==> c.row + 1 <= usize::MAX)
        &&& next_defined(c1, o.row_span, o.column_span)
    })
}

/// The grid ranges of an item at `(row, row_span, column, column_span)` in the
/// cursor's orientation.
pub open spec fn grid_ranges(flow: FlowDirection, at: (usize, usize, usize, usize)) -> (Range<usize>, Range<usize>) {
    let (row, row_span, column, column_span) = at;
    let rows = Range { start: row, end: (row + row_span) as usize };
    let columns = Range { start: column, end: (column + column_span) as usize };
    if flow == FlowDirection::Row {
        (rows, columns)
    } else {
        (columns, rows)
    }
}

impl FlowCursor {
    /// Moves the cursor to `column`.
    pub fn align(&mut self, column: usize)
        requires
            old(self).column > column ==> old(self).row + 1 <= usize::MAX,
        ensures
            *final(self) == spec_align(*old(self), column),
    {
        if self.column < column {
            self.column = column;
        } else if self.column > column {
            self.row = self.row + 1;
            self.column = column;
        }
    }

    /// Returns the current position, and moves past an item spanning
    /// `row_span` rows and `column_span` columns.
    pub fn next(&mut self, row_span: usize, column_span: usize) -> (r: (usize, usize))
        requires
            next_defined(*old(self), row_span, column_span),
        ensures
            r == (old(self).row, old(self).column),
            *final(self) == spec_next(*old(self), row_span, column_span),
    {
        let (row, column) = (self.row, self.column);
        self.column = self.column + column_span;
        if self.column >= self.row_len {
            self.row = self.row + row_span;
            self.column = 0;
        }
        (row, column)
    }

    /// Places an item at `(row, row_span, column, column_span)` in the
    /// cursor's orientation.
    pub fn place_helper<T: Copy, W>(
        &self,
        grid: &mut Grid<T, W>,
        row: usize,
        row_span: usize,
        column: usize,
        column_span: usize,
        z_order: i32,
        widget: W,
    )
        requires
            old(grid).wf(),
            old(grid).rows().len() < usize::MAX,
            old(grid).columns().len() < usize::MAX,
            row + row_span <= usize::MAX,
            column + column_span <= usize::MAX,
        ensures
            ({
                let (rows, columns) = grid_ranges(self.flow, (row, row_span, column, column_span));
                placed_as(*old(grid), *final(grid), rows, columns, z_order, widget)
            }),
    {
        match self.flow {
            FlowDirection::Row => grid.place_inner(
                Range { start: row, end: row + row_span },
                Range { start: column, end: column + column_span },
                z_order,
                widget,
            ),
            FlowDirection::Column => grid.place_inner(
                Range { start: column, end: column + column_span },
                Range { start: row, end: row + row_span },
                z_order,
                widget,
            ),
        }
    }

    /// Places an item in the area `at`: at its definite position, or by the
    /// auto-flow where the area leaves the position open.
    pub fn place<T: Copy, W>(&mut self, grid: &mut Grid<T, W>, at: &Area, z_order: i32, widget: W)
        requires
            old(grid).wf(),
            old(grid).rows().len() < usize::MAX,
            old(grid).columns().len() < usize::MAX,
            area_defined(*at, old(grid).row_names(), old(grid).column_names(), old(grid).rows().len() as int, old(grid).columns().len() as int),
            place_defined(*old(self), spec_area_resolve(*at, old(grid).row_names(), old(grid).column_names(), old(grid).rows().len() as int, old(grid).columns().len() as int)),
        ensures
            ({
                let d = spec_area_resolve(*at, old(grid).row_names(), old(grid).column_names(), old(grid).rows().len() as int, old(grid).columns().len() as int);
                let plan = spec_place_plan(*old(self), d);
                let (rows, columns) = grid_ranges(old(self).flow, plan.1);
                &&& *final(self) == plan.0
                &&& placed_as(*old(grid), *final(grid), rows, columns, z_order, widget)
            }),
    {
        let area = at.resolve(grid);

        let mut row = area.row;
        let mut column = area.column;
        let mut row_span = area.row_span;
        let mut column_span = area.column_span;

        if let FlowDirection::Column = self.flow {
            let r = row;
            row = column;
            column = r;
            let rs = row_span;
            row_span = column_span;
            column_span = rs;
        }

        match (row, column) {
            (Some(row), Some(column)) => {
                self.place_helper(grid, row, row_span, column, column_span, z_order, widget);
            },
            (Some(row), None) => {
                // TODO packing
                self.place_helper(grid, row, row_span, 0, column_span, z_order, widget);
            },
            (None, col) => {
                if let Some(column) = col {
                    self.align(column);
                }
                let (row, column) = self.next(row_span, column_span);
                self.place_helper(grid, row, row_span, column, column_span, z_order, widget);
            },
        }
    }
}

impl<T: Copy, W> Grid<T, W> {
    /// The cursor where the auto-flow goes on, for inserting items.
    pub fn flow_cursor(&self) -> (c: FlowCursor)
        ensures
            c.flow == self.flow(),
            c.row_len == (if self.flow() == FlowDirection::Row {
                self.columns().len()
            } else {
                self.rows().len()
            }),
            self.flow() == FlowDirection::Row ==> (c.row, c.column) == self.flow_position(),
            self.flow() == FlowDirection::Column ==> (c.column, c.row) == self.flow_position(),
    {
        let row_len = match self.auto_flow_dir {
            FlowDirection::Row => self.column_count(),
            FlowDirection::Column => self.row_count(),
        };
        match self.auto_flow_dir {
            FlowDirection::Row => FlowCursor { row: self.auto_flow_row, column: self.auto_flow_col, row_len, flow: self.auto_flow_dir },
            FlowDirection::Column => FlowCursor { row: self.auto_flow_col, column: self.auto_flow_row, row_len, flow: self.auto_flow_dir },
        }
    }

    /// Records where the auto-flow goes on after items were inserted with `cursor`.
    pub fn end_flow(&mut self, cursor: FlowCursor)
        requires
            old(self).wf(),
        ensures
            final(self).wf(),
            cursor.flow == FlowDirection::Row ==> final(self).flow_position() == (cursor.row, cursor.column),
            cursor.flow == FlowDirection::Column ==> final(self).flow_position() == (cursor.column, cursor.row),
            final(self).rows() == old(self).rows(),
            final(self).columns() == old(self).columns(),
            final(self).grid_items() == old(self).grid_items(),
            final(self).flow() == old(self).flow(),
    {
        match cursor.flow {
            FlowDirection::Row => {
                self.auto_flow_row = cursor.row;
                self.auto_flow_col = cursor.column;
            },
            FlowDirection::Column => {
                self.auto_flow_row = cursor.column;
                self.auto_flow_col = cursor.row;
            },
        }
    }
}

/// An item whose area gives both a row and a column is placed on exactly
/// those rows and columns of the grid, whatever the direction of the
/// auto-flow, and the cursor does not move.
pub proof fn law_definite_area_placed_as_given(c: FlowCursor, d: DefiniteArea, row: usize, column: usize)
    requires
        d.row == Some(row),
        d.column == Some(column),
        place_defined(c, d),
    ensures
        ({
            let (rows, columns) = grid_ranges(c.flow, spec_place_plan(c, d).1);
            &&& rows.start == row && rows.end == row + d.row_span
            &&& columns.start == column && columns.end == column + d.column_span
            &&& spec_place_plan(c, d).0 == c
        }),
{
}

/// With the auto-flow going along rows, an item whose area gives a column but
/// no row is placed in that column: on the cursor's row if the cursor has not
/// passed the column, or else on the next row. The cursor then stands after
/// the item, or at the start of the rows below it when the row is full.
pub proof fn law_row_flow_keeps_given_column(c: FlowCursor, d: DefiniteArea, column: usize)
    requires
        c.flow == FlowDirection::Row,
        d.row is None,
        d.column == Some(column),
        place_defined(c, d),
    ensures
        ({
            let (rows, columns) = grid_ranges(c.flow, spec_place_plan(c, d).1);
            let row = if c.column <= column { c.row } else { (c.row + 1) as usize };
            let n = spec_place_plan(c, d).0;
            &&& columns.start == column && columns.end == column + d.column_span
            &&& rows.start == row && rows.end == row + d.row_span
            &&& n.flow == c.flow && n.row_len == c.row_len
            &&& column + d.column_span >= c.row_len ==> n.row == row + d.row_span && n.column == 0
            &&& column + d.column_span < c.row_len ==> n.row == row && n.column == column
                + d.column_span
        }),
{
}

/// With the auto-flow going along columns, an item whose area gives a row but
/// no column is placed in that row: in the cursor's column if the cursor has
/// not passed the row, or else in the next column. The cursor then stands
/// below the item, or at the top of the columns to its right when the column
/// is full.
pub proof fn law_column_flow_keeps_given_row(c: FlowCursor, d: DefiniteArea, row: usize)
    requires
        c.flow == FlowDirection::Column,
        d.column is None,
        d.row == Some(row),
        place_defined(c, d),
    ensures
        ({
            let (rows, columns) = grid_ranges(c.flow, spec_place_plan(c, d).1);
            let column = if c.column <= row { c.row } else { (c.row + 1) as usize };
            let n = spec_place_plan(c, d).0;
            &&& rows.start == row && rows.end == row + d.row_span
            &&& columns.start == column && columns.end == column + d.column_span
            &&& n.flow == c.flow && n.row_len == c.row_len
            &&& row + d.row_span >= c.row_len ==> n.row == column + d.column_span && n.column == 0
            &&& row + d.row_span < c.row_len ==> n.row == column && n.column == row + d.row_span
        }),
{
}

/// With the auto-flow going along rows, an item whose area gives a row but
/// no column is placed at the start of that row, and the cursor does not
/// move; along columns, likewise at the start of the given column.
pub proof fn law_given_line_without_cross_position(c: FlowCursor, d: DefiniteArea)
    requires
        place_defined(c, d),
    ensures
        ({
            let (rows, columns) = grid_ranges(c.flow, spec_place_plan(c, d).1);
            &&& c.flow == FlowDirection::Row ==> (d.row matches Some(row) ==> (d.column is None
                ==> rows.start == row && rows.end == row + d.row_span && columns.start == 0
                && columns.end == d.column_span && spec_place_plan(c, d).0 == c))
            &&& c.flow == FlowDirection::Column ==> (d.column matches Some(column) ==> (d.row is None
                ==> columns.start == column && columns.end == column + d.column_span && rows.start
                == 0 && rows.end == d.row_span && spec_place_plan(c, d).0 == c))
        }),
{
}

/// An item whose area gives neither row nor column is placed at the cursor,
/// and the cursor moves past it along the flow, or to the start of the next
/// line of the flow when the line is full.
pub proof fn law_auto_area_placed_at_cursor(c: FlowCursor, d: DefiniteArea)
    requires
        d.row is None,
        d.column is None,
        place_defined(c, d),
    ensures
        ({
            let (rows, columns) = grid_ranges(c.flow, spec_place_plan(c, d).1);
            &&& c.flow == FlowDirection::Row ==> rows.start == c.row && columns.start == c.column
                && rows.end == c.row + d.row_span && columns.end == c.column + d.column_span
            &&& c.flow == FlowDirection::Column ==> columns.start == c.row && rows.start == c.column
                && columns.end == c.row + d.column_span && rows.end == c.column + d.row_span
            &&& ({
                let n = spec_place_plan(c, d).0;
                let (along, across) = if c.flow == FlowDirection::Row {
                    (d.column_span, d.row_span)
                } else {
                    (d.row_span, d.column_span)
                };
                &&& c.column + along >= c.row_len ==> n.row == c.row + across && n.column == 0
                &&& c.column + along < c.row_len ==> n.row == c.row && n.column == c.column + along
                &&& n.flow == c.flow && n.row_len == c.row_len
            })
        }),
{
}

/// The auto-flow never goes back: placing an item of at least one row and one
/// column moves the cursor strictly forward in reading order.
pub proof fn law_flow_moves_forward(c: FlowCursor, row_span: usize, column_span: usize)
    requires
        row_span >= 1,
        column_span >= 1,
        next_defined(c, row_span, column_span),
    ensures
        ({
            let n = spec_next(c, row_span, column_span);
            n.row > c.row || (n.row == c.row && n.column > c.column)
        }),
{
}

/// Aligning the cursor never moves it back in reading order.
pub proof fn law_align_moves_forward(c: FlowCursor, column: usize)
    requires
        c.column > column ==> c.row + 1 <= usize::MAX,
    ensures
        ({
            let n = spec_align(c, column);
            &&& n.column == column
            &&& (n.row > c.row || (n.row == c.row && n.column >= c.column))
        }),
{
}

} // verus!
